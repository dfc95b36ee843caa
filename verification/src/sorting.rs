//! A stable insertion sort for lists that the UI shows in a fixed order,
//! with the facts that make its result trustworthy: it is ordered and it
//! is a rearrangement of its input.

use vstd::prelude::*;

verus! {

broadcast use vstd::seq_lib::to_multiset_build;

/// An order in which items are listed: `a.ranks_before_eq(b)` means `a`
/// may be listed before `b`. It is a total preorder.
pub trait Ranked: Sized {
    spec fn ranks_before_eq(&self, other: &Self) -> bool;

    fn ranks_before_eq_exec(&self, other: &Self) -> (b: bool)
        ensures
            b == self.ranks_before_eq(other),
    ;

    proof fn lemma_ranks_total(a: &Self, b: &Self)
        ensures
            a.ranks_before_eq(b) || b.ranks_before_eq(a),
    ;

    proof fn lemma_ranks_transitive(a: &Self, b: &Self, c: &Self)
        requires
            a.ranks_before_eq(b),
            b.ranks_before_eq(c),
        ensures
            a.ranks_before_eq(c),
    ;
}

/// `x` inserted into `s` after every element that may precede it, scanning
/// from the end: equal items keep their arrival order.
pub open spec fn insert_sorted<T: Ranked>(s: Seq<T>, x: T) -> Seq<T>
    decreases s.len(),
{
    if s.len() == 0 {
        seq![x]
    } else if s.last().ranks_before_eq(&x) {
        s.push(x)
    } else {
        insert_sorted(s.drop_last(), x).push(s.last())
    }
}

/// The stable sort of `s`: its items inserted one after the other.
pub open spec fn stable_sorted<T: Ranked>(s: Seq<T>) -> Seq<T>
    decreases s.len(),
{
    if s.len() == 0 {
        s
    } else {
        insert_sorted(stable_sorted(s.drop_last()), s.last())
    }
}

/// Every item may be listed before every later one.
pub open spec fn is_ranked<T: Ranked>(s: Seq<T>) -> bool {
    forall|i: int, j: int| #![trigger s[i], s[j]] 0 <= i < j < s.len() ==> s[i].ranks_before_eq(&s[j])
}

/// Inserting at position `p` found by scanning back from the end.
proof fn lemma_insert_at<T: Ranked>(s: Seq<T>, x: T, p: int)
    requires
        0 <= p <= s.len(),
        p == 0 || s[p - 1].ranks_before_eq(&x),
        forall|k: int| p <= k < s.len() ==> !(#[trigger] s[k]).ranks_before_eq(&x),
    ensures
        insert_sorted(s, x) == s.take(p).push(x) + s.skip(p),
    decreases s.len(),
{
    if s.len() == 0 {
        assert(s.take(p).push(x) + s.skip(p) =~= seq![x]);
    } else if p == s.len() {
        assert(s.take(p) =~= s);
        assert(s.skip(p) =~= Seq::<T>::empty());
        assert(s.take(p).push(x) + s.skip(p) =~= s.push(x));
    } else {
        let t = s.drop_last();
        assert(!s.last().ranks_before_eq(&x));
        assert forall|k: int| p <= k < t.len() implies !(#[trigger] t[k]).ranks_before_eq(&x) by {
            assert(t[k] == s[k]);
        }
        if p > 0 {
            assert(t[p - 1] == s[p - 1]);
        }
        lemma_insert_at(t, x, p);
        assert(t.take(p) =~= s.take(p));
        assert(t.skip(p).push(s.last()) =~= s.skip(p));
        assert(insert_sorted(s, x) == insert_sorted(t, x).push(s.last()));
        assert((t.take(p).push(x) + t.skip(p)).push(s.last()) =~= s.take(p).push(x) + s.skip(p));
    }
}

proof fn lemma_insert_all<T: Ranked>(s: Seq<T>, x: T, pred: spec_fn(T) -> bool)
    requires
        forall|k: int| 0 <= k < s.len() ==> pred(#[trigger] s[k]),
        pred(x),
    ensures
        forall|k: int| 0 <= k < insert_sorted(s, x).len() ==> pred(#[trigger] insert_sorted(s, x)[k]),
        insert_sorted(s, x).len() == s.len() + 1,
    decreases s.len(),
{
    if s.len() > 0 && !s.last().ranks_before_eq(&x) {
        let t = s.drop_last();
        lemma_insert_all(t, x, pred);
    }
}

proof fn lemma_insert_multiset<T: Ranked>(s: Seq<T>, x: T)
    ensures
        insert_sorted(s, x).to_multiset() =~= s.to_multiset().insert(x),
    decreases s.len(),
{
    if s.len() == 0 {
        assert(s =~= Seq::<T>::empty());
        assert(seq![x] =~= s.push(x));
    } else if !s.last().ranks_before_eq(&x) {
        let t = s.drop_last();
        lemma_insert_multiset(t, x);
        assert(t.push(s.last()) =~= s);
    }
}

proof fn lemma_insert_ranked<T: Ranked>(s: Seq<T>, x: T)
    requires
        is_ranked(s),
    ensures
        is_ranked(insert_sorted(s, x)),
    decreases s.len(),
{
    if s.len() == 0 {
    } else if s.last().ranks_before_eq(&x) {
        let r = s.push(x);
        assert forall|i: int, j: int| 0 <= i < j < r.len() implies r[i].ranks_before_eq(&r[j]) by {
            if j == s.len() {
                if i < s.len() - 1 {
                    T::lemma_ranks_transitive(&s[i], &s.last(), &x);
                }
            } else {
                assert(r[i] == s[i] && r[j] == s[j]);
            }
        }
    } else {
        let t = s.drop_last();
        let last = s.last();
        assert(is_ranked(t)) by {
            assert forall|i: int, j: int| 0 <= i < j < t.len() implies t[i].ranks_before_eq(&t[j]) by {
                assert(t[i] == s[i] && t[j] == s[j]);
            }
        }
        lemma_insert_ranked(t, x);
        T::lemma_ranks_total(&last, &x);
        let pred = |y: T| y.ranks_before_eq(&last);
        assert forall|k: int| 0 <= k < t.len() implies pred(#[trigger] t[k]) by {
            assert(t[k] == s[k]);
        }
        lemma_insert_all(t, x, pred);
        let u = insert_sorted(t, x);
        let r = u.push(last);
        assert forall|i: int, j: int| 0 <= i < j < r.len() implies r[i].ranks_before_eq(&r[j]) by {
            if j == u.len() {
                assert(pred(u[i]));
            } else {
                assert(r[i] == u[i] && r[j] == u[j]);
            }
        }
    }
}

/// The stable sort lists its items in rank order, and it is a
/// rearrangement of its input: every item occurs as often as before.
pub proof fn law_stable_sorted_ranked_permutation<T: Ranked>(s: Seq<T>)
    ensures
        is_ranked(stable_sorted(s)),
        stable_sorted(s).to_multiset() =~= s.to_multiset(),
        stable_sorted(s).len() == s.len(),
    decreases s.len(),
{
    if s.len() > 0 {
        let t = s.drop_last();
        law_stable_sorted_ranked_permutation(t);
        lemma_insert_ranked(stable_sorted(t), s.last());
        lemma_insert_multiset(stable_sorted(t), s.last());
        lemma_insert_all(stable_sorted(t), s.last(), |y: T| true);
        assert(t.push(s.last()) =~= s);
    }
}

/// A list already in rank order is left exactly as it is, so sorting twice
/// gives what sorting once gave.
pub proof fn law_stable_sorted_keeps_ranked<T: Ranked>(s: Seq<T>)
    requires
        is_ranked(s),
    ensures
        stable_sorted(s) == s,
    decreases s.len(),
{
    if s.len() > 0 {
        let t = s.drop_last();
        assert(is_ranked(t)) by {
            assert forall|i: int, j: int| 0 <= i < j < t.len() implies t[i].ranks_before_eq(&t[j]) by {
                assert(t[i] == s[i] && t[j] == s[j]);
            }
        }
        law_stable_sorted_keeps_ranked(t);
        if t.len() > 0 {
            assert(t.last() == s[s.len() - 2]);
            assert(s[s.len() - 2].ranks_before_eq(&s[s.len() - 1]));
        } else {
            assert(t.push(s.last()) =~= seq![s.last()]);
        }
        assert(t.push(s.last()) =~= s);
    }
}

/// Sorting is idempotent.
pub proof fn law_stable_sort_idempotent<T: Ranked>(s: Seq<T>)
    ensures
        stable_sorted(stable_sorted(s)) == stable_sorted(s),
{
    law_stable_sorted_ranked_permutation(s);
    law_stable_sorted_keeps_ranked(stable_sorted(s));
}

/// Every item of the sorted list has a property that every input item has.
pub proof fn lemma_stable_sorted_all<T: Ranked>(s: Seq<T>, pred: spec_fn(T) -> bool)
    requires
        forall|k: int| 0 <= k < s.len() ==> pred(#[trigger] s[k]),
    ensures
        forall|k: int| 0 <= k < stable_sorted(s).len() ==> pred(#[trigger] stable_sorted(s)[k]),
    decreases s.len(),
{
    if s.len() > 0 {
        let t = s.drop_last();
        assert forall|k: int| 0 <= k < t.len() implies pred(#[trigger] t[k]) by {
            assert(t[k] == s[k]);
        }
        lemma_stable_sorted_all(t, pred);
        assert(pred(s[s.len() - 1]));
        lemma_insert_all(stable_sorted(t), s.last(), pred);
    }
}

/// Any two items at different places stand in the relation `apart`.
pub open spec fn pairwise_apart<T>(s: Seq<T>, apart: spec_fn(T, T) -> bool) -> bool {
    forall|i: int, j: int| #![trigger s[i], s[j]] 0 <= i < j < s.len() ==> apart(s[i], s[j])
}

proof fn lemma_insert_pairwise<T: Ranked>(s: Seq<T>, x: T, apart: spec_fn(T, T) -> bool)
    requires
        forall|a: T, b: T| #[trigger] apart(a, b) ==> apart(b, a),
        pairwise_apart(s, apart),
        forall|k: int| 0 <= k < s.len() ==> apart(#[trigger] s[k], x),
    ensures
        pairwise_apart(insert_sorted(s, x), apart),
    decreases s.len(),
{
    if s.len() == 0 {
    } else if s.last().ranks_before_eq(&x) {
        let r = s.push(x);
        assert forall|i: int, j: int| 0 <= i < j < r.len() implies apart(r[i], r[j]) by {
            if j == s.len() {
                assert(r[i] == s[i]);
            } else {
                assert(r[i] == s[i] && r[j] == s[j]);
            }
        }
    } else {
        let t = s.drop_last();
        let last = s.last();
        assert forall|i: int, j: int| 0 <= i < j < t.len() implies apart(t[i], t[j]) by {
            assert(t[i] == s[i] && t[j] == s[j]);
        }
        assert forall|k: int| 0 <= k < t.len() implies apart(#[trigger] t[k], x) by {
            assert(t[k] == s[k]);
        }
        lemma_insert_pairwise(t, x, apart);
        let pred = |y: T| apart(y, last);
        assert forall|k: int| 0 <= k < t.len() implies pred(#[trigger] t[k]) by {
            assert(t[k] == s[k]);
            assert(s[s.len() - 1] == last);
        }
        assert(apart(s[s.len() - 1], x));
        assert(apart(x, last));
        lemma_insert_all(t, x, pred);
        let u = insert_sorted(t, x);
        let r = u.push(last);
        assert forall|i: int, j: int| 0 <= i < j < r.len() implies apart(r[i], r[j]) by {
            if j == u.len() {
                assert(pred(u[i]));
            } else {
                assert(r[i] == u[i] && r[j] == u[j]);
            }
        }
    }
}

/// When any two input items stand in a symmetric relation, any two items of
/// the sorted list do too: sorting only rearranges.
pub proof fn lemma_stable_sorted_pairwise<T: Ranked>(s: Seq<T>, apart: spec_fn(T, T) -> bool)
    requires
        forall|a: T, b: T| #[trigger] apart(a, b) ==> apart(b, a),
        pairwise_apart(s, apart),
    ensures
        pairwise_apart(stable_sorted(s), apart),
    decreases s.len(),
{
    if s.len() > 0 {
        let t = s.drop_last();
        let x = s.last();
        assert forall|i: int, j: int| 0 <= i < j < t.len() implies apart(t[i], t[j]) by {
            assert(t[i] == s[i] && t[j] == s[j]);
        }
        lemma_stable_sorted_pairwise(t, apart);
        let pred = |y: T| apart(y, x);
        assert forall|k: int| 0 <= k < t.len() implies pred(#[trigger] t[k]) by {
            assert(t[k] == s[k]);
            assert(s[s.len() - 1] == x);
        }
        lemma_stable_sorted_all(t, pred);
        let st = stable_sorted(t);
        assert forall|k: int| 0 <= k < st.len() implies apart(#[trigger] st[k], x) by {
            assert(pred(st[k]));
        }
        lemma_insert_pairwise(st, x, apart);
    }
}

/// Sorts items by their rank, keeping items of equal rank in the order they
/// came in.
pub fn stable_sort<T: Ranked>(items: Vec<T>) -> (out: Vec<T>)
    ensures
        out@ == stable_sorted(items@),
{
    let ghost orig = items@;
    let mut rest = items;
    let mut out: Vec<T> = Vec::new();
    let ghost mut n: int = 0;
    while rest.len() > 0
        invariant
            0 <= n <= orig.len(),
            rest@ == orig.skip(n),
            out@ == stable_sorted(orig.take(n)),
        decreases rest@.len(),
    {
        let x = rest.remove(0);
        proof {
            assert(x == orig[n]);
            assert(orig.take(n + 1).drop_last() =~= orig.take(n));
            assert(orig.take(n + 1).last() == orig[n]);
        }
        let mut p: usize = out.len();
        while p > 0 && !out[p - 1].ranks_before_eq_exec(&x)
            invariant
                p <= out@.len(),
                forall|k: int| p <= k < out@.len() ==> !(#[trigger] out@[k]).ranks_before_eq(&x),
            decreases p,
        {
            p -= 1;
        }
        let ghost before = out@;
        proof {
            lemma_insert_at(before, x, p as int);
        }
        out.insert(p, x);
        proof {
            assert(out@ =~= before.take(p as int).push(x) + before.skip(p as int));
            n = n + 1;
            assert(rest@ =~= orig.skip(n));
        }
    }
    assert(orig.take(n) =~= orig);
    out
}

} // verus!
