//! Reading the RFCOMM channel of the earbuds' serial-port service out of
//! the text `sdptool records <address>` prints.
//!
//! The output is a sequence of blocks, one per service, each starting with
//! `Service RecHandle`; a block's channel is on a line `Channel: N`. A
//! block naming Xiaomi's vendor UUID is preferred; a block naming the plain
//! serial-port class id `0x1101` is the fallback.

use vstd::prelude::*;
use crate::text::{
    chars_of, contains_exec, contains_text, decimal, decimal_digit, is_whitespace, lowercase,
    lowercase_of_chars, matches_at, spaces, unicode_whitespace,
};
use crate::xiaomi_mma::XIAOMI_SPP_UUID;

verus! {

/// Position of the first occurrence of `sep` in `s` at or after `i`.
pub open spec fn find_from(s: Seq<char>, sep: Seq<char>, i: int) -> Option<int>
    decreases s.len() + 1 - i,
{
    if i < 0 || i + sep.len() > s.len() {
        None
    } else if s.subrange(i, i + sep.len()) == sep {
        Some(i)
    } else {
        find_from(s, sep, i + 1)
    }
}

/// A match found at or after `i` lies within `s`.
pub proof fn lemma_find_from_bounds(s: Seq<char>, sep: Seq<char>, i: int)
    ensures
        find_from(s, sep, i) matches Some(j) ==> i <= j && j + sep.len() <= s.len(),
    decreases s.len() + 1 - i,
{
    if !(i < 0 || i + sep.len() > s.len()) && s.subrange(i, i + sep.len()) != sep {
        lemma_find_from_bounds(s, sep, i + 1);
    }
}

/// The pieces of `s` from `start` on between occurrences of `sep`, as
/// `str::split` cuts them.
pub open spec fn split_from(s: Seq<char>, sep: Seq<char>, start: int) -> Seq<Seq<char>>
    decreases s.len() - start,
{
    if start < 0 || start > s.len() || sep.len() == 0 {
        seq![s.skip(start)]
    } else {
        match find_from(s, sep, start) {
            None => seq![s.skip(start)],
            Some(j) => {
                proof {
                    lemma_find_from_bounds(s, sep, start);
                }
                seq![s.subrange(start, j)] + split_from(s, sep, j + sep.len())
            },
        }
    }
}

/// The pieces of `s` between occurrences of a non-empty `sep`.
pub open spec fn split_text(s: Seq<char>, sep: Seq<char>) -> Seq<Seq<char>> {
    split_from(s, sep, 0)
}

/// The views of pieces of text.
pub open spec fn pieces_view(v: Seq<Vec<char>>) -> Seq<Seq<char>> {
    v.map_values(|p: Vec<char>| p@)
}

fn copy_range(v: &Vec<char>, lo: usize, hi: usize) -> (r: Vec<char>)
    requires
        lo <= hi <= v@.len(),
    ensures
        r@ == v@.subrange(lo as int, hi as int),
{
    let mut r: Vec<char> = Vec::new();
    let mut k: usize = lo;
    while k < hi
        invariant
            lo <= k <= hi,
            hi <= v@.len(),
            r@ == v@.subrange(lo as int, k as int),
        decreases hi - k,
    {
        r.push(v[k]);
        k += 1;
        assert(r@ =~= v@.subrange(lo as int, k as int));
    }
    r
}

/// Cuts `v` at every occurrence of the non-empty separator `sep`.
pub fn split_chars(v: &Vec<char>, sep: &str) -> (out: Vec<Vec<char>>)
    requires
        sep@.len() > 0,
    ensures
        pieces_view(out@) == split_text(v@, sep@),
{
    let n = sep.unicode_len();
    let len = v.len();
    let mut out: Vec<Vec<char>> = Vec::new();
    let mut start: usize = 0;
    let mut i: usize = 0;
    while i < len && n <= len - i
        invariant
            n == sep@.len(),
            n > 0,
            len == v@.len(),
            start <= i <= len,
            find_from(v@, sep@, start as int) == find_from(v@, sep@, i as int),
            pieces_view(out@) + split_from(v@, sep@, start as int) == split_text(v@, sep@),
        decreases len - i,
    {
        if matches_at(v, sep, i) {
            let piece = copy_range(v, start, i);
            let ghost before = out@;
            proof {
                assert(find_from(v@, sep@, i as int) == Some(i as int));
                assert(pieces_view(before.push(piece)) =~= pieces_view(before).push(piece@));
            }
            out.push(piece);
            start = i + n;
            i = start;
        } else {
            i += 1;
        }
    }
    proof {
        assert(find_from(v@, sep@, i as int) is None);
    }
    let last = copy_range(v, start, len);
    let ghost before = out@;
    out.push(last);
    proof {
        assert(v@.skip(start as int) =~= v@.subrange(start as int, len as int));
        assert(pieces_view(out@) =~= pieces_view(before).push(last@));
    }
    out
}

/// `s` without its leading whitespace.
pub open spec fn trim_start(s: Seq<char>) -> Seq<char>
    decreases s.len(),
{
    if s.len() > 0 && unicode_whitespace(s[0]) {
        trim_start(s.drop_first())
    } else {
        s
    }
}

/// `s` without its trailing whitespace.
pub open spec fn trim_end(s: Seq<char>) -> Seq<char>
    decreases s.len(),
{
    if s.len() > 0 && unicode_whitespace(s.last()) {
        trim_end(s.drop_last())
    } else {
        s
    }
}

/// `s` without leading and trailing whitespace, as `str::trim` gives it.
pub open spec fn trim(s: Seq<char>) -> Seq<char> {
    trim_end(trim_start(s))
}

/// The part of `v@[lo..hi]` that remains once whitespace is trimmed off
/// both ends.
pub fn trim_chars(v: &Vec<char>, lo: usize, hi: usize) -> (r: Vec<char>)
    requires
        lo <= hi <= v@.len(),
    ensures
        r@ == trim(v@.subrange(lo as int, hi as int)),
{
    let ghost s = v@.subrange(lo as int, hi as int);
    let mut a: usize = lo;
    while a < hi && is_whitespace(v[a])
        invariant
            lo <= a <= hi,
            hi <= v@.len(),
            trim_start(s) == trim_start(v@.subrange(a as int, hi as int)),
        decreases hi - a,
    {
        assert(v@.subrange(a as int, hi as int).drop_first() =~= v@.subrange(a + 1, hi as int));
        a += 1;
    }
    assert(trim_start(s) == v@.subrange(a as int, hi as int));
    let mut b: usize = hi;
    while b > a && is_whitespace(v[b - 1])
        invariant
            a <= b <= hi,
            hi <= v@.len(),
            trim(s) == trim_end(v@.subrange(a as int, b as int)),
        decreases b - a,
    {
        assert(v@.subrange(a as int, b as int).drop_last() =~= v@.subrange(a as int, b - 1));
        b -= 1;
    }
    copy_range(v, a, b)
}

/// Value of a run of decimal digits.
pub open spec fn digits_value(d: Seq<char>) -> int
    decreases d.len(),
{
    if d.len() == 0 {
        0
    } else {
        digits_value(d.drop_last()) * 10 + (d.last() as int - 48)
    }
}

/// Every character is an ASCII decimal digit.
pub open spec fn all_digits(d: Seq<char>) -> bool {
    forall|i: int| 0 <= i < d.len() ==> '0' <= #[trigger] d[i] <= '9'
}

/// What `u8::from_str` accepts: an optional `+` followed by at least one
/// decimal digit, of value at most 255.
pub open spec fn spec_parse_u8(s: Seq<char>) -> Option<u8> {
    let d = if s.len() > 0 && s[0] == '+' {
        s.drop_first()
    } else {
        s
    };
    if d.len() > 0 && all_digits(d) && digits_value(d) <= 255 {
        Some(digits_value(d) as u8)
    } else {
        None
    }
}

proof fn lemma_digits_value_grows(d: Seq<char>, k: int)
    requires
        0 <= k <= d.len(),
        all_digits(d),
    ensures
        0 <= digits_value(d.take(k)) <= digits_value(d),
    decreases d.len() - k,
{
    if k < d.len() {
        lemma_digits_value_grows(d, k + 1);
        assert(d.take(k + 1).drop_last() =~= d.take(k));
        assert(d[k] >= '0');
    } else {
        assert(d.take(k) =~= d);
        lemma_digits_value_nonneg(d);
    }
}

proof fn lemma_digits_value_nonneg(d: Seq<char>)
    requires
        all_digits(d),
    ensures
        digits_value(d) >= 0,
    decreases d.len(),
{
    if d.len() > 0 {
        lemma_digits_value_nonneg(d.drop_last());
        assert(d[d.len() - 1] >= '0');
    }
}

/// `u8::from_str` on a run of characters.
pub fn parse_u8(s: &Vec<char>) -> (r: Option<u8>)
    ensures
        r == spec_parse_u8(s@),
{
    let len = s.len();
    let start: usize = if len > 0 && s[0] == '+' {
        1
    } else {
        0
    };
    let ghost d = s@.skip(start as int);
    proof {
        if len > 0 && s@[0] == '+' {
            assert(d =~= s@.drop_first());
        } else {
            assert(d =~= s@);
        }
    }
    if start == len {
        return None;
    }
    let mut value: u32 = 0;
    let mut k: usize = start;
    while k < len
        invariant
            start <= k <= len,
            len == s@.len(),
            start < len,
            d == s@.skip(start as int),
            d == (if s@.len() > 0 && s@[0] == '+' {
                s@.drop_first()
            } else {
                s@
            }),
            all_digits(d.take(k - start)),
            value == digits_value(d.take(k - start)),
            value <= 255,
        decreases len - k,
    {
        let c = s[k];
        if !('0' <= c && c <= '9') {
            assert(d[k - start] == c);
            assert(!all_digits(d));
            return None;
        }
        let digit = (c as u32) - 48;
        proof {
            assert(d.take(k + 1 - start).drop_last() =~= d.take(k - start));
            assert(d.take(k + 1 - start).last() == c);
        }
        let next = value * 10 + digit;
        if next > 255 {
            proof {
                assert forall|i: int| 0 <= i < k + 1 - start implies '0' <= #[trigger] d.take(
                    k + 1 - start,
                )[i] <= '9' by {
                    if i < k - start {
                        assert(d.take(k + 1 - start)[i] == d.take(k - start)[i]);
                    }
                }
                if all_digits(d) {
                    lemma_digits_value_grows(d, k + 1 - start);
                }
            }
            return None;
        }
        value = next;
        k += 1;
        proof {
            assert forall|i: int| 0 <= i < k - start implies '0' <= #[trigger] d.take(k - start)[i]
                <= '9' by {
                if i < k - 1 - start {
                    assert(d.take(k - start)[i] == d.take(k - 1 - start)[i]);
                }
            }
        }
    }
    assert(d.take(len - start) =~= d);
    Some(value as u8)
}

/// The channel a `Channel: N` line names, when N is a positive `u8`.
pub open spec fn spec_line_channel(line: Seq<char>) -> Option<u8> {
    let t = trim(line);
    if t.len() >= 8 && t.take(8) == "Channel:"@ {
        match spec_parse_u8(trim(t.skip(8))) {
            Some(c) => if c > 0 {
                Some(c)
            } else {
                None
            },
            None => None,
        }
    } else {
        None
    }
}

proof fn lemma_digit_char(m: nat)
    requires
        m < 10,
    ensures
        decimal_digit(m) as int == 48 + m,
        '0' <= decimal_digit(m) <= '9',
{
    let b: u8 = (48 + m) as u8;
    assert(b as int == 48 + m);
    assert(decimal_digit(m) == b as char);
    assert((b as char) as int == b as int);
}

proof fn lemma_decimal_digits(n: nat)
    ensures
        decimal(n).len() > 0,
        all_digits(decimal(n)),
        digits_value(decimal(n)) == n,
    decreases n,
{
    if n >= 10 {
        lemma_decimal_digits(n / 10);
        lemma_digit_char(n % 10);
        let d = decimal(n / 10);
        let c = decimal_digit(n % 10);
        assert(decimal(n) == d.push(c));
        assert(d.push(c).drop_last() =~= d);
        assert(d.push(c).last() == c);
        assert(digits_value(d.push(c)) == digits_value(d) * 10 + (c as int - 48));
        assert(n == (n / 10) * 10 + n % 10);
        assert forall|i: int| 0 <= i < d.push(c).len() implies '0' <= #[trigger] d.push(c)[i] <= '9' by {
            if i < d.len() {
                assert(d.push(c)[i] == d[i]);
            }
        }
    } else {
        lemma_digit_char(n);
        assert(decimal(n) == seq![decimal_digit(n)]);
        assert(seq![decimal_digit(n)].drop_last() =~= Seq::<char>::empty());
        assert(digits_value(Seq::<char>::empty()) == 0);
        assert(digits_value(seq![decimal_digit(n)]) == digits_value(Seq::<char>::empty()) * 10 + (
        decimal_digit(n) as int - 48));
    }
}

proof fn lemma_trim_start_spaces(k: nat, x: Seq<char>)
    ensures
        trim_start(spaces(k) + x) == trim_start(x),
    decreases k,
{
    if k > 0 {
        let y = spaces(k) + x;
        assert(y[0] == ' ');
        assert(y.drop_first() =~= spaces((k - 1) as nat) + x);
        lemma_trim_start_spaces((k - 1) as nat, x);
    } else {
        assert(spaces(0) + x =~= x);
    }
}

proof fn lemma_trim_digits(d: Seq<char>)
    requires
        d.len() > 0,
        all_digits(d),
    ensures
        trim(d) == d,
{
    assert(!unicode_whitespace(d[0]));
    assert(!unicode_whitespace(d.last()));
}

/// A line that reads `Channel:` and a decimal number from 1 to 255, however
/// far it is indented, names that channel; channel 0 is no channel.
pub proof fn law_line_channel_reads_number(indent: nat, n: u8)
    ensures
        spec_line_channel(spaces(indent) + "Channel: "@ + decimal(n as nat)) == if n >= 1 {
            Some(n)
        } else {
            None::<u8>
        },
{
    reveal_strlit("Channel: ");
    reveal_strlit("Channel:");
    let d = decimal(n as nat);
    lemma_decimal_digits(n as nat);
    let x = "Channel: "@ + d;
    assert(spaces(indent) + "Channel: "@ + d =~= spaces(indent) + x);
    lemma_trim_start_spaces(indent, x);
    assert(x[0] == 'C');
    assert(trim_start(x) == x);
    assert(x.last() == d.last());
    assert(d[d.len() - 1] == d.last());
    assert(!unicode_whitespace(x.last()));
    assert(trim_end(x) == x);
    let t = trim(spaces(indent) + x);
    assert(t == x);
    assert(t.take(8) =~= "Channel:"@);
    let rest = t.skip(8);
    assert(rest =~= seq![' '] + d);
    assert(rest[0] == ' ');
    assert(rest.drop_first() =~= d);
    lemma_trim_digits(d);
    assert(trim_start(rest) == trim_start(d));
    assert(!unicode_whitespace(d[0]));
    assert(trim_start(d) == d);
    assert(trim_end(d) == d);
    assert(trim(rest) == d);
    assert(d[0] != '+');
}

/// The first channel named by one of the lines, in order.
pub open spec fn first_line_channel(lines: Seq<Seq<char>>) -> Option<u8>
    decreases lines.len(),
{
    if lines.len() == 0 {
        None
    } else {
        match spec_line_channel(lines[0]) {
            Some(c) => Some(c),
            None => first_line_channel(lines.drop_first()),
        }
    }
}

/// A record block names Xiaomi's vendor-specific serial-port UUID.
pub open spec fn names_vendor_uuid(block: Seq<char>) -> bool {
    contains_text(lowercase(block), XIAOMI_SPP_UUID@)
}

/// A record block names the plain serial-port class id `0x1101`.
pub open spec fn names_serial_port(block: Seq<char>) -> bool {
    let low = lowercase(block);
    contains_text(low, "serial port\" (0x1101)"@) || contains_text(low, "(0x1101)"@)
}

/// The block is looked at in this pass: in the vendor pass when it names
/// the vendor UUID, in the fallback pass when it names the serial-port
/// class.
pub open spec fn block_in_pass(block: Seq<char>, vendor_pass: bool) -> bool {
    if vendor_pass {
        names_vendor_uuid(block)
    } else {
        names_serial_port(block)
    }
}

/// The channel a record block gives in a pass, when the pass looks at it.
pub open spec fn spec_block_channel(block: Seq<char>, vendor_pass: bool) -> Option<u8> {
    if block_in_pass(block, vendor_pass) {
        first_line_channel(split_text(block, "\n"@))
    } else {
        None
    }
}

/// The first channel given by one of the blocks in a pass, in order.
pub open spec fn first_block_channel(blocks: Seq<Seq<char>>, vendor_pass: bool) -> Option<u8>
    decreases blocks.len(),
{
    if blocks.len() == 0 {
        None
    } else {
        match spec_block_channel(blocks[0], vendor_pass) {
            Some(c) => Some(c),
            None => first_block_channel(blocks.drop_first(), vendor_pass),
        }
    }
}

/// The channel `sdptool records` output advertises for the earbuds'
/// serial-port service: a block naming Xiaomi's vendor UUID and giving a
/// channel wins; only when there is none does the first block naming the
/// plain serial-port class and giving a channel count.
pub open spec fn spec_channel_from_sdp_records(txt: Seq<char>) -> Option<u8> {
    let blocks = split_text(txt, "Service RecHandle"@);
    match first_block_channel(blocks, true) {
        Some(c) => Some(c),
        None => first_block_channel(blocks, false),
    }
}

fn line_channel(line: &Vec<char>) -> (r: Option<u8>)
    ensures
        r == spec_line_channel(line@),
{
    let t = trim_chars(line, 0, line.len());
    proof {
        assert(line@.subrange(0, line@.len() as int) =~= line@);
        reveal_strlit("Channel:");
    }
    if t.len() >= 8 && matches_at(&t, "Channel:", 0) {
        proof {
            reveal_strlit("Channel:");
            assert(t@.subrange(0, 8) =~= t@.take(8));
        }
        let rest = trim_chars(&t, 8, t.len());
        proof {
            assert(t@.subrange(8, t@.len() as int) =~= t@.skip(8));
        }
        match parse_u8(&rest) {
            Some(c) => if c > 0 {
                Some(c)
            } else {
                None
            },
            None => None,
        }
    } else {
        proof {
            reveal_strlit("Channel:");
            if t@.len() >= 8 {
                assert(t@.subrange(0, 8) =~= t@.take(8));
            }
        }
        None
    }
}

fn block_channel(block: &Vec<char>, vendor_pass: bool) -> (r: Option<u8>)
    ensures
        r == spec_block_channel(block@, vendor_pass),
{
    let low = lowercase_of_chars(block.as_slice());
    let wanted = if vendor_pass {
        contains_exec(&low, XIAOMI_SPP_UUID)
    } else {
        contains_exec(&low, "serial port\" (0x1101)") || contains_exec(&low, "(0x1101)")
    };
    if !wanted {
        return None;
    }
    proof {
        reveal_strlit("\n");
    }
    let lines = split_chars(block, "\n");
    let mut k: usize = 0;
    proof {
        assert(pieces_view(lines@).skip(0) =~= pieces_view(lines@));
    }
    while k < lines.len()
        invariant
            k <= lines@.len(),
            block_in_pass(block@, vendor_pass),
            pieces_view(lines@) == split_text(block@, "\n"@),
            first_line_channel(pieces_view(lines@)) == first_line_channel(
                pieces_view(lines@).skip(k as int),
            ),
        decreases lines@.len() - k,
    {
        let c = line_channel(&lines[k]);
        proof {
            assert(pieces_view(lines@).skip(k as int)[0] == lines@[k as int]@);
            assert(pieces_view(lines@).skip(k as int).drop_first() =~= pieces_view(lines@).skip(
                k + 1,
            ));
        }
        if c.is_some() {
            return c;
        }
        k += 1;
    }
    None
}

fn first_channel_in_pass(blocks: &Vec<Vec<char>>, vendor_pass: bool) -> (r: Option<u8>)
    ensures
        r == first_block_channel(pieces_view(blocks@), vendor_pass),
{
    let mut k: usize = 0;
    proof {
        assert(pieces_view(blocks@).skip(0) =~= pieces_view(blocks@));
    }
    while k < blocks.len()
        invariant
            k <= blocks@.len(),
            first_block_channel(pieces_view(blocks@), vendor_pass) == first_block_channel(
                pieces_view(blocks@).skip(k as int),
                vendor_pass,
            ),
        decreases blocks@.len() - k,
    {
        let c = block_channel(&blocks[k], vendor_pass);
        proof {
            assert(pieces_view(blocks@).skip(k as int)[0] == blocks@[k as int]@);
            assert(pieces_view(blocks@).skip(k as int).drop_first() =~= pieces_view(blocks@).skip(
                k + 1,
            ));
        }
        if c.is_some() {
            return c;
        }
        k += 1;
    }
    None
}

/// Finds, in the text `sdptool records` printed, the RFCOMM channel of the
/// earbuds' serial-port service: the first positive `Channel:` line of the
/// first block naming Xiaomi's vendor UUID that has one; failing that, of
/// the first block naming the serial-port class that has one.
pub fn channel_from_sdp_records(txt: &str) -> (r: Option<u8>)
    ensures
        r == spec_channel_from_sdp_records(txt@),
{
    let v = chars_of(txt);
    proof {
        reveal_strlit("Service RecHandle");
    }
    let blocks = split_chars(&v, "Service RecHandle");
    match first_channel_in_pass(&blocks, true) {
        Some(c) => Some(c),
        None => first_channel_in_pass(&blocks, false),
    }
}

} // verus!
