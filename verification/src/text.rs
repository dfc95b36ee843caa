//! Text building blocks: decimal and hexadecimal renderings of numbers and
//! bytes, with their mathematical definitions.

use vstd::prelude::*;

verus! {

/// `String::push` appends one character.
pub assume_specification[ String::push ](s: &mut String, ch: char)
    ensures
        final(s)@ == old(s)@.push(ch),
;

/// The character of a decimal digit.
pub open spec fn decimal_digit(d: nat) -> char {
    ((48 + d) as u8) as char
}

/// Decimal rendering of a natural number, without leading zeros.
pub open spec fn decimal(n: nat) -> Seq<char>
    decreases n,
{
    if n < 10 {
        seq![decimal_digit(n)]
    } else {
        decimal(n / 10).push(decimal_digit(n % 10))
    }
}

/// Appends the decimal rendering of `n` to `s`.
pub fn push_decimal(s: &mut String, n: u128)
    ensures
        final(s)@ == old(s)@ + decimal(n as nat),
    decreases n,
{
    if n >= 10 {
        push_decimal(s, n / 10);
    }
    let d: u8 = (n % 10) as u8;
    let c: char = (48u8 + d) as char;
    s.push(c);
    assert(old(s)@ + decimal(n as nat) == s@);
}

/// `count` spaces.
pub open spec fn spaces(count: nat) -> Seq<char> {
    Seq::new(count, |i: int| ' ')
}

/// `t` right-aligned in a field of `width` characters, padded with spaces.
pub open spec fn right_aligned(t: Seq<char>, width: nat) -> Seq<char> {
    if t.len() < width {
        spaces((width - t.len()) as nat) + t
    } else {
        t
    }
}

/// Appends `t` right-aligned in a field of `width` characters.
pub fn push_right_aligned(s: &mut String, t: &str, width: usize)
    ensures
        final(s)@ == old(s)@ + right_aligned(t@, width as nat),
{
    let n = t.unicode_len();
    let mut k: usize = n;
    while k < width
        invariant
            n == t@.len(),
            n <= k <= width || (k == n && n >= width),
            s@ == old(s)@ + spaces((k - n) as nat),
        decreases width - k,
    {
        s.push(' ');
        k += 1;
        assert(spaces((k - n) as nat) =~= spaces((k - 1 - n) as nat).push(' '));
    }
    s.append(t);
    if n < width {
        assert(s@ =~= old(s)@ + right_aligned(t@, width as nat));
    } else {
        assert(spaces(0) =~= Seq::<char>::empty());
        assert(s@ =~= old(s)@ + right_aligned(t@, width as nat));
    }
}

/// Appends the two-digit uppercase hexadecimal rendering of a byte.
pub fn push_hex2_upper(s: &mut String, b: u8)
    ensures
        final(s)@ == old(s)@ + seq![hex_digit_upper((b / 16) as nat), hex_digit_upper((b % 16) as nat)],
{
    s.push(upper_digit((b / 16) as u16));
    s.push(upper_digit((b % 16) as u16));
}

/// The character of a lowercase hexadecimal digit.
pub open spec fn hex_digit_lower(d: nat) -> char {
    if d < 10 {
        ((48 + d) as u8) as char
    } else {
        ((87 + d) as u8) as char
    }
}

/// The character of an uppercase hexadecimal digit.
pub open spec fn hex_digit_upper(d: nat) -> char {
    if d < 10 {
        ((48 + d) as u8) as char
    } else {
        ((55 + d) as u8) as char
    }
}

/// Lowercase hexadecimal rendering of a byte string: two digits per byte,
/// the high nibble first.
pub open spec fn hex_lower(bytes: Seq<u8>) -> Seq<char>
    decreases bytes.len(),
{
    if bytes.len() == 0 {
        Seq::empty()
    } else {
        seq![hex_digit_lower((bytes[0] / 16) as nat), hex_digit_lower((bytes[0] % 16) as nat)]
            + hex_lower(bytes.drop_first())
    }
}

/// `hex::encode`: renders bytes as lowercase hexadecimal, two digits per
/// byte with the high nibble first, as the crate's documentation and source
/// show.
#[verifier::external_body]
pub(crate) fn hex_encode(data: &[u8]) -> (s: String)
    ensures
        s@ == hex_lower(data@),
{
    hex::encode(data)
}

/// Uppercase hexadecimal rendering of a 16-bit number in exactly four
/// digits, the most significant first.
pub open spec fn hex4_upper(n: u16) -> Seq<char> {
    seq![
        hex_digit_upper(((n / 4096) % 16) as nat),
        hex_digit_upper(((n / 256) % 16) as nat),
        hex_digit_upper(((n / 16) % 16) as nat),
        hex_digit_upper((n % 16) as nat),
    ]
}

fn upper_digit(d: u16) -> (c: char)
    requires
        d < 16,
    ensures
        c == hex_digit_upper(d as nat),
{
    if d < 10 {
        (48u8 + d as u8) as char
    } else {
        (55u8 + d as u8) as char
    }
}

/// Appends the four-digit uppercase hexadecimal rendering of `n`.
pub fn push_hex4_upper(s: &mut String, n: u16)
    ensures
        final(s)@ == old(s)@ + hex4_upper(n),
{
    s.push(upper_digit((n / 4096) % 16));
    s.push(upper_digit((n / 256) % 16));
    s.push(upper_digit((n / 16) % 16));
    s.push(upper_digit(n % 16));
    assert(s@ == old(s)@ + hex4_upper(n));
}

/// A character with ASCII capital letters turned into small ones; every
/// other character is left as it is.
pub open spec fn ascii_fold(c: char) -> char {
    if 'A' <= c <= 'Z' {
        ((c as u32) + 32) as char
    } else {
        c
    }
}

/// A character with ASCII small letters turned into capital ones; every
/// other character is left as it is.
pub open spec fn ascii_upper(c: char) -> char {
    if 'a' <= c <= 'z' {
        ((c as u32) - 32) as char
    } else {
        c
    }
}

/// Every character of the text is ASCII.
pub open spec fn all_ascii(s: Seq<char>) -> bool {
    forall|i: int| 0 <= i < s.len() ==> (#[trigger] s[i] as u32) < 128
}

/// What `str::to_lowercase` makes of a text: the Unicode lowercase mapping,
/// as std documents it, including its rule for a final capital sigma.
pub uninterp spec fn lowercase(s: Seq<char>) -> Seq<char>;

/// `str::to_lowercase` applied to the text made of these characters; the
/// lowercase form is returned as its characters. The result depends on the
/// characters alone. Of a text that is all ASCII it is stated exactly: each
/// capital letter becomes its small letter and nothing else changes. The
/// Unicode tables behind the other characters are not restated here.
#[verifier::external_body]
pub(crate) fn lowercase_of_chars(v: &[char]) -> (r: Vec<char>)
    ensures
        r@ == lowercase(v@),
        all_ascii(v@) ==> r@ == v@.map_values(|c: char| ascii_fold(c)),
{
    v.iter().collect::<String>().to_lowercase().chars().collect()
}

/// What `str::to_uppercase` makes of a text: the Unicode uppercase mapping,
/// as std documents it (one character may become several).
pub uninterp spec fn uppercase(s: Seq<char>) -> Seq<char>;

/// `str::to_uppercase`. The result depends on the text alone. Of a text
/// that is all ASCII it is stated exactly: each small letter becomes its
/// capital letter and nothing else changes. The Unicode tables behind the
/// other characters are not restated here.
#[verifier::external_body]
pub(crate) fn uppercase_text(s: &str) -> (r: String)
    ensures
        r@ == uppercase(s@),
        all_ascii(s@) ==> r@ == s@.map_values(|c: char| ascii_upper(c)),
{
    s.to_uppercase()
}

/// The characters with the Unicode `White_Space` property, which
/// `char::is_whitespace` and `str::trim` recognise: tab, line feed, vertical
/// tab, form feed, carriage return, space, next line, no-break space, Ogham
/// space mark, the spaces U+2000 to U+200A, line and paragraph separators,
/// narrow no-break space, medium mathematical space and ideographic space.
pub open spec fn unicode_whitespace(c: char) -> bool {
    let n = c as u32;
    (0x09 <= n <= 0x0D) || n == 0x20 || n == 0x85 || n == 0xA0 || n == 0x1680 || (0x2000 <= n
        <= 0x200A) || n == 0x2028 || n == 0x2029 || n == 0x202F || n == 0x205F || n == 0x3000
}

/// Whether a character is whitespace, in the sense of `char::is_whitespace`.
pub fn is_whitespace(c: char) -> (b: bool)
    ensures
        b == unicode_whitespace(c),
{
    let n = c as u32;
    (0x09 <= n && n <= 0x0D) || n == 0x20 || n == 0x85 || n == 0xA0 || n == 0x1680 || (0x2000
        <= n && n <= 0x200A) || n == 0x2028 || n == 0x2029 || n == 0x202F || n == 0x205F || n
        == 0x3000
}

/// The characters of a text.
pub fn chars_of(s: &str) -> (v: Vec<char>)
    ensures
        v@ == s@,
{
    let n = s.unicode_len();
    let mut v: Vec<char> = Vec::with_capacity(n);
    let mut i: usize = 0;
    while i < n
        invariant
            n == s@.len(),
            i <= n,
            v@ == s@.take(i as int),
        decreases n - i,
    {
        v.push(s.get_char(i));
        i += 1;
        assert(v@ =~= s@.take(i as int));
    }
    assert(s@.take(n as int) =~= s@);
    v
}

/// `needle` occurs in `hay` as a contiguous run.
pub open spec fn contains_text(hay: Seq<char>, needle: Seq<char>) -> bool {
    exists|i: int| 0 <= i <= hay.len() - needle.len() && #[trigger] hay.subrange(i, i + needle.len()) == needle
}

/// Whether `needle` occurs in `hay` at position `i`.
pub fn matches_at(hay: &Vec<char>, needle: &str, i: usize) -> (r: bool)
    requires
        i + needle@.len() <= hay@.len(),
    ensures
        r == (hay@.subrange(i as int, i + needle@.len()) == needle@),
{
    let n = needle.unicode_len();
    let len = hay.len();
    let mut j: usize = 0;
    while j < n
        invariant
            n == needle@.len(),
            len == hay@.len(),
            i + n <= len,
            j <= n,
            forall|t: int| 0 <= t < j ==> hay@[i + t] == needle@[t],
        decreases n - j,
    {
        if hay[i + j] != needle.get_char(j) {
            assert(hay@.subrange(i as int, i + n)[j as int] != needle@[j as int]);
            return false;
        }
        j += 1;
    }
    assert(hay@.subrange(i as int, i + n) =~= needle@);
    true
}

/// Whether `needle` occurs in `hay`.
pub fn contains_exec(hay: &Vec<char>, needle: &str) -> (r: bool)
    ensures
        r == contains_text(hay@, needle@),
{
    let n = needle.unicode_len();
    if n == 0 {
        assert(hay@.subrange(0, 0 + needle@.len() as int) =~= needle@);
        return true;
    }
    if n > hay.len() {
        return false;
    }
    let len = hay.len();
    let mut i: usize = 0;
    while i <= len - n
        invariant
            len == hay@.len(),
            1 <= n,
            n == needle@.len(),
            n <= hay@.len(),
            i <= hay@.len() - n + 1,
            forall|t: int| 0 <= t < i ==> #[trigger] hay@.subrange(t, t + n) != needle@,
        decreases hay@.len() - n + 1 - i,
    {
        if matches_at(hay, needle, i) {
            return true;
        }
        i += 1;
    }
    false
}

/// Lexicographic order on texts by character code, the order in which
/// `String`'s comparison sorts (UTF-8 preserves code point order).
pub open spec fn chars_le(a: Seq<char>, b: Seq<char>) -> bool
    decreases a.len(),
{
    if a.len() == 0 {
        true
    } else if b.len() == 0 {
        false
    } else if a[0] != b[0] {
        a[0] < b[0]
    } else {
        chars_le(a.drop_first(), b.drop_first())
    }
}

/// Any two texts are ordered one way or the other.
pub proof fn lemma_chars_le_total(a: Seq<char>, b: Seq<char>)
    ensures
        chars_le(a, b) || chars_le(b, a),
    decreases a.len(),
{
    if a.len() > 0 && b.len() > 0 && a[0] == b[0] {
        lemma_chars_le_total(a.drop_first(), b.drop_first());
    }
}

/// The order is transitive.
pub proof fn lemma_chars_le_transitive(a: Seq<char>, b: Seq<char>, c: Seq<char>)
    requires
        chars_le(a, b),
        chars_le(b, c),
    ensures
        chars_le(a, c),
    decreases a.len(),
{
    if a.len() > 0 && b.len() > 0 && c.len() > 0 && a[0] == b[0] && b[0] == c[0] {
        lemma_chars_le_transitive(a.drop_first(), b.drop_first(), c.drop_first());
    }
}

/// A text comes before every text that extends it, and strictly so: a
/// longer text never comes before its own beginning.
pub proof fn law_chars_le_prefix(a: Seq<char>, t: Seq<char>)
    ensures
        chars_le(a, a + t),
        t.len() > 0 ==> !chars_le(a + t, a),
    decreases a.len(),
{
    if a.len() > 0 {
        law_chars_le_prefix(a.drop_first(), t);
        assert((a + t).drop_first() =~= a.drop_first() + t);
        assert((a + t)[0] == a[0]);
    }
}

/// Two texts that agree up to a point and then differ are ordered by the
/// first characters in which they differ, whatever follows.
pub proof fn law_chars_le_first_difference(p: Seq<char>, x: char, y: char, a: Seq<char>, b: Seq<char>)
    requires
        x != y,
    ensures
        chars_le(p + seq![x] + a, p + seq![y] + b) == (x < y),
    decreases p.len(),
{
    let l = p + seq![x] + a;
    let r = p + seq![y] + b;
    if p.len() == 0 {
        assert(l[0] == x);
        assert(r[0] == y);
    } else {
        law_chars_le_first_difference(p.drop_first(), x, y, a, b);
        assert(l.drop_first() =~= p.drop_first() + seq![x] + a);
        assert(r.drop_first() =~= p.drop_first() + seq![y] + b);
        assert(l[0] == p[0] && r[0] == p[0]);
    }
}

/// Texts that each come before the other are equal.
pub proof fn law_chars_le_antisymmetric(a: Seq<char>, b: Seq<char>)
    requires
        chars_le(a, b),
        chars_le(b, a),
    ensures
        a == b,
    decreases a.len(),
{
    if a.len() > 0 && b.len() > 0 {
        law_chars_le_antisymmetric(a.drop_first(), b.drop_first());
        assert(a =~= seq![a[0]] + a.drop_first());
        assert(b =~= seq![b[0]] + b.drop_first());
    } else {
        assert(a =~= b);
    }
}

/// Compares two texts in [`chars_le`] order.
pub fn chars_le_exec(a: &Vec<char>, b: &Vec<char>) -> (r: bool)
    ensures
        r == chars_le(a@, b@),
{
    let mut i: usize = 0;
    proof {
        assert(a@.skip(0) =~= a@);
        assert(b@.skip(0) =~= b@);
    }
    while i < a.len() && i < b.len() && a[i] == b[i]
        invariant
            i <= a@.len(),
            i <= b@.len(),
            chars_le(a@, b@) == chars_le(a@.skip(i as int), b@.skip(i as int)),
        decreases a@.len() - i,
    {
        proof {
            assert(a@.skip(i as int).drop_first() =~= a@.skip(i + 1));
            assert(b@.skip(i as int).drop_first() =~= b@.skip(i + 1));
        }
        i += 1;
    }
    if i == a.len() {
        true
    } else if i == b.len() {
        false
    } else {
        proof {
            assert(a@.skip(i as int)[0] == a@[i as int]);
            assert(b@.skip(i as int)[0] == b@[i as int]);
        }
        a[i] < b[i]
    }
}

} // verus!
