//! Character-sequence helpers shared by the lexer, the artifact reader and
//! the encoder, together with the Unicode character classes they rely on.
use vstd::prelude::*;
use vstd::std_specs::iter::IteratorSpec;

verus! {

// ---------------------------------------------------------------------------
// Unicode character classes (std `char` methods).
// ---------------------------------------------------------------------------
/// The Unicode `Alphabetic` property, as `char::is_alphabetic` reports it.
pub uninterp spec fn unicode_alphabetic(c: char) -> bool;

/// The Unicode `Alphabetic` or `Numeric` property, as `char::is_alphanumeric` reports it.
pub uninterp spec fn unicode_alphanumeric(c: char) -> bool;

/// The Unicode `Uppercase` property, as `char::is_uppercase` reports it.
pub uninterp spec fn unicode_uppercase(c: char) -> bool;

/// The Unicode `Lowercase` property, as `char::is_lowercase` reports it.
pub uninterp spec fn unicode_lowercase(c: char) -> bool;

/// The Unicode `White_Space` property, as `char::is_whitespace` reports it.
pub uninterp spec fn unicode_whitespace(c: char) -> bool;

/// The ASCII whitespace characters: tab, line feed, vertical tab, form feed,
/// carriage return and space.
pub open spec fn ascii_whitespace(c: char) -> bool {
    c == '\t' || c == '\n' || c == '\x0B' || c == '\x0C' || c == '\r' || c == ' '
}

/// The ASCII letters `A` to `Z`.
pub open spec fn ascii_upper_letter(c: char) -> bool {
    'A' <= c <= 'Z'
}

/// The ASCII letters `a` to `z`.
pub open spec fn ascii_lower_letter(c: char) -> bool {
    'a' <= c <= 'z'
}

/// The ASCII digits `0` to `9`.
pub open spec fn ascii_digit(c: char) -> bool {
    '0' <= c <= '9'
}

/// Whether `c` is alphabetic: on ASCII the letters, elsewhere the Unicode
/// `Alphabetic` property.
pub open spec fn char_alphabetic(c: char) -> bool {
    if (c as u32) < 128 {
        ascii_upper_letter(c) || ascii_lower_letter(c)
    } else {
        unicode_alphabetic(c)
    }
}

/// Whether `c` is alphanumeric: on ASCII the letters and digits, elsewhere
/// the Unicode `Alphabetic` or `Numeric` property.
pub open spec fn char_alphanumeric(c: char) -> bool {
    if (c as u32) < 128 {
        ascii_upper_letter(c) || ascii_lower_letter(c) || ascii_digit(c)
    } else {
        unicode_alphanumeric(c)
    }
}

/// Whether `c` is uppercase: on ASCII `A` to `Z`, elsewhere the Unicode
/// `Uppercase` property.
pub open spec fn char_uppercase(c: char) -> bool {
    if (c as u32) < 128 {
        ascii_upper_letter(c)
    } else {
        unicode_uppercase(c)
    }
}

/// Whether `c` is lowercase: on ASCII `a` to `z`, elsewhere the Unicode
/// `Lowercase` property.
pub open spec fn char_lowercase(c: char) -> bool {
    if (c as u32) < 128 {
        ascii_lower_letter(c)
    } else {
        unicode_lowercase(c)
    }
}

/// Calls `char::is_alphabetic`; the result is the `Alphabetic` property of
/// `c`, which on the ASCII range holds of exactly the letters `A`–`Z` and
/// `a`–`z`.
#[verifier::external_body]
pub(crate) fn is_alphabetic(c: char) -> (r: bool)
    ensures
        r == unicode_alphabetic(c),
        (c as u32) < 128 ==> (r <==> (ascii_upper_letter(c) || ascii_lower_letter(c))),
{
    c.is_alphabetic()
}

/// Calls `char::is_alphanumeric`; the result is the `Alphabetic` or
/// `Numeric` property of `c`, which on the ASCII range holds of exactly the
/// letters and the digits `0`–`9`.
#[verifier::external_body]
pub(crate) fn is_alphanumeric(c: char) -> (r: bool)
    ensures
        r == unicode_alphanumeric(c),
        (c as u32) < 128 ==> (r <==> (ascii_upper_letter(c) || ascii_lower_letter(c) || ascii_digit(
            c,
        ))),
{
    c.is_alphanumeric()
}

/// Calls `char::is_uppercase`; the result is the `Uppercase` property of
/// `c`, which on the ASCII range holds of exactly `A`–`Z`.
#[verifier::external_body]
pub(crate) fn is_uppercase(c: char) -> (r: bool)
    ensures
        r == unicode_uppercase(c),
        (c as u32) < 128 ==> (r <==> ascii_upper_letter(c)),
{
    c.is_uppercase()
}

/// Calls `char::is_lowercase`; the result is the `Lowercase` property of
/// `c`, which on the ASCII range holds of exactly `a`–`z`.
#[verifier::external_body]
pub(crate) fn is_lowercase(c: char) -> (r: bool)
    ensures
        r == unicode_lowercase(c),
        (c as u32) < 128 ==> (r <==> ascii_lower_letter(c)),
{
    c.is_lowercase()
}

/// Calls `char::is_whitespace`; the result is the `White_Space` property of
/// `c`, which on the ASCII range holds of exactly the six ASCII whitespace
/// characters (std documents `White_Space`; the ASCII members are U+0009 to
/// U+000D and U+0020).
#[verifier::external_body]
pub(crate) fn is_whitespace(c: char) -> (r: bool)
    ensures
        r == unicode_whitespace(c),
        (c as u32) < 128 ==> (r <==> ascii_whitespace(c)),
{
    c.is_whitespace()
}

// ---------------------------------------------------------------------------
// Strings and character vectors.
// ---------------------------------------------------------------------------
/// Calls `String::push`, which appends `c` to `s`.
#[verifier::external_body]
pub(crate) fn push_char(s: &mut String, c: char)
    ensures
        final(s)@ == old(s)@.push(c),
{
    s.push(c)
}

/// The characters of `s`, in order.
pub fn chars_of(s: &str) -> (v: Vec<char>)
    ensures
        v@ == s@,
{
    broadcast use vstd::string::group_string_axioms;

    let mut v: Vec<char> = Vec::new();
    let mut it = s.chars();
    loop
        invariant
            v@ + it.remaining() == s@,
            it.decrease() is Some,
        decreases it.decrease()->0,
    {
        let ghost before = it.remaining();
        match it.next() {
            Some(c) => {
                assert(before.len() > 0);
                v.push(c);
                assert(v@ + it.remaining() =~= s@) by {
                    assert(before =~= seq![c] + it.remaining());
                }
            },
            None => {
                assert(v@ =~= s@);
                return v;
            },
        }
    }
}

/// The string made of the characters of `v`.
pub fn string_from(v: &[char]) -> (s: String)
    ensures
        s@ == v@,
{
    let mut s = String::new();
    let mut i: usize = 0;
    while i < v.len()
        invariant
            i <= v.len(),
            s@ == v@.take(i as int),
        decreases v.len() - i,
    {
        push_char(&mut s, v[i]);
        assert(v@.take(i + 1) =~= v@.take(i as int).push(v@[i as int]));
        i = i + 1;
    }
    assert(v@.take(i as int) =~= v@);
    s
}

/// Appends the characters of `s` to `out`.
pub fn push_str(out: &mut Vec<char>, s: &str)
    ensures
        final(out)@ == old(out)@ + s@,
{
    let cs = chars_of(s);
    push_all(out, &cs);
}

/// Appends the characters of `cs` to `out`.
pub fn push_all(out: &mut Vec<char>, cs: &[char])
    ensures
        final(out)@ == old(out)@ + cs@,
{
    let ghost start = out@;
    let mut i: usize = 0;
    while i < cs.len()
        invariant
            i <= cs.len(),
            out@ == start + cs@.take(i as int),
        decreases cs.len() - i,
    {
        out.push(cs[i]);
        assert(cs@.take(i + 1) =~= cs@.take(i as int).push(cs@[i as int]));
        i = i + 1;
    }
    assert(cs@.take(i as int) =~= cs@);
}

/// Whether the characters of `v` are exactly those of `s`.
pub fn chars_eq_str(v: &[char], s: &str) -> (r: bool)
    ensures
        r == (v@ == s@),
{
    let cs = chars_of(s);
    chars_eq(v, &cs)
}

/// Whether `a` and `b` hold the same characters.
pub fn chars_eq(a: &[char], b: &[char]) -> (r: bool)
    ensures
        r == (a@ == b@),
{
    if a.len() != b.len() {
        return false;
    }
    let mut i: usize = 0;
    while i < a.len()
        invariant
            i <= a.len(),
            a.len() == b.len(),
            a@.take(i as int) == b@.take(i as int),
        decreases a.len() - i,
    {
        if a[i] != b[i] {
            assert(a@[i as int] != b@[i as int]);
            return false;
        }
        assert(a@.take(i + 1) =~= a@.take(i as int).push(a@[i as int]));
        assert(b@.take(i + 1) =~= b@.take(i as int).push(b@[i as int]));
        i = i + 1;
    }
    assert(a@.take(i as int) =~= a@);
    assert(b@.take(i as int) =~= b@);
    true
}

/// The characters of `v[start..end]`.
pub fn chars_range(v: &[char], start: usize, end: usize) -> (r: Vec<char>)
    requires
        start <= end <= v@.len(),
    ensures
        r@ == v@.subrange(start as int, end as int),
{
    let mut r: Vec<char> = Vec::new();
    let mut i = start;
    while i < end
        invariant
            start <= i <= end <= v@.len(),
            r@ == v@.subrange(start as int, i as int),
        decreases end - i,
    {
        r.push(v[i]);
        assert(v@.subrange(start as int, i + 1) =~= v@.subrange(start as int, i as int).push(
            v@[i as int],
        ));
        i = i + 1;
    }
    r
}

// ---------------------------------------------------------------------------
// UTF-8 widths: byte offsets of character positions.
// ---------------------------------------------------------------------------
/// The number of bytes that UTF-8 uses for `c`.
pub open spec fn utf8_width(c: char) -> nat {
    if (c as u32) < 0x80 {
        1
    } else if (c as u32) < 0x800 {
        2
    } else if (c as u32) < 0x10000 {
        3
    } else {
        4
    }
}

/// The byte offset of character position `i` of `cs` in its UTF-8 encoding.
pub open spec fn byte_offset(cs: Seq<char>, i: int) -> nat
    decreases i,
{
    if i <= 0 {
        0
    } else {
        byte_offset(cs, i - 1) + utf8_width(cs[i - 1])
    }
}

/// The UTF-8 width of `c` (`char::len_utf8`).
pub fn char_width(c: char) -> (w: usize)
    ensures
        w == utf8_width(c),
{
    let u = c as u32;
    if u < 0x80 {
        1
    } else if u < 0x800 {
        2
    } else if u < 0x10000 {
        3
    } else {
        4
    }
}

pub proof fn lemma_byte_offset_monotonic(cs: Seq<char>, i: int, j: int)
    requires
        0 <= i <= j <= cs.len(),
    ensures
        byte_offset(cs, i) <= byte_offset(cs, j),
        byte_offset(cs, j) <= byte_offset(cs, i) + 4 * (j - i),
        byte_offset(cs, j) >= byte_offset(cs, i) + (j - i),
    decreases j - i,
{
    if i < j {
        lemma_byte_offset_monotonic(cs, i, j - 1);
    }
}

/// Whether byte `offset` of the UTF-8 encoding of `cs` starts a character,
/// or lies at or past the end of the text.
pub open spec fn on_boundary(cs: Seq<char>, offset: nat) -> bool {
    offset >= byte_offset(cs, cs.len() as int) || exists|k: int|
        0 <= k <= cs.len() && byte_offset(cs, k) == offset
}

/// Byte offsets of a source fit in `usize` when the whole encoding does.
pub open spec fn offsets_fit(cs: Seq<char>) -> bool {
    byte_offset(cs, cs.len() as int) <= usize::MAX
}


/// The number of bytes in the UTF-8 encoding of `cs`.
pub fn utf8_len(cs: &[char]) -> (n: usize)
    requires
        offsets_fit(cs@),
    ensures
        n == byte_offset(cs@, cs@.len() as int),
{
    let mut k: usize = 0;
    let mut n: usize = 0;
    while k < cs.len()
        invariant
            k <= cs@.len(),
            n == byte_offset(cs@, k as int),
            offsets_fit(cs@),
        decreases cs.len() - k,
    {
        proof {
            lemma_byte_offset_monotonic(cs@, k + 1, cs@.len() as int);
        }
        n = n + char_width(cs[k]);
        k = k + 1;
    }
    n
}

/// Byte offsets within a prefix are those of the whole text.
pub proof fn lemma_byte_offset_prefix(cs: Seq<char>, m: int, i: int)
    requires
        0 <= i <= m <= cs.len(),
    ensures
        byte_offset(cs.subrange(0, m), i) == byte_offset(cs, i),
    decreases i,
{
    if i > 0 {
        lemma_byte_offset_prefix(cs, m, i - 1);
    }
}

/// Byte offsets within a suffix are those of the whole text, less the
/// offset where the suffix starts.
pub proof fn lemma_byte_offset_suffix(cs: Seq<char>, k: int, j: int)
    requires
        0 <= k,
        0 <= j,
        k + j <= cs.len(),
    ensures
        byte_offset(cs.subrange(k, cs.len() as int), j) + byte_offset(cs, k) == byte_offset(cs, k + j),
    decreases j,
{
    if j > 0 {
        lemma_byte_offset_suffix(cs, k, j - 1);
        assert(cs.subrange(k, cs.len() as int)[j - 1] == cs[k + j - 1]);
    }
}

} // verus!
