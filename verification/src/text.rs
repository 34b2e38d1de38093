//! Character and string helpers shared by the skin logic.
//!
//! Strings are handled as sequences of `char`s: `String`'s view is its
//! `Seq<char>`.  Unicode case mapping and the whitespace property come from
//! the standard library and are named below; ASCII case mapping and decimal
//! rendering are short enough to be written and proved here.
use vstd::prelude::*;

verus! {

// ---------------------------------------------------------------------------
// Unicode case mapping and whitespace, as the standard library has them.
// On ASCII the case mappings are the ASCII ones, and the `White_Space` set
// is short enough to write out; the case mappings of the other chars come
// from Unicode tables and are named.
// ---------------------------------------------------------------------------
/// `c` is an ASCII char.
pub open spec fn is_ascii(c: char) -> bool {
    c <= '\u{7f}'
}

/// The chars that `char::to_lowercase` yields for a non-ASCII `c`.
pub uninterp spec fn unicode_lowercase(c: char) -> Seq<char>;

/// The chars that `char::to_uppercase` yields for a non-ASCII `c`.
pub uninterp spec fn unicode_uppercase(c: char) -> Seq<char>;

/// The chars that `char::to_lowercase` yields for `c`.
pub open spec fn char_lowercase(c: char) -> Seq<char> {
    if is_ascii(c) {
        seq![ascii_lower(c)]
    } else {
        unicode_lowercase(c)
    }
}

/// The chars that `char::to_uppercase` yields for `c`.
pub open spec fn char_uppercase(c: char) -> Seq<char> {
    if is_ascii(c) {
        seq![ascii_upper(c)]
    } else {
        unicode_uppercase(c)
    }
}

/// Whether `c` has the Unicode `White_Space` property, which is what
/// `char::is_whitespace` tests.
pub open spec fn char_is_whitespace(c: char) -> bool {
    ||| '\u{9}' <= c <= '\u{d}'
    ||| c == ' '
    ||| c == '\u{85}'
    ||| c == '\u{a0}'
    ||| c == '\u{1680}'
    ||| '\u{2000}' <= c <= '\u{200a}'
    ||| c == '\u{2028}'
    ||| c == '\u{2029}'
    ||| c == '\u{202f}'
    ||| c == '\u{205f}'
    ||| c == '\u{3000}'
}

/// The string that `str::to_lowercase` returns for `s` (not always the
/// chars of `s` lowercased one by one: a final sigma is mapped apart).
pub uninterp spec fn str_lowercase(s: Seq<char>) -> Seq<char>;

/// Calls `char::to_lowercase`.  The contract claims what its documentation
/// gives: an ASCII char yields its ASCII lowercase form, any other char the
/// chars `unicode_lowercase(c)`, and no char yields an ASCII uppercase letter.
#[verifier::external_body]
pub(crate) fn lowercase_char(c: char) -> (r: Vec<char>)
    ensures
        is_ascii(c) ==> r@ == seq![ascii_lower(c)],
        !is_ascii(c) ==> r@ == unicode_lowercase(c),
        forall|i: int| 0 <= i < r@.len() ==> !is_ascii_upper(#[trigger] r@[i]),
{
    c.to_lowercase().collect()
}

/// Calls `char::to_uppercase`.  The contract claims what its documentation
/// gives: an ASCII char yields its ASCII uppercase form, any other char the
/// chars `unicode_uppercase(c)`, and at least one char is yielded.
#[verifier::external_body]
pub(crate) fn uppercase_char(c: char) -> (r: Vec<char>)
    ensures
        is_ascii(c) ==> r@ == seq![ascii_upper(c)],
        !is_ascii(c) ==> r@ == unicode_uppercase(c),
        r@.len() > 0,
{
    c.to_uppercase().collect()
}

/// Whether `c` has the `White_Space` property (`char::is_whitespace`).
pub fn is_whitespace(c: char) -> (r: bool)
    ensures
        r == char_is_whitespace(c),
{
    ('\u{9}' <= c && c <= '\u{d}') || c == ' ' || c == '\u{85}' || c == '\u{a0}' || c
        == '\u{1680}' || ('\u{2000}' <= c && c <= '\u{200a}') || c == '\u{2028}' || c
        == '\u{2029}' || c == '\u{202f}' || c == '\u{205f}' || c == '\u{3000}'
}

/// Calls `str::to_lowercase`; the contract claims that the chars of the
/// result are `str_lowercase(s@)`.
#[verifier::external_body]
pub(crate) fn lowercase_str(s: &str) -> (r: String)
    ensures
        r@ == str_lowercase(s@),
{
    s.to_lowercase()
}

/// Calls `String::push`; the contract claims that `c` is appended.
#[verifier::external_body]
pub(crate) fn push_char(s: &mut String, c: char)
    ensures
        final(s)@ == old(s)@.push(c),
{
    s.push(c)
}

// ---------------------------------------------------------------------------
// Conversions between `String` and `Vec<char>`.
// ---------------------------------------------------------------------------
/// The chars of `s`, in order.
pub fn chars_of(s: &str) -> (r: Vec<char>)
    ensures
        r@ == s@,
{
    let mut v: Vec<char> = Vec::new();
    for c in it: s.chars()
        invariant
            v@ == it.seq().take(it.index() as int),
    {
        v.push(c);
    }
    v
}

/// The string made of the chars of `v`, in order.
pub fn string_of(v: &Vec<char>) -> (r: String)
    ensures
        r@ == v@,
{
    let mut s = String::new();
    for i in 0..v.len()
        invariant
            s@ == v@.take(i as int),
    {
        push_char(&mut s, v[i]);
    }
    s
}

/// Appends the chars of `extra` to `v`.
pub fn append_chars(v: &mut Vec<char>, extra: &Vec<char>)
    ensures
        final(v)@ == old(v)@ + extra@,
{
    let ghost start = v@;
    for i in 0..extra.len()
        invariant
            v@ == start + extra@.take(i as int),
    {
        v.push(extra[i]);
    }
    assert(extra@.take(extra.len() as int) =~= extra@);
}

// ---------------------------------------------------------------------------
// ASCII classes and ASCII case mapping.
// ---------------------------------------------------------------------------
pub open spec fn is_ascii_lower(c: char) -> bool {
    'a' <= c <= 'z'
}

pub open spec fn is_ascii_upper(c: char) -> bool {
    'A' <= c <= 'Z'
}

pub open spec fn is_ascii_digit(c: char) -> bool {
    '0' <= c <= '9'
}

/// `char::is_ascii_alphanumeric`.
pub open spec fn is_ascii_alnum(c: char) -> bool {
    is_ascii_lower(c) || is_ascii_upper(c) || is_ascii_digit(c)
}

/// `char::to_ascii_uppercase`: `a..=z` map to `A..=Z`, every other char is kept.
pub open spec fn ascii_upper(c: char) -> char {
    if is_ascii_lower(c) {
        ((c as u32) - 32) as char
    } else {
        c
    }
}

/// `char::to_ascii_lowercase`: `A..=Z` map to `a..=z`, every other char is kept.
pub open spec fn ascii_lower(c: char) -> char {
    if is_ascii_upper(c) {
        ((c as u32) + 32) as char
    } else {
        c
    }
}

/// `str::to_ascii_lowercase`.
pub open spec fn ascii_lower_seq(s: Seq<char>) -> Seq<char> {
    s.map_values(|c: char| ascii_lower(c))
}

/// `str::to_ascii_uppercase`.
pub open spec fn ascii_upper_seq(s: Seq<char>) -> Seq<char> {
    s.map_values(|c: char| ascii_upper(c))
}

pub fn is_ascii_alphanumeric(c: char) -> (r: bool)
    ensures
        r == is_ascii_alnum(c),
{
    ('a' <= c && c <= 'z') || ('A' <= c && c <= 'Z') || ('0' <= c && c <= '9')
}

pub fn to_ascii_uppercase_char(c: char) -> (r: char)
    ensures
        r == ascii_upper(c),
{
    if 'a' <= c && c <= 'z' {
        let b: u8 = (c as u8) - 32;
        b as char
    } else {
        c
    }
}

/// The ASCII-uppercased copy of `s`.
pub fn to_ascii_uppercase(s: &Vec<char>) -> (r: Vec<char>)
    ensures
        r@ == ascii_upper_seq(s@),
{
    let mut out: Vec<char> = Vec::new();
    for i in 0..s.len()
        invariant
            out@ == ascii_upper_seq(s@.take(i as int)),
    {
        out.push(to_ascii_uppercase_char(s[i]));
        assert(ascii_upper_seq(s@.take(i + 1)) =~= ascii_upper_seq(s@.take(i as int)).push(
            ascii_upper(s@[i as int]),
        ));
    }
    assert(s@.take(s.len() as int) =~= s@);
    out
}

/// ASCII case mapping facts: upper- and lowercasing undo each other on
/// letters and keep every other char.
pub proof fn lemma_ascii_case_roundtrip(c: char)
    ensures
        is_ascii_lower(c) ==> ascii_lower(ascii_upper(c)) == c && is_ascii(ascii_upper(c)),
        is_ascii_upper(c) ==> ascii_upper(ascii_lower(c)) == c,
        is_ascii(c) ==> is_ascii(ascii_upper(c)) && ascii_lower(ascii_upper(c)) == ascii_lower(c),
        !is_ascii_upper(c) ==> ascii_lower(c) == c,
        !is_ascii_lower(c) ==> ascii_upper(c) == c,
{
}

// ---------------------------------------------------------------------------
// Decimal rendering of natural numbers, as `format!("{}", n)` writes them.
// ---------------------------------------------------------------------------
pub open spec fn digit_char(d: nat) -> char {
    if d == 0 {
        '0'
    } else if d == 1 {
        '1'
    } else if d == 2 {
        '2'
    } else if d == 3 {
        '3'
    } else if d == 4 {
        '4'
    } else if d == 5 {
        '5'
    } else if d == 6 {
        '6'
    } else if d == 7 {
        '7'
    } else if d == 8 {
        '8'
    } else {
        '9'
    }
}

/// The decimal digits of `n`, most significant first, without leading zeros.
pub open spec fn decimal(n: nat) -> Seq<char>
    decreases n,
{
    if n < 10 {
        seq![digit_char(n)]
    } else {
        decimal(n / 10).push(digit_char(n % 10))
    }
}

fn digit(d: u128) -> (r: char)
    requires
        d < 10,
    ensures
        r == digit_char(d as nat),
{
    if d == 0 {
        '0'
    } else if d == 1 {
        '1'
    } else if d == 2 {
        '2'
    } else if d == 3 {
        '3'
    } else if d == 4 {
        '4'
    } else if d == 5 {
        '5'
    } else if d == 6 {
        '6'
    } else if d == 7 {
        '7'
    } else if d == 8 {
        '8'
    } else {
        '9'
    }
}

/// Appends the decimal digits of `n` to `out`.
pub fn push_decimal(out: &mut Vec<char>, n: u128)
    ensures
        final(out)@ == old(out)@ + decimal(n as nat),
    decreases n,
{
    if n >= 10 {
        push_decimal(out, n / 10);
    }
    out.push(digit(n % 10));
    proof {
        if n >= 10 {
            assert(decimal(n as nat) == decimal((n / 10) as nat).push(digit_char((n % 10) as nat)));
        }
    }
}

/// Every decimal rendering is non-empty and made of the digits `0..=9`.
pub proof fn lemma_decimal_digits(n: nat)
    ensures
        decimal(n).len() >= 1,
        forall|i: int| 0 <= i < decimal(n).len() ==> is_ascii_digit(#[trigger] decimal(n)[i]),
    decreases n,
{
    if n >= 10 {
        lemma_decimal_digits(n / 10);
    }
}

/// Distinct numbers have distinct decimal renderings.
pub proof fn lemma_decimal_injective(n: nat, m: nat)
    requires
        decimal(n) == decimal(m),
    ensures
        n == m,
    decreases n,
{
    lemma_decimal_digits(n / 10);
    lemma_decimal_digits(m / 10);
    if n < 10 && m < 10 {
        assert(decimal(n)[0] == digit_char(n));
        assert(decimal(m)[0] == digit_char(m));
    } else if n < 10 {
        assert(decimal(m).len() >= 2);
    } else if m < 10 {
        assert(decimal(n).len() >= 2);
    } else {
        let a = decimal(n);
        let b = decimal(m);
        assert(a.last() == digit_char(n % 10));
        assert(b.last() == digit_char(m % 10));
        assert(n % 10 == m % 10);
        assert(a.drop_last() =~= decimal(n / 10));
        assert(b.drop_last() =~= decimal(m / 10));
        lemma_decimal_injective(n / 10, m / 10);
        assert(n == 10 * (n / 10) + n % 10);
        assert(m == 10 * (m / 10) + m % 10);
    }
}

} // verus!
