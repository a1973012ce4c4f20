//! Character classes that decide where a token starts and ends.
use vstd::prelude::*;

verus! {

/// The characters that Unicode marks as `White_Space`.
pub open spec fn spec_is_whitespace(c: char) -> bool {
    ||| ('\u{9}' <= c && c <= '\u{d}')
    ||| c == ' '
    ||| c == '\u{85}'
    ||| c == '\u{a0}'
    ||| c == '\u{1680}'
    ||| ('\u{2000}' <= c && c <= '\u{200a}')
    ||| c == '\u{2028}'
    ||| c == '\u{2029}'
    ||| c == '\u{202f}'
    ||| c == '\u{205f}'
    ||| c == '\u{3000}'
}

/// The ten ASCII digits.
pub open spec fn spec_is_digit(c: char) -> bool {
    '0' <= c && c <= '9'
}

/// The characters a number literal is made of: the digits and the point.
pub open spec fn spec_is_number_char(c: char) -> bool {
    c == '.' || spec_is_digit(c)
}

/// What a digit counts for.
pub open spec fn spec_digit_value(c: char) -> nat
    recommends
        spec_is_digit(c),
{
    (c as nat - '0' as nat) as nat
}

/// The digit that counts for `d`.
pub open spec fn spec_digit_char(d: nat) -> char
    recommends
        d < 10,
{
    ('0' as nat + d) as char
}

#[verifier::when_used_as_spec(spec_is_whitespace)]
pub fn is_whitespace(c: char) -> (r: bool)
    ensures
        r == spec_is_whitespace(c),
{
    (c >= '\u{9}' && c <= '\u{d}') || c == ' ' || c == '\u{85}' || c == '\u{a0}' || c
        == '\u{1680}' || (c >= '\u{2000}' && c <= '\u{200a}') || c == '\u{2028}' || c
        == '\u{2029}' || c == '\u{202f}' || c == '\u{205f}' || c == '\u{3000}'
}

#[verifier::when_used_as_spec(spec_is_digit)]
pub fn is_digit(c: char) -> (r: bool)
    ensures
        r == spec_is_digit(c),
{
    c >= '0' && c <= '9'
}

#[verifier::when_used_as_spec(spec_is_number_char)]
pub fn is_number_char(c: char) -> (r: bool)
    ensures
        r == spec_is_number_char(c),
{
    c == '.' || is_digit(c)
}

/// What the digit `c` counts for.
pub fn digit_value(c: char) -> (d: u8)
    requires
        spec_is_digit(c),
    ensures
        d == spec_digit_value(c),
        d < 10,
{
    (c as u32 - '0' as u32) as u8
}

/// The class of whitespace, as a predicate.
pub open spec fn whitespace() -> spec_fn(char) -> bool {
    |c: char| spec_is_whitespace(c)
}

/// The class of number characters, as a predicate.
pub open spec fn number_chars() -> spec_fn(char) -> bool {
    |c: char| spec_is_number_char(c)
}

/// The class of characters that a string literal holds: all but the quote.
pub open spec fn string_chars() -> spec_fn(char) -> bool {
    |c: char| c != '"'
}

/// The class of the digits, as a predicate.
pub open spec fn digits() -> spec_fn(char) -> bool {
    |c: char| spec_is_digit(c)
}

/// The length of the longest run of characters of `class` that starts at
/// `pos` in `s`.
pub open spec fn run_len(s: Seq<char>, pos: int, class: spec_fn(char) -> bool) -> nat
    decreases s.len() - pos,
{
    if 0 <= pos < s.len() && class(s[pos]) {
        1 + run_len(s, pos + 1, class)
    } else {
        0
    }
}

/// A run stays inside the text, holds only characters of its class, and
/// ends where the text ends or a character outside the class stands.
pub proof fn lemma_run_len(s: Seq<char>, pos: int, class: spec_fn(char) -> bool)
    requires
        0 <= pos <= s.len(),
    ensures
        pos + run_len(s, pos, class) <= s.len(),
        forall|i: int| pos <= i < pos + run_len(s, pos, class) ==> class(#[trigger] s[i]),
        pos + run_len(s, pos, class) < s.len() ==> !class(s[pos + run_len(s, pos, class)]),
    decreases s.len() - pos,
{
    if pos < s.len() && class(s[pos]) {
        lemma_run_len(s, pos + 1, class);
    }
}

/// A stretch of `len` characters of the class that cannot be extended is
/// the run.
pub proof fn lemma_run_len_is(s: Seq<char>, pos: int, class: spec_fn(char) -> bool, len: nat)
    requires
        0 <= pos,
        pos + len <= s.len(),
        forall|i: int| pos <= i < pos + len ==> class(#[trigger] s[i]),
        pos + len < s.len() ==> !class(s[pos + len]),
    ensures
        run_len(s, pos, class) == len,
    decreases len,
{
    if len > 0 {
        lemma_run_len_is(s, pos + 1, class, (len - 1) as nat);
    }
}

/// Whether every character of `s` is of `class`.
pub open spec fn all_of(s: Seq<char>, class: spec_fn(char) -> bool) -> bool {
    forall|i: int| 0 <= i < s.len() ==> class(#[trigger] s[i])
}

} // verus!
