//! The numeric rule: which value a number literal denotes.
//!
//! A literal with a point denotes a `Float` and must be a decimal literal.
//! A literal without one denotes an `Int`: it must be made of digits, at
//! least one, and its value must fit in an `i32`.
use crate::chars::{all_of, digit_value, digits, is_digit, spec_digit_value};
use crate::decimal::{count_points, is_decimal_literal, lemma_points_contains, Decimal};
use crate::text::chars_of;
use crate::value::{Value, ValueView};
use vstd::prelude::*;

verus! {

/// The number that the digits of `text` denote in base ten.
pub open spec fn digits_value(text: Seq<char>) -> nat
    decreases text.len(),
{
    if text.len() == 0 {
        0
    } else {
        10 * digits_value(text.drop_last()) + spec_digit_value(text.last())
    }
}

/// Whether `text` is made of digits, at least one.
pub open spec fn is_integer_literal(text: Seq<char>) -> bool {
    text.len() > 0 && all_of(text, digits())
}

/// The value that the number literal `text` denotes, if it denotes one.
pub open spec fn number_value(text: Seq<char>) -> Option<ValueView> {
    if text.contains('.') {
        if is_decimal_literal(text) {
            Some(ValueView::Float(text))
        } else {
            None
        }
    } else if is_integer_literal(text) && digits_value(text) <= i32::MAX {
        Some(ValueView::Int(digits_value(text) as int))
    } else {
        None
    }
}

/// The first `k` characters of a text denote no more than the whole.
pub proof fn lemma_digits_value_prefix(text: Seq<char>, k: int)
    requires
        0 <= k <= text.len(),
    ensures
        digits_value(text.take(k)) <= digits_value(text),
    decreases text.len(),
{
    if k == text.len() {
        assert(text.take(k) =~= text);
    } else {
        assert(text.drop_last().take(k) =~= text.take(k));
        lemma_digits_value_prefix(text.drop_last(), k);
    }
}

/// The `Int` that `chars` denotes, if it is made of digits, at least one,
/// and denotes no more than `i32::MAX`.
fn parse_int(chars: &Vec<char>) -> (r: Option<i32>)
    ensures
        match r {
            Some(n) => is_integer_literal(chars@) && digits_value(chars@) == n,
            None => !(is_integer_literal(chars@) && digits_value(chars@) <= i32::MAX),
        },
{
    if chars.len() == 0 {
        return None;
    }
    let mut value: i32 = 0;
    let mut i: usize = 0;
    while i < chars.len()
        invariant
            i <= chars.len(),
            forall|j: int| 0 <= j < i ==> digits()(#[trigger] chars@[j]),
            0 <= value,
            value == digits_value(chars@.take(i as int)),
        decreases chars.len() - i,
    {
        let c = chars[i];
        if !is_digit(c) {
            return None;
        }
        let digit: i64 = digit_value(c) as i64;
        let next: i64 = 10 * (value as i64) + digit;
        proof {
            assert(chars@.take(i + 1).drop_last() =~= chars@.take(i as int));
            assert(digits_value(chars@.take(i + 1)) == next);
            lemma_digits_value_prefix(chars@, i + 1);
        }
        if next > i32::MAX as i64 {
            return None;
        }
        value = next as i32;
        i = i + 1;
    }
    assert(chars@.take(i as int) =~= chars@);
    Some(value)
}

/// The value that the number literal `text` denotes, or `None` where it
/// denotes none.
pub fn parse_number(text: &str) -> (r: Option<Value>)
    ensures
        match r {
            Some(value) => number_value(text@) == Some(value@),
            None => number_value(text@) is None,
        },
{
    let chars = chars_of(text);
    proof {
        lemma_points_contains(chars@);
    }
    if count_points(&chars) > 0 {
        match Decimal::new(text) {
            Some(decimal) => Some(Value::Float(decimal)),
            None => None,
        }
    } else {
        match parse_int(&chars) {
            Some(n) => Some(Value::Int(n)),
            None => None,
        }
    }
}

} // verus!
