//! Decimal literals: digits around a single point.
use crate::chars::{all_of, is_number_char, number_chars};
use crate::text::chars_of;
use vstd::prelude::*;

verus! {

/// How many points stand in `text`.
pub open spec fn points(text: Seq<char>) -> nat
    decreases text.len(),
{
    if text.len() == 0 {
        0
    } else {
        points(text.drop_last()) + if text.last() == '.' {
            1nat
        } else {
            0nat
        }
    }
}

/// Whether `text` is a decimal literal: digits and exactly one point,
/// with at least one digit. The point may stand first or last.
pub open spec fn is_decimal_literal(text: Seq<char>) -> bool {
    &&& all_of(text, number_chars())
    &&& points(text) == 1
    &&& text.len() >= 2
}

/// A text has no point exactly if none of its characters is one.
pub proof fn lemma_points_contains(text: Seq<char>)
    ensures
        points(text) > 0 <==> text.contains('.'),
        points(text) <= text.len(),
    decreases text.len(),
{
    if text.len() > 0 {
        let front = text.drop_last();
        lemma_points_contains(front);
        if text.last() == '.' {
            assert(text[text.len() - 1] == '.');
        } else if front.contains('.') {
            let i = choose|i: int| 0 <= i < front.len() && front[i] == '.';
            assert(text[i] == '.');
        } else if text.contains('.') {
            let i = choose|i: int| 0 <= i < text.len() && text[i] == '.';
            assert(front[i] == '.');
        }
    }
}

/// How many points stand in `chars`.
pub(crate) fn count_points(chars: &Vec<char>) -> (count: usize)
    ensures
        count == points(chars@),
{
    let mut count: usize = 0;
    let mut i: usize = 0;
    while i < chars.len()
        invariant
            i <= chars.len(),
            count == points(chars@.take(i as int)),
            count <= i,
        decreases chars.len() - i,
    {
        assert(chars@.take(i + 1).drop_last() =~= chars@.take(i as int));
        if chars[i] == '.' {
            count = count + 1;
        }
        i = i + 1;
    }
    assert(chars@.take(i as int) =~= chars@);
    count
}

/// Whether `chars` holds digits and points only.
pub(crate) fn all_number_chars(chars: &Vec<char>) -> (r: bool)
    ensures
        r == all_of(chars@, number_chars()),
{
    let mut i: usize = 0;
    while i < chars.len()
        invariant
            i <= chars.len(),
            forall|j: int| 0 <= j < i ==> number_chars()(#[trigger] chars@[j]),
        decreases chars.len() - i,
    {
        if !is_number_char(chars[i]) {
            return false;
        }
        i = i + 1;
    }
    true
}

/// An exact decimal number, kept as the literal that denotes it: digits
/// around a single point.
#[derive(Debug, PartialEq, Eq)]
pub struct Decimal {
    text: String,
}

impl View for Decimal {
    type V = Seq<char>;

    closed spec fn view(&self) -> Seq<char> {
        self.text@
    }
}

impl Decimal {
    #[verifier::type_invariant]
    spec fn is_literal(&self) -> bool {
        is_decimal_literal(self.text@)
    }

    /// The decimal that `text` denotes, where `text` is a decimal literal.
    pub fn new(text: &str) -> (r: Option<Decimal>)
        ensures
            match r {
                Some(d) => is_decimal_literal(text@) && d@ == text@,
                None => !is_decimal_literal(text@),
            },
    {
        let chars = chars_of(text);
        if chars.len() >= 2 && all_number_chars(&chars) && count_points(&chars) == 1 {
            Some(Decimal { text: text.to_owned() })
        } else {
            None
        }
    }

    /// The literal.
    pub fn as_str(&self) -> (text: &str)
        ensures
            text@ == self@,
            is_decimal_literal(text@),
    {
        proof {
            use_type_invariant(self);
        }
        self.text.as_str()
    }
}

impl Clone for Decimal {
    fn clone(&self) -> (r: Self)
        ensures
            r@ == self@,
    {
        proof {
            use_type_invariant(self);
        }
        Decimal { text: self.text.clone() }
    }
}

} // verus!
