//! Texts as vectors of characters.
use vstd::prelude::*;

verus! {

/// The characters of `input`, in order.
pub fn chars_of(input: &str) -> (chars: Vec<char>)
    ensures
        chars@ == input@,
{
    let mut chars: Vec<char> = Vec::new();
    let source = input.chars();
    for c in it: source
        invariant
            it.seq() == input@,
            chars@ == input@.take(it.index()),
    {
        chars.push(c);
    }
    chars
}

} // verus!
