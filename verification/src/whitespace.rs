//! Whitespace between the tokens of a document does not matter.
use crate::document::document_of;
use crate::layout::{gaps, is_spacing, layout, lemma_layout_tokens, lemma_text_is_layout};
use crate::lexical::tokens;
use crate::shape::lemma_document_numbers_apart;
use vstd::prelude::*;

verus! {

/// A text that denotes a value is the layout of its tokens with its own
/// whitespace; and laid out with any other whitespace, be it more, less
/// or none, the tokens denote the same value.
pub proof fn lemma_whitespace_is_insignificant(text: Seq<char>, spaces: Seq<Seq<char>>)
    requires
        document_of(text) is Ok,
        is_spacing(tokens(text)->Ok_0, spaces),
    ensures
        layout(tokens(text)->Ok_0, gaps(text)) == text,
        is_spacing(tokens(text)->Ok_0, gaps(text)),
        tokens(layout(tokens(text)->Ok_0, spaces)) == tokens(text),
        document_of(layout(tokens(text)->Ok_0, spaces)) == document_of(text),
{
    let found = tokens(text)->Ok_0;
    lemma_text_is_layout(text);
    lemma_document_numbers_apart(found);
    lemma_layout_tokens(found, spaces);
}

} // verus!
