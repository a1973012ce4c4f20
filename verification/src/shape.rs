//! How far a value reaches among the tokens, and which tokens cannot stand
//! side by side in it.
use crate::grammar::{document, elements_at, members_at, peek, value_at};
use crate::layout::numbers_touch_at;
use crate::token::TokenView;
use vstd::prelude::*;

verus! {

/// Whether no two number literals stand side by side among the tokens
/// from `lo` up to `hi`.
pub open spec fn numbers_apart_within(tokens: Seq<TokenView>, lo: int, hi: int) -> bool {
    forall|i: int| lo <= i && i + 1 < hi ==> !#[trigger] numbers_touch_at(tokens, i)
}

/// A value spans at least one token, ends among the tokens, and holds no
/// two number literals side by side.
pub proof fn lemma_value_at_shape(tokens: Seq<TokenView>, pos: int)
    ensures
        value_at(tokens, pos) matches Ok((_, len)) ==> 0 <= pos && 1 <= len && pos + len
            <= tokens.len() && numbers_apart_within(tokens, pos, pos + len),
    decreases tokens.len() - pos, 0nat,
{
    match peek(tokens, pos) {
        Some(TokenView::LeftBrace) => {
            if peek(tokens, pos + 1) != Some(TokenView::RightBrace) {
                lemma_members_at_shape(tokens, pos + 1);
            }
        },
        Some(TokenView::LeftBracket) => {
            if peek(tokens, pos + 1) != Some(TokenView::RightBracket) {
                lemma_elements_at_shape(tokens, pos + 1);
            }
        },
        _ => {},
    }
}

/// The members of an object, with its closing brace, span at least one
/// token, end among the tokens, and hold no two number literals side by
/// side.
pub proof fn lemma_members_at_shape(tokens: Seq<TokenView>, pos: int)
    ensures
        members_at(tokens, pos) matches Ok((_, len)) ==> 0 <= pos && 1 <= len && pos + len
            <= tokens.len() && numbers_apart_within(tokens, pos, pos + len),
    decreases tokens.len() - pos, 1nat,
{
    if let Ok((_, total)) = members_at(tokens, pos) {
        lemma_value_at_shape(tokens, pos + 2);
        let len = value_at(tokens, pos + 2)->Ok_0.1;
        if peek(tokens, pos + 2 + len) == Some(TokenView::Comma) {
            lemma_members_at_shape(tokens, pos + 3 + len);
        }
    }
}

/// The elements of an array, with its closing bracket, span at least one
/// token, end among the tokens, and hold no two number literals side by
/// side.
pub proof fn lemma_elements_at_shape(tokens: Seq<TokenView>, pos: int)
    ensures
        elements_at(tokens, pos) matches Ok((_, len)) ==> 0 <= pos && 1 <= len && pos + len
            <= tokens.len() && numbers_apart_within(tokens, pos, pos + len),
    decreases tokens.len() - pos, 1nat,
{
    if let Ok((_, total)) = elements_at(tokens, pos) {
        lemma_value_at_shape(tokens, pos);
        let len = value_at(tokens, pos)->Ok_0.1;
        if peek(tokens, pos + len) == Some(TokenView::Comma) {
            lemma_elements_at_shape(tokens, pos + 1 + len);
        }
    }
}

/// In tokens that denote a value no two number literals stand side by
/// side.
pub proof fn lemma_document_numbers_apart(tokens: Seq<TokenView>)
    requires
        document(tokens) is Ok,
    ensures
        forall|i: int| !#[trigger] numbers_touch_at(tokens, i),
{
    lemma_value_at_shape(tokens, 0);
}

} // verus!
