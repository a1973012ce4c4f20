//! What the parser computes, as functions on sequences of tokens.
//!
//! A value starts at a position and spans a number of tokens. An object is
//! a pair of braces around members, an array a pair of brackets around
//! elements; members and elements are separated by commas, and no comma
//! follows the last.
use crate::error::ParseErrorView;
use crate::number::number_value;
use crate::token::TokenView;
use crate::value::ValueView;
use vstd::prelude::*;

verus! {

/// The token at `pos`, if the sequence reaches that far.
pub open spec fn peek(tokens: Seq<TokenView>, pos: int) -> Option<TokenView> {
    if 0 <= pos < tokens.len() {
        Some(tokens[pos])
    } else {
        None
    }
}

/// `rest` with `front` before its items and `skipped` more tokens
/// spanned, where there is a `rest`.
pub open spec fn extend<T>(
    front: Seq<T>,
    skipped: nat,
    rest: Result<(Seq<T>, nat), ParseErrorView>,
) -> Result<(Seq<T>, nat), ParseErrorView> {
    match rest {
        Ok((items, len)) => Ok((front + items, skipped + len)),
        Err(e) => Err(e),
    }
}

/// The value that starts at `pos`, with the number of tokens it spans, or
/// the first error.
pub open spec fn value_at(tokens: Seq<TokenView>, pos: int) -> Result<
    (ValueView, nat),
    ParseErrorView,
>
    decreases tokens.len() - pos, 0nat,
{
    match peek(tokens, pos) {
        None => Err(ParseErrorView::UnexpectedEnd),
        Some(TokenView::LeftBrace) => {
            if peek(tokens, pos + 1) == Some(TokenView::RightBrace) {
                Ok((ValueView::Object(Seq::empty()), 2))
            } else {
                match members_at(tokens, pos + 1) {
                    Ok((members, len)) => Ok((ValueView::Object(members), len + 1)),
                    Err(e) => Err(e),
                }
            }
        },
        Some(TokenView::LeftBracket) => {
            if peek(tokens, pos + 1) == Some(TokenView::RightBracket) {
                Ok((ValueView::Array(Seq::empty()), 2))
            } else {
                match elements_at(tokens, pos + 1) {
                    Ok((items, len)) => Ok((ValueView::Array(items), len + 1)),
                    Err(e) => Err(e),
                }
            }
        },
        Some(TokenView::StringLiteral(s)) => Ok((ValueView::String(s), 1)),
        Some(TokenView::NumberLiteral(text)) => match number_value(text) {
            Some(value) => Ok((value, 1)),
            None => Err(ParseErrorView::InvalidNumber(text)),
        },
        Some(TokenView::True) => Ok((ValueView::Bool(true), 1)),
        Some(TokenView::False) => Ok((ValueView::Bool(false), 1)),
        Some(TokenView::Null) => Ok((ValueView::Null, 1)),
        Some(token) => Err(ParseErrorView::UnexpectedToken(token, pos)),
    }
}

/// The members of an object whose first key stands at `pos`, with the
/// number of tokens up to and with the closing brace, or the first error.
pub open spec fn members_at(tokens: Seq<TokenView>, pos: int) -> Result<
    (Seq<(Seq<char>, ValueView)>, nat),
    ParseErrorView,
>
    decreases tokens.len() - pos, 1nat,
{
    match peek(tokens, pos) {
        Some(TokenView::StringLiteral(key)) => {
            if peek(tokens, pos + 1) == Some(TokenView::Colon) {
                match value_at(tokens, pos + 2) {
                    Ok((value, len)) => match peek(tokens, pos + 2 + len) {
                        Some(TokenView::Comma) => extend(
                            seq![(key, value)],
                            3 + len,
                            members_at(tokens, pos + 3 + len),
                        ),
                        Some(TokenView::RightBrace) => Ok((seq![(key, value)], 3 + len)),
                        _ => Err(ParseErrorView::ExpectedCommaOrBrace),
                    },
                    Err(e) => Err(e),
                }
            } else {
                Err(ParseErrorView::ExpectedColon)
            }
        },
        _ => Err(ParseErrorView::ExpectedKey),
    }
}

/// The elements of an array whose first element starts at `pos`, with the
/// number of tokens up to and with the closing bracket, or the first
/// error.
pub open spec fn elements_at(tokens: Seq<TokenView>, pos: int) -> Result<
    (Seq<ValueView>, nat),
    ParseErrorView,
>
    decreases tokens.len() - pos, 1nat,
{
    match value_at(tokens, pos) {
        Ok((value, len)) => match peek(tokens, pos + len) {
            Some(TokenView::Comma) => extend(
                seq![value],
                1 + len,
                elements_at(tokens, pos + 1 + len),
            ),
            Some(TokenView::RightBracket) => Ok((seq![value], 1 + len)),
            _ => Err(ParseErrorView::ExpectedCommaOrBracket),
        },
        Err(e) => Err(e),
    }
}

/// The value that the whole of `tokens` denotes, or the first error.
pub open spec fn document(tokens: Seq<TokenView>) -> Result<ValueView, ParseErrorView> {
    match value_at(tokens, 0) {
        Ok((value, len)) => {
            if len == tokens.len() {
                Ok(value)
            } else {
                Err(ParseErrorView::TrailingTokens)
            }
        },
        Err(e) => Err(e),
    }
}

} // verus!
