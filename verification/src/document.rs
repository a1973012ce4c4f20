//! Both stages in a row: from a text to the value it denotes.
use crate::error::{JsonError, JsonErrorView};
use crate::grammar::document;
use crate::lexer::tokenize;
use crate::lexical::tokens;
use crate::parser::parse;
use crate::value::{Value, ValueView};
use vstd::prelude::*;

verus! {

/// The value that `text` denotes, which is that of its tokens; or why it
/// has no tokens, or else why the tokens denote no value.
pub open spec fn document_of(text: Seq<char>) -> Result<ValueView, JsonErrorView> {
    match tokens(text) {
        Ok(found) => match document(found) {
            Ok(value) => Ok(value),
            Err(e) => Err(JsonErrorView::Parse(e)),
        },
        Err(e) => Err(JsonErrorView::Lex(e)),
    }
}

/// The value that `text` denotes, or the lexer's error, or else the
/// parser's.
pub fn parse_document(text: &str) -> (r: Result<Value, JsonError>)
    ensures
        match r {
            Ok(value) => document_of(text@) == Ok::<ValueView, JsonErrorView>(value@),
            Err(e) => document_of(text@) == Err::<ValueView, JsonErrorView>(e@),
        },
{
    match tokenize(text) {
        Ok(found) => match parse(found) {
            Ok(value) => Ok(value),
            Err(e) => Err(JsonError::Parse(e)),
        },
        Err(e) => Err(JsonError::Lex(e)),
    }
}

} // verus!
