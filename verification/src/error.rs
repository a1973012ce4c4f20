//! What the lexer and the parser report when they give up.
use crate::token::{Token, TokenView};
use vstd::prelude::*;

verus! {

/// Why a text has no token sequence.
#[derive(Debug, Clone, Copy, PartialEq, Eq)]
pub enum LexError {
    /// A string literal was opened and the text ended before its closing
    /// quote.
    UnterminatedString,
    /// The character, and its index among the characters of the text, at
    /// which no token can start.
    UnexpectedCharacter(char, usize),
}

/// A parser error as a mathematical value.
pub ghost enum ParseErrorView {
    UnexpectedToken(TokenView, int),
    UnexpectedEnd,
    ExpectedKey,
    ExpectedColon,
    ExpectedCommaOrBrace,
    ExpectedCommaOrBracket,
    InvalidNumber(Seq<char>),
    TrailingTokens,
}

/// Why a token sequence is not one JSON value.
#[derive(Debug, PartialEq, Eq)]
pub enum ParseError {
    /// A token that cannot start a value stands where a value must start;
    /// with the token's index in the sequence.
    UnexpectedToken(Token, usize),
    /// The tokens end where a value must start.
    UnexpectedEnd,
    /// An object's member does not start with a string literal.
    ExpectedKey,
    /// No colon follows a member's key.
    ExpectedColon,
    /// Neither a comma nor a closing brace follows a member's value.
    ExpectedCommaOrBrace,
    /// Neither a comma nor a closing bracket follows an array's element.
    ExpectedCommaOrBracket,
    /// A number literal whose text is not a number.
    InvalidNumber(String),
    /// Tokens are left after the value.
    TrailingTokens,
}

impl View for ParseError {
    type V = ParseErrorView;

    open spec fn view(&self) -> ParseErrorView {
        match self {
            ParseError::UnexpectedToken(token, position) => ParseErrorView::UnexpectedToken(
                token@,
                *position as int,
            ),
            ParseError::UnexpectedEnd => ParseErrorView::UnexpectedEnd,
            ParseError::ExpectedKey => ParseErrorView::ExpectedKey,
            ParseError::ExpectedColon => ParseErrorView::ExpectedColon,
            ParseError::ExpectedCommaOrBrace => ParseErrorView::ExpectedCommaOrBrace,
            ParseError::ExpectedCommaOrBracket => ParseErrorView::ExpectedCommaOrBracket,
            ParseError::InvalidNumber(text) => ParseErrorView::InvalidNumber(text@),
            ParseError::TrailingTokens => ParseErrorView::TrailingTokens,
        }
    }
}

impl Clone for ParseError {
    fn clone(&self) -> (r: Self)
        ensures
            r@ == self@,
    {
        match self {
            ParseError::UnexpectedToken(token, position) => ParseError::UnexpectedToken(
                token.clone(),
                *position,
            ),
            ParseError::UnexpectedEnd => ParseError::UnexpectedEnd,
            ParseError::ExpectedKey => ParseError::ExpectedKey,
            ParseError::ExpectedColon => ParseError::ExpectedColon,
            ParseError::ExpectedCommaOrBrace => ParseError::ExpectedCommaOrBrace,
            ParseError::ExpectedCommaOrBracket => ParseError::ExpectedCommaOrBracket,
            ParseError::InvalidNumber(text) => ParseError::InvalidNumber(text.clone()),
            ParseError::TrailingTokens => ParseError::TrailingTokens,
        }
    }
}

/// An error of either stage, as a mathematical value.
pub ghost enum JsonErrorView {
    Lex(LexError),
    Parse(ParseErrorView),
}

/// Why a text is not a JSON document: the lexer's reason or the parser's.
#[derive(Debug, PartialEq, Eq)]
pub enum JsonError {
    Lex(LexError),
    Parse(ParseError),
}

impl View for JsonError {
    type V = JsonErrorView;

    open spec fn view(&self) -> JsonErrorView {
        match self {
            JsonError::Lex(e) => JsonErrorView::Lex(*e),
            JsonError::Parse(e) => JsonErrorView::Parse(e@),
        }
    }
}

impl Clone for JsonError {
    fn clone(&self) -> (r: Self)
        ensures
            r@ == self@,
    {
        match self {
            JsonError::Lex(e) => JsonError::Lex(*e),
            JsonError::Parse(e) => JsonError::Parse(e.clone()),
        }
    }
}

} // verus!
