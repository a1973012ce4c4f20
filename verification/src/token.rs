//! The lexical units of JSON text.
use vstd::prelude::*;

verus! {

/// A token as a mathematical value: the literals hold sequences of
/// characters.
pub ghost enum TokenView {
    StringLiteral(Seq<char>),
    NumberLiteral(Seq<char>),
    LeftBrace,
    RightBrace,
    LeftBracket,
    RightBracket,
    Colon,
    Comma,
    True,
    False,
    Null,
}

/// One lexical unit. A literal owns its text: the characters between the
/// quotes of a string, or the digits and points of a number as they stood.
#[derive(Debug, PartialEq, Eq)]
pub enum Token {
    StringLiteral(String),
    NumberLiteral(String),
    LeftBrace,
    RightBrace,
    LeftBracket,
    RightBracket,
    Colon,
    Comma,
    True,
    False,
    Null,
}

impl View for Token {
    type V = TokenView;

    open spec fn view(&self) -> TokenView {
        match self {
            Token::StringLiteral(s) => TokenView::StringLiteral(s@),
            Token::NumberLiteral(s) => TokenView::NumberLiteral(s@),
            Token::LeftBrace => TokenView::LeftBrace,
            Token::RightBrace => TokenView::RightBrace,
            Token::LeftBracket => TokenView::LeftBracket,
            Token::RightBracket => TokenView::RightBracket,
            Token::Colon => TokenView::Colon,
            Token::Comma => TokenView::Comma,
            Token::True => TokenView::True,
            Token::False => TokenView::False,
            Token::Null => TokenView::Null,
        }
    }
}

impl Clone for Token {
    fn clone(&self) -> (r: Self)
        ensures
            r@ == self@,
    {
        match self {
            Token::StringLiteral(s) => Token::StringLiteral(s.clone()),
            Token::NumberLiteral(s) => Token::NumberLiteral(s.clone()),
            Token::LeftBrace => Token::LeftBrace,
            Token::RightBrace => Token::RightBrace,
            Token::LeftBracket => Token::LeftBracket,
            Token::RightBracket => Token::RightBracket,
            Token::Colon => Token::Colon,
            Token::Comma => Token::Comma,
            Token::True => Token::True,
            Token::False => Token::False,
            Token::Null => Token::Null,
        }
    }
}

/// The views of a sequence of tokens, in order.
pub open spec fn token_views(tokens: Seq<Token>) -> Seq<TokenView> {
    tokens.map_values(|t: Token| t@)
}

/// The token that a single character stands for, if it is one of the six
/// structural characters.
pub open spec fn spec_single_char_token(c: char) -> Option<TokenView> {
    if c == '{' {
        Some(TokenView::LeftBrace)
    } else if c == '}' {
        Some(TokenView::RightBrace)
    } else if c == '[' {
        Some(TokenView::LeftBracket)
    } else if c == ']' {
        Some(TokenView::RightBracket)
    } else if c == ':' {
        Some(TokenView::Colon)
    } else if c == ',' {
        Some(TokenView::Comma)
    } else {
        None
    }
}

/// The structural token that `c` stands for, or `None` for any other
/// character.
pub fn single_char_token(c: char) -> (r: Option<Token>)
    ensures
        match r {
            Some(token) => spec_single_char_token(c) == Some(token@),
            None => spec_single_char_token(c) is None,
        },
{
    if c == '{' {
        Some(Token::LeftBrace)
    } else if c == '}' {
        Some(Token::RightBrace)
    } else if c == '[' {
        Some(Token::LeftBracket)
    } else if c == ']' {
        Some(Token::RightBracket)
    } else if c == ':' {
        Some(Token::Colon)
    } else if c == ',' {
        Some(Token::Comma)
    } else {
        None
    }
}

} // verus!
