//! The parser: from tokens to the value they denote, by recursive descent
//! with one token of lookahead.
use crate::error::{ParseError, ParseErrorView};
use crate::grammar::{document, elements_at, extend, members_at, value_at};
use crate::number::parse_number;
use crate::token::{token_views, Token};
use crate::value::{
    element_views, lemma_array_view, lemma_object_view, member_views, Value, ValueView,
};
use vstd::prelude::*;

verus! {

/// Parses the value that starts at `pos` and returns it with the position
/// behind it.
fn parse_value(tokens: &Vec<Token>, pos: usize) -> (r: Result<(Value, usize), ParseError>)
    requires
        pos <= tokens.len(),
    ensures
        match r {
            Ok((value, next)) => pos < next <= tokens.len() && value_at(
                token_views(tokens@),
                pos as int,
            ) == Ok::<(ValueView, nat), ParseErrorView>((value@, (next - pos) as nat)),
            Err(e) => value_at(token_views(tokens@), pos as int) == Err::<
                (ValueView, nat),
                ParseErrorView,
            >(e@),
        },
    decreases tokens.len() - pos, 0nat,
{
    if pos >= tokens.len() {
        return Err(ParseError::UnexpectedEnd);
    }
    match &tokens[pos] {
        Token::LeftBrace => {
            if pos + 1 < tokens.len() {
                if let Token::RightBrace = &tokens[pos + 1] {
                    let members: Vec<(String, Value)> = Vec::new();
                    proof {
                        lemma_object_view(members);
                        assert(member_views(members@) =~= Seq::empty());
                    }
                    return Ok((Value::Object(members), pos + 2));
                }
            }
            match parse_object(tokens, pos + 1) {
                Ok((members, next)) => {
                    proof {
                        lemma_object_view(members);
                    }
                    Ok((Value::Object(members), next))
                },
                Err(e) => Err(e),
            }
        },
        Token::LeftBracket => {
            if pos + 1 < tokens.len() {
                if let Token::RightBracket = &tokens[pos + 1] {
                    let items: Vec<Value> = Vec::new();
                    proof {
                        lemma_array_view(items);
                        assert(element_views(items@) =~= Seq::empty());
                    }
                    return Ok((Value::Array(items), pos + 2));
                }
            }
            match parse_array(tokens, pos + 1) {
                Ok((items, next)) => {
                    proof {
                        lemma_array_view(items);
                    }
                    Ok((Value::Array(items), next))
                },
                Err(e) => Err(e),
            }
        },
        Token::StringLiteral(s) => Ok((Value::String(s.clone()), pos + 1)),
        Token::NumberLiteral(text) => match parse_number(text.as_str()) {
            Some(value) => Ok((value, pos + 1)),
            None => Err(ParseError::InvalidNumber(text.clone())),
        },
        Token::True => Ok((Value::Bool(true), pos + 1)),
        Token::False => Ok((Value::Bool(false), pos + 1)),
        Token::Null => Ok((Value::Null, pos + 1)),
        token => Err(ParseError::UnexpectedToken(token.clone(), pos)),
    }
}

/// Parses the members of an object whose first key stands at `start`, up
/// to and with the closing brace, and returns them with the position
/// behind the brace.
fn parse_object(tokens: &Vec<Token>, start: usize) -> (r: Result<
    (Vec<(String, Value)>, usize),
    ParseError,
>)
    requires
        start <= tokens.len(),
    ensures
        match r {
            Ok((members, next)) => start < next <= tokens.len() && members_at(
                token_views(tokens@),
                start as int,
            ) == Ok::<(Seq<(Seq<char>, ValueView)>, nat), ParseErrorView>(
                (member_views(members@), (next - start) as nat),
            ),
            Err(e) => members_at(token_views(tokens@), start as int) == Err::<
                (Seq<(Seq<char>, ValueView)>, nat),
                ParseErrorView,
            >(e@),
        },
    decreases tokens.len() - start, 1nat,
{
    let ghost views = token_views(tokens@);
    let mut members: Vec<(String, Value)> = Vec::new();
    let mut pos = start;
    proof {
        assert(member_views(members@) =~= Seq::empty());
        if let Ok((rest, len)) = members_at(views, pos as int) {
            assert(member_views(members@) + rest =~= rest);
        }
    }
    loop
        invariant
            views == token_views(tokens@),
            start <= pos <= tokens.len(),
            members_at(views, start as int) == extend(
                member_views(members@),
                (pos - start) as nat,
                members_at(views, pos as int),
            ),
        decreases tokens.len() - pos,
    {
        if pos >= tokens.len() {
            return Err(ParseError::ExpectedKey);
        }
        let key = match &tokens[pos] {
            Token::StringLiteral(s) => s.clone(),
            _ => {
                return Err(ParseError::ExpectedKey);
            },
        };
        if pos + 1 >= tokens.len() {
            return Err(ParseError::ExpectedColon);
        }
        match &tokens[pos + 1] {
            Token::Colon => {},
            _ => {
                return Err(ParseError::ExpectedColon);
            },
        }
        let (value, next) = match parse_value(tokens, pos + 2) {
            Ok(parsed) => parsed,
            Err(e) => {
                return Err(e);
            },
        };
        let ghost before = member_views(members@);
        let ghost member = (key@, value@);
        members.push((key, value));
        proof {
            assert(member_views(members@) =~= before.push(member));
            if let Ok((rest, len)) = members_at(views, next + 1) {
                assert(before + (seq![member] + rest) =~= before.push(member) + rest);
            }
        }
        if next >= tokens.len() {
            return Err(ParseError::ExpectedCommaOrBrace);
        }
        match &tokens[next] {
            Token::Comma => {
                pos = next + 1;
            },
            Token::RightBrace => {
                assert(before + seq![member] =~= before.push(member));
                return Ok((members, next + 1));
            },
            _ => {
                return Err(ParseError::ExpectedCommaOrBrace);
            },
        }
    }
}

/// Parses the elements of an array whose first element starts at `start`,
/// up to and with the closing bracket, and returns them with the position
/// behind the bracket.
fn parse_array(tokens: &Vec<Token>, start: usize) -> (r: Result<(Vec<Value>, usize), ParseError>)
    requires
        start <= tokens.len(),
    ensures
        match r {
            Ok((items, next)) => start < next <= tokens.len() && elements_at(
                token_views(tokens@),
                start as int,
            ) == Ok::<(Seq<ValueView>, nat), ParseErrorView>(
                (element_views(items@), (next - start) as nat),
            ),
            Err(e) => elements_at(token_views(tokens@), start as int) == Err::<
                (Seq<ValueView>, nat),
                ParseErrorView,
            >(e@),
        },
    decreases tokens.len() - start, 1nat,
{
    let ghost views = token_views(tokens@);
    let mut items: Vec<Value> = Vec::new();
    let mut pos = start;
    proof {
        assert(element_views(items@) =~= Seq::empty());
        if let Ok((rest, len)) = elements_at(views, pos as int) {
            assert(element_views(items@) + rest =~= rest);
        }
    }
    loop
        invariant
            views == token_views(tokens@),
            start <= pos <= tokens.len(),
            elements_at(views, start as int) == extend(
                element_views(items@),
                (pos - start) as nat,
                elements_at(views, pos as int),
            ),
        decreases tokens.len() - pos,
    {
        let (value, next) = match parse_value(tokens, pos) {
            Ok(parsed) => parsed,
            Err(e) => {
                return Err(e);
            },
        };
        let ghost before = element_views(items@);
        let ghost item = value@;
        items.push(value);
        proof {
            assert(element_views(items@) =~= before.push(item));
            if let Ok((rest, len)) = elements_at(views, next + 1) {
                assert(before + (seq![item] + rest) =~= before.push(item) + rest);
            }
        }
        if next >= tokens.len() {
            return Err(ParseError::ExpectedCommaOrBracket);
        }
        match &tokens[next] {
            Token::Comma => {
                pos = next + 1;
            },
            Token::RightBracket => {
                assert(before + seq![item] =~= before.push(item));
                return Ok((items, next + 1));
            },
            _ => {
                return Err(ParseError::ExpectedCommaOrBracket);
            },
        }
    }
}

/// The value that the whole of `tokens` denotes, or the first error.
///
/// At a position where a value must start, an opening brace starts an
/// object, an opening bracket an array, a string literal is a `String`, a
/// number literal is an `Int` or a `Float` by the numeric rule, and the
/// keywords are `Bool` and `Null`; any other token is `UnexpectedToken`, and
/// the end of the tokens is `UnexpectedEnd`. Members keep their order and
/// equal keys stay apart. Tokens left behind the value are
/// `TrailingTokens`.
pub fn parse(tokens: Vec<Token>) -> (r: Result<Value, ParseError>)
    ensures
        match r {
            Ok(value) => document(token_views(tokens@)) == Ok::<ValueView, ParseErrorView>(
                value@,
            ),
            Err(e) => document(token_views(tokens@)) == Err::<ValueView, ParseErrorView>(e@),
        },
{
    match parse_value(&tokens, 0) {
        Ok((value, next)) => {
            if next == tokens.len() {
                Ok(value)
            } else {
                Err(ParseError::TrailingTokens)
            }
        },
        Err(e) => Err(e),
    }
}

} // verus!
