//! The lexer: from a text to its tokens.
use crate::chars::{is_number_char, is_whitespace, number_chars, run_len, string_chars, whitespace};
use crate::cursor::Cursor;
use crate::error::LexError;
use crate::lexical::{
    false_word, has_word_at, keyword_at, lemma_tokens_from_step, null_word, number_at, prepend,
    prepend_all, string_at, token_at, token_start, tokens, tokens_from, true_word,
};
use crate::token::{single_char_token, token_views, Token, TokenView};
use vstd::prelude::*;

verus! {

/// `std::string::String::push`: appends one character to the end of the
/// string and leaves the characters before it as they were.
pub assume_specification[ std::string::String::push ](s: &mut std::string::String, c: char)
    ensures
        final(s)@ == old(s)@.push(c),
;

/// Steps over the whitespace under the cursor.
fn skip_whitespace(chars: &mut Cursor)
    ensures
        final(chars).text() == old(chars).text(),
        final(chars).offset() == token_start(old(chars).text(), old(chars).offset()),
        final(chars).offset() <= final(chars).text().len(),
{
    let ghost begin = chars.offset();
    let ghost text = chars.text();
    proof {
        chars.lemma_offset_in_text();
    }
    loop
        invariant
            chars.text() == text,
            text == old(chars).text(),
            begin == old(chars).offset(),
            0 <= begin <= chars.offset() <= text.len(),
            run_len(text, begin, whitespace()) == chars.offset() - begin + run_len(
                text,
                chars.offset(),
                whitespace(),
            ),
        decreases text.len() - chars.offset(),
    {
        match chars.peek() {
            Some(c) => {
                if !is_whitespace(c) {
                    return ;
                }
            },
            None => {
                return ;
            },
        }
        let _ = chars.next();
    }
}

/// Reads a string literal. The character under the cursor is taken for
/// the opening quote and stepped over; every character up to the next
/// quote is the literal's content, as it stands; the closing quote is
/// stepped over too. Where the text ends before a closing quote the result
/// is `UnterminatedString`, with the cursor at the end of the text.
pub fn read_str_lit(chars: &mut Cursor) -> (r: Result<Token, LexError>)
    ensures
        final(chars).text() == old(chars).text(),
        old(chars).offset() <= final(chars).offset() <= final(chars).text().len(),
        match r {
            Ok(token) => string_at(old(chars).text(), old(chars).offset()) == Ok::<
                (TokenView, nat),
                LexError,
            >((token@, (final(chars).offset() - old(chars).offset()) as nat)),
            Err(e) => string_at(old(chars).text(), old(chars).offset()) == Err::<
                (TokenView, nat),
                LexError,
            >(e) && final(chars).offset() == final(chars).text().len(),
        },
{
    let ghost text = chars.text();
    let ghost begin = chars.offset() + 1;
    if chars.next().is_none() {
        return Err(LexError::UnterminatedString);
    }
    let mut buf = String::new();
    loop
        invariant
            chars.text() == text,
            text == old(chars).text(),
            begin == old(chars).offset() + 1,
            0 < begin <= chars.offset() <= text.len(),
            buf@ == text.subrange(begin, chars.offset()),
            run_len(text, begin, string_chars()) == chars.offset() - begin + run_len(
                text,
                chars.offset(),
                string_chars(),
            ),
        decreases text.len() - chars.offset(),
    {
        match chars.peek() {
            Some(c) => {
                if c == '"' {
                    let _ = chars.next();
                    return Ok(Token::StringLiteral(buf));
                }
                buf.push(c);
                assert(text.subrange(begin, chars.offset() + 1) =~= text.subrange(
                    begin,
                    chars.offset(),
                ).push(c));
            },
            None => {
                return Err(LexError::UnterminatedString);
            },
        }
        let _ = chars.next();
    }
}

/// Reads a number literal: the longest run of digits and points under the
/// cursor, which may be empty. The first character that is neither stays
/// under the cursor. Nothing is asked of where the points stand, and the
/// result is always `Ok`.
pub fn read_num_lit(chars: &mut Cursor) -> (r: Result<Token, LexError>)
    ensures
        final(chars).text() == old(chars).text(),
        old(chars).offset() <= final(chars).offset() <= final(chars).text().len(),
        r matches Ok(token) && number_at(old(chars).text(), old(chars).offset()) == (
            token@,
            (final(chars).offset() - old(chars).offset()) as nat,
        ),
{
    let ghost text = chars.text();
    let ghost begin = chars.offset();
    proof {
        chars.lemma_offset_in_text();
    }
    let mut buf = String::new();
    loop
        invariant
            chars.text() == text,
            text == old(chars).text(),
            begin == old(chars).offset(),
            0 <= begin <= chars.offset() <= text.len(),
            buf@ == text.subrange(begin, chars.offset()),
            run_len(text, begin, number_chars()) == chars.offset() - begin + run_len(
                text,
                chars.offset(),
                number_chars(),
            ),
        decreases text.len() - chars.offset(),
    {
        match chars.peek() {
            Some(c) => {
                if !is_number_char(c) {
                    return Ok(Token::NumberLiteral(buf));
                }
                buf.push(c);
                assert(text.subrange(begin, chars.offset() + 1) =~= text.subrange(
                    begin,
                    chars.offset(),
                ).push(c));
            },
            None => {
                return Ok(Token::NumberLiteral(buf));
            },
        }
        let _ = chars.next();
    }
}

/// Whether `expected` stands `ahead` places after the cursor.
fn looking_at(chars: &Cursor, ahead: usize, expected: char) -> (r: bool)
    ensures
        r == (chars.offset() + ahead < chars.text().len() && chars.text()[chars.offset() + ahead]
            == expected),
{
    match chars.peek_at(ahead) {
        Some(c) => c == expected,
        None => false,
    }
}

/// Reads one of the keywords `true`, `false` and `null`, if one stands
/// under the cursor; else the cursor stays.
fn read_keyword(chars: &mut Cursor) -> (r: Option<Token>)
    ensures
        final(chars).text() == old(chars).text(),
        old(chars).offset() <= final(chars).offset() <= final(chars).text().len(),
        match r {
            Some(token) => keyword_at(old(chars).text(), old(chars).offset()) == Some(
                (token@, (final(chars).offset() - old(chars).offset()) as nat),
            ),
            None => keyword_at(old(chars).text(), old(chars).offset()) is None
                && final(chars).offset() == old(chars).offset(),
        },
{
    let ghost text = chars.text();
    let ghost pos = chars.offset();
    let p = chars.position();
    proof {
        if has_word_at(text, pos, true_word()) {
            let w = text.subrange(pos, pos + 4);
            assert(w[0] == 't' && w[1] == 'r' && w[2] == 'u' && w[3] == 'e');
        }
        if has_word_at(text, pos, false_word()) {
            let w = text.subrange(pos, pos + 5);
            assert(w[0] == 'f' && w[1] == 'a' && w[2] == 'l' && w[3] == 's' && w[4] == 'e');
        }
        if has_word_at(text, pos, null_word()) {
            let w = text.subrange(pos, pos + 4);
            assert(w[0] == 'n' && w[1] == 'u' && w[2] == 'l' && w[3] == 'l');
        }
    }
    if looking_at(chars, 0, 't') && looking_at(chars, 1, 'r') && looking_at(chars, 2, 'u')
        && looking_at(chars, 3, 'e') {
        assert(text.subrange(pos, pos + 4) =~= true_word());
        chars.advance(4);
        Some(Token::True)
    } else if looking_at(chars, 0, 'f') && looking_at(chars, 1, 'a') && looking_at(chars, 2, 'l')
        && looking_at(chars, 3, 's') && looking_at(chars, 4, 'e') {
        assert(text.subrange(pos, pos + 5) =~= false_word());
        chars.advance(5);
        Some(Token::False)
    } else if looking_at(chars, 0, 'n') && looking_at(chars, 1, 'u') && looking_at(chars, 2, 'l')
        && looking_at(chars, 3, 'l') {
        assert(text.subrange(pos, pos + 4) =~= null_word());
        chars.advance(4);
        Some(Token::Null)
    } else {
        None
    }
}

/// The tokens of `input`, in the order in which they stand, or the first
/// lexical error.
///
/// Whitespace is dropped. Each of `{ } [ ] : ,` is a token. A quote opens
/// a string literal, a digit or a point starts a number literal, and the
/// words `true`, `false` and `null` are tokens. At any other character the
/// result is `UnexpectedCharacter`, with its index.
pub fn tokenize(input: &str) -> (r: Result<Vec<Token>, LexError>)
    ensures
        match r {
            Ok(found) => tokens(input@) == Ok::<Seq<TokenView>, LexError>(token_views(found@)),
            Err(e) => tokens(input@) == Err::<Seq<TokenView>, LexError>(e),
        },
{
    let mut chars = Cursor::new(input);
    let mut found: Vec<Token> = Vec::new();
    let ghost text = input@;
    assert(Seq::<TokenView>::empty() =~= token_views(found@));
    assert(prepend_all(token_views(found@), tokens_from(text, 0)) == tokens_from(text, 0)) by {
        if let Ok(more) = tokens_from(text, 0) {
            assert(token_views(found@) + more =~= more);
        }
    }
    loop
        invariant
            chars.text() == text,
            text == input@,
            0 <= chars.offset() <= text.len(),
            tokens(text) == prepend_all(
                token_views(found@),
                tokens_from(text, chars.offset()),
            ),
        decreases text.len() - chars.offset(),
    {
        let ghost before = token_views(found@);
        let ghost pos = chars.offset();
        proof {
            lemma_tokens_from_step(text, pos);
        }
        skip_whitespace(&mut chars);
        let ghost start = chars.offset();
        let c = match chars.peek() {
            Some(c) => c,
            None => {
                assert(before + Seq::<TokenView>::empty() =~= before);
                return Ok(found);
            },
        };
        let token = match single_char_token(c) {
            Some(token) => {
                let _ = chars.next();
                token
            },
            None => {
                if c == '"' {
                    match read_str_lit(&mut chars) {
                        Ok(token) => token,
                        Err(e) => {
                            return Err(e);
                        },
                    }
                } else if is_number_char(c) {
                    match read_num_lit(&mut chars) {
                        Ok(token) => token,
                        Err(e) => {
                            return Err(e);
                        },
                    }
                } else {
                    match read_keyword(&mut chars) {
                        Some(token) => token,
                        None => {
                            return Err(LexError::UnexpectedCharacter(c, chars.position()));
                        },
                    }
                }
            },
        };
        proof {
            let rest = tokens_from(text, chars.offset());
            assert(token_at(text, start) == Ok::<(TokenView, nat), LexError>(
                (token@, (chars.offset() - start) as nat),
            ));
            assert(tokens_from(text, pos) == prepend(token@, rest));
            if let Ok(more) = rest {
                assert(before + (seq![token@] + more) =~= before.push(token@) + more);
            }
            assert(token_views(found@.push(token)) =~= before.push(token@));
        }
        found.push(token);
    }
}

} // verus!
