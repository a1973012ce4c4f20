use json_parser::chars::{digit_value, is_digit, is_number_char, is_whitespace};
use json_parser::cursor::Cursor;
use json_parser::error::LexError;
use json_parser::lexer::{read_num_lit, read_str_lit, tokenize};
use json_parser::text::chars_of;
use json_parser::token::{single_char_token, Token};

fn string(text: &str) -> Token {
    Token::StringLiteral(String::from(text))
}

fn number(text: &str) -> Token {
    Token::NumberLiteral(String::from(text))
}

#[test]
fn empty_text_has_no_tokens() {
    assert_eq!(tokenize(""), Ok(vec![]));
}

#[test]
fn whitespace_alone_has_no_tokens() {
    assert_eq!(tokenize(" \t\r\n\u{b}\u{c}\u{85}\u{a0}\u{1680}\u{2000}\u{200a}\u{2028}\u{2029}\u{202f}\u{205f}\u{3000}"), Ok(vec![]));
}

#[test]
fn structural_characters() {
    assert_eq!(
        tokenize("{}[]:,"),
        Ok(vec![
            Token::LeftBrace,
            Token::RightBrace,
            Token::LeftBracket,
            Token::RightBracket,
            Token::Colon,
            Token::Comma,
        ])
    );
}

#[test]
fn a_text_of_mixed_tokens() {
    assert_eq!(
        tokenize("{[\"the\", 709, .097, \"dar\"]}"),
        Ok(vec![
            Token::LeftBrace,
            Token::LeftBracket,
            string("the"),
            Token::Comma,
            number("709"),
            Token::Comma,
            number(".097"),
            Token::Comma,
            string("dar"),
            Token::RightBracket,
            Token::RightBrace,
        ])
    );
}

#[test]
fn tokenize_takes_a_string_by_reference() {
    let text = String::from("[1]");
    assert_eq!(
        tokenize(&text),
        Ok(vec![Token::LeftBracket, number("1"), Token::RightBracket])
    );
}

#[test]
fn empty_string_literal() {
    assert_eq!(tokenize("\"\""), Ok(vec![string("")]));
}

#[test]
fn string_literal_is_taken_verbatim() {
    assert_eq!(
        tokenize("\"a\\n {1,2} \u{e9}\u{4e16}\""),
        Ok(vec![string("a\\n {1,2} \u{e9}\u{4e16}")])
    );
}

#[test]
fn backslash_does_not_escape_a_quote() {
    assert_eq!(
        tokenize("\"a\\\"b\""),
        Err(LexError::UnexpectedCharacter('b', 4))
    );
    assert_eq!(
        tokenize("\"a\\\" 1"),
        Ok(vec![string("a\\"), number("1")])
    );
}

#[test]
fn unterminated_string() {
    assert_eq!(tokenize("{\"a\":\"b"), Err(LexError::UnterminatedString));
    assert_eq!(tokenize("\""), Err(LexError::UnterminatedString));
}

#[test]
fn number_literals_are_not_validated() {
    assert_eq!(tokenize(".."), Ok(vec![number("..")]));
    assert_eq!(tokenize("1.2.3"), Ok(vec![number("1.2.3")]));
    assert_eq!(tokenize("007"), Ok(vec![number("007")]));
}

#[test]
fn number_literal_ends_at_the_first_other_character() {
    assert_eq!(
        tokenize("12]3 4"),
        Ok(vec![number("12"), Token::RightBracket, number("3"), number("4")])
    );
}

#[test]
fn keywords_are_tokens() {
    assert_eq!(
        tokenize("true false null"),
        Ok(vec![Token::True, Token::False, Token::Null])
    );
    assert_eq!(tokenize("truefalse"), Ok(vec![Token::True, Token::False]));
}

#[test]
fn unexpected_characters() {
    assert_eq!(tokenize("-"), Err(LexError::UnexpectedCharacter('-', 0)));
    assert_eq!(tokenize("[1, +2]"), Err(LexError::UnexpectedCharacter('+', 4)));
    assert_eq!(tokenize("  x"), Err(LexError::UnexpectedCharacter('x', 2)));
    assert_eq!(tokenize("tru"), Err(LexError::UnexpectedCharacter('t', 0)));
    assert_eq!(tokenize("nul l"), Err(LexError::UnexpectedCharacter('n', 0)));
    assert_eq!(tokenize("nullx"), Err(LexError::UnexpectedCharacter('x', 4)));
    assert_eq!(tokenize("True"), Err(LexError::UnexpectedCharacter('T', 0)));
}

#[test]
fn position_counts_characters_not_bytes() {
    assert_eq!(
        tokenize("\"\u{e9}\u{4e16}\" \u{3000}?"),
        Err(LexError::UnexpectedCharacter('?', 6))
    );
}

#[test]
fn read_str_lit_reads_up_to_the_closing_quote() {
    let mut cursor = Cursor::new("\"the\", 709");
    assert_eq!(read_str_lit(&mut cursor), Ok(string("the")));
    assert_eq!(cursor.position(), 5);
    assert_eq!(cursor.peek(), Some(','));
}

#[test]
fn read_str_lit_steps_over_the_first_character_whatever_it_is() {
    let mut cursor = Cursor::new("xab\"c");
    assert_eq!(read_str_lit(&mut cursor), Ok(string("ab")));
    assert_eq!(cursor.position(), 4);
}

#[test]
fn read_str_lit_without_closing_quote() {
    let mut cursor = Cursor::new("\"the");
    assert_eq!(read_str_lit(&mut cursor), Err(LexError::UnterminatedString));
    assert_eq!(cursor.position(), 4);
    let mut empty = Cursor::new("");
    assert_eq!(read_str_lit(&mut empty), Err(LexError::UnterminatedString));
    assert_eq!(empty.position(), 0);
}

#[test]
fn read_num_lit_reads_digits_and_points() {
    let mut cursor = Cursor::new(".097, 1");
    assert_eq!(read_num_lit(&mut cursor), Ok(number(".097")));
    assert_eq!(cursor.position(), 4);
    assert_eq!(cursor.peek(), Some(','));
}

#[test]
fn read_num_lit_to_the_end_of_the_text() {
    let mut cursor = Cursor::new("1.2.3");
    assert_eq!(read_num_lit(&mut cursor), Ok(number("1.2.3")));
    assert_eq!(cursor.peek(), None);
}

#[test]
fn read_num_lit_on_another_character_reads_nothing() {
    let mut cursor = Cursor::new("x1");
    assert_eq!(read_num_lit(&mut cursor), Ok(number("")));
    assert_eq!(cursor.position(), 0);
}

#[test]
fn cursor_walks_the_text() {
    let mut cursor = Cursor::new("a\u{e9}c");
    assert_eq!(cursor.position(), 0);
    assert_eq!(cursor.peek(), Some('a'));
    assert_eq!(cursor.peek_at(1), Some('\u{e9}'));
    assert_eq!(cursor.peek_at(3), None);
    assert_eq!(cursor.next(), Some('a'));
    cursor.advance(1);
    assert_eq!(cursor.position(), 2);
    assert_eq!(cursor.next(), Some('c'));
    assert_eq!(cursor.next(), None);
    assert_eq!(cursor.peek(), None);
    assert_eq!(cursor.position(), 3);
}

#[test]
fn chars_of_keeps_every_character() {
    assert_eq!(chars_of("a\u{e9}\u{4e16}"), vec!['a', '\u{e9}', '\u{4e16}']);
    assert_eq!(chars_of(""), Vec::<char>::new());
}

#[test]
fn single_character_tokens() {
    assert_eq!(single_char_token('{'), Some(Token::LeftBrace));
    assert_eq!(single_char_token('}'), Some(Token::RightBrace));
    assert_eq!(single_char_token('['), Some(Token::LeftBracket));
    assert_eq!(single_char_token(']'), Some(Token::RightBracket));
    assert_eq!(single_char_token(':'), Some(Token::Colon));
    assert_eq!(single_char_token(','), Some(Token::Comma));
    assert_eq!(single_char_token('"'), None);
    assert_eq!(single_char_token('a'), None);
}

#[test]
fn whitespace_is_what_the_standard_library_calls_whitespace() {
    let mut code: u32 = 0;
    while code <= 0x10ffff {
        if let Some(c) = char::from_u32(code) {
            assert_eq!(is_whitespace(c), c.is_whitespace());
        }
        code += 1;
    }
}

#[test]
fn digits_are_the_ascii_digits() {
    let mut code: u32 = 0;
    while code <= 0x10ffff {
        if let Some(c) = char::from_u32(code) {
            assert_eq!(is_digit(c), c.is_ascii_digit());
            assert_eq!(is_number_char(c), c == '.' || c.is_ascii_digit());
        }
        code += 1;
    }
    assert_eq!(digit_value('0'), 0);
    assert_eq!(digit_value('7'), 7);
    assert_eq!(digit_value('9'), 9);
}

#[test]
fn a_clone_of_a_token_is_equal_to_it() {
    let tokens = tokenize("{\"k\": [1.5, true]}").unwrap();
    let copies: Vec<Token> = tokens.iter().map(|token| token.clone()).collect();
    assert_eq!(tokens, copies);
}
