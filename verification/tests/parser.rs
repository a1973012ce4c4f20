use json_parser::decimal::Decimal;
use json_parser::error::ParseError;
use json_parser::number::parse_number;
use json_parser::parser::parse;
use json_parser::token::Token;
use json_parser::value::Value;

fn string(text: &str) -> Token {
    Token::StringLiteral(String::from(text))
}

fn number(text: &str) -> Token {
    Token::NumberLiteral(String::from(text))
}

fn float(text: &str) -> Value {
    Value::Float(Decimal::new(text).unwrap())
}

#[test]
fn scalars() {
    assert_eq!(parse(vec![string("dar")]), Ok(Value::String(String::from("dar"))));
    assert_eq!(parse(vec![string("")]), Ok(Value::String(String::new())));
    assert_eq!(parse(vec![number("709")]), Ok(Value::Int(709)));
    assert_eq!(parse(vec![number("2.5")]), Ok(float("2.5")));
    assert_eq!(parse(vec![Token::True]), Ok(Value::Bool(true)));
    assert_eq!(parse(vec![Token::False]), Ok(Value::Bool(false)));
    assert_eq!(parse(vec![Token::Null]), Ok(Value::Null));
}

#[test]
fn empty_containers() {
    assert_eq!(
        parse(vec![Token::LeftBrace, Token::RightBrace]),
        Ok(Value::Object(vec![]))
    );
    assert_eq!(
        parse(vec![Token::LeftBracket, Token::RightBracket]),
        Ok(Value::Array(vec![]))
    );
}

#[test]
fn nested_containers() {
    let tokens = vec![
        Token::LeftBracket,
        Token::LeftBracket,
        Token::RightBracket,
        Token::Comma,
        Token::LeftBrace,
        string("k"),
        Token::Colon,
        Token::LeftBrace,
        string("in"),
        Token::Colon,
        Token::LeftBracket,
        number("1"),
        Token::Comma,
        Token::Null,
        Token::RightBracket,
        Token::RightBrace,
        Token::Comma,
        string("l"),
        Token::Colon,
        Token::False,
        Token::RightBrace,
        Token::RightBracket,
    ];
    assert_eq!(
        parse(tokens),
        Ok(Value::Array(vec![
            Value::Array(vec![]),
            Value::Object(vec![
                (
                    String::from("k"),
                    Value::Object(vec![(
                        String::from("in"),
                        Value::Array(vec![Value::Int(1), Value::Null]),
                    )]),
                ),
                (String::from("l"), Value::Bool(false)),
            ]),
        ]))
    );
}

#[test]
fn members_keep_their_order_and_equal_keys_stay_apart() {
    let tokens = vec![
        Token::LeftBrace,
        string("b"),
        Token::Colon,
        number("1"),
        Token::Comma,
        string("a"),
        Token::Colon,
        number("2"),
        Token::Comma,
        string("b"),
        Token::Colon,
        number("3"),
        Token::RightBrace,
    ];
    assert_eq!(
        parse(tokens),
        Ok(Value::Object(vec![
            (String::from("b"), Value::Int(1)),
            (String::from("a"), Value::Int(2)),
            (String::from("b"), Value::Int(3)),
        ]))
    );
}

#[test]
fn no_tokens() {
    assert_eq!(parse(vec![]), Err(ParseError::UnexpectedEnd));
}

#[test]
fn tokens_end_where_a_value_must_start() {
    assert_eq!(parse(vec![Token::LeftBracket]), Err(ParseError::UnexpectedEnd));
    assert_eq!(
        parse(vec![Token::LeftBracket, number("1"), Token::Comma]),
        Err(ParseError::UnexpectedEnd)
    );
    assert_eq!(
        parse(vec![Token::LeftBrace, string("a"), Token::Colon]),
        Err(ParseError::UnexpectedEnd)
    );
}

#[test]
fn unexpected_token_where_a_value_must_start() {
    assert_eq!(
        parse(vec![Token::RightBrace]),
        Err(ParseError::UnexpectedToken(Token::RightBrace, 0))
    );
    assert_eq!(
        parse(vec![Token::Colon]),
        Err(ParseError::UnexpectedToken(Token::Colon, 0))
    );
    assert_eq!(
        parse(vec![Token::LeftBracket, Token::Comma, Token::RightBracket]),
        Err(ParseError::UnexpectedToken(Token::Comma, 1))
    );
    assert_eq!(
        parse(vec![
            Token::LeftBrace,
            string("a"),
            Token::Colon,
            Token::RightBrace,
        ]),
        Err(ParseError::UnexpectedToken(Token::RightBrace, 3))
    );
    assert_eq!(
        parse(vec![
            Token::LeftBracket,
            number("1"),
            Token::Comma,
            number("2"),
            Token::Comma,
            Token::RightBracket,
        ]),
        Err(ParseError::UnexpectedToken(Token::RightBracket, 5))
    );
}

#[test]
fn expected_key() {
    assert_eq!(parse(vec![Token::LeftBrace]), Err(ParseError::ExpectedKey));
    assert_eq!(
        parse(vec![Token::LeftBrace, number("1"), Token::Colon, number("1"), Token::RightBrace]),
        Err(ParseError::ExpectedKey)
    );
    assert_eq!(
        parse(vec![
            Token::LeftBrace,
            string("a"),
            Token::Colon,
            number("1"),
            Token::Comma,
            Token::RightBrace,
        ]),
        Err(ParseError::ExpectedKey)
    );
    assert_eq!(
        parse(vec![Token::LeftBrace, Token::LeftBracket, Token::RightBracket, Token::RightBrace]),
        Err(ParseError::ExpectedKey)
    );
}

#[test]
fn expected_colon() {
    assert_eq!(
        parse(vec![Token::LeftBrace, string("a")]),
        Err(ParseError::ExpectedColon)
    );
    assert_eq!(
        parse(vec![Token::LeftBrace, string("a"), Token::RightBrace]),
        Err(ParseError::ExpectedColon)
    );
    assert_eq!(
        parse(vec![Token::LeftBrace, string("a"), Token::Comma, number("1"), Token::RightBrace]),
        Err(ParseError::ExpectedColon)
    );
}

#[test]
fn expected_comma_or_brace() {
    assert_eq!(
        parse(vec![Token::LeftBrace, string("a"), Token::Colon, number("1")]),
        Err(ParseError::ExpectedCommaOrBrace)
    );
    assert_eq!(
        parse(vec![
            Token::LeftBrace,
            string("a"),
            Token::Colon,
            number("1"),
            Token::RightBracket,
        ]),
        Err(ParseError::ExpectedCommaOrBrace)
    );
    assert_eq!(
        parse(vec![
            Token::LeftBrace,
            string("a"),
            Token::Colon,
            number("1"),
            string("b"),
            Token::Colon,
            number("2"),
            Token::RightBrace,
        ]),
        Err(ParseError::ExpectedCommaOrBrace)
    );
}

#[test]
fn expected_comma_or_bracket() {
    assert_eq!(
        parse(vec![Token::LeftBracket, number("1")]),
        Err(ParseError::ExpectedCommaOrBracket)
    );
    assert_eq!(
        parse(vec![Token::LeftBracket, number("1"), Token::RightBrace]),
        Err(ParseError::ExpectedCommaOrBracket)
    );
    assert_eq!(
        parse(vec![Token::LeftBracket, number("1"), number("2"), Token::RightBracket]),
        Err(ParseError::ExpectedCommaOrBracket)
    );
}

#[test]
fn invalid_numbers() {
    for text in [".", "..", "1.2.3", "", "1a", "-1", "+1", "1e5", "1.5e3", "inf", " 1", "1.x"] {
        assert_eq!(
            parse(vec![number(text)]),
            Err(ParseError::InvalidNumber(String::from(text)))
        );
    }
    assert_eq!(
        parse(vec![Token::LeftBracket, number("1"), Token::Comma, number("."), Token::RightBracket]),
        Err(ParseError::InvalidNumber(String::from(".")))
    );
}

#[test]
fn integers_must_fit() {
    assert_eq!(parse(vec![number("0")]), Ok(Value::Int(0)));
    assert_eq!(parse(vec![number("007")]), Ok(Value::Int(7)));
    assert_eq!(parse(vec![number("2147483647")]), Ok(Value::Int(i32::MAX)));
    assert_eq!(
        parse(vec![number("00000000000000000000002147483647")]),
        Ok(Value::Int(i32::MAX))
    );
    assert_eq!(
        parse(vec![number("2147483648")]),
        Err(ParseError::InvalidNumber(String::from("2147483648")))
    );
    assert_eq!(
        parse(vec![number("99999999999999999999999999999999999999")]),
        Err(ParseError::InvalidNumber(String::from(
            "99999999999999999999999999999999999999"
        )))
    );
}

#[test]
fn decimals_may_start_or_end_with_the_point() {
    assert_eq!(parse(vec![number(".3")]), Ok(float(".3")));
    assert_eq!(parse(vec![number("3.")]), Ok(float("3.")));
    assert_eq!(parse(vec![number("0.25")]), Ok(float("0.25")));
    assert_eq!(
        parse(vec![number("123456789012345678901234567890.5")]),
        Ok(float("123456789012345678901234567890.5"))
    );
}

#[test]
fn trailing_tokens() {
    assert_eq!(
        parse(vec![number("1"), number("2")]),
        Err(ParseError::TrailingTokens)
    );
    assert_eq!(
        parse(vec![Token::LeftBracket, Token::RightBracket, Token::RightBracket]),
        Err(ParseError::TrailingTokens)
    );
    assert_eq!(
        parse(vec![Token::Null, Token::Comma]),
        Err(ParseError::TrailingTokens)
    );
}

#[test]
fn the_first_error_is_reported() {
    assert_eq!(
        parse(vec![
            Token::LeftBracket,
            number("1.2.3"),
            Token::Comma,
            Token::Colon,
        ]),
        Err(ParseError::InvalidNumber(String::from("1.2.3")))
    );
    assert_eq!(
        parse(vec![Token::LeftBrace, Token::Colon, number(".")]),
        Err(ParseError::ExpectedKey)
    );
}

#[test]
fn parse_number_follows_the_numeric_rule() {
    assert_eq!(parse_number("709"), Some(Value::Int(709)));
    assert_eq!(parse_number("2.5"), Some(float("2.5")));
    assert_eq!(parse_number(".3"), Some(float(".3")));
    assert_eq!(parse_number("."), None);
    assert_eq!(parse_number(""), None);
    assert_eq!(parse_number("1.2.3"), None);
    assert_eq!(parse_number("12a"), None);
    assert_eq!(parse_number("2147483648"), None);
}

#[test]
fn decimal_literals() {
    assert!(Decimal::new("2.5").is_some());
    assert!(Decimal::new(".5").is_some());
    assert!(Decimal::new("5.").is_some());
    assert!(Decimal::new("0.0").is_some());
    assert!(Decimal::new(".").is_none());
    assert!(Decimal::new("").is_none());
    assert!(Decimal::new("5").is_none());
    assert!(Decimal::new("1.2.3").is_none());
    assert!(Decimal::new("..").is_none());
    assert!(Decimal::new("-1.5").is_none());
    assert!(Decimal::new("1.5e3").is_none());
    assert!(Decimal::new("1,5").is_none());
    let decimal = Decimal::new("2.50").unwrap();
    assert_eq!(decimal.as_str(), "2.50");
    assert_eq!(decimal.as_str().parse::<f64>(), Ok(2.5));
    assert_eq!(decimal.clone(), decimal);
    assert_ne!(decimal, Decimal::new("2.5").unwrap());
}

#[test]
fn every_decimal_literal_is_a_float_to_the_standard_library() {
    for text in [".0", "0.", "12.5", "00.500", "3.14159", "99999999999999999999.9"] {
        let decimal = Decimal::new(text).unwrap();
        assert!(decimal.as_str().parse::<f64>().is_ok());
    }
}

#[test]
fn a_clone_of_a_value_is_equal_to_it() {
    let value = Value::Object(vec![
        (
            String::from("a"),
            Value::Array(vec![Value::Int(1), float("2.5"), Value::Null]),
        ),
        (String::from("a"), Value::Object(vec![])),
        (String::from("s"), Value::String(String::from("x"))),
        (String::from("b"), Value::Bool(true)),
    ]);
    assert_eq!(value.clone(), value);
}

#[test]
fn a_clone_of_an_error_is_equal_to_it() {
    let errors = vec![
        ParseError::UnexpectedToken(string("k"), 3),
        ParseError::UnexpectedEnd,
        ParseError::ExpectedKey,
        ParseError::ExpectedColon,
        ParseError::ExpectedCommaOrBrace,
        ParseError::ExpectedCommaOrBracket,
        ParseError::InvalidNumber(String::from("..")),
        ParseError::TrailingTokens,
    ];
    for error in errors.iter() {
        assert_eq!(&error.clone(), error);
    }
}
