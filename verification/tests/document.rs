use json_parser::{parse_document, Decimal, JsonError, LexError, ParseError, Token, Value};

fn float(text: &str) -> Value {
    Value::Float(Decimal::new(text).unwrap())
}

#[test]
fn empty_object() {
    assert_eq!(parse_document("{}"), Ok(Value::Object(vec![])));
}

#[test]
fn empty_array() {
    assert_eq!(parse_document("[]"), Ok(Value::Array(vec![])));
}

#[test]
fn duplicate_keys_are_kept_in_order() {
    assert_eq!(
        parse_document("{\"a\":1,\"a\":2}"),
        Ok(Value::Object(vec![
            (String::from("a"), Value::Int(1)),
            (String::from("a"), Value::Int(2)),
        ]))
    );
}

#[test]
fn trailing_comma_in_array_is_rejected() {
    assert_eq!(
        parse_document("[1,2,]"),
        Err(JsonError::Parse(ParseError::UnexpectedToken(Token::RightBracket, 5)))
    );
}

#[test]
fn trailing_comma_in_object_is_rejected() {
    assert_eq!(
        parse_document("{\"a\":1,}"),
        Err(JsonError::Parse(ParseError::ExpectedKey))
    );
}

#[test]
fn unterminated_string_is_a_lexical_error() {
    assert_eq!(
        parse_document("{\"a\":\"b"),
        Err(JsonError::Lex(LexError::UnterminatedString))
    );
}

#[test]
fn mixed_numeric_literals() {
    let parsed = parse_document("[1, 2.5, .3]");
    assert_eq!(
        parsed,
        Ok(Value::Array(vec![Value::Int(1), float("2.5"), float(".3")]))
    );
    match parsed {
        Ok(Value::Array(items)) => match (&items[1], &items[2]) {
            (Value::Float(a), Value::Float(b)) => {
                assert_eq!(a.as_str().parse::<f64>(), Ok(2.5));
                assert_eq!(b.as_str().parse::<f64>(), Ok(0.3));
            }
            _ => panic!("two floats expected"),
        },
        _ => panic!("an array expected"),
    }
}

#[test]
fn nested_structure() {
    assert_eq!(
        parse_document("{\"the\":[\"dar\",709]}"),
        Ok(Value::Object(vec![(
            String::from("the"),
            Value::Array(vec![Value::String(String::from("dar")), Value::Int(709)]),
        )]))
    );
}

#[test]
fn whitespace_between_tokens_changes_nothing() {
    let tight = parse_document("{\"the\":[\"dar\",709,true,null,1.5]}");
    let loose = parse_document(" {\n\t\"the\" :\u{a0}[ \"dar\" ,\r\n 709 , true,null ,\u{2003}1.5 ] } \n");
    assert!(tight.is_ok());
    assert_eq!(tight, loose);
}

#[test]
fn keywords() {
    assert_eq!(
        parse_document("[true, false, null]"),
        Ok(Value::Array(vec![Value::Bool(true), Value::Bool(false), Value::Null]))
    );
}

#[test]
fn empty_text_has_no_value() {
    assert_eq!(parse_document(""), Err(JsonError::Parse(ParseError::UnexpectedEnd)));
    assert_eq!(parse_document("  \n"), Err(JsonError::Parse(ParseError::UnexpectedEnd)));
}

#[test]
fn trailing_tokens_are_rejected() {
    assert_eq!(parse_document("1 2"), Err(JsonError::Parse(ParseError::TrailingTokens)));
    assert_eq!(parse_document("{}{}"), Err(JsonError::Parse(ParseError::TrailingTokens)));
}

#[test]
fn minus_sign_is_no_token() {
    assert_eq!(
        parse_document("[-1]"),
        Err(JsonError::Lex(LexError::UnexpectedCharacter('-', 1)))
    );
}

fn render(value: &Value) -> String {
    match value {
        Value::Object(members) => {
            let parts: Vec<String> = members
                .iter()
                .map(|(key, value)| format!("\"{}\":{}", key, render(value)))
                .collect();
            format!("{{{}}}", parts.join(","))
        }
        Value::Array(items) => {
            let parts: Vec<String> = items.iter().map(render).collect();
            format!("[{}]", parts.join(","))
        }
        Value::String(s) => format!("\"{}\"", s),
        Value::Int(n) => format!("{}", n),
        Value::Float(d) => String::from(d.as_str()),
        Value::Bool(b) => format!("{}", b),
        Value::Null => String::from("null"),
    }
}

fn sample() -> Value {
    Value::Object(vec![
        (String::from("name"), Value::String(String::from("the dar"))),
        (String::from(""), Value::String(String::new())),
        (
            String::from("list"),
            Value::Array(vec![
                Value::Int(0),
                Value::Int(709),
                Value::Int(i32::MAX),
                float("2.5"),
                float(".097"),
                float("3."),
                Value::Bool(true),
                Value::Bool(false),
                Value::Null,
                Value::Array(vec![]),
                Value::Object(vec![]),
                Value::Array(vec![Value::Array(vec![Value::Int(1)])]),
            ]),
        ),
        (String::from("name"), Value::Null),
    ])
}

#[test]
fn minimal_text_reads_back_as_the_value() {
    let value = sample();
    let text = render(&value);
    assert_eq!(
        text,
        "{\"name\":\"the dar\",\"\":\"\",\"list\":[0,709,2147483647,2.5,.097,3.,true,false,null,[],{},[[1]]],\"name\":null}"
    );
    assert_eq!(parse_document(&text), Ok(value));
}

#[test]
fn scalars_read_back() {
    for value in [
        Value::Int(42),
        float("0.5"),
        Value::String(String::from("a b")),
        Value::Bool(false),
        Value::Null,
    ] {
        assert_eq!(parse_document(&render(&value)), Ok(value));
    }
}

#[test]
fn more_whitespace_reads_the_same() {
    let value = sample();
    let tight = render(&value);
    let mut loose = String::from("\n ");
    for c in tight.chars() {
        let inside_word = c.is_ascii_alphanumeric() || c == '.' || c == ' ' || c == '"';
        loose.push(c);
        if !inside_word {
            loose.push_str(" \t\u{2028}");
        }
    }
    assert_ne!(tight, loose);
    assert_eq!(parse_document(&loose), Ok(value));
}

#[test]
fn whitespace_inside_a_token_is_not_between_tokens() {
    assert_eq!(parse_document("12"), Ok(Value::Int(12)));
    assert_eq!(parse_document("1 2"), Err(JsonError::Parse(ParseError::TrailingTokens)));
    assert_eq!(
        parse_document("\" a \""),
        Ok(Value::String(String::from(" a ")))
    );
}

#[test]
fn invalid_number_in_a_document() {
    assert_eq!(
        parse_document("[1.2.3]"),
        Err(JsonError::Parse(ParseError::InvalidNumber(String::from("1.2.3"))))
    );
    assert_eq!(
        parse_document("{\"a\": .}"),
        Err(JsonError::Parse(ParseError::InvalidNumber(String::from("."))))
    );
}

#[test]
fn structural_errors_in_a_document() {
    assert_eq!(parse_document("{1:2}"), Err(JsonError::Parse(ParseError::ExpectedKey)));
    assert_eq!(parse_document("{\"a\" 2}"), Err(JsonError::Parse(ParseError::ExpectedColon)));
    assert_eq!(
        parse_document("{\"a\":2 \"b\":3}"),
        Err(JsonError::Parse(ParseError::ExpectedCommaOrBrace))
    );
    assert_eq!(
        parse_document("[1 2]"),
        Err(JsonError::Parse(ParseError::ExpectedCommaOrBracket))
    );
    assert_eq!(
        parse_document("[1,2"),
        Err(JsonError::Parse(ParseError::ExpectedCommaOrBracket))
    );
    assert_eq!(
        parse_document("]"),
        Err(JsonError::Parse(ParseError::UnexpectedToken(Token::RightBracket, 0)))
    );
}

#[test]
fn the_lexer_fails_before_the_parser() {
    assert_eq!(
        parse_document("[1,,] x"),
        Err(JsonError::Lex(LexError::UnexpectedCharacter('x', 6)))
    );
    let error = parse_document("[1,,]").unwrap_err();
    assert_eq!(error.clone(), error);
    assert_eq!(
        error,
        JsonError::Parse(ParseError::UnexpectedToken(Token::Comma, 3))
    );
}
