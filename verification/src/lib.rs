//! A JSON front end: a lexer from text to tokens and a recursive-descent
//! parser from tokens to a value tree.
//!
//! [`lexer::tokenize`] turns a text into tokens, [`parser::parse`] turns
//! tokens into a [`value::Value`], and [`document::parse_document`] does
//! both. Strings are taken verbatim, without escapes; numbers are written
//! with digits and at most one point, without a sign.
//!
//! Every executable function is tied by its contract to a mathematical
//! description of the same step: [`lexical`] for the lexer, [`number`] for
//! the numeric rule and [`grammar`] for the parser. What these
//! descriptions amount to is proved beside them:
//!
//! - [`layout`]: a text has given tokens exactly if it is these tokens laid
//!   out with whitespace around them;
//! - [`spelling`]: tokens denote a given value exactly if they spell it;
//! - [`whitespace`]: whitespace between the tokens of a document does not
//!   matter;
//! - [`render`]: the minimal text of a value reads back as the value.
pub mod chars;
pub mod cursor;
pub mod decimal;
pub mod document;
pub mod error;
pub mod grammar;
pub mod layout;
pub mod lexer;
pub mod lexical;
pub mod number;
pub mod parser;
pub mod render;
pub mod shape;
pub mod spelling;
pub mod text;
pub mod token;
pub mod value;
pub mod whitespace;

pub use crate::cursor::Cursor;
pub use crate::decimal::Decimal;
pub use crate::document::parse_document;
pub use crate::error::{JsonError, LexError, ParseError};
pub use crate::lexer::{read_num_lit, read_str_lit, tokenize};
pub use crate::parser::parse;
pub use crate::token::Token;
pub use crate::value::Value;
