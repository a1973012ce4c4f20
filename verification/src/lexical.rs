//! What the lexer computes, as functions on sequences of characters.
//!
//! A text is read from left to right. Whitespace separates tokens and is
//! dropped. A token starts at the first character that is not whitespace
//! and spans as many characters as its kind takes.
use crate::chars::{
    lemma_run_len, number_chars, run_len, spec_is_number_char, string_chars, whitespace,
};
use crate::error::LexError;
use crate::token::{spec_single_char_token, TokenView};
use vstd::prelude::*;

verus! {

/// The characters of the keyword `true`.
pub open spec fn true_word() -> Seq<char> {
    seq!['t', 'r', 'u', 'e']
}

/// The characters of the keyword `false`.
pub open spec fn false_word() -> Seq<char> {
    seq!['f', 'a', 'l', 's', 'e']
}

/// The characters of the keyword `null`.
pub open spec fn null_word() -> Seq<char> {
    seq!['n', 'u', 'l', 'l']
}

/// Whether the characters of `word` stand in `s` from `pos` on.
pub open spec fn has_word_at(s: Seq<char>, pos: int, word: Seq<char>) -> bool {
    0 <= pos && pos + word.len() <= s.len() && s.subrange(pos, pos + word.len()) == word
}

/// The keyword that starts at `pos`, with its length.
pub open spec fn keyword_at(s: Seq<char>, pos: int) -> Option<(TokenView, nat)> {
    if has_word_at(s, pos, true_word()) {
        Some((TokenView::True, 4))
    } else if has_word_at(s, pos, false_word()) {
        Some((TokenView::False, 5))
    } else if has_word_at(s, pos, null_word()) {
        Some((TokenView::Null, 4))
    } else {
        None
    }
}

/// The string literal whose opening quote stands at `pos`, with the number
/// of characters it spans, both quotes included. Its content is every
/// character up to the next quote, as it stands.
pub open spec fn string_at(s: Seq<char>, pos: int) -> Result<(TokenView, nat), LexError> {
    let n = run_len(s, pos + 1, string_chars());
    if pos + 1 + n < s.len() {
        Ok((TokenView::StringLiteral(s.subrange(pos + 1, pos + 1 + n)), n + 2))
    } else {
        Err(LexError::UnterminatedString)
    }
}

/// The number literal that starts at `pos`, with its length: the longest
/// run of digits and points.
pub open spec fn number_at(s: Seq<char>, pos: int) -> (TokenView, nat) {
    let n = run_len(s, pos, number_chars());
    (TokenView::NumberLiteral(s.subrange(pos, pos + n)), n)
}

/// The token that starts at `pos`, with the number of characters it spans.
pub open spec fn token_at(s: Seq<char>, pos: int) -> Result<(TokenView, nat), LexError>
    recommends
        0 <= pos < s.len(),
{
    let c = s[pos];
    if spec_single_char_token(c) is Some {
        Ok((spec_single_char_token(c)->0, 1))
    } else if c == '"' {
        string_at(s, pos)
    } else if spec_is_number_char(c) {
        Ok(number_at(s, pos))
    } else if keyword_at(s, pos) is Some {
        Ok(keyword_at(s, pos)->0)
    } else {
        Err(LexError::UnexpectedCharacter(c, pos as usize))
    }
}

/// Where the first token at or after `pos` starts: behind the whitespace.
pub open spec fn token_start(s: Seq<char>, pos: int) -> int {
    pos + run_len(s, pos, whitespace())
}

/// The tokens of `s` from `pos` on, or the first error.
pub open spec fn tokens_from(s: Seq<char>, pos: int) -> Result<Seq<TokenView>, LexError>
    decreases s.len() - pos,
{
    let start = token_start(s, pos);
    if 0 <= pos && start < s.len() {
        match token_at(s, start) {
            Ok((token, len)) => {
                proof {
                    lemma_token_at_span(s, start);
                }
                prepend(token, tokens_from(s, start + len))
            },
            Err(e) => Err(e),
        }
    } else {
        Ok(Seq::empty())
    }
}

/// `rest` with `token` put in front, where there is a `rest`.
pub open spec fn prepend(token: TokenView, rest: Result<Seq<TokenView>, LexError>) -> Result<
    Seq<TokenView>,
    LexError,
> {
    match rest {
        Ok(tokens) => Ok(seq![token] + tokens),
        Err(e) => Err(e),
    }
}

/// `rest` with `tokens` put in front, where there is a `rest`.
pub open spec fn prepend_all(tokens: Seq<TokenView>, rest: Result<Seq<TokenView>, LexError>)
    -> Result<Seq<TokenView>, LexError> {
    match rest {
        Ok(more) => Ok(tokens + more),
        Err(e) => Err(e),
    }
}

/// The tokens of a whole text, or the first error.
pub open spec fn tokens(s: Seq<char>) -> Result<Seq<TokenView>, LexError> {
    tokens_from(s, 0)
}

/// A token spans at least one character and ends inside the text.
pub proof fn lemma_token_at_span(s: Seq<char>, pos: int)
    requires
        0 <= pos < s.len(),
    ensures
        token_at(s, pos) matches Ok((_, len)) ==> 0 < len && pos + len <= s.len(),
{
    lemma_run_len(s, pos, number_chars());
}

/// The tokens from `pos` are the token behind the whitespace, followed by
/// the tokens from where it ends.
pub proof fn lemma_tokens_from_step(s: Seq<char>, pos: int)
    requires
        0 <= pos <= s.len(),
    ensures
        pos <= token_start(s, pos) <= s.len(),
        token_start(s, pos) == s.len() ==> tokens_from(s, pos) == Ok::<Seq<TokenView>, LexError>(
            Seq::empty(),
        ),
        token_start(s, pos) < s.len() ==> tokens_from(s, pos) == match token_at(
            s,
            token_start(s, pos),
        ) {
            Ok((token, len)) => prepend(token, tokens_from(s, token_start(s, pos) + len)),
            Err(e) => Err(e),
        },
{
    lemma_run_len(s, pos, whitespace());
    if token_start(s, pos) < s.len() {
        lemma_token_at_span(s, token_start(s, pos));
    }
}

} // verus!
