//! Which token sequences denote a given value: those that spell it. The
//! tokens of a value spell it, and so does the same sequence with an
//! integer written with leading zeros; nothing else does.
use crate::error::ParseErrorView;
use crate::grammar::{document, elements_at, members_at, peek, value_at};
use crate::number::number_value;
use crate::render::{
    decimal_digits, elements_tokens, lemma_decimal_digits, members_tokens, value_tokens,
};
use crate::token::TokenView;
use crate::value::ValueView;
use vstd::prelude::*;

verus! {

/// `token`, with an integer literal written without leading zeros.
pub open spec fn canonical_token(token: TokenView) -> TokenView {
    match token {
        TokenView::NumberLiteral(text) => match number_value(text) {
            Some(ValueView::Int(n)) => TokenView::NumberLiteral(decimal_digits(n as nat)),
            _ => token,
        },
        _ => token,
    }
}

/// `tokens`, with each integer literal written without leading zeros.
pub open spec fn canonical(tokens: Seq<TokenView>) -> Seq<TokenView> {
    tokens.map_values(|token: TokenView| canonical_token(token))
}

/// Whether the tokens from `pos` on are those of `wanted`, but for the
/// way in which integers are written.
pub open spec fn spells_at(tokens: Seq<TokenView>, pos: int, wanted: Seq<TokenView>) -> bool {
    &&& 0 <= pos
    &&& pos + wanted.len() <= tokens.len()
    &&& forall|k: int|
        0 <= k < wanted.len() ==> canonical_token(tokens[pos + k]) == #[trigger] wanted[k]
}

/// The parser does not see how an integer is written: the value at `pos`
/// is the same with every integer literal in its shortest form.
pub proof fn lemma_canonical_value_at(tokens: Seq<TokenView>, pos: int)
    ensures
        value_at(canonical(tokens), pos) == value_at(tokens, pos),
    decreases tokens.len() - pos, 0nat,
{
    let short = canonical(tokens);
    match peek(tokens, pos) {
        Some(TokenView::LeftBrace) => {
            assert(short[pos] == TokenView::LeftBrace);
            if pos + 1 < tokens.len() {
                assert(short[pos + 1] == canonical_token(tokens[pos + 1]));
            }
            if peek(tokens, pos + 1) != Some(TokenView::RightBrace) {
                lemma_canonical_members_at(tokens, pos + 1);
            }
        },
        Some(TokenView::LeftBracket) => {
            assert(short[pos] == TokenView::LeftBracket);
            if pos + 1 < tokens.len() {
                assert(short[pos + 1] == canonical_token(tokens[pos + 1]));
            }
            if peek(tokens, pos + 1) != Some(TokenView::RightBracket) {
                lemma_canonical_elements_at(tokens, pos + 1);
            }
        },
        Some(TokenView::NumberLiteral(text)) => {
            assert(short[pos] == canonical_token(tokens[pos]));
            if let Some(ValueView::Int(n)) = number_value(text) {
                lemma_decimal_digits(n as nat);
            }
        },
        Some(token) => {
            assert(short[pos] == token);
        },
        None => {},
    }
}

/// The members at `pos` are the same with every integer literal in its
/// shortest form.
pub proof fn lemma_canonical_members_at(tokens: Seq<TokenView>, pos: int)
    ensures
        members_at(canonical(tokens), pos) == members_at(tokens, pos),
    decreases tokens.len() - pos, 1nat,
{
    let short = canonical(tokens);
    if 0 <= pos < tokens.len() {
        assert(short[pos] == canonical_token(tokens[pos]));
        if pos + 1 < tokens.len() {
            assert(short[pos + 1] == canonical_token(tokens[pos + 1]));
            if tokens[pos] is StringLiteral && tokens[pos + 1] == TokenView::Colon {
                lemma_canonical_value_at(tokens, pos + 2);
                if let Ok((_, len)) = value_at(tokens, pos + 2) {
                    if pos + 2 + len < tokens.len() {
                        assert(short[pos + 2 + len] == canonical_token(tokens[pos + 2 + len]));
                        if tokens[pos + 2 + len] == TokenView::Comma {
                            lemma_canonical_members_at(tokens, pos + 3 + len);
                        }
                    }
                }
            }
        }
    }
}

/// The elements at `pos` are the same with every integer literal in its
/// shortest form.
pub proof fn lemma_canonical_elements_at(tokens: Seq<TokenView>, pos: int)
    ensures
        elements_at(canonical(tokens), pos) == elements_at(tokens, pos),
    decreases tokens.len() - pos, 1nat,
{
    let short = canonical(tokens);
    lemma_canonical_value_at(tokens, pos);
    if let Ok((_, len)) = value_at(tokens, pos) {
        if 0 <= pos + len < tokens.len() {
            assert(short[pos + len] == canonical_token(tokens[pos + len]));
            if tokens[pos + len] == TokenView::Comma {
                lemma_canonical_elements_at(tokens, pos + 1 + len);
            }
        }
    }
}

/// The tokens that a value spans spell the value.
pub proof fn lemma_value_at_spelling(tokens: Seq<TokenView>, pos: int)
    ensures
        value_at(tokens, pos) matches Ok((value, len)) ==> len == value_tokens(value).len()
            && spells_at(tokens, pos, value_tokens(value)),
    decreases tokens.len() - pos, 0nat,
{
    if let Ok((value, len)) = value_at(tokens, pos) {
        let wanted = value_tokens(value);
        match tokens[pos] {
            TokenView::LeftBrace => {
                if peek(tokens, pos + 1) == Some(TokenView::RightBrace) {
                    assert(members_tokens(Seq::empty()) =~= Seq::empty());
                } else {
                    lemma_members_at_spelling(tokens, pos + 1);
                    let members = value->Object_0;
                    let closed = members_tokens(members) + seq![TokenView::RightBrace];
                    assert forall|k: int| 0 <= k < wanted.len() implies canonical_token(
                        tokens[pos + k],
                    ) == #[trigger] wanted[k] by {
                        if k > 0 {
                            assert(wanted[k] == closed[k - 1]);
                            assert(tokens[pos + 1 + (k - 1)] == tokens[pos + k]);
                        }
                    }
                }
            },
            TokenView::LeftBracket => {
                if peek(tokens, pos + 1) == Some(TokenView::RightBracket) {
                    assert(elements_tokens(Seq::empty()) =~= Seq::empty());
                } else {
                    lemma_elements_at_spelling(tokens, pos + 1);
                    let items = value->Array_0;
                    let closed = elements_tokens(items) + seq![TokenView::RightBracket];
                    assert forall|k: int| 0 <= k < wanted.len() implies canonical_token(
                        tokens[pos + k],
                    ) == #[trigger] wanted[k] by {
                        if k > 0 {
                            assert(wanted[k] == closed[k - 1]);
                            assert(tokens[pos + 1 + (k - 1)] == tokens[pos + k]);
                        }
                    }
                }
            },
            _ => {},
        }
    }
}

/// The tokens that the members of an object span, with its closing brace,
/// spell the members and the brace.
pub proof fn lemma_members_at_spelling(tokens: Seq<TokenView>, pos: int)
    ensures
        members_at(tokens, pos) matches Ok((members, len)) ==> members.len() > 0 && len
            == members_tokens(members).len() + 1 && spells_at(
            tokens,
            pos,
            members_tokens(members) + seq![TokenView::RightBrace],
        ),
    decreases tokens.len() - pos, 1nat,
{
    if let Ok((members, len)) = members_at(tokens, pos) {
        let key = tokens[pos]->StringLiteral_0;
        lemma_value_at_spelling(tokens, pos + 2);
        let (value, n) = value_at(tokens, pos + 2)->Ok_0;
        let own = value_tokens(value);
        let head = seq![TokenView::StringLiteral(key), TokenView::Colon];
        let wanted = members_tokens(members) + seq![TokenView::RightBrace];
        assert(members[0] == (key, value));
        if tokens[pos + 2 + n] == TokenView::Comma {
            lemma_members_at_spelling(tokens, pos + 3 + n);
            let (rest, m) = members_at(tokens, pos + 3 + n)->Ok_0;
            let rest_wanted = members_tokens(rest) + seq![TokenView::RightBrace];
            assert(members.drop_first() =~= rest);
            assert(members_tokens(members) == head + own + seq![TokenView::Comma]
                + members_tokens(rest));
            assert forall|k: int| 0 <= k < wanted.len() implies canonical_token(
                tokens[pos + k],
            ) == #[trigger] wanted[k] by {
                if 2 <= k < 2 + n {
                    assert(wanted[k] == own[k - 2]);
                    assert(tokens[pos + 2 + (k - 2)] == tokens[pos + k]);
                } else if k > 2 + n {
                    assert(wanted[k] == rest_wanted[k - 3 - n]);
                    assert(tokens[pos + 3 + n + (k - 3 - n)] == tokens[pos + k]);
                }
            }
        } else {
            assert(members =~= seq![(key, value)]);
            assert(members_tokens(members) == head + own);
            assert forall|k: int| 0 <= k < wanted.len() implies canonical_token(
                tokens[pos + k],
            ) == #[trigger] wanted[k] by {
                if 2 <= k < 2 + n {
                    assert(wanted[k] == own[k - 2]);
                    assert(tokens[pos + 2 + (k - 2)] == tokens[pos + k]);
                }
            }
        }
    }
}

/// The tokens that the elements of an array span, with its closing
/// bracket, spell the elements and the bracket.
pub proof fn lemma_elements_at_spelling(tokens: Seq<TokenView>, pos: int)
    ensures
        elements_at(tokens, pos) matches Ok((items, len)) ==> items.len() > 0 && len
            == elements_tokens(items).len() + 1 && spells_at(
            tokens,
            pos,
            elements_tokens(items) + seq![TokenView::RightBracket],
        ),
    decreases tokens.len() - pos, 1nat,
{
    if let Ok((items, len)) = elements_at(tokens, pos) {
        lemma_value_at_spelling(tokens, pos);
        let (value, n) = value_at(tokens, pos)->Ok_0;
        let own = value_tokens(value);
        let wanted = elements_tokens(items) + seq![TokenView::RightBracket];
        assert(items[0] == value);
        if tokens[pos + n] == TokenView::Comma {
            lemma_elements_at_spelling(tokens, pos + 1 + n);
            let (rest, m) = elements_at(tokens, pos + 1 + n)->Ok_0;
            let rest_wanted = elements_tokens(rest) + seq![TokenView::RightBracket];
            assert(items.drop_first() =~= rest);
            assert(elements_tokens(items) == own + seq![TokenView::Comma] + elements_tokens(
                rest,
            ));
            assert forall|k: int| 0 <= k < wanted.len() implies canonical_token(
                tokens[pos + k],
            ) == #[trigger] wanted[k] by {
                if k < n {
                    assert(wanted[k] == own[k]);
                } else if k > n {
                    assert(wanted[k] == rest_wanted[k - 1 - n]);
                    assert(tokens[pos + 1 + n + (k - 1 - n)] == tokens[pos + k]);
                }
            }
        } else {
            assert(items =~= seq![value]);
            assert(elements_tokens(items) == own);
            assert forall|k: int| 0 <= k < wanted.len() implies canonical_token(
                tokens[pos + k],
            ) == #[trigger] wanted[k] by {
                if k < n {
                    assert(wanted[k] == own[k]);
                }
            }
        }
    }
}

/// Tokens denote `value` exactly if they spell it, that is, if but for
/// the way in which integers are written they are the tokens of `value`,
/// and these denote `value`.
pub proof fn lemma_document_iff_spelling(tokens: Seq<TokenView>, value: ValueView)
    ensures
        document(tokens) == Ok::<ValueView, ParseErrorView>(value) <==> canonical(tokens)
            == value_tokens(value) && document(value_tokens(value)) == Ok::<
            ValueView,
            ParseErrorView,
        >(value),
{
    lemma_canonical_value_at(tokens, 0);
    assert(canonical(tokens).len() == tokens.len());
    if document(tokens) == Ok::<ValueView, ParseErrorView>(value) {
        lemma_value_at_spelling(tokens, 0);
        assert(canonical(tokens) =~= value_tokens(value));
    }
}

} // verus!
