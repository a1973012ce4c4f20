//! The minimal text of a value: its tokens, with nothing between them.
//! Read back, that text denotes the value.
use crate::chars::{
    all_of, digits, number_chars, spec_digit_char, spec_digit_value, spec_is_digit, string_chars,
};
use crate::decimal::{is_decimal_literal, lemma_points_contains};
use crate::document::document_of;
use crate::error::{JsonErrorView, LexError, ParseErrorView};
use crate::grammar::{document, elements_at, members_at, peek, value_at};
use crate::layout::{
    all_lexable, is_lexable, is_spacing, layout, lemma_layout_tokens, lemma_text_is_layout,
    no_gaps,
};
use crate::lexical::tokens;
use crate::number::{digits_value, is_integer_literal};
use crate::shape::lemma_document_numbers_apart;
use crate::token::TokenView;
use crate::value::ValueView;
use vstd::prelude::*;

verus! {

/// The digits of `n` in base ten, without leading zeros.
pub open spec fn decimal_digits(n: nat) -> Seq<char>
    decreases n,
{
    if n < 10 {
        seq![spec_digit_char(n)]
    } else {
        decimal_digits(n / 10).push(spec_digit_char(n % 10))
    }
}

/// The tokens that denote `value`.
pub open spec fn value_tokens(value: ValueView) -> Seq<TokenView>
    decreases value,
{
    match value {
        ValueView::Object(members) => seq![TokenView::LeftBrace] + members_tokens(members)
            + seq![TokenView::RightBrace],
        ValueView::Array(items) => seq![TokenView::LeftBracket] + elements_tokens(items)
            + seq![TokenView::RightBracket],
        ValueView::String(s) => seq![TokenView::StringLiteral(s)],
        ValueView::Int(n) => seq![TokenView::NumberLiteral(decimal_digits(n as nat))],
        ValueView::Float(text) => seq![TokenView::NumberLiteral(text)],
        ValueView::Bool(b) => seq![
            if b {
                TokenView::True
            } else {
                TokenView::False
            },
        ],
        ValueView::Null => seq![TokenView::Null],
    }
}

/// The tokens between the braces of an object: each member as its key, a
/// colon and its value, with a comma between two members.
pub open spec fn members_tokens(members: Seq<(Seq<char>, ValueView)>) -> Seq<TokenView>
    decreases members,
{
    if members.len() == 0 {
        Seq::empty()
    } else {
        let first = seq![TokenView::StringLiteral(members[0].0), TokenView::Colon] + value_tokens(
            members[0].1,
        );
        if members.len() == 1 {
            first
        } else {
            first + seq![TokenView::Comma] + members_tokens(members.drop_first())
        }
    }
}

/// The tokens between the brackets of an array: each element, with a
/// comma between two elements.
pub open spec fn elements_tokens(items: Seq<ValueView>) -> Seq<TokenView>
    decreases items,
{
    if items.len() == 0 {
        Seq::empty()
    } else if items.len() == 1 {
        value_tokens(items[0])
    } else {
        value_tokens(items[0]) + seq![TokenView::Comma] + elements_tokens(items.drop_first())
    }
}

/// Whether `value` has a text that reads back as it: no string and no
/// key holds a quote, every `Int` is within `0..=i32::MAX`, and every
/// `Float` is a decimal literal.
pub open spec fn is_renderable(value: ValueView) -> bool
    decreases value,
{
    match value {
        ValueView::Object(members) => forall|i: int|
            0 <= i < members.len() ==> all_of((#[trigger] members[i]).0, string_chars())
                && is_renderable(members[i].1),
        ValueView::Array(items) => forall|i: int|
            0 <= i < items.len() ==> is_renderable(#[trigger] items[i]),
        ValueView::String(s) => all_of(s, string_chars()),
        ValueView::Int(n) => 0 <= n <= i32::MAX,
        ValueView::Float(text) => is_decimal_literal(text),
        ValueView::Bool(_) => true,
        ValueView::Null => true,
    }
}

/// The minimal text of `value`: the lexemes of its tokens in a row.
pub open spec fn render(value: ValueView) -> Seq<char> {
    layout(value_tokens(value), no_gaps(value_tokens(value).len()))
}

/// An object is renderable exactly if no key holds a quote and every
/// member's value is renderable.
pub proof fn lemma_renderable_object(members: Seq<(Seq<char>, ValueView)>)
    ensures
        is_renderable(ValueView::Object(members)) <==> forall|i: int|
            0 <= i < members.len() ==> all_of((#[trigger] members[i]).0, string_chars())
                && is_renderable(members[i].1),
{
    assert(ValueView::Object(members)->Object_0 == members);
}

/// An array is renderable exactly if every element is.
pub proof fn lemma_renderable_array(items: Seq<ValueView>)
    ensures
        is_renderable(ValueView::Array(items)) <==> forall|i: int|
            0 <= i < items.len() ==> is_renderable(#[trigger] items[i]),
{
    assert(ValueView::Array(items)->Array_0 == items);
}

/// The digits of `n` are an integer literal that denotes `n`.
pub proof fn lemma_decimal_digits(n: nat)
    ensures
        is_integer_literal(decimal_digits(n)),
        digits_value(decimal_digits(n)) == n,
        !decimal_digits(n).contains('.'),
    decreases n,
{
    let text = decimal_digits(n);
    let last = spec_digit_char(n % 10);
    assert(spec_is_digit(last) && spec_digit_value(last) == n % 10);
    if n < 10 {
        assert(text.drop_last() =~= Seq::empty());
        assert(digits_value(text.drop_last()) == 0);
        assert(text.last() == last);
    } else {
        lemma_decimal_digits(n / 10);
        assert(text.drop_last() =~= decimal_digits(n / 10));
        assert(text.last() == last);
        assert forall|i: int| 0 <= i < text.len() implies digits()(#[trigger] text[i]) by {
            if i < text.len() - 1 {
                assert(text[i] == decimal_digits(n / 10)[i]);
            }
        }
    }
    if text.contains('.') {
        let i = choose|i: int| 0 <= i < text.len() && text[i] == '.';
        assert(digits()(text[i]));
    }
}

/// Two sequences of lexable tokens in a row are lexable.
pub proof fn lemma_all_lexable_concat(a: Seq<TokenView>, b: Seq<TokenView>)
    requires
        all_lexable(a),
        all_lexable(b),
    ensures
        all_lexable(a + b),
{
    assert forall|i: int| 0 <= i < (a + b).len() implies is_lexable(#[trigger] (a + b)[i]) by {
        if i < a.len() {
            assert((a + b)[i] == a[i]);
        } else {
            assert((a + b)[i] == b[i - a.len()]);
        }
    }
}

/// The tokens of a renderable value are lexable.
pub proof fn lemma_value_tokens_lexable(value: ValueView)
    requires
        is_renderable(value),
    ensures
        all_lexable(value_tokens(value)),
    decreases value,
{
    match value {
        ValueView::Object(members) => {
            lemma_members_tokens_lexable(members);
            lemma_all_lexable_concat(seq![TokenView::LeftBrace], members_tokens(members));
            lemma_all_lexable_concat(
                seq![TokenView::LeftBrace] + members_tokens(members),
                seq![TokenView::RightBrace],
            );
        },
        ValueView::Array(items) => {
            lemma_elements_tokens_lexable(items);
            lemma_all_lexable_concat(seq![TokenView::LeftBracket], elements_tokens(items));
            lemma_all_lexable_concat(
                seq![TokenView::LeftBracket] + elements_tokens(items),
                seq![TokenView::RightBracket],
            );
        },
        ValueView::Int(n) => {
            lemma_decimal_digits(n as nat);
            let text = decimal_digits(n as nat);
            assert forall|i: int| 0 <= i < text.len() implies number_chars()(
                #[trigger] text[i],
            ) by {
                assert(digits()(text[i]));
            }
        },
        _ => {},
    }
}

/// The tokens of the members of a renderable object are lexable.
pub proof fn lemma_members_tokens_lexable(members: Seq<(Seq<char>, ValueView)>)
    requires
        is_renderable(ValueView::Object(members)),
    ensures
        all_lexable(members_tokens(members)),
    decreases members,
{
    lemma_renderable_object(members);
    if members.len() > 0 {
        let head = seq![TokenView::StringLiteral(members[0].0), TokenView::Colon];
        assert(is_renderable(members[0].1));
        lemma_value_tokens_lexable(members[0].1);
        lemma_all_lexable_concat(head, value_tokens(members[0].1));
        if members.len() > 1 {
            let rest = members.drop_first();
            assert forall|i: int| 0 <= i < rest.len() implies all_of(
                (#[trigger] rest[i]).0,
                string_chars(),
            ) && is_renderable(rest[i].1) by {
                assert(rest[i] == members[i + 1]);
            }
            lemma_renderable_object(rest);
            lemma_members_tokens_lexable(rest);
            lemma_all_lexable_concat(head + value_tokens(members[0].1), seq![TokenView::Comma]);
            lemma_all_lexable_concat(
                head + value_tokens(members[0].1) + seq![TokenView::Comma],
                members_tokens(rest),
            );
        }
    }
}

/// The tokens of the elements of a renderable array are lexable.
pub proof fn lemma_elements_tokens_lexable(items: Seq<ValueView>)
    requires
        is_renderable(ValueView::Array(items)),
    ensures
        all_lexable(elements_tokens(items)),
    decreases items,
{
    lemma_renderable_array(items);
    if items.len() > 0 {
        assert(is_renderable(items[0]));
        lemma_value_tokens_lexable(items[0]);
        if items.len() > 1 {
            let rest = items.drop_first();
            assert forall|i: int| 0 <= i < rest.len() implies is_renderable(
                #[trigger] rest[i],
            ) by {
                assert(rest[i] == items[i + 1]);
            }
            lemma_renderable_array(rest);
            lemma_elements_tokens_lexable(rest);
            lemma_all_lexable_concat(value_tokens(items[0]), seq![TokenView::Comma]);
            lemma_all_lexable_concat(
                value_tokens(items[0]) + seq![TokenView::Comma],
                elements_tokens(rest),
            );
        }
    }
}

/// Where the tokens of a renderable value stand from `pos` on, the value
/// at `pos` is that value and spans them.
pub proof fn lemma_value_tokens_parse(tokens: Seq<TokenView>, pos: int, value: ValueView)
    requires
        is_renderable(value),
        0 <= pos,
        pos + value_tokens(value).len() <= tokens.len(),
        tokens.subrange(pos, pos + value_tokens(value).len()) == value_tokens(value),
    ensures
        value_at(tokens, pos) == Ok::<(ValueView, nat), ParseErrorView>(
            (value, value_tokens(value).len()),
        ),
    decreases value,
{
    let own = value_tokens(value);
    let span = tokens.subrange(pos, pos + own.len());
    assert forall|i: int| 0 <= i < own.len() implies tokens[pos + i] == #[trigger] own[i] by {
        assert(span[i] == tokens[pos + i]);
    }
    assert(tokens[pos] == own[0]);
    match value {
        ValueView::Object(members) => {
            let inner = members_tokens(members);
            let closed = inner + seq![TokenView::RightBrace];
            assert(tokens[pos + 1] == own[1]);
            assert(own[1] == closed[0]);
            if members.len() == 0 {
                assert(members =~= Seq::empty());
            } else {
                assert(inner[0] == TokenView::StringLiteral(members[0].0));
                assert(tokens.subrange(pos + 1, pos + 1 + closed.len()) =~= closed) by {
                    assert forall|i: int| 0 <= i < closed.len() implies tokens[pos + 1 + i]
                        == closed[i] by {
                        assert(tokens[pos + (i + 1)] == own[i + 1]);
                    }
                }
                lemma_members_tokens_parse(tokens, pos + 1, members);
            }
        },
        ValueView::Array(items) => {
            let inner = elements_tokens(items);
            let closed = inner + seq![TokenView::RightBracket];
            assert(tokens[pos + 1] == own[1]);
            assert(own[1] == closed[0]);
            if items.len() == 0 {
                assert(items =~= Seq::empty());
            } else {
                lemma_elements_tokens_head(items);
                assert(tokens.subrange(pos + 1, pos + 1 + closed.len()) =~= closed) by {
                    assert forall|i: int| 0 <= i < closed.len() implies tokens[pos + 1 + i]
                        == closed[i] by {
                        assert(tokens[pos + (i + 1)] == own[i + 1]);
                    }
                }
                lemma_elements_tokens_parse(tokens, pos + 1, items);
            }
        },
        ValueView::Int(n) => {
            lemma_decimal_digits(n as nat);
        },
        ValueView::Float(text) => {
            lemma_points_contains(text);
        },
        _ => {},
    }
}

/// The tokens of a value are at least one, and the first is no closing
/// bracket.
pub proof fn lemma_value_tokens_head(value: ValueView)
    ensures
        value_tokens(value).len() > 0,
        value_tokens(value)[0] != TokenView::RightBracket,
{
}

/// The tokens of the elements of an array that is not empty are at least
/// one, and the first is no closing bracket.
pub proof fn lemma_elements_tokens_head(items: Seq<ValueView>)
    requires
        items.len() > 0,
    ensures
        elements_tokens(items).len() > 0,
        elements_tokens(items)[0] != TokenView::RightBracket,
{
    lemma_value_tokens_head(items[0]);
}

/// Where the tokens of the members of a renderable object and a closing
/// brace stand from `pos` on, the members at `pos` are those members and
/// span these tokens.
pub proof fn lemma_members_tokens_parse(
    tokens: Seq<TokenView>,
    pos: int,
    members: Seq<(Seq<char>, ValueView)>,
)
    requires
        members.len() > 0,
        is_renderable(ValueView::Object(members)),
        0 <= pos,
        pos + members_tokens(members).len() + 1 <= tokens.len(),
        tokens.subrange(pos, pos + members_tokens(members).len() + 1) == members_tokens(members)
            + seq![TokenView::RightBrace],
    ensures
        members_at(tokens, pos) == Ok::<(Seq<(Seq<char>, ValueView)>, nat), ParseErrorView>(
            (members, members_tokens(members).len() + 1),
        ),
    decreases members,
{
    let inner = members_tokens(members);
    let closed = inner + seq![TokenView::RightBrace];
    let span = tokens.subrange(pos, pos + closed.len());
    assert forall|i: int| 0 <= i < closed.len() implies tokens[pos + i] == #[trigger] closed[i] by {
        assert(span[i] == tokens[pos + i]);
    }
    let key = members[0].0;
    let value = members[0].1;
    let own = value_tokens(value);
    let n = own.len() as int;
    lemma_renderable_object(members);
    assert(is_renderable(value));
    assert(tokens[pos] == closed[0]);
    assert(tokens[pos + 1] == closed[1]);
    assert(tokens.subrange(pos + 2, pos + 2 + n) =~= own) by {
        assert forall|i: int| 0 <= i < n implies tokens[pos + 2 + i] == own[i] by {
            assert(tokens[pos + (i + 2)] == closed[i + 2]);
        }
    }
    lemma_value_tokens_parse(tokens, pos + 2, value);
    assert(tokens[pos + (2 + n)] == closed[2 + n]);
    if members.len() == 1 {
        assert(seq![(key, value)] =~= members);
    } else {
        let rest = members.drop_first();
        let rest_closed = members_tokens(rest) + seq![TokenView::RightBrace];
        assert forall|i: int| 0 <= i < rest.len() implies all_of(
            (#[trigger] rest[i]).0,
            string_chars(),
        ) && is_renderable(rest[i].1) by {
            assert(rest[i] == members[i + 1]);
        }
        assert(tokens.subrange(pos + 3 + n, pos + 3 + n + rest_closed.len()) =~= rest_closed) by {
            assert forall|i: int| 0 <= i < rest_closed.len() implies tokens[pos + 3 + n + i]
                == rest_closed[i] by {
                assert(tokens[pos + (i + 3 + n)] == closed[i + 3 + n]);
            }
        }
        lemma_renderable_object(rest);
        lemma_members_tokens_parse(tokens, pos + 3 + n, rest);
        assert(seq![(key, value)] + rest =~= members);
    }
}

/// Where the tokens of the elements of a renderable array and a closing
/// bracket stand from `pos` on, the elements at `pos` are those elements
/// and span these tokens.
pub proof fn lemma_elements_tokens_parse(tokens: Seq<TokenView>, pos: int, items: Seq<ValueView>)
    requires
        items.len() > 0,
        is_renderable(ValueView::Array(items)),
        0 <= pos,
        pos + elements_tokens(items).len() + 1 <= tokens.len(),
        tokens.subrange(pos, pos + elements_tokens(items).len() + 1) == elements_tokens(items)
            + seq![TokenView::RightBracket],
    ensures
        elements_at(tokens, pos) == Ok::<(Seq<ValueView>, nat), ParseErrorView>(
            (items, elements_tokens(items).len() + 1),
        ),
    decreases items,
{
    let inner = elements_tokens(items);
    let closed = inner + seq![TokenView::RightBracket];
    let span = tokens.subrange(pos, pos + closed.len());
    assert forall|i: int| 0 <= i < closed.len() implies tokens[pos + i] == #[trigger] closed[i] by {
        assert(span[i] == tokens[pos + i]);
    }
    let value = items[0];
    let own = value_tokens(value);
    let n = own.len() as int;
    lemma_renderable_array(items);
    assert(is_renderable(value));
    assert(tokens.subrange(pos, pos + n) =~= own) by {
        assert forall|i: int| 0 <= i < n implies tokens[pos + i] == own[i] by {
            assert(tokens[pos + i] == closed[i]);
        }
    }
    lemma_value_tokens_parse(tokens, pos, value);
    assert(tokens[pos + n] == closed[n]);
    if items.len() == 1 {
        assert(seq![value] =~= items);
    } else {
        let rest = items.drop_first();
        let rest_closed = elements_tokens(rest) + seq![TokenView::RightBracket];
        assert forall|i: int| 0 <= i < rest.len() implies is_renderable(#[trigger] rest[i]) by {
            assert(rest[i] == items[i + 1]);
        }
        assert(tokens.subrange(pos + 1 + n, pos + 1 + n + rest_closed.len()) =~= rest_closed) by {
            assert forall|i: int| 0 <= i < rest_closed.len() implies tokens[pos + 1 + n + i]
                == rest_closed[i] by {
                assert(tokens[pos + (i + 1 + n)] == closed[i + 1 + n]);
            }
        }
        lemma_renderable_array(rest);
        lemma_elements_tokens_parse(tokens, pos + 1 + n, rest);
        assert(seq![value] + rest =~= items);
    }
}

/// The tokens of a renderable value denote it.
pub proof fn lemma_value_tokens_denote(value: ValueView)
    requires
        is_renderable(value),
    ensures
        document(value_tokens(value)) == Ok::<ValueView, ParseErrorView>(value),
{
    let found = value_tokens(value);
    assert(found.subrange(0, found.len() as int) =~= found);
    lemma_value_tokens_parse(found, 0, value);
}

/// The minimal text of a renderable value reads back as the value: its
/// tokens are those of the value, and they denote it.
pub proof fn lemma_render_round_trip(value: ValueView)
    requires
        is_renderable(value),
    ensures
        tokens(render(value)) == Ok::<Seq<TokenView>, LexError>(value_tokens(value)),
        document_of(render(value)) == Ok::<ValueView, JsonErrorView>(value),
{
    let found = value_tokens(value);
    let spaces = no_gaps(found.len());
    lemma_value_tokens_denote(value);
    lemma_document_numbers_apart(found);
    lemma_value_tokens_lexable(value);
    assert(is_spacing(found, spaces));
    lemma_layout_tokens(found, spaces);
}

/// The value at `pos` among lexable tokens is renderable.
pub proof fn lemma_value_at_renderable(tokens: Seq<TokenView>, pos: int)
    requires
        all_lexable(tokens),
    ensures
        value_at(tokens, pos) matches Ok((value, _)) ==> is_renderable(value),
    decreases tokens.len() - pos, 0nat,
{
    match peek(tokens, pos) {
        Some(TokenView::LeftBrace) => {
            if peek(tokens, pos + 1) == Some(TokenView::RightBrace) {
                lemma_renderable_object(Seq::empty());
            } else {
                lemma_members_at_renderable(tokens, pos + 1);
            }
        },
        Some(TokenView::LeftBracket) => {
            if peek(tokens, pos + 1) == Some(TokenView::RightBracket) {
                lemma_renderable_array(Seq::empty());
            } else {
                lemma_elements_at_renderable(tokens, pos + 1);
            }
        },
        Some(token) => {
            assert(is_lexable(tokens[pos]));
        },
        None => {},
    }
}

/// The members at `pos` among lexable tokens make a renderable object.
pub proof fn lemma_members_at_renderable(tokens: Seq<TokenView>, pos: int)
    requires
        all_lexable(tokens),
    ensures
        members_at(tokens, pos) matches Ok((members, _)) ==> is_renderable(
            ValueView::Object(members),
        ),
    decreases tokens.len() - pos, 1nat,
{
    if let Ok((members, _)) = members_at(tokens, pos) {
        assert(is_lexable(tokens[pos]));
        lemma_value_at_renderable(tokens, pos + 2);
        let len = value_at(tokens, pos + 2)->Ok_0.1;
        if peek(tokens, pos + 2 + len) == Some(TokenView::Comma) {
            lemma_members_at_renderable(tokens, pos + 3 + len);
            let rest = members_at(tokens, pos + 3 + len)->Ok_0.0;
            lemma_renderable_object(rest);
            assert forall|i: int| 0 <= i < members.len() implies all_of(
                (#[trigger] members[i]).0,
                string_chars(),
            ) && is_renderable(members[i].1) by {
                if i > 0 {
                    assert(members[i] == rest[i - 1]);
                }
            }
        }
        lemma_renderable_object(members);
    }
}

/// The elements at `pos` among lexable tokens make a renderable array.
pub proof fn lemma_elements_at_renderable(tokens: Seq<TokenView>, pos: int)
    requires
        all_lexable(tokens),
    ensures
        elements_at(tokens, pos) matches Ok((items, _)) ==> is_renderable(ValueView::Array(items)),
    decreases tokens.len() - pos, 1nat,
{
    if let Ok((items, _)) = elements_at(tokens, pos) {
        lemma_value_at_renderable(tokens, pos);
        let len = value_at(tokens, pos)->Ok_0.1;
        if peek(tokens, pos + len) == Some(TokenView::Comma) {
            lemma_elements_at_renderable(tokens, pos + 1 + len);
            let rest = elements_at(tokens, pos + 1 + len)->Ok_0.0;
            lemma_renderable_array(rest);
            assert forall|i: int| 0 <= i < items.len() implies is_renderable(
                #[trigger] items[i],
            ) by {
                if i > 0 {
                    assert(items[i] == rest[i - 1]);
                }
            }
        }
        lemma_renderable_array(items);
    }
}

/// What a text denotes is renderable, and its minimal text denotes it
/// again.
pub proof fn lemma_read_render_read(text: Seq<char>)
    requires
        document_of(text) is Ok,
    ensures
        is_renderable(document_of(text)->Ok_0),
        document_of(render(document_of(text)->Ok_0)) == document_of(text),
{
    lemma_text_is_layout(text);
    lemma_value_at_renderable(tokens(text)->Ok_0, 0);
    lemma_render_round_trip(document_of(text)->Ok_0);
}

} // verus!
