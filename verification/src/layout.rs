//! How tokens stand in a text: each as its lexeme, with whitespace around.
use crate::chars::{
    all_of, lemma_run_len, lemma_run_len_is, number_chars, spec_is_number_char,
    spec_is_whitespace, string_chars, whitespace,
};
use crate::error::LexError;
use crate::lexical::{
    false_word, has_word_at, lemma_token_at_span, lemma_tokens_from_step, null_word, token_at,
    token_start, tokens, tokens_from, true_word,
};
use crate::token::TokenView;
use vstd::prelude::*;

verus! {

/// Whether the lexer can find `token` in a text: the content of a string
/// literal holds no quote, and a number literal is made of digits and
/// points, at least one.
pub open spec fn is_lexable(token: TokenView) -> bool {
    match token {
        TokenView::StringLiteral(content) => all_of(content, string_chars()),
        TokenView::NumberLiteral(text) => text.len() > 0 && all_of(text, number_chars()),
        _ => true,
    }
}

/// Whether every token of `tokens` is lexable.
pub open spec fn all_lexable(tokens: Seq<TokenView>) -> bool {
    forall|i: int| 0 <= i < tokens.len() ==> is_lexable(#[trigger] tokens[i])
}

/// The characters that stand for `token` in a text.
pub open spec fn lexeme(token: TokenView) -> Seq<char> {
    match token {
        TokenView::StringLiteral(content) => seq!['"'] + content + seq!['"'],
        TokenView::NumberLiteral(text) => text,
        TokenView::LeftBrace => seq!['{'],
        TokenView::RightBrace => seq!['}'],
        TokenView::LeftBracket => seq!['['],
        TokenView::RightBracket => seq![']'],
        TokenView::Colon => seq![':'],
        TokenView::Comma => seq![','],
        TokenView::True => true_word(),
        TokenView::False => false_word(),
        TokenView::Null => null_word(),
    }
}

/// The text in which `tokens` stand in order, with `gaps[0]` before the
/// first, `gaps[i]` between token `i - 1` and token `i`, and the last gap
/// behind the last token.
pub open spec fn layout(tokens: Seq<TokenView>, gaps: Seq<Seq<char>>) -> Seq<char>
    recommends
        gaps.len() == tokens.len() + 1,
    decreases tokens.len(),
{
    if tokens.len() == 0 {
        gaps[0]
    } else {
        gaps[0] + lexeme(tokens[0]) + layout(tokens.drop_first(), gaps.drop_first())
    }
}

/// Whether `gaps` are as many as `layout` takes for `tokens`, and hold
/// whitespace only.
pub open spec fn is_spacing(tokens: Seq<TokenView>, gaps: Seq<Seq<char>>) -> bool {
    &&& gaps.len() == tokens.len() + 1
    &&& forall|i: int| 0 <= i < gaps.len() ==> all_of(#[trigger] gaps[i], whitespace())
}

/// Whether two number literals stand side by side at `i` and `i + 1`.
pub open spec fn numbers_touch_at(tokens: Seq<TokenView>, i: int) -> bool {
    0 <= i && i + 1 < tokens.len() && tokens[i] is NumberLiteral && tokens[i + 1] is NumberLiteral
}

/// Whether `gaps` keep apart the number literals of `tokens` that stand
/// side by side: without whitespace between them the two would read as
/// one literal.
pub open spec fn keeps_numbers_apart(tokens: Seq<TokenView>, gaps: Seq<Seq<char>>) -> bool {
    forall|i: int| #[trigger] numbers_touch_at(tokens, i) ==> gaps[i + 1].len() > 0
}

/// The gaps without whitespace: as many as `layout` takes for `count`
/// tokens, each empty.
pub open spec fn no_gaps(count: nat) -> Seq<Seq<char>> {
    Seq::new(count + 1, |i: int| Seq::<char>::empty())
}

/// A lexeme is not empty and starts with a character that is not
/// whitespace; only that of a number literal starts with a digit or a
/// point.
pub proof fn lemma_lexeme_head(token: TokenView)
    requires
        is_lexable(token),
    ensures
        lexeme(token).len() > 0,
        !spec_is_whitespace(lexeme(token)[0]),
        !(token is NumberLiteral) ==> !spec_is_number_char(lexeme(token)[0]),
{
    match token {
        TokenView::NumberLiteral(text) => {
            assert(number_chars()(text[0]));
        },
        _ => {},
    }
}

/// Where the lexeme of a lexable token stands at `start`, and a number
/// literal is not followed by a digit or a point, the token at `start` is
/// that token and spans its lexeme.
pub proof fn lemma_token_at_lexeme(text: Seq<char>, start: int, token: TokenView)
    requires
        is_lexable(token),
        0 <= start,
        start + lexeme(token).len() <= text.len(),
        text.subrange(start, start + lexeme(token).len()) == lexeme(token),
        token is NumberLiteral ==> start + lexeme(token).len() == text.len()
            || !spec_is_number_char(text[start + lexeme(token).len()]),
    ensures
        token_at(text, start) == Ok::<(TokenView, nat), LexError>((token, lexeme(token).len())),
{
    let word = lexeme(token);
    let len = word.len() as int;
    lemma_lexeme_head(token);
    assert forall|i: int| 0 <= i < len implies text[start + i] == #[trigger] word[i] by {
        assert(text.subrange(start, start + len)[i] == text[start + i]);
    }
    assert(text[start] == word[0]);
    match token {
        TokenView::StringLiteral(content) => {
            let n = content.len() as int;
            assert forall|i: int| start + 1 <= i < start + 1 + n implies string_chars()(
                #[trigger] text[i],
            ) by {
                assert(text[i] == word[i - start]);
                assert(word[i - start] == content[i - start - 1]);
            }
            assert(text[start + 1 + n] == word[1 + n]);
            lemma_run_len_is(text, start + 1, string_chars(), n as nat);
            assert(text.subrange(start + 1, start + 1 + n) =~= content) by {
                assert forall|i: int| 0 <= i < n implies text.subrange(
                    start + 1,
                    start + 1 + n,
                )[i] == content[i] by {
                    assert(text[start + (i + 1)] == word[i + 1]);
                    assert(word[i + 1] == content[i]);
                }
            }
        },
        TokenView::NumberLiteral(digits) => {
            let n = digits.len();
            assert forall|i: int| start <= i < start + n implies number_chars()(
                #[trigger] text[i],
            ) by {
                assert(text[i] == word[i - start]);
            }
            lemma_run_len_is(text, start, number_chars(), n);
        },
        TokenView::True => {
            assert(has_word_at(text, start, true_word()));
        },
        TokenView::False => {
            assert(text[start] == 'f');
            assert(has_word_at(text, start, false_word()));
            if has_word_at(text, start, true_word()) {
                assert(text.subrange(start, start + 4)[0] == 't');
            }
        },
        TokenView::Null => {
            assert(text[start] == 'n');
            assert(has_word_at(text, start, null_word()));
            if has_word_at(text, start, true_word()) {
                assert(text.subrange(start, start + 4)[0] == 't');
            }
            if has_word_at(text, start, false_word()) {
                assert(text.subrange(start, start + 5)[0] == 'f');
            }
        },
        _ => {},
    }
}

/// Where `tokens` are laid out in `text` from `pos` on, lexable, with
/// whitespace for gaps and some of it between number literals that stand
/// side by side, they are the tokens of `text` from `pos`.
pub proof fn lemma_layout_tokens_from(
    text: Seq<char>,
    pos: int,
    tokens: Seq<TokenView>,
    gaps: Seq<Seq<char>>,
)
    requires
        0 <= pos <= text.len(),
        text.skip(pos) == layout(tokens, gaps),
        all_lexable(tokens),
        is_spacing(tokens, gaps),
        keeps_numbers_apart(tokens, gaps),
    ensures
        tokens_from(text, pos) == Ok::<Seq<TokenView>, LexError>(tokens),
    decreases tokens.len(),
{
    let gap = gaps[0];
    let tail = text.skip(pos);
    assert(all_of(gap, whitespace()));
    assert forall|i: int| 0 <= i < tail.len() implies text[pos + i] == #[trigger] tail[i] by {}
    lemma_tokens_from_step(text, pos);
    if tokens.len() == 0 {
        assert forall|i: int| pos <= i < pos + gap.len() implies whitespace()(
            #[trigger] text[i],
        ) by {
            assert(text[i] == tail[i - pos]);
        }
        lemma_run_len_is(text, pos, whitespace(), gap.len());
        assert(tokens =~= Seq::empty());
    } else {
        let token = tokens[0];
        let word = lexeme(token);
        let rest = tokens.drop_first();
        let rest_gaps = gaps.drop_first();
        let rest_text = layout(rest, rest_gaps);
        let start = pos + gap.len();
        let next = start + word.len();
        lemma_lexeme_head(token);
        assert(tail == gap + word + rest_text);
        assert(tail.len() == gap.len() + word.len() + rest_text.len());
        assert forall|i: int| pos <= i < start implies whitespace()(#[trigger] text[i]) by {
            assert(text[i] == tail[i - pos]);
            assert(tail[i - pos] == gap[i - pos]);
        }
        assert(text[start] == tail[gap.len() as int]);
        assert(tail[gap.len() as int] == word[0]);
        lemma_run_len_is(text, pos, whitespace(), gap.len());
        assert(token_start(text, pos) == start);
        assert(text.subrange(start, next) =~= word) by {
            assert forall|i: int| 0 <= i < word.len() implies text.subrange(start, next)[i]
                == word[i] by {
                assert(text[start + i] == tail[gap.len() + i]);
            }
        }
        assert(text.skip(next) =~= rest_text) by {
            assert forall|i: int| 0 <= i < rest_text.len() implies text.skip(next)[i]
                == rest_text[i] by {
                assert(text[next + i] == tail[gap.len() + word.len() + i]);
            }
        }
        assert(all_lexable(rest)) by {
            assert forall|i: int| 0 <= i < rest.len() implies is_lexable(#[trigger] rest[i]) by {
                assert(rest[i] == tokens[i + 1]);
            }
        }
        assert(is_spacing(rest, rest_gaps)) by {
            assert forall|i: int| 0 <= i < rest_gaps.len() implies all_of(
                #[trigger] rest_gaps[i],
                whitespace(),
            ) by {
                assert(rest_gaps[i] == gaps[i + 1]);
            }
        }
        assert(keeps_numbers_apart(rest, rest_gaps)) by {
            assert forall|i: int| #[trigger] numbers_touch_at(rest, i) implies rest_gaps[i
                + 1].len() > 0 by {
                assert(numbers_touch_at(tokens, i + 1));
                assert(rest_gaps[i + 1] == gaps[i + 2]);
            }
        }
        if token is NumberLiteral && next < text.len() {
            let after = rest_gaps[0];
            assert(after == gaps[1]);
            assert(all_of(after, whitespace()));
            assert(text[next] == rest_text[0]);
            if after.len() > 0 {
                assert(rest_text[0] == after[0]);
                assert(whitespace()(after[0]));
            } else {
                assert(rest.len() > 0);
                assert(!numbers_touch_at(tokens, 0));
                assert(rest[0] == tokens[1]);
                lemma_lexeme_head(rest[0]);
                assert(rest_text[0] == lexeme(rest[0])[0]);
            }
        }
        lemma_token_at_lexeme(text, start, token);
        lemma_layout_tokens_from(text, next, rest, rest_gaps);
        assert(seq![token] + rest =~= tokens);
    }
}

/// The tokens of a layout are the tokens laid out.
pub proof fn lemma_layout_tokens(tokens: Seq<TokenView>, gaps: Seq<Seq<char>>)
    requires
        all_lexable(tokens),
        is_spacing(tokens, gaps),
        keeps_numbers_apart(tokens, gaps),
    ensures
        crate::lexical::tokens(layout(tokens, gaps)) == Ok::<Seq<TokenView>, LexError>(tokens),
{
    let text = layout(tokens, gaps);
    assert(text.skip(0) =~= text);
    lemma_layout_tokens_from(text, 0, tokens, gaps);
}

/// The whitespace of `text` from `pos` on: what stands before each token
/// and behind the last.
pub open spec fn gaps_from(text: Seq<char>, pos: int) -> Seq<Seq<char>>
    decreases text.len() - pos,
{
    let start = token_start(text, pos);
    let gap = text.subrange(pos, start);
    if 0 <= pos && start < text.len() {
        match token_at(text, start) {
            Ok((token, len)) => {
                proof {
                    lemma_token_at_span(text, start);
                }
                seq![gap] + gaps_from(text, start + len)
            },
            Err(e) => seq![gap],
        }
    } else {
        seq![gap]
    }
}

/// The whitespace of a whole text.
pub open spec fn gaps(text: Seq<char>) -> Seq<Seq<char>> {
    gaps_from(text, 0)
}

/// The token that starts at `start` is lexable, and its lexeme is what
/// stands in the text over its span.
pub proof fn lemma_token_at_is_lexeme(text: Seq<char>, start: int)
    requires
        0 <= start < text.len(),
    ensures
        token_at(text, start) matches Ok((token, len)) ==> is_lexable(token) && 0 < len && start
            + len <= text.len() && lexeme(token) == text.subrange(start, start + len),
{
    lemma_token_at_span(text, start);
    if let Ok((token, len)) = token_at(text, start) {
        let span = text.subrange(start, start + len);
        assert(span[0] == text[start]);
        match token {
            TokenView::StringLiteral(content) => {
                let n = content.len() as int;
                lemma_run_len(text, start + 1, string_chars());
                assert forall|i: int| 0 <= i < n implies string_chars()(#[trigger] content[i]) by {
                    assert(content[i] == text[start + 1 + i]);
                }
                assert(span[n + 1] == text[start + 1 + n]);
                assert(lexeme(token) =~= span);
            },
            TokenView::NumberLiteral(digits) => {
                lemma_run_len(text, start, number_chars());
                assert forall|i: int| 0 <= i < digits.len() implies number_chars()(
                    #[trigger] digits[i],
                ) by {
                    assert(digits[i] == text[start + i]);
                }
            },
            TokenView::True | TokenView::False | TokenView::Null => {},
            _ => {
                assert(lexeme(token) =~= span);
            },
        }
    }
}

/// A text that has tokens is their layout, with its own whitespace for
/// gaps; and the tokens are lexable.
pub proof fn lemma_text_is_layout_from(text: Seq<char>, pos: int)
    requires
        0 <= pos <= text.len(),
        tokens_from(text, pos) is Ok,
    ensures
        all_lexable(tokens_from(text, pos)->Ok_0),
        is_spacing(tokens_from(text, pos)->Ok_0, gaps_from(text, pos)),
        keeps_numbers_apart(tokens_from(text, pos)->Ok_0, gaps_from(text, pos)),
        layout(tokens_from(text, pos)->Ok_0, gaps_from(text, pos)) == text.skip(pos),
    decreases text.len() - pos,
{
    let found = tokens_from(text, pos)->Ok_0;
    let spaces = gaps_from(text, pos);
    let start = token_start(text, pos);
    let gap = text.subrange(pos, start);
    lemma_tokens_from_step(text, pos);
    lemma_run_len(text, pos, whitespace());
    assert(all_of(gap, whitespace())) by {
        assert forall|i: int| 0 <= i < gap.len() implies whitespace()(#[trigger] gap[i]) by {
            assert(gap[i] == text[pos + i]);
        }
    }
    if start == text.len() {
        assert(found =~= Seq::empty());
        assert(spaces =~= seq![gap]);
        assert(gap =~= text.skip(pos));
    } else {
        lemma_token_at_is_lexeme(text, start);
        let (token, len) = token_at(text, start)->Ok_0;
        let next = start + len;
        let rest = tokens_from(text, next)->Ok_0;
        let rest_spaces = gaps_from(text, next);
        lemma_text_is_layout_from(text, next);
        assert(found == seq![token] + rest);
        assert(spaces == seq![gap] + rest_spaces);
        assert(found.drop_first() =~= rest);
        assert(spaces.drop_first() =~= rest_spaces);
        assert(gap + text.subrange(start, next) + text.skip(next) =~= text.skip(pos));
        assert forall|i: int| 0 <= i < found.len() implies is_lexable(#[trigger] found[i]) by {
            if i > 0 {
                assert(found[i] == rest[i - 1]);
            }
        }
        assert forall|i: int| 0 <= i < spaces.len() implies all_of(
            #[trigger] spaces[i],
            whitespace(),
        ) by {
            if i > 0 {
                assert(spaces[i] == rest_spaces[i - 1]);
            }
        }
        assert forall|i: int| #[trigger] numbers_touch_at(found, i) implies spaces[i + 1].len()
            > 0 by {
            assert(found[i + 1] == rest[i]);
            assert(spaces[i + 1] == rest_spaces[i]);
            if i > 0 {
                assert(found[i] == rest[i - 1]);
                assert(numbers_touch_at(rest, i - 1));
            } else {
                lemma_run_len(text, start, number_chars());
                lemma_tokens_from_step(text, next);
                assert(spec_is_number_char(text[token_start(text, next)]));
            }
        }
    }
}

/// A text that has tokens is their layout, with its own whitespace for
/// gaps; the tokens are lexable, and whitespace stands between number
/// literals that stand side by side.
pub proof fn lemma_text_is_layout(text: Seq<char>)
    requires
        tokens(text) is Ok,
    ensures
        is_layout_of(text, tokens(text)->Ok_0, gaps(text)),
{
    lemma_text_is_layout_from(text, 0);
    assert(text.skip(0) =~= text);
}

/// Whether `text` is `found` laid out with the whitespace `spaces`, in a
/// way that the lexer reads back: the tokens lexable, and number literals
/// kept apart.
pub open spec fn is_layout_of(text: Seq<char>, found: Seq<TokenView>, spaces: Seq<Seq<char>>)
    -> bool {
    &&& all_lexable(found)
    &&& is_spacing(found, spaces)
    &&& keeps_numbers_apart(found, spaces)
    &&& layout(found, spaces) == text
}

/// A text has the tokens `found` exactly if it is a layout of them.
pub proof fn lemma_tokens_iff_layout(text: Seq<char>, found: Seq<TokenView>)
    ensures
        tokens(text) == Ok::<Seq<TokenView>, LexError>(found) <==> exists|spaces: Seq<Seq<char>>|
            #[trigger] is_layout_of(text, found, spaces),
{
    if tokens(text) == Ok::<Seq<TokenView>, LexError>(found) {
        lemma_text_is_layout(text);
        assert(is_layout_of(text, found, gaps(text)));
    }
    if exists|spaces: Seq<Seq<char>>| #[trigger] is_layout_of(text, found, spaces) {
        let spaces = choose|spaces: Seq<Seq<char>>| #[trigger] is_layout_of(text, found, spaces);
        lemma_layout_tokens(found, spaces);
    }
}

} // verus!
