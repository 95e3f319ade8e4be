//! What the lexeme of each kind of token looks like, and that operators and
//! words are never cut short.

use vstd::prelude::*;
use crate::lexical::{
    followed_by, is_digit, is_word_char, lemma_run_end, lemma_step_advances, number_end, operator,
    punctuation, run_end, spans, spans_from, step_at, word_kind, Run, Span, Step,
};
use crate::token::TokenType;
use crate::walk::{
    emitted, lemma_emit_shape, lemma_spans_in_order, opening, reached_token_is_found, reaches,
};

verus! {

/// The kinds of an operator character that stands alone.
pub open spec fn is_single_operator(kind: TokenType) -> bool {
    kind == TokenType::Equal || kind == TokenType::Bang || kind == TokenType::Less || kind
        == TokenType::Greater
}

/// The kinds of an operator character taken together with the `=` after it.
pub open spec fn is_combined_operator(kind: TokenType) -> bool {
    kind == TokenType::EqualEqual || kind == TokenType::BangEqual || kind == TokenType::LessEqual
        || kind == TokenType::GreaterEqual
}

/// The kinds that a word can have: `Identifier` and the keywords.
pub open spec fn is_word_kind(kind: TokenType) -> bool {
    kind == TokenType::Identifier || kind == TokenType::And || kind == TokenType::Class || kind
        == TokenType::Else || kind == TokenType::False || kind == TokenType::For || kind
        == TokenType::Fun || kind == TokenType::If || kind == TokenType::Nil || kind
        == TokenType::Or || kind == TokenType::Print || kind == TokenType::Return || kind
        == TokenType::Super || kind == TokenType::This || kind == TokenType::True || kind
        == TokenType::Var || kind == TokenType::While
}

/// An operator and the `=` after it are one token. If the scan reaches an
/// operator character that `=` follows directly, the step there emits the
/// combined kind over both characters; and if the scan succeeds, that token
/// is among those found, at the index returned.
pub proof fn operator_takes_the_equals_sign(src: Seq<char>, at: int, line: nat) -> (k: int)
    requires
        spans(src) is Ok,
        0 <= at < src.len(),
        reaches(src, at, line),
        operator(src[at]) is Some,
        followed_by(src, at, '='),
    ensures
        step_at(src, at) == (Step::Emit {
            kind: operator(src[at])->Some_0.1,
            start: at,
            end: at + 2,
            next: at + 2,
        }),
        0 <= k < spans(src)->Ok_0.len(),
        spans(src)->Ok_0[k] == (Span {
            kind: operator(src[at])->Some_0.1,
            start: at,
            end: at + 2,
            line,
        }),
{
    reached_token_is_found(src, at, line)
}

/// What the step at `i` emits, if its kind is an operator's, is built on
/// the operator character at `i`: alone if no `=` follows, with the `=` if
/// one does.
proof fn lemma_operator_step(src: Seq<char>, i: int)
    requires
        0 <= i < src.len(),
    ensures
        match step_at(src, i) {
            Step::Emit { kind, start, end, next } => {
                &&& is_combined_operator(kind) ==> {
                    &&& start == i
                    &&& end == i + 2 <= src.len()
                    &&& operator(src[i]) is Some
                    &&& operator(src[i])->Some_0.1 == kind
                    &&& src[i + 1] == '='
                }
                &&& is_single_operator(kind) ==> {
                    &&& start == i
                    &&& end == i + 1
                    &&& operator(src[i]) is Some
                    &&& operator(src[i])->Some_0.0 == kind
                    &&& !followed_by(src, i, '=')
                }
            },
            _ => true,
        },
{
}

/// A token of a combined kind spans an operator character and the `=`
/// after it.
proof fn lemma_combined_span(src: Seq<char>, span: Span)
    requires
        emitted(src, span),
        is_combined_operator(span.kind),
    ensures
        0 <= span.start,
        span.end == span.start + 2 <= src.len(),
        operator(src[span.start]) is Some,
        operator(src[span.start])->Some_0.1 == span.kind,
        src[span.start + 1] == '=',
{
    lemma_operator_step(src, opening(span));
}

/// A token of a single operator kind spans one operator character that no
/// `=` follows.
proof fn lemma_single_span(src: Seq<char>, span: Span)
    requires
        emitted(src, span),
        is_single_operator(span.kind),
    ensures
        0 <= span.start,
        span.end == span.start + 1 <= src.len(),
        operator(src[span.start]) is Some,
        operator(src[span.start])->Some_0.0 == span.kind,
        !followed_by(src, span.start, '='),
{
    lemma_operator_step(src, opening(span));
}

/// The token that begins where a single operator ends does not begin with
/// `=`.
proof fn lemma_no_equals_after(src: Seq<char>, single: Span, following: Span)
    requires
        emitted(src, single),
        emitted(src, following),
        is_single_operator(single.kind),
        following.start == single.end,
    ensures
        src[following.start] != '=',
{
    lemma_single_span(src, single);
    assert(following.start < src.len()) by {
        lemma_step_advances(src, opening(following));
    }
}

/// Combined operators are never split. In a scan that succeeds, a token of
/// a combined kind spans an operator character and the `=` after it; a
/// token of a single operator kind spans one operator character that no `=`
/// follows, so the token that comes directly after it, if any, does not
/// begin with `=`.
pub proof fn combined_operators_are_one_token(src: Seq<char>)
    requires
        spans(src) is Ok,
    ensures
        ({
            let found = spans(src)->Ok_0;
            &&& forall|k: int|
                0 <= k < found.len() && is_combined_operator((#[trigger] found[k]).kind) ==> {
                    &&& 0 <= found[k].start
                    &&& found[k].end == found[k].start + 2 <= src.len()
                    &&& operator(src[found[k].start]) is Some
                    &&& operator(src[found[k].start])->Some_0.1 == found[k].kind
                    &&& src[found[k].start + 1] == '='
                }
            &&& forall|k: int|
                0 <= k < found.len() && is_single_operator((#[trigger] found[k]).kind) ==> {
                    &&& 0 <= found[k].start
                    &&& found[k].end == found[k].start + 1 <= src.len()
                    &&& operator(src[found[k].start]) is Some
                    &&& operator(src[found[k].start])->Some_0.0 == found[k].kind
                    &&& !followed_by(src, found[k].start, '=')
                }
            &&& forall|k: int|
                0 <= k && k + 1 < found.len() && is_single_operator((#[trigger] found[k]).kind)
                    && found[k + 1].start == found[k].end ==> src[found[k + 1].start] != '='
        }),
{
    let found = spans(src)->Ok_0;
    assert forall|k: int| 0 <= k < found.len() implies emitted(src, #[trigger] found[k]) by {
        lemma_spans_in_order(src, 0, 1);
    }
    assert forall|k: int| 0 <= k < found.len() && is_combined_operator(
        (#[trigger] found[k]).kind,
    ) implies {
        &&& 0 <= found[k].start
        &&& found[k].end == found[k].start + 2 <= src.len()
        &&& operator(src[found[k].start]) is Some
        &&& operator(src[found[k].start])->Some_0.1 == found[k].kind
        &&& src[found[k].start + 1] == '='
    } by {
        lemma_combined_span(src, found[k]);
    }
    assert forall|k: int| 0 <= k < found.len() && is_single_operator(
        (#[trigger] found[k]).kind,
    ) implies {
        &&& 0 <= found[k].start
        &&& found[k].end == found[k].start + 1 <= src.len()
        &&& operator(src[found[k].start]) is Some
        &&& operator(src[found[k].start])->Some_0.0 == found[k].kind
        &&& !followed_by(src, found[k].start, '=')
    } by {
        lemma_single_span(src, found[k]);
    }
    assert forall|k: int|
        0 <= k && k + 1 < found.len() && is_single_operator((#[trigger] found[k]).kind) && found[k
            + 1].start == found[k].end implies src[found[k + 1].start] != '=' by {
        lemma_no_equals_after(src, found[k], found[k + 1]);
    }
}

/// No word runs across the boundary `i`: the characters on its two sides
/// are not both word characters.
pub open spec fn splits_no_word(src: Seq<char>, i: int) -> bool {
    !(0 < i < src.len() && is_word_char(src[i - 1]) && is_word_char(src[i]))
}

/// A step that begins at a boundary leaves off at a boundary that splits no
/// word.
proof fn lemma_step_splits_no_word(src: Seq<char>, i: int)
    requires
        0 <= i < src.len(),
    ensures
        match step_at(src, i) {
            Step::Skip { next } => splits_no_word(src, next),
            Step::LineBreak { next } => splits_no_word(src, next),
            Step::Emit { next, .. } => splits_no_word(src, next),
            Step::Fail { .. } => true,
        },
{
    lemma_run_end(src, i, Run::Comment);
    lemma_run_end(src, i + 1, Run::StringBody);
    lemma_run_end(src, i, Run::Digits);
    lemma_run_end(src, i, Run::Word);
    let whole = run_end(src, i, Run::Digits);
    lemma_run_end(src, whole, Run::Fraction);
    if is_digit(src[i]) {
        let end = number_end(src, i);
        assert(Run::Digits.admits(src[end - 1]) || Run::Fraction.admits(src[end - 1]));
    }
}

/// Every token of the scan from a boundary that splits no word opens at
/// such a boundary.
proof fn lemma_openings_split_no_word(src: Seq<char>, i: int, line: nat)
    requires
        0 <= i <= src.len(),
        splits_no_word(src, i),
        spans_from(src, i, line) is Ok,
    ensures
        ({
            let found = spans_from(src, i, line)->Ok_0;
            forall|k: int| 0 <= k < found.len() ==> splits_no_word(src, opening(#[trigger] found[k]))
        }),
    decreases src.len() - i,
{
    if i < src.len() {
        lemma_step_advances(src, i);
        lemma_emit_shape(src, i);
        lemma_step_splits_no_word(src, i);
        match step_at(src, i) {
            Step::Skip { next } => {
                lemma_openings_split_no_word(src, next, line);
            },
            Step::LineBreak { next } => {
                lemma_openings_split_no_word(src, next, line + 1);
            },
            Step::Emit { kind, start, end, next } => {
                lemma_openings_split_no_word(src, next, line);
                let first = Span { kind, start, end, line };
                let rest = spans_from(src, next, line)->Ok_0;
                let found = spans_from(src, i, line)->Ok_0;
                assert(found == seq![first] + rest);
                assert forall|k: int| 0 <= k < found.len() implies splits_no_word(
                    src,
                    opening(#[trigger] found[k]),
                ) by {
                    if k > 0 {
                        assert(found[k] == rest[k - 1]);
                    }
                }
            },
            Step::Fail { .. } => {},
        }
    }
}

/// What the step at `i` emits, if its kind is a word's, is the whole run
/// of word characters from `i`, under the kind that the run spells.
proof fn lemma_word_step(src: Seq<char>, i: int)
    requires
        0 <= i < src.len(),
    ensures
        match step_at(src, i) {
            Step::Emit { kind, start, end, next } => is_word_kind(kind) ==> {
                &&& i == start < end <= src.len()
                &&& forall|p: int| start <= p < end ==> is_word_char(#[trigger] src[p])
                &&& end == src.len() || !is_word_char(src[end])
                &&& kind == word_kind(src.subrange(start, end))
            },
            _ => true,
        },
{
    lemma_run_end(src, i, Run::Word);
}

/// A token of a word's kind that opens at a boundary which splits no word
/// spans a run of word characters that cannot be made longer.
proof fn lemma_word_span(src: Seq<char>, span: Span)
    requires
        emitted(src, span),
        is_word_kind(span.kind),
        splits_no_word(src, opening(span)),
    ensures
        0 <= span.start < span.end <= src.len(),
        forall|p: int| span.start <= p < span.end ==> is_word_char(#[trigger] src[p]),
        span.start == 0 || !is_word_char(src[span.start - 1]),
        span.end == src.len() || !is_word_char(src[span.end]),
        span.kind == word_kind(src.subrange(span.start, span.end)),
{
    lemma_word_step(src, opening(span));
}

/// Words are taken whole, and keywords exactly. In a scan that succeeds, a
/// token whose kind is a keyword or `Identifier` spans a run of word
/// characters that cannot be made longer on either side, and its kind is
/// the keyword that the whole run spells, or `Identifier` if it spells
/// none.
pub proof fn words_are_whole(src: Seq<char>)
    requires
        spans(src) is Ok,
    ensures
        ({
            let found = spans(src)->Ok_0;
            forall|k: int|
                0 <= k < found.len() && is_word_kind((#[trigger] found[k]).kind) ==> {
                    &&& 0 <= found[k].start < found[k].end <= src.len()
                    &&& forall|p: int|
                        found[k].start <= p < found[k].end ==> is_word_char(#[trigger] src[p])
                    &&& found[k].start == 0 || !is_word_char(src[found[k].start - 1])
                    &&& found[k].end == src.len() || !is_word_char(src[found[k].end])
                    &&& found[k].kind == word_kind(src.subrange(found[k].start, found[k].end))
                }
        }),
{
    let found = spans(src)->Ok_0;
    assert forall|k: int| 0 <= k < found.len() implies emitted(src, #[trigger] found[k])
        && splits_no_word(src, opening(found[k])) by {
        lemma_spans_in_order(src, 0, 1);
        lemma_openings_split_no_word(src, 0, 1);
    }
    assert forall|k: int| 0 <= k < found.len() && is_word_kind((#[trigger] found[k]).kind) implies {
        &&& 0 <= found[k].start < found[k].end <= src.len()
        &&& forall|p: int| found[k].start <= p < found[k].end ==> is_word_char(#[trigger] src[p])
        &&& found[k].start == 0 || !is_word_char(src[found[k].start - 1])
        &&& found[k].end == src.len() || !is_word_char(src[found[k].end])
        &&& found[k].kind == word_kind(src.subrange(found[k].start, found[k].end))
    } by {
        lemma_word_span(src, found[k]);
    }
}

/// A word that the scan reaches is one token. If the scan reaches a word
/// character and succeeds, the whole run of word characters from there is
/// one of the tokens found, at the index returned, and its kind is the
/// keyword that the run spells, or `Identifier` if it spells none.
pub proof fn reached_word_is_one_token(src: Seq<char>, at: int, line: nat) -> (k: int)
    requires
        spans(src) is Ok,
        0 <= at < src.len(),
        reaches(src, at, line),
        is_word_char(src[at]),
    ensures
        0 <= k < spans(src)->Ok_0.len(),
        spans(src)->Ok_0[k] == (Span {
            kind: word_kind(src.subrange(at, run_end(src, at, Run::Word))),
            start: at,
            end: run_end(src, at, Run::Word),
            line,
        }),
{
    reached_token_is_found(src, at, line)
}

/// Whether `kind` is the kind of a punctuation mark other than `/`.
pub open spec fn is_punctuation(kind: TokenType) -> bool {
    kind == TokenType::Plus || kind == TokenType::Minus || kind == TokenType::Star || kind
        == TokenType::Semicolon || kind == TokenType::Comma || kind == TokenType::Dot || kind
        == TokenType::LeftParen || kind == TokenType::RightParen || kind == TokenType::LeftBrace
        || kind == TokenType::RightBrace
}

/// What the step at `i` emits, if it is a punctuation mark, a string or a
/// number, has the lexeme that its kind calls for.
proof fn lemma_literal_step(src: Seq<char>, i: int)
    requires
        0 <= i < src.len(),
    ensures
        match step_at(src, i) {
            Step::Emit { kind, start, end, next } => {
                &&& is_punctuation(kind) ==> start == i && end == i + 1 && punctuation(src[i])
                    == Some(kind)
                &&& kind == TokenType::Slash ==> start == i && end == i + 1 && src[i] == '/'
                    && !followed_by(src, i, '/')
                &&& kind == TokenType::String ==> {
                    &&& i + 1 == start <= end < src.len()
                    &&& src[i] == '"'
                    &&& src[end] == '"'
                    &&& forall|p: int| start <= p < end ==> #[trigger] src[p] != '"'
                }
                &&& kind == TokenType::Number ==> {
                    &&& i == start < end <= src.len()
                    &&& is_digit(src[start])
                    &&& forall|p: int|
                        start <= p < end ==> is_digit(#[trigger] src[p]) || src[p] == '.'
                    &&& end < src.len() ==> !is_digit(src[end])
                    &&& end < src.len() && src[end] == '.' ==> !(end + 1 < src.len() && is_digit(
                        src[end + 1],
                    ))
                }
            },
            _ => true,
        },
{
    lemma_run_end(src, i + 1, Run::StringBody);
    lemma_run_end(src, i, Run::Digits);
    let whole = run_end(src, i, Run::Digits);
    lemma_run_end(src, whole, Run::Fraction);
}

/// A punctuation token spans the one character that is its mark.
proof fn lemma_punctuation_span(src: Seq<char>, span: Span)
    requires
        emitted(src, span),
        is_punctuation(span.kind) || span.kind == TokenType::Slash,
    ensures
        0 <= span.start < src.len(),
        span.end == span.start + 1,
        is_punctuation(span.kind) ==> punctuation(src[span.start]) == Some(span.kind),
        span.kind == TokenType::Slash ==> src[span.start] == '/' && !followed_by(
            src,
            span.start,
            '/',
        ),
{
    lemma_literal_step(src, opening(span));
}

/// Punctuation is one character. In a scan that succeeds, a punctuation
/// token spans the one character that is its mark, and a `Slash` spans a
/// `/` that no second `/` follows.
pub proof fn punctuation_is_one_character(src: Seq<char>)
    requires
        spans(src) is Ok,
    ensures
        ({
            let found = spans(src)->Ok_0;
            forall|k: int|
                0 <= k < found.len() && (is_punctuation((#[trigger] found[k]).kind) || found[k].kind
                    == TokenType::Slash) ==> {
                    &&& 0 <= found[k].start < src.len()
                    &&& found[k].end == found[k].start + 1
                    &&& is_punctuation(found[k].kind) ==> punctuation(src[found[k].start]) == Some(
                        found[k].kind,
                    )
                    &&& found[k].kind == TokenType::Slash ==> src[found[k].start] == '/'
                        && !followed_by(src, found[k].start, '/')
                }
        }),
{
    let found = spans(src)->Ok_0;
    assert forall|k: int| 0 <= k < found.len() implies emitted(src, #[trigger] found[k]) by {
        lemma_spans_in_order(src, 0, 1);
    }
    assert forall|k: int|
        0 <= k < found.len() && (is_punctuation((#[trigger] found[k]).kind) || found[k].kind
            == TokenType::Slash) implies {
        &&& 0 <= found[k].start < src.len()
        &&& found[k].end == found[k].start + 1
        &&& is_punctuation(found[k].kind) ==> punctuation(src[found[k].start]) == Some(
            found[k].kind,
        )
        &&& found[k].kind == TokenType::Slash ==> src[found[k].start] == '/' && !followed_by(
            src,
            found[k].start,
            '/',
        )
    } by {
        lemma_punctuation_span(src, found[k]);
    }
}

/// A string token lies between two quotes and holds none.
proof fn lemma_string_span(src: Seq<char>, span: Span)
    requires
        emitted(src, span),
        span.kind == TokenType::String,
    ensures
        0 < span.start <= span.end < src.len(),
        src[span.start - 1] == '"',
        src[span.end] == '"',
        forall|p: int| span.start <= p < span.end ==> #[trigger] src[p] != '"',
{
    lemma_literal_step(src, opening(span));
}

/// Strings lie between two quotes. In a scan that succeeds, the lexeme of a
/// `String` token holds no double quote, and a double quote stands directly
/// before it and directly after it.
pub proof fn strings_lie_between_quotes(src: Seq<char>)
    requires
        spans(src) is Ok,
    ensures
        ({
            let found = spans(src)->Ok_0;
            forall|k: int|
                0 <= k < found.len() && (#[trigger] found[k]).kind == TokenType::String ==> {
                    &&& 0 < found[k].start <= found[k].end < src.len()
                    &&& src[found[k].start - 1] == '"'
                    &&& src[found[k].end] == '"'
                    &&& forall|p: int| found[k].start <= p < found[k].end ==> #[trigger] src[p] != '"'
                }
        }),
{
    let found = spans(src)->Ok_0;
    assert forall|k: int| 0 <= k < found.len() implies emitted(src, #[trigger] found[k]) by {
        lemma_spans_in_order(src, 0, 1);
    }
    assert forall|k: int| 0 <= k < found.len() && (#[trigger] found[k]).kind
        == TokenType::String implies {
        &&& 0 < found[k].start <= found[k].end < src.len()
        &&& src[found[k].start - 1] == '"'
        &&& src[found[k].end] == '"'
        &&& forall|p: int| found[k].start <= p < found[k].end ==> #[trigger] src[p] != '"'
    } by {
        lemma_string_span(src, found[k]);
    }
}

/// A number token begins with a digit, holds digits and dots, and stops
/// where neither a digit nor a dot before a digit follows.
proof fn lemma_number_span(src: Seq<char>, span: Span)
    requires
        emitted(src, span),
        span.kind == TokenType::Number,
    ensures
        0 <= span.start < span.end <= src.len(),
        is_digit(src[span.start]),
        forall|p: int| span.start <= p < span.end ==> is_digit(#[trigger] src[p]) || src[p] == '.',
        span.end < src.len() ==> !is_digit(src[span.end]),
        span.end < src.len() && src[span.end] == '.' ==> !(span.end + 1 < src.len() && is_digit(
            src[span.end + 1],
        )),
{
    lemma_literal_step(src, opening(span));
}

/// Numbers are digits and dots. In a scan that succeeds, the lexeme of a
/// `Number` token begins with a digit and holds digits and dots only; no
/// digit follows it directly, and if a dot does, no digit follows that dot.
pub proof fn numbers_are_digits_and_dots(src: Seq<char>)
    requires
        spans(src) is Ok,
    ensures
        ({
            let found = spans(src)->Ok_0;
            forall|k: int|
                0 <= k < found.len() && (#[trigger] found[k]).kind == TokenType::Number ==> {
                    let start = found[k].start;
                    let end = found[k].end;
                    &&& 0 <= start < end <= src.len()
                    &&& is_digit(src[start])
                    &&& forall|p: int|
                        start <= p < end ==> is_digit(#[trigger] src[p]) || src[p] == '.'
                    &&& end < src.len() ==> !is_digit(src[end])
                    &&& end < src.len() && src[end] == '.' ==> !(end + 1 < src.len() && is_digit(
                        src[end + 1],
                    ))
                }
        }),
{
    let found = spans(src)->Ok_0;
    assert forall|k: int| 0 <= k < found.len() implies emitted(src, #[trigger] found[k]) by {
        lemma_spans_in_order(src, 0, 1);
    }
    assert forall|k: int| 0 <= k < found.len() && (#[trigger] found[k]).kind
        == TokenType::Number implies {
        let start = found[k].start;
        let end = found[k].end;
        &&& 0 <= start < end <= src.len()
        &&& is_digit(src[start])
        &&& forall|p: int| start <= p < end ==> is_digit(#[trigger] src[p]) || src[p] == '.'
        &&& end < src.len() ==> !is_digit(src[end])
        &&& end < src.len() && src[end] == '.' ==> !(end + 1 < src.len() && is_digit(
            src[end + 1],
        ))
    } by {
        lemma_number_span(src, found[k]);
    }
}

} // verus!
