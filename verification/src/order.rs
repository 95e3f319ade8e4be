//! Tokens come in source order, and their lines count the line breaks
//! between them.

use vstd::prelude::*;
use crate::lexical::{
    lemma_run_end, lemma_step_advances, scan, spans, spans_from, step_at, tokens_at, Run, Span,
    Step,
};
use crate::token::TokenView;
use crate::walk::{closing, emitted, lemma_emit_shape, lemma_spans_in_order, opening};

verus! {

/// Tokens follow the source. When a scan succeeds, each token's lexeme is
/// the piece of the source that its span marks; the spans lie within the
/// source, one after the other without overlap; and the lines start at 1
/// and never go back.
pub proof fn tokens_follow_the_source(src: Seq<char>)
    requires
        spans(src) is Ok,
    ensures
        ({
            let found = spans(src)->Ok_0;
            let tokens = tokens_at(src, found);
            &&& scan(src) == Ok::<Seq<TokenView>, Seq<char>>(tokens)
            &&& tokens.len() == found.len()
            &&& forall|k: int|
                #![trigger found[k]]
                #![trigger tokens[k]]
                0 <= k < found.len() ==> {
                    &&& 0 <= found[k].start <= found[k].end <= src.len()
                    &&& tokens[k].kind == found[k].kind
                    &&& tokens[k].lexeme == src.subrange(found[k].start, found[k].end)
                    &&& tokens[k].line == found[k].line
                    &&& tokens[k].line >= 1
                }
            &&& forall|j: int, k: int|
                0 <= j < k < found.len() ==> (#[trigger] found[j]).end <= (
                #[trigger] found[k]).start && found[j].line <= found[k].line
        }),
{
    lemma_spans_in_order(src, 0, 1);
    let found = spans(src)->Ok_0;
    assert forall|k: int| 0 <= k < found.len() implies 0 <= (#[trigger] found[k]).start
        <= found[k].end <= src.len() by {
        assert(emitted(src, found[k]));
        lemma_step_advances(src, opening(found[k]));
    }
    assert forall|j: int, k: int| 0 <= j < k < found.len() implies (#[trigger] found[j]).end <= (
    #[trigger] found[k]).start by {
        assert(closing(found[j]) <= opening(found[k]));
    }
}

/// How many line breaks the source holds from `from` up to `to`.
pub open spec fn line_breaks(src: Seq<char>, from: int, to: int) -> nat
    decreases to - from,
{
    if from >= to {
        0
    } else if src[from] == '\n' {
        1 + line_breaks(src, from + 1, to)
    } else {
        line_breaks(src, from + 1, to)
    }
}

/// The line breaks of two stretches that meet add up.
pub proof fn lemma_line_breaks_add(src: Seq<char>, from: int, mid: int, to: int)
    requires
        from <= mid <= to,
    ensures
        line_breaks(src, from, to) == line_breaks(src, from, mid) + line_breaks(src, mid, to),
    decreases mid - from,
{
    if from < mid {
        lemma_line_breaks_add(src, from + 1, mid, to);
    }
}

/// A stretch without a line break counts none.
pub proof fn lemma_line_breaks_none(src: Seq<char>, from: int, to: int)
    requires
        0 <= from <= to <= src.len(),
        forall|k: int| from <= k < to ==> src[k] != '\n',
    ensures
        line_breaks(src, from, to) == 0,
    decreases to - from,
{
    if from < to {
        lemma_line_breaks_none(src, from + 1, to);
    }
}

/// What a step that emits nothing passes over holds one line break if the
/// step is a line break, and none otherwise.
proof fn lemma_blank_line_breaks(src: Seq<char>, i: int)
    requires
        0 <= i < src.len(),
    ensures
        match step_at(src, i) {
            Step::Skip { next } => line_breaks(src, i, next) == 0,
            Step::LineBreak { next } => line_breaks(src, i, next) == 1,
            _ => true,
        },
{
    lemma_step_advances(src, i);
    match step_at(src, i) {
        Step::Skip { next } => {
            lemma_run_end(src, i, Run::Comment);
            lemma_line_breaks_none(src, i, next);
        },
        Step::LineBreak { next } => {
            lemma_line_breaks_none(src, i + 1, next);
        },
        _ => {},
    }
}

/// The first token of the scan from `i` is on the line that `line` and the
/// line breaks up to its opening give, and so is each later token with
/// respect to the token before it.
proof fn lemma_lines_count_breaks(src: Seq<char>, i: int, line: nat)
    requires
        0 <= i <= src.len(),
        spans_from(src, i, line) is Ok,
    ensures
        ({
            let found = spans_from(src, i, line)->Ok_0;
            &&& found.len() > 0 ==> found[0].line == line + line_breaks(
                src,
                i,
                opening(found[0]),
            )
            &&& forall|k: int|
                0 <= k && k + 1 < found.len() ==> (#[trigger] found[k + 1]).line == found[k].line
                    + line_breaks(src, closing(found[k]), opening(found[k + 1]))
        }),
    decreases src.len() - i,
{
    if i < src.len() {
        lemma_step_advances(src, i);
        lemma_emit_shape(src, i);
        lemma_blank_line_breaks(src, i);
        lemma_spans_in_order(src, i, line);
        match step_at(src, i) {
            Step::Skip { next } => {
                lemma_lines_count_breaks(src, next, line);
                let found = spans_from(src, i, line)->Ok_0;
                if found.len() > 0 {
                    lemma_spans_in_order(src, next, line);
                    lemma_line_breaks_add(src, i, next, opening(found[0]));
                }
            },
            Step::LineBreak { next } => {
                lemma_lines_count_breaks(src, next, line + 1);
                let found = spans_from(src, i, line)->Ok_0;
                if found.len() > 0 {
                    lemma_spans_in_order(src, next, line + 1);
                    lemma_line_breaks_add(src, i, next, opening(found[0]));
                }
            },
            Step::Emit { kind, start, end, next } => {
                lemma_lines_count_breaks(src, next, line);
                let first = Span { kind, start, end, line };
                let rest = spans_from(src, next, line)->Ok_0;
                let found = spans_from(src, i, line)->Ok_0;
                assert(found == seq![first] + rest);
                assert(found[0] == first);
                assert forall|k: int| 0 <= k && k + 1 < found.len() implies (
                #[trigger] found[k + 1]).line == found[k].line + line_breaks(
                    src,
                    closing(found[k]),
                    opening(found[k + 1]),
                ) by {
                    assert(found[k + 1] == rest[k]);
                    if k > 0 {
                        assert(found[k] == rest[k - 1]);
                        assert(rest[k - 1 + 1] == rest[k]);
                    }
                }
            },
            Step::Fail { .. } => {},
        }
    }
}

/// Lines count line breaks. The first token is on line 1 plus the line
/// breaks before it; each later token is on the line of the token before it
/// plus the line breaks between the two. A line break inside a string
/// literal lies between no two tokens and is not counted.
pub proof fn lines_count_line_breaks(src: Seq<char>)
    requires
        spans(src) is Ok,
    ensures
        ({
            let found = spans(src)->Ok_0;
            &&& found.len() > 0 ==> found[0].line == 1 + line_breaks(src, 0, opening(found[0]))
            &&& forall|k: int|
                0 <= k && k + 1 < found.len() ==> (#[trigger] found[k + 1]).line == found[k].line
                    + line_breaks(src, closing(found[k]), opening(found[k + 1]))
        }),
{
    lemma_lines_count_breaks(src, 0, 1);
}

} // verus!
