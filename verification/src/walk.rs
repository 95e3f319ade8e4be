//! How a scan moves through the source: from boundary to boundary, one
//! step at a time. The definitions here say where a token opens and closes
//! and which boundaries a scan comes to; the theorems tie the tokens a scan
//! finds to the steps it takes.

use vstd::prelude::*;
use crate::lexical::{lemma_step_advances, spans, spans_from, step_at, Span, Step};
use crate::token::TokenType;

verus! {

/// The boundary at which the token of `span` begins: the opening quote of a
/// string, the first character of anything else.
pub open spec fn opening(span: Span) -> int {
    if span.kind == TokenType::String {
        span.start - 1
    } else {
        span.start
    }
}

/// The boundary that follows the token of `span`: the position after the
/// closing quote of a string, after the last character of anything else.
pub open spec fn closing(span: Span) -> int {
    if span.kind == TokenType::String {
        span.end + 1
    } else {
        span.end
    }
}

/// `span` is what the step at its opening emits.
pub open spec fn emitted(src: Seq<char>, span: Span) -> bool {
    &&& 0 <= opening(span) < src.len()
    &&& step_at(src, opening(span)) == Step::Emit {
        kind: span.kind,
        start: span.start,
        end: span.end,
        next: closing(span),
    }
}

/// Whether the scan that stands at the boundary `i` on line `line` comes to
/// stand at the boundary `at` on line `at_line`, with no fault on the way.
pub open spec fn arrives(src: Seq<char>, i: int, line: nat, at: int, at_line: nat) -> bool
    decreases src.len() - i,
    via arrives_decreases
{
    if i == at {
        line == at_line
    } else if 0 <= i < at && i < src.len() {
        match step_at(src, i) {
            Step::Skip { next } => arrives(src, next, line, at, at_line),
            Step::LineBreak { next } => arrives(src, next, line + 1, at, at_line),
            Step::Emit { next, .. } => arrives(src, next, line, at, at_line),
            Step::Fail { .. } => false,
        }
    } else {
        false
    }
}

#[via_fn]
proof fn arrives_decreases(src: Seq<char>, i: int, line: nat, at: int, at_line: nat) {
    if 0 <= i < src.len() {
        lemma_step_advances(src, i);
    }
}

/// Whether the scan of the whole source comes to stand at the boundary
/// `at` on line `line`.
pub open spec fn reaches(src: Seq<char>, at: int, line: nat) -> bool {
    arrives(src, 0, 1, at, line)
}

/// Only the step at a double quote emits a string, and it alone leaves the
/// two quotes out of the lexeme: what a step emits opens where the step
/// begins and closes where it leaves off.
pub(crate) proof fn lemma_emit_shape(src: Seq<char>, i: int)
    requires
        0 <= i < src.len(),
    ensures
        match step_at(src, i) {
            Step::Emit { kind, start, end, next } => {
                let span = Span { kind, start, end, line: 1 };
                opening(span) == i && closing(span) == next
            },
            _ => true,
        },
{
}

/// Every span of the scan from `i` is emitted by a step at or after `i`, on
/// a line at or after `line`; the spans do not overlap, and neither their
/// positions nor their lines ever go back.
pub(crate) proof fn lemma_spans_in_order(src: Seq<char>, i: int, line: nat)
    requires
        0 <= i <= src.len(),
        spans_from(src, i, line) is Ok,
    ensures
        ({
            let found = spans_from(src, i, line)->Ok_0;
            &&& forall|k: int|
                0 <= k < found.len() ==> emitted(src, #[trigger] found[k]) && i <= opening(
                    found[k],
                ) && line <= found[k].line
            &&& forall|j: int, k: int|
                0 <= j < k < found.len() ==> closing(#[trigger] found[j]) <= opening(
                    #[trigger] found[k],
                ) && found[j].line <= found[k].line
        }),
    decreases src.len() - i,
{
    if i < src.len() {
        lemma_step_advances(src, i);
        lemma_emit_shape(src, i);
        match step_at(src, i) {
            Step::Skip { next } => {
                lemma_spans_in_order(src, next, line);
            },
            Step::LineBreak { next } => {
                lemma_spans_in_order(src, next, line + 1);
            },
            Step::Emit { kind, start, end, next } => {
                lemma_spans_in_order(src, next, line);
                let first = Span { kind, start, end, line };
                let rest = spans_from(src, next, line)->Ok_0;
                let found = spans_from(src, i, line)->Ok_0;
                assert(found == seq![first] + rest);
                assert forall|k: int| 0 <= k < found.len() implies emitted(
                    src,
                    #[trigger] found[k],
                ) && i <= opening(found[k]) && line <= found[k].line by {
                    if k > 0 {
                        assert(found[k] == rest[k - 1]);
                    }
                }
                assert forall|j: int, k: int| 0 <= j < k < found.len() implies closing(
                    #[trigger] found[j],
                ) <= opening(#[trigger] found[k]) && found[j].line <= found[k].line by {
                    assert(found[k] == rest[k - 1]);
                    if j > 0 {
                        assert(found[j] == rest[j - 1]);
                    }
                }
            },
            Step::Fail { .. } => {},
        }
    }
}

/// The scan from `i` arrives at the opening of each token it finds, on that
/// token's line.
proof fn lemma_openings_are_reached(src: Seq<char>, i: int, line: nat)
    requires
        0 <= i <= src.len(),
        spans_from(src, i, line) is Ok,
    ensures
        ({
            let found = spans_from(src, i, line)->Ok_0;
            forall|k: int|
                0 <= k < found.len() ==> arrives(
                    src,
                    i,
                    line,
                    opening(#[trigger] found[k]),
                    found[k].line,
                )
        }),
    decreases src.len() - i,
{
    if i < src.len() {
        lemma_step_advances(src, i);
        lemma_emit_shape(src, i);
        match step_at(src, i) {
            Step::Skip { next } => {
                lemma_openings_are_reached(src, next, line);
                lemma_spans_in_order(src, next, line);
            },
            Step::LineBreak { next } => {
                lemma_openings_are_reached(src, next, line + 1);
                lemma_spans_in_order(src, next, line + 1);
            },
            Step::Emit { kind, start, end, next } => {
                lemma_openings_are_reached(src, next, line);
                lemma_spans_in_order(src, next, line);
                let first = Span { kind, start, end, line };
                let rest = spans_from(src, next, line)->Ok_0;
                let found = spans_from(src, i, line)->Ok_0;
                assert(found == seq![first] + rest);
                assert forall|k: int| 0 <= k < found.len() implies arrives(
                    src,
                    i,
                    line,
                    opening(#[trigger] found[k]),
                    found[k].line,
                ) by {
                    if k > 0 {
                        assert(found[k] == rest[k - 1]);
                    }
                }
            },
            Step::Fail { .. } => {},
        }
    }
}

/// Every token is one step of the scan. In a scan that succeeds, the scan
/// reaches the opening of each token on that token's line, and the token is
/// what the step there emits.
pub proof fn every_token_is_one_step(src: Seq<char>)
    requires
        spans(src) is Ok,
    ensures
        ({
            let found = spans(src)->Ok_0;
            forall|k: int|
                0 <= k < found.len() ==> reaches(src, opening(#[trigger] found[k]), found[k].line)
                    && emitted(src, found[k])
        }),
{
    lemma_spans_in_order(src, 0, 1);
    lemma_openings_are_reached(src, 0, 1);
}

/// A scan fails where it arrives if and only if it fails where it set out,
/// and then with the same failure.
pub(crate) proof fn lemma_arrival_decides(src: Seq<char>, i: int, line: nat, at: int, at_line: nat)
    requires
        0 <= i <= src.len(),
        arrives(src, i, line, at, at_line),
    ensures
        spans_from(src, i, line) is Err <==> spans_from(src, at, at_line) is Err,
        spans_from(src, i, line) is Err ==> spans_from(src, i, line) == spans_from(
            src,
            at,
            at_line,
        ),
    decreases src.len() - i,
{
    if i != at {
        lemma_step_advances(src, i);
        match step_at(src, i) {
            Step::Skip { next } => {
                lemma_arrival_decides(src, next, line, at, at_line);
            },
            Step::LineBreak { next } => {
                lemma_arrival_decides(src, next, line + 1, at, at_line);
            },
            Step::Emit { next, .. } => {
                lemma_arrival_decides(src, next, line, at, at_line);
            },
            Step::Fail { .. } => {},
        }
    }
}

/// What the scan finds from where it arrives is the tail of what it finds
/// from where it set out: all but the first `n` spans.
proof fn lemma_arrival_keeps_the_rest(
    src: Seq<char>,
    i: int,
    line: nat,
    at: int,
    at_line: nat,
) -> (n: int)
    requires
        0 <= i <= src.len(),
        arrives(src, i, line, at, at_line),
        spans_from(src, i, line) is Ok,
    ensures
        spans_from(src, at, at_line) is Ok,
        0 <= n <= spans_from(src, i, line)->Ok_0.len(),
        spans_from(src, at, at_line)->Ok_0 == spans_from(src, i, line)->Ok_0.skip(n),
    decreases src.len() - i,
{
    let found = spans_from(src, i, line)->Ok_0;
    if i == at {
        assert(found.skip(0) =~= found);
        0
    } else {
        lemma_step_advances(src, i);
        match step_at(src, i) {
            Step::Skip { next } => lemma_arrival_keeps_the_rest(src, next, line, at, at_line),
            Step::LineBreak { next } => lemma_arrival_keeps_the_rest(
                src,
                next,
                line + 1,
                at,
                at_line,
            ),
            Step::Emit { kind, start, end, next } => {
                let m = lemma_arrival_keeps_the_rest(src, next, line, at, at_line);
                let first = Span { kind, start, end, line };
                let rest = spans_from(src, next, line)->Ok_0;
                assert(found == seq![first] + rest);
                assert(found.skip(m + 1) =~= rest.skip(m));
                m + 1
            },
            Step::Fail { .. } => 0,
        }
    }
}

/// Every step that emits is a token. In a scan that succeeds, if the scan
/// reaches a boundary on some line and the step there emits, then what it
/// emits, with that line, is among the spans found, at the index returned.
pub proof fn reached_token_is_found(src: Seq<char>, at: int, line: nat) -> (k: int)
    requires
        spans(src) is Ok,
        0 <= at < src.len(),
        reaches(src, at, line),
        step_at(src, at) is Emit,
    ensures
        0 <= k < spans(src)->Ok_0.len(),
        spans(src)->Ok_0[k] == (Span {
            kind: step_at(src, at)->kind,
            start: step_at(src, at)->start,
            end: step_at(src, at)->end,
            line,
        }),
{
    let n = lemma_arrival_keeps_the_rest(src, 0, 1, at, line);
    let found = spans(src)->Ok_0;
    let tail = spans_from(src, at, line)->Ok_0;
    assert(tail.len() > 0 && tail[0] == found[n]) by {
        assert(tail == found.skip(n));
        match step_at(src, at) {
            Step::Emit { kind, start, end, next } => {
                let rest = spans_from(src, next, line)->Ok_0;
                assert(tail == seq![Span { kind, start, end, line }] + rest);
            },
            _ => {},
        }
    }
    n
}

} // verus!
