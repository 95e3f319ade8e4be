//! When a scan fails and when it does not: the first fault ends it, there
//! are two faults, and nothing else makes it fail.

use vstd::prelude::*;
use crate::decimal::decimal;
use crate::lexical::{
    is_digit, is_word_char, lemma_run_end, lemma_step_advances, message, operator, punctuation,
    run_end, scan, spans, spans_from, step_at, tokens_at, Failure, Fault, Run, Span, Step,
};
use crate::scanner::{is_scan_of, Errors};
use crate::token::{token_views, Token, TokenView};
use crate::walk::{arrives, lemma_arrival_decides, reaches};

verus! {

/// The first fault ends the scan. If the scan reaches a boundary where the
/// step fails, the whole scan fails with that fault and the line that was
/// current there, and yields the message that reports them.
pub proof fn first_fault_ends_the_scan(src: Seq<char>, at: int, line: nat)
    requires
        0 <= at < src.len(),
        reaches(src, at, line),
        step_at(src, at) is Fail,
    ensures
        spans(src) == Err::<Seq<Span>, Failure>(
            Failure { fault: step_at(src, at)->fault, line },
        ),
        scan(src) == Err::<Seq<TokenView>, Seq<char>>(
            message(Failure { fault: step_at(src, at)->fault, line }),
        ),
{
    lemma_arrival_decides(src, 0, 1, at, line);
}

/// The boundary at which the scan from `i` fails.
proof fn lemma_fault_position(src: Seq<char>, i: int, line: nat) -> (at: int)
    requires
        0 <= i <= src.len(),
        spans_from(src, i, line) is Err,
    ensures
        i <= at < src.len(),
        arrives(src, i, line, at, spans_from(src, i, line)->Err_0.line),
        step_at(src, at) == (Step::Fail { fault: spans_from(src, i, line)->Err_0.fault }),
    decreases src.len() - i,
{
    lemma_step_advances(src, i);
    match step_at(src, i) {
        Step::Skip { next } => lemma_fault_position(src, next, line),
        Step::LineBreak { next } => lemma_fault_position(src, next, line + 1),
        Step::Emit { next, .. } => lemma_fault_position(src, next, line),
        Step::Fail { .. } => i,
    }
}

/// A scan fails only at a fault. If the scan fails, it reached the boundary
/// returned on the line that the failure names, and the step there failed
/// with the fault that the failure names.
pub proof fn failed_scan_met_a_fault(src: Seq<char>) -> (at: int)
    requires
        spans(src) is Err,
    ensures
        0 <= at < src.len(),
        reaches(src, at, spans(src)->Err_0.line),
        step_at(src, at) == (Step::Fail { fault: spans(src)->Err_0.fault }),
{
    lemma_fault_position(src, 0, 1)
}

/// Whether `c` can stand at a token boundary: a blank, or the first
/// character of some token.
pub open spec fn is_supported(c: char) -> bool {
    c == '\n' || c == ' ' || punctuation(c) is Some || operator(c) is Some || c == '/' || c == '"'
        || is_digit(c) || is_word_char(c)
}

/// A string body that meets no double quote runs to the end of the source.
proof fn lemma_unclosed_runs_out(src: Seq<char>, from: int)
    requires
        0 <= from <= src.len(),
        forall|k: int| from <= k < src.len() ==> src[k] != '"',
    ensures
        run_end(src, from, Run::StringBody) == src.len(),
    decreases src.len() - from,
{
    if from < src.len() {
        lemma_unclosed_runs_out(src, from + 1);
    }
}

/// There are two faults. The step at a boundary fails exactly at a
/// character that is not supported, and at a double quote that no other
/// follows.
pub proof fn faults_are_two(src: Seq<char>, i: int)
    requires
        0 <= i < src.len(),
    ensures
        step_at(src, i) == (Step::Fail { fault: Fault::UnsupportedChar(src[i]) }) <==> !is_supported(
            src[i],
        ),
        step_at(src, i) == (Step::Fail { fault: Fault::UnterminatedString }) <==> src[i] == '"'
            && forall|k: int| i < k < src.len() ==> src[k] != '"',
        step_at(src, i) is Fail ==> !is_supported(src[i]) || src[i] == '"',
{
    lemma_run_end(src, i + 1, Run::StringBody);
    if src[i] == '"' {
        if forall|k: int| i < k < src.len() ==> src[k] != '"' {
            lemma_unclosed_runs_out(src, i + 1);
        }
    }
}

/// An unterminated string is reported. If the scan reaches a double quote
/// after which the source holds no other, it fails, and the message names
/// the unterminated string and the line on which it opens.
pub proof fn unterminated_string_is_reported(src: Seq<char>, at: int, line: nat)
    requires
        0 <= at < src.len(),
        reaches(src, at, line),
        src[at] == '"',
        forall|k: int| at < k < src.len() ==> src[k] != '"',
    ensures
        scan(src) == Err::<Seq<TokenView>, Seq<char>>(
            "Unterminated String at line "@ + decimal(line),
        ),
{
    faults_are_two(src, at);
    first_fault_ends_the_scan(src, at, line);
}

/// An unsupported character is reported. If the scan reaches a character
/// that is no blank and begins no token, it fails, and the message names
/// the character and the line on which it stands.
pub proof fn unsupported_character_is_reported(src: Seq<char>, at: int, line: nat)
    requires
        0 <= at < src.len(),
        reaches(src, at, line),
        !is_supported(src[at]),
    ensures
        scan(src) == Err::<Seq<TokenView>, Seq<char>>(
            "Unsupported token "@ + seq![src[at]] + " at line "@ + decimal(line),
        ),
{
    first_fault_ends_the_scan(src, at, line);
}

proof fn lemma_blank_from(src: Seq<char>, i: int, line: nat)
    requires
        0 <= i <= src.len(),
        forall|k: int| 0 <= k < src.len() ==> src[k] == ' ' || src[k] == '\n',
    ensures
        spans_from(src, i, line) == Ok::<Seq<Span>, Failure>(Seq::empty()),
    decreases src.len() - i,
{
    if i < src.len() {
        if src[i] == '\n' {
            lemma_blank_from(src, i + 1, line + 1);
        } else {
            lemma_blank_from(src, i + 1, line);
        }
    }
}

/// A source of blanks has no tokens. If every character is a space or a
/// line break, and so too if there is no character at all, the scan
/// succeeds and yields nothing.
pub proof fn blank_source_has_no_tokens(src: Seq<char>)
    requires
        forall|k: int| 0 <= k < src.len() ==> src[k] == ' ' || src[k] == '\n',
    ensures
        scan(src) == Ok::<Seq<TokenView>, Seq<char>>(Seq::empty()),
{
    lemma_blank_from(src, 0, 1);
    assert(tokens_at(src, Seq::<Span>::empty()) =~= Seq::<TokenView>::empty());
}

/// Scanning depends on the source alone. Two results of scanning the same
/// text agree: both hold the same tokens, or both hold the same report.
pub proof fn scanning_is_deterministic(
    src: Seq<char>,
    first: Result<Vec<Token>, Errors>,
    second: Result<Vec<Token>, Errors>,
)
    requires
        is_scan_of(src, first),
        is_scan_of(src, second),
    ensures
        match (first, second) {
            (Ok(a), Ok(b)) => token_views(a@) == token_views(b@),
            (Err(Errors::SyntaxError(a)), Err(Errors::SyntaxError(b))) => a@ == b@,
            _ => false,
        },
{
}

} // verus!
