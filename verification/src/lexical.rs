//! The lexical grammar, as mathematics: which characters form which token,
//! where each token lies in the source, and what a whole scan yields.
//!
//! Positions are indices into the source taken as a sequence of characters.
//! A scan is a walk from boundary to boundary: at each boundary one
//! [`Step`] is taken, decided by the characters that follow.

use vstd::prelude::*;
use crate::decimal::decimal;
use crate::token::{TokenType, TokenView};

verus! {

/// An ASCII decimal digit.
pub open spec fn is_digit(c: char) -> bool {
    '0' <= c <= '9'
}

/// A character of a word: an ASCII letter or the underscore.
pub open spec fn is_word_char(c: char) -> bool {
    'a' <= c <= 'z' || 'A' <= c <= 'Z' || c == '_'
}

/// The kind of a punctuation character, which is a token by itself.
pub open spec fn punctuation(c: char) -> Option<TokenType> {
    if c == '+' {
        Some(TokenType::Plus)
    } else if c == '-' {
        Some(TokenType::Minus)
    } else if c == '*' {
        Some(TokenType::Star)
    } else if c == ';' {
        Some(TokenType::Semicolon)
    } else if c == ',' {
        Some(TokenType::Comma)
    } else if c == '.' {
        Some(TokenType::Dot)
    } else if c == '(' {
        Some(TokenType::LeftParen)
    } else if c == ')' {
        Some(TokenType::RightParen)
    } else if c == '{' {
        Some(TokenType::LeftBrace)
    } else if c == '}' {
        Some(TokenType::RightBrace)
    } else {
        None
    }
}

/// The two kinds an operator character can begin: the first when it stands
/// alone, the second when `=` follows it directly.
pub open spec fn operator(c: char) -> Option<(TokenType, TokenType)> {
    if c == '=' {
        Some((TokenType::Equal, TokenType::EqualEqual))
    } else if c == '!' {
        Some((TokenType::Bang, TokenType::BangEqual))
    } else if c == '<' {
        Some((TokenType::Less, TokenType::LessEqual))
    } else if c == '>' {
        Some((TokenType::Greater, TokenType::GreaterEqual))
    } else {
        None
    }
}

/// The kind of a whole word: the keyword it spells, or `Identifier`.
pub open spec fn word_kind(word: Seq<char>) -> TokenType {
    if word == "and"@ {
        TokenType::And
    } else if word == "class"@ {
        TokenType::Class
    } else if word == "else"@ {
        TokenType::Else
    } else if word == "false"@ {
        TokenType::False
    } else if word == "for"@ {
        TokenType::For
    } else if word == "fun"@ {
        TokenType::Fun
    } else if word == "if"@ {
        TokenType::If
    } else if word == "nil"@ {
        TokenType::Nil
    } else if word == "or"@ {
        TokenType::Or
    } else if word == "print"@ {
        TokenType::Print
    } else if word == "return"@ {
        TokenType::Return
    } else if word == "super"@ {
        TokenType::Super
    } else if word == "this"@ {
        TokenType::This
    } else if word == "true"@ {
        TokenType::True
    } else if word == "var"@ {
        TokenType::Var
    } else if word == "while"@ {
        TokenType::While
    } else {
        TokenType::Identifier
    }
}

/// The kinds of character run that a scan consumes as far as they reach.
#[derive(Debug, Copy, Clone, PartialEq, Eq, Structural)]
pub enum Run {
    /// ASCII digits.
    Digits,
    /// ASCII digits and dots.
    Fraction,
    /// ASCII letters and underscores.
    Word,
    /// Anything but a double quote.
    StringBody,
    /// Anything but a line break.
    Comment,
}

impl Run {
    /// Whether `c` continues a run of this kind.
    pub open spec fn admits(self, c: char) -> bool {
        match self {
            Run::Digits => is_digit(c),
            Run::Fraction => is_digit(c) || c == '.',
            Run::Word => is_word_char(c),
            Run::StringBody => c != '"',
            Run::Comment => c != '\n',
        }
    }
}

/// Where the longest run of admitted characters that begins at `from` ends:
/// the first position at or after `from` that holds a character the run does
/// not admit, or the end of the source.
pub open spec fn run_end(src: Seq<char>, from: int, run: Run) -> int
    decreases src.len() - from,
{
    if 0 <= from < src.len() && run.admits(src[from]) {
        run_end(src, from + 1, run)
    } else {
        from
    }
}

/// Whether the character after position `i` is `c`.
pub open spec fn followed_by(src: Seq<char>, i: int, c: char) -> bool {
    i + 1 < src.len() && src[i + 1] == c
}

/// Where the number that begins at `i` ends. The digits are taken as far as
/// they reach; if the character after the one that stopped them is a digit,
/// digits and dots are taken on from where the first run stopped.
pub open spec fn number_end(src: Seq<char>, i: int) -> int {
    let whole = run_end(src, i, Run::Digits);
    if whole + 1 < src.len() && is_digit(src[whole + 1]) {
        run_end(src, whole, Run::Fraction)
    } else {
        whole
    }
}

/// Why a scan stops early.
#[derive(Debug, Copy, Clone, PartialEq, Eq, Structural)]
pub enum Fault {
    /// A string literal was opened and the source ended before it closed.
    UnterminatedString,
    /// A character that begins no token and is no blank.
    UnsupportedChar(char),
}

/// What happens at one token boundary.
pub enum Step {
    /// A blank or a comment: nothing is emitted.
    Skip { next: int },
    /// A line break: nothing is emitted, and the next line begins.
    LineBreak { next: int },
    /// A token of `kind`, whose lexeme is the source from `start` up to
    /// `end`.
    Emit { kind: TokenType, start: int, end: int, next: int },
    /// The scan fails here.
    Fail { fault: Fault },
}

/// The step taken at the boundary `i`, for `0 <= i < src.len()`.
pub open spec fn step_at(src: Seq<char>, i: int) -> Step {
    let c = src[i];
    if c == '\n' {
        Step::LineBreak { next: i + 1 }
    } else if c == ' ' {
        Step::Skip { next: i + 1 }
    } else if let Some(kind) = punctuation(c) {
        Step::Emit { kind, start: i, end: i + 1, next: i + 1 }
    } else if let Some((single, combined)) = operator(c) {
        if followed_by(src, i, '=') {
            Step::Emit { kind: combined, start: i, end: i + 2, next: i + 2 }
        } else {
            Step::Emit { kind: single, start: i, end: i + 1, next: i + 1 }
        }
    } else if c == '/' {
        if followed_by(src, i, '/') {
            Step::Skip { next: run_end(src, i, Run::Comment) }
        } else {
            Step::Emit { kind: TokenType::Slash, start: i, end: i + 1, next: i + 1 }
        }
    } else if c == '"' {
        let close = run_end(src, i + 1, Run::StringBody);
        if close < src.len() {
            Step::Emit { kind: TokenType::String, start: i + 1, end: close, next: close + 1 }
        } else {
            Step::Fail { fault: Fault::UnterminatedString }
        }
    } else if is_digit(c) {
        let end = number_end(src, i);
        Step::Emit { kind: TokenType::Number, start: i, end, next: end }
    } else if is_word_char(c) {
        let end = run_end(src, i, Run::Word);
        Step::Emit { kind: word_kind(src.subrange(i, end)), start: i, end, next: end }
    } else {
        Step::Fail { fault: Fault::UnsupportedChar(c) }
    }
}

/// Where a token lies: its kind, the positions its lexeme spans, and the
/// line that was current when it was found.
pub struct Span {
    pub kind: TokenType,
    pub start: int,
    pub end: int,
    pub line: nat,
}

/// A fault and the line that was current when it was met.
pub struct Failure {
    pub fault: Fault,
    pub line: nat,
}

/// `done`, followed by what the rest of the scan yields.
pub open spec fn after(done: Seq<Span>, rest: Result<Seq<Span>, Failure>) -> Result<
    Seq<Span>,
    Failure,
> {
    match rest {
        Ok(spans) => Ok(done + spans),
        Err(failure) => Err(failure),
    }
}

/// The scan from the boundary `i`, where the current line is `line`: the
/// spans of all the tokens from there on, or the first failure.
pub open spec fn spans_from(src: Seq<char>, i: int, line: nat) -> Result<Seq<Span>, Failure>
    decreases src.len() - i,
    via spans_from_decreases
{
    if 0 <= i < src.len() {
        match step_at(src, i) {
            Step::Skip { next } => spans_from(src, next, line),
            Step::LineBreak { next } => spans_from(src, next, line + 1),
            Step::Emit { kind, start, end, next } => after(
                seq![Span { kind, start, end, line }],
                spans_from(src, next, line),
            ),
            Step::Fail { fault } => Err(Failure { fault, line }),
        }
    } else {
        Ok(Seq::empty())
    }
}

#[via_fn]
proof fn spans_from_decreases(src: Seq<char>, i: int, line: nat) {
    if 0 <= i < src.len() {
        lemma_step_advances(src, i);
    }
}

/// The spans of a whole source: the scan from its first character, on
/// line 1.
pub open spec fn spans(src: Seq<char>) -> Result<Seq<Span>, Failure> {
    spans_from(src, 0, 1)
}

/// The token that a span stands for.
pub open spec fn token_at(src: Seq<char>, span: Span) -> TokenView {
    TokenView { kind: span.kind, lexeme: src.subrange(span.start, span.end), line: span.line }
}

/// The tokens that a sequence of spans stands for, in order.
pub open spec fn tokens_at(src: Seq<char>, spans: Seq<Span>) -> Seq<TokenView> {
    Seq::new(spans.len(), |k: int| token_at(src, spans[k]))
}

/// The text that reports a failure.
pub open spec fn message(failure: Failure) -> Seq<char> {
    match failure.fault {
        Fault::UnterminatedString => "Unterminated String at line "@ + decimal(failure.line),
        Fault::UnsupportedChar(c) => "Unsupported token "@ + seq![c] + " at line "@ + decimal(
            failure.line,
        ),
    }
}

/// What scanning `src` yields: all its tokens in source order, or the
/// message of the first failure.
pub open spec fn scan(src: Seq<char>) -> Result<Seq<TokenView>, Seq<char>> {
    match spans(src) {
        Ok(found) => Ok(tokens_at(src, found)),
        Err(failure) => Err(message(failure)),
    }
}

/// Taking one more span into what is done is the same as leaving it at the
/// head of the rest.
pub proof fn lemma_after_push(done: Seq<Span>, span: Span, rest: Result<Seq<Span>, Failure>)
    ensures
        after(done.push(span), rest) == after(done, after(seq![span], rest)),
{
    if let Ok(found) = rest {
        assert(done.push(span) + found =~= done + (seq![span] + found));
    }
}

/// The tokens of one more span are the tokens so far and the token of that
/// span.
pub proof fn lemma_tokens_at_push(src: Seq<char>, done: Seq<Span>, span: Span)
    ensures
        tokens_at(src, done.push(span)) == tokens_at(src, done).push(token_at(src, span)),
{
    assert(tokens_at(src, done.push(span)) =~= tokens_at(src, done).push(token_at(src, span)));
}

/// A run ends at or after its beginning and within the source; every
/// character in it is admitted, and the character at its end, if there is
/// one, is not.
pub proof fn lemma_run_end(src: Seq<char>, from: int, run: Run)
    requires
        0 <= from <= src.len(),
    ensures
        from <= run_end(src, from, run) <= src.len(),
        forall|k: int| from <= k < run_end(src, from, run) ==> run.admits(#[trigger] src[k]),
        run_end(src, from, run) < src.len() ==> !run.admits(src[run_end(src, from, run)]),
    decreases src.len() - from,
{
    if from < src.len() && run.admits(src[from]) {
        lemma_run_end(src, from + 1, run);
    }
}

/// Every step that does not fail moves forward and stays within the source,
/// and what it emits lies between where it began and where it leaves off.
pub proof fn lemma_step_advances(src: Seq<char>, i: int)
    requires
        0 <= i < src.len(),
    ensures
        match step_at(src, i) {
            Step::Skip { next } => i < next <= src.len(),
            Step::LineBreak { next } => next == i + 1,
            Step::Emit { start, end, next, .. } => i <= start <= end <= next <= src.len() && i
                < next,
            Step::Fail { .. } => true,
        },
{
    let c = src[i];
    lemma_run_end(src, i, Run::Comment);
    lemma_run_end(src, i + 1, Run::StringBody);
    lemma_run_end(src, i, Run::Digits);
    lemma_run_end(src, i, Run::Word);
    let whole = run_end(src, i, Run::Digits);
    lemma_run_end(src, whole, Run::Fraction);
}

} // verus!
