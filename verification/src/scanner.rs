//! The scanner: one pass over the source, from its first character to its
//! last or to the first fault.

use vstd::prelude::*;
use crate::decimal::push_decimal;
use crate::lexical::{
    after, followed_by, is_digit, is_word_char, lemma_after_push, lemma_step_advances,
    lemma_tokens_at_push, message, number_end, operator, punctuation, run_end, scan, spans,
    spans_from, step_at, tokens_at, word_kind, Failure, Fault, Run, Span, Step,
};
use crate::text::{chars_of, text_of};
use crate::token::{lemma_token_views_push, token_views};
pub use crate::token::{Token, TokenType};

verus! {

/// What can go wrong between a path on the command line and a token list.
#[derive(Debug, PartialEq, Eq)]
pub enum Errors {
    /// The source cannot be scanned; the message says why, and on which
    /// line.
    SyntaxError(String),
    /// The source file could not be opened.
    FileNotFound,
}

fn digit(c: char) -> (b: bool)
    ensures
        b == is_digit(c),
{
    '0' <= c && c <= '9'
}

fn word_char(c: char) -> (b: bool)
    ensures
        b == is_word_char(c),
{
    ('a' <= c && c <= 'z') || ('A' <= c && c <= 'Z') || c == '_'
}

fn punctuation_kind(c: char) -> (kind: Option<TokenType>)
    ensures
        kind == punctuation(c),
{
    if c == '+' {
        Some(TokenType::Plus)
    } else if c == '-' {
        Some(TokenType::Minus)
    } else if c == '*' {
        Some(TokenType::Star)
    } else if c == ';' {
        Some(TokenType::Semicolon)
    } else if c == ',' {
        Some(TokenType::Comma)
    } else if c == '.' {
        Some(TokenType::Dot)
    } else if c == '(' {
        Some(TokenType::LeftParen)
    } else if c == ')' {
        Some(TokenType::RightParen)
    } else if c == '{' {
        Some(TokenType::LeftBrace)
    } else if c == '}' {
        Some(TokenType::RightBrace)
    } else {
        None
    }
}

fn operator_kinds(c: char) -> (kinds: Option<(TokenType, TokenType)>)
    ensures
        kinds == operator(c),
{
    if c == '=' {
        Some((TokenType::Equal, TokenType::EqualEqual))
    } else if c == '!' {
        Some((TokenType::Bang, TokenType::BangEqual))
    } else if c == '<' {
        Some((TokenType::Less, TokenType::LessEqual))
    } else if c == '>' {
        Some((TokenType::Greater, TokenType::GreaterEqual))
    } else {
        None
    }
}

fn admitted(run: Run, c: char) -> (b: bool)
    ensures
        b == run.admits(c),
{
    match run {
        Run::Digits => digit(c),
        Run::Fraction => digit(c) || c == '.',
        Run::Word => word_char(c),
        Run::StringBody => c != '"',
        Run::Comment => c != '\n',
    }
}

/// Walks the run that begins at `from` to its end.
fn end_of_run(chars: &Vec<char>, from: usize, run: Run) -> (end: usize)
    requires
        from <= chars.len(),
    ensures
        end == run_end(chars@, from as int, run),
        from <= end <= chars.len(),
{
    let mut end: usize = from;
    while end < chars.len() && admitted(run, chars[end])
        invariant
            from <= end <= chars.len(),
            run_end(chars@, end as int, run) == run_end(chars@, from as int, run),
        decreases chars.len() - end,
    {
        end = end + 1;
    }
    end
}

/// Whether the characters from `start` up to `end` spell `word`.
fn spells(chars: &Vec<char>, start: usize, end: usize, word: &str) -> (b: bool)
    requires
        start <= end <= chars.len(),
    ensures
        b == (chars@.subrange(start as int, end as int) == word@),
{
    let mut k: usize = start;
    for c in it: word.chars()
        invariant
            it.seq() == word@,
            start <= k <= end <= chars.len(),
            k - start == it.index(),
            chars@.subrange(start as int, k as int) == word@.take(it.index()),
    {
        if k >= end || chars[k] != c {
            return false;
        }
        k = k + 1;
    }
    assert(word@.take(word@.len() as int) =~= word@);
    k == end
}

/// The kind of the word that the characters from `start` up to `end` spell.
fn kind_of_word(chars: &Vec<char>, start: usize, end: usize) -> (kind: TokenType)
    requires
        start <= end <= chars.len(),
    ensures
        kind == word_kind(chars@.subrange(start as int, end as int)),
{
    if spells(chars, start, end, "and") {
        TokenType::And
    } else if spells(chars, start, end, "class") {
        TokenType::Class
    } else if spells(chars, start, end, "else") {
        TokenType::Else
    } else if spells(chars, start, end, "false") {
        TokenType::False
    } else if spells(chars, start, end, "for") {
        TokenType::For
    } else if spells(chars, start, end, "fun") {
        TokenType::Fun
    } else if spells(chars, start, end, "if") {
        TokenType::If
    } else if spells(chars, start, end, "nil") {
        TokenType::Nil
    } else if spells(chars, start, end, "or") {
        TokenType::Or
    } else if spells(chars, start, end, "print") {
        TokenType::Print
    } else if spells(chars, start, end, "return") {
        TokenType::Return
    } else if spells(chars, start, end, "super") {
        TokenType::Super
    } else if spells(chars, start, end, "this") {
        TokenType::This
    } else if spells(chars, start, end, "true") {
        TokenType::True
    } else if spells(chars, start, end, "var") {
        TokenType::Var
    } else if spells(chars, start, end, "while") {
        TokenType::While
    } else {
        TokenType::Identifier
    }
}

/// One step of the scan, with positions that fit the machine.
enum Lexed {
    Skip { next: usize },
    LineBreak { next: usize },
    Emit { kind: TokenType, start: usize, end: usize, next: usize },
    Fail { fault: Fault },
}

impl View for Lexed {
    type V = Step;

    closed spec fn view(&self) -> Step {
        match *self {
            Lexed::Skip { next } => Step::Skip { next: next as int },
            Lexed::LineBreak { next } => Step::LineBreak { next: next as int },
            Lexed::Emit { kind, start, end, next } => Step::Emit {
                kind,
                start: start as int,
                end: end as int,
                next: next as int,
            },
            Lexed::Fail { fault } => Step::Fail { fault },
        }
    }
}

/// Whether the character after position `i` is `c`.
fn next_is(chars: &Vec<char>, i: usize, c: char) -> (b: bool)
    requires
        i < chars.len(),
    ensures
        b == followed_by(chars@, i as int, c),
{
    i + 1 < chars.len() && chars[i + 1] == c
}

/// Finds where the number that begins at `i` ends.
fn end_of_number(chars: &Vec<char>, i: usize) -> (end: usize)
    requires
        i < chars.len(),
    ensures
        end == number_end(chars@, i as int),
        i <= end <= chars.len(),
{
    let whole: usize = end_of_run(chars, i, Run::Digits);
    if whole < chars.len() && whole + 1 < chars.len() && digit(chars[whole + 1]) {
        end_of_run(chars, whole, Run::Fraction)
    } else {
        whole
    }
}

/// Decides the step at the boundary `i`.
fn step(chars: &Vec<char>, i: usize) -> (lexed: Lexed)
    requires
        i < chars.len(),
    ensures
        lexed@ == step_at(chars@, i as int),
{
    let c = chars[i];
    if c == '\n' {
        Lexed::LineBreak { next: i + 1 }
    } else if c == ' ' {
        Lexed::Skip { next: i + 1 }
    } else if let Some(kind) = punctuation_kind(c) {
        Lexed::Emit { kind, start: i, end: i + 1, next: i + 1 }
    } else if let Some((single, combined)) = operator_kinds(c) {
        if next_is(chars, i, '=') {
            Lexed::Emit { kind: combined, start: i, end: i + 2, next: i + 2 }
        } else {
            Lexed::Emit { kind: single, start: i, end: i + 1, next: i + 1 }
        }
    } else if c == '/' {
        if next_is(chars, i, '/') {
            Lexed::Skip { next: end_of_run(chars, i, Run::Comment) }
        } else {
            Lexed::Emit { kind: TokenType::Slash, start: i, end: i + 1, next: i + 1 }
        }
    } else if c == '"' {
        let close: usize = end_of_run(chars, i + 1, Run::StringBody);
        if close < chars.len() {
            Lexed::Emit { kind: TokenType::String, start: i + 1, end: close, next: close + 1 }
        } else {
            Lexed::Fail { fault: Fault::UnterminatedString }
        }
    } else if digit(c) {
        let end: usize = end_of_number(chars, i);
        Lexed::Emit { kind: TokenType::Number, start: i, end, next: end }
    } else if word_char(c) {
        let end: usize = end_of_run(chars, i, Run::Word);
        Lexed::Emit { kind: kind_of_word(chars, i, end), start: i, end, next: end }
    } else {
        Lexed::Fail { fault: Fault::UnsupportedChar(c) }
    }
}

/// Writes the report of `fault`, met on `line`.
fn report(fault: Fault, line: usize) -> (error: Errors)
    ensures
        error matches Errors::SyntaxError(text) && text@ == message(
            Failure { fault, line: line as nat },
        ),
{
    let mut text = String::new();
    match fault {
        Fault::UnterminatedString => {
            text.append("Unterminated String at line ");
        },
        Fault::UnsupportedChar(c) => {
            text.append("Unsupported token ");
            text.push(c);
            text.append(" at line ");
        },
    }
    push_decimal(&mut text, line);
    Errors::SyntaxError(text)
}

/// Whether `result` is what scanning `src` returns: the tokens that the
/// grammar finds in `src`, or a syntax error with the message of the first
/// failure.
pub open spec fn is_scan_of(src: Seq<char>, result: Result<Vec<Token>, Errors>) -> bool {
    match scan(src) {
        Ok(tokens) => result matches Ok(found) && token_views(found@) == tokens,
        Err(text) => result matches Err(Errors::SyntaxError(report)) && report@ == text,
    }
}

/// Scans `file_content` from its first character to its last. Returns every
/// token in source order, or the report of the first fault and no token.
pub fn scan_tokens(file_content: String) -> (result: Result<Vec<Token>, Errors>)
    ensures
        is_scan_of(file_content@, result),
{
    let chars = chars_of(file_content.as_str());
    let mut tokens: Vec<Token> = Vec::new();
    let mut i: usize = 0;
    let mut breaks: usize = 0;
    let ghost mut done: Seq<Span> = Seq::empty();
    while i < chars.len()
        invariant
            chars@ == file_content@,
            breaks <= i <= chars.len(),
            spans(chars@) == after(done, spans_from(chars@, i as int, (breaks + 1) as nat)),
            token_views(tokens@) == tokens_at(chars@, done),
        decreases chars.len() - i,
    {
        proof {
            lemma_step_advances(chars@, i as int);
        }
        match step(&chars, i) {
            Lexed::Skip { next } => {
                i = next;
            },
            Lexed::LineBreak { next } => {
                i = next;
                breaks = breaks + 1;
            },
            Lexed::Emit { kind, start, end, next } => {
                let line: usize = breaks + 1;
                let ghost span = Span {
                    kind,
                    start: start as int,
                    end: end as int,
                    line: line as nat,
                };
                let token = Token::new(kind, text_of(&chars, start, end), line);
                let ghost before = tokens@;
                let ghost pushed = token;
                tokens.push(token);
                proof {
                    lemma_after_push(done, span, spans_from(chars@, next as int, line as nat));
                    lemma_token_views_push(before, pushed);
                    lemma_tokens_at_push(chars@, done, span);
                    done = done.push(span);
                }
                i = next;
            },
            Lexed::Fail { fault } => {
                return Err(report(fault, breaks + 1));
            },
        }
    }
    Ok(tokens)
}

} // verus!
