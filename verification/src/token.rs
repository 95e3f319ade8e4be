//! The token model: a closed set of kinds, and the record that a scan emits.

use vstd::prelude::*;

verus! {

/// Every kind of token the language has.
#[derive(Debug, Copy, Clone, PartialEq, Eq, Structural)]
pub enum TokenType {
    String,
    Number,
    Semicolon,
    LeftParen,
    Slash,
    RightParen,
    Comma,
    Plus,
    LeftBrace,
    RightBrace,
    Dot,
    Minus,
    Star,
    Equal,
    EqualEqual,
    BangEqual,
    Bang,
    Less,
    LessEqual,
    Greater,
    GreaterEqual,
    Identifier,
    And,
    Class,
    Else,
    False,
    For,
    Fun,
    If,
    Nil,
    Or,
    Print,
    Return,
    Super,
    This,
    True,
    Var,
    While,
}

/// What a token is, in specifications: its kind, the characters of its
/// lexeme, and the line it was found on.
pub struct TokenView {
    pub kind: TokenType,
    pub lexeme: Seq<char>,
    pub line: nat,
}

/// A classified lexeme: its kind, its text, and the line it was found on,
/// counted from 1. Nothing changes a token once it is made.
#[derive(Debug, PartialEq, Eq)]
pub struct Token {
    t_type: TokenType,
    value: String,
    line: usize,
}

impl View for Token {
    type V = TokenView;

    closed spec fn view(&self) -> TokenView {
        TokenView { kind: self.t_type, lexeme: self.value@, line: self.line as nat }
    }
}

impl Token {
    /// Lines are counted from 1.
    #[verifier::type_invariant]
    spec fn well_formed(self) -> bool {
        self.line >= 1
    }

    /// A token of kind `t_type` with the lexeme `value`, found on `line`.
    pub fn new(t_type: TokenType, value: String, line: usize) -> (token: Self)
        requires
            line >= 1,
        ensures
            token@ == (TokenView { kind: t_type, lexeme: value@, line: line as nat }),
    {
        Token { t_type, value, line }
    }

    /// The kind of this token.
    pub fn kind(&self) -> (kind: TokenType)
        ensures
            kind == self@.kind,
    {
        self.t_type
    }

    /// The text of this token, as it stands in the source.
    pub fn lexeme(&self) -> (lexeme: &str)
        ensures
            lexeme@ == self@.lexeme,
    {
        self.value.as_str()
    }

    /// The line of the source, counted from 1, on which this token begins.
    pub fn line(&self) -> (line: usize)
        ensures
            line == self@.line,
            line >= 1,
    {
        proof {
            use_type_invariant(self);
        }
        self.line
    }
}

/// The views of a sequence of tokens, in order.
pub open spec fn token_views(tokens: Seq<Token>) -> Seq<TokenView> {
    Seq::new(tokens.len(), |k: int| tokens[k]@)
}

/// The views of one more token are the views so far and the view of that
/// token.
pub proof fn lemma_token_views_push(tokens: Seq<Token>, token: Token)
    ensures
        token_views(tokens.push(token)) == token_views(tokens).push(token@),
{
    assert(token_views(tokens.push(token)) =~= token_views(tokens).push(token@));
}

} // verus!
