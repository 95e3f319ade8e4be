//! The parser's entry point. It holds the tokens of one scan; no grammar
//! is built on them yet.

use vstd::prelude::*;
use crate::token::{token_views, Token, TokenView};

verus! {

/// Holds the tokens that a parse will consume.
pub struct Parser {
    tokens: Vec<Token>,
}

impl View for Parser {
    type V = Seq<TokenView>;

    /// The tokens held, in the order they were given.
    closed spec fn view(&self) -> Seq<TokenView> {
        token_views(self.tokens@)
    }
}

impl Parser {
    /// A parser over `tokens`, which it holds unchanged and in order.
    pub fn new(tokens: Vec<Token>) -> (parser: Self)
        ensures
            parser@ == token_views(tokens@),
    {
        Parser { tokens }
    }
}

} // verus!
