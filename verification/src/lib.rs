//! A verified scanner for a small scripting language: source text in,
//! an ordered sequence of tokens or the first syntax error out.
//!
//! [`scanner::scan_tokens`] is the entry point. What it returns is fixed by
//! the grammar in [`lexical`]; [`walk`], [`order`], [`shapes`] and
//! [`outcome`] prove what follows from that grammar for every source.

pub mod decimal;
pub mod lexical;
pub mod order;
pub mod outcome;
pub mod parser;
pub mod scanner;
pub mod shapes;
mod text;
pub mod token;
pub mod walk;
