//! Front end of the Monkey language: a tokenizer over source text and an
//! operator-precedence parser that builds a syntax tree from the tokens.
//!
//! Every function is verified against a mathematical model: the tokenizer
//! against a function from bytes and a cursor to the next token, the parser
//! against a function from a token sequence to statements and diagnostics.

pub mod ast;
pub mod grammar;
pub mod lexer;
pub mod parser;
pub mod text;
pub mod token;
