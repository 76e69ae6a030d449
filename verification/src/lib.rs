//! A Lox front end: tokenizer, parser, resolver and the pieces of the
//! interpreter that do not depend on floating point arithmetic.

pub mod span;
pub mod text;
pub mod token;
pub mod tokenizer;
pub mod ast;
pub mod number;
pub mod grammar;
pub mod expr_parser;
pub mod precedence;
pub mod parser;
pub mod resolver;
pub mod printer;
pub mod balance;
pub mod environment;
pub mod report;
