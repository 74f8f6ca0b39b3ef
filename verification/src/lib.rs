//! A tokenizer and recursive-descent parser for simple arithmetic
//! expressions (identifiers, numbers, `+`, `*`, parentheses), together
//! with a breadth-first rendering of the resulting parse tree.
//!
//! The grammar, after left-recursion elimination:
//!
//! ```text
//! EXPR      -> TERM EXPRDASH
//! EXPRDASH  -> PLUS TERM EXPRDASH | epsilon
//! TERM      -> FACTOR TERMDASH
//! TERMDASH  -> STAR FACTOR TERMDASH | epsilon
//! FACTOR    -> IDENTIFIER | NUMBER | OPENPAREN EXPR CLOSEPAREN
//! ```

pub mod classify;
pub mod token;
pub mod scanner;
pub mod node;
pub mod parser;
pub mod render;
