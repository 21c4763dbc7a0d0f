//! A validator for an S-expression-like game scripting language: a total
//! lexer, a recursive-descent parser with delimiter-mismatch recovery, and
//! structural lint passes feeding a common diagnostic model.

pub mod lexer;
pub mod parser;
pub mod diag;
pub mod linter;
pub mod table;
pub mod ark;
pub mod art;
