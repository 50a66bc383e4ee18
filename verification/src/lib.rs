//! Lexical analysis for a TeX-like language: a table of character categories,
//! a line-based tokenizer driven by that table, and a parser for the token
//! lists of a macro definition.

pub mod grammar;
pub mod interval_map;
pub mod macros;
pub mod primitives;
pub mod token;
