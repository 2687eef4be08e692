//! A tree-walking interpreter for a small dynamically typed scripting language.
//!
//! A source goes through the lexer (`tokenizer`) and the parser (`parser`, after
//! the grammar in `grammar`) to statements (`stmt`, `expr`), which the evaluator
//! (`interpreter`) executes step by step against an environment of scopes
//! (`environment`). Values (`value`) are numbers, strings, Booleans, arrays,
//! dictionaries (`hash_table`) and functions.
//!
//! The library does no input or output and no floating-point arithmetic: a
//! number is the bit pattern of a binary64 value (`number`), and the evaluator
//! asks its host (`host`) to print, to read, and to compute with numbers.

pub mod number;
pub mod token;
pub mod hash_table;
pub mod expr;
pub mod stmt;
pub mod value;
pub mod equality;
pub mod error;
pub mod tokenizer;
pub mod grammar;
pub mod parser;
pub mod program;
pub mod environment;
pub mod host;
pub mod operations;
pub mod sorting;
pub mod interpreter;
