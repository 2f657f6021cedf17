//! A tree-walking interpreter for a small dynamically-typed scripting
//! language: a lexer with precise source positions, a recursive-descent
//! parser with full operator precedence, and an evaluator over a scoped
//! symbol table with a shared-list arena.
pub mod builtins;
pub mod error;
pub mod evaluator;
pub mod floats;
pub mod node;
pub mod parser;
pub mod position;
pub mod symbol_table;
pub mod token;
pub mod tokenizer;
pub mod util;
pub mod value;

pub use crate::position::Position;
