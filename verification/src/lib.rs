//! Front end for the square-circle language: a lexer, a recursive-descent
//! parser that builds a symbol table, the list of operations and an HTML view
//! of the parse tree, and renderers that turn the operations into Scheme or
//! Prolog queries.

pub mod chars;
pub mod token;
pub mod error;

pub mod lexer;
pub mod program_model;
pub mod parser;
pub mod output;
pub mod grammar;
pub mod tree;
pub mod lines;
pub mod tokens;
pub mod meaning;
