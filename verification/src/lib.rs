//! A verified compiler pipeline for a minimal imperative language with
//! integer-typed functions, local assignments and return statements.
//!
//! Source text is turned into a token sequence by the lexer, the token
//! sequence into an abstract syntax tree by the parser, and the tree into
//! assembly text by a code generator for one fixed target.

pub mod code_generator;
pub mod lexer;
pub mod parser;
pub mod text;
