//! The Monkey programming language: a lexer, a Pratt parser and a tree-walking evaluator,
//! each with a mathematical model that its functions are proved to follow.
//!
//! - `token`, `lexer`, `token_stream`: the tokens and how a text is cut into them.
//! - `ast`, `ast_clone`: the syntax tree, its models and its canonical rendering.
//! - `grammar`, `parser`: what the parser makes of a sequence of tokens, and the parser.
//! - `object`, `object_clone`, `hash`, `environment`: the values, and the environments that
//!   bind names to them.
//! - `semantics`, `operators`, `builtins`, `eval`: what a program evaluates to, and the
//!   evaluator.
//! - `laws`, `grammar_laws`, `semantics_laws`, `round_trip`, `lexing_laws`,
//!   `rendering_laws`, `spelling_laws`: what holds of all of these, proved.
//! - `text`: strings and numerals.

pub mod ast;
pub mod ast_clone;
pub mod builtins;
pub mod environment;
pub mod eval;
pub mod grammar;
pub mod grammar_laws;
pub mod hash;
pub mod laws;
pub mod lexer;
pub mod lexing_laws;
pub mod object;
pub mod object_clone;
pub mod operators;
pub mod parser;
pub mod rendering_laws;
pub mod round_trip;
pub mod semantics;
pub mod semantics_laws;
pub mod spelling_laws;
pub mod text;
pub mod token;
pub mod token_stream;
