//! A tree-walking interpreter for a small dynamically typed scripting
//! language: tokens, a recursive-descent parser, a resolver of lexical
//! references and an evaluator over a chain of environments.

pub mod callable;
pub mod environment;
pub mod error;
pub mod expr;
pub mod interpreter;
pub mod object;
pub mod parser;
pub mod resolver;
pub mod scanner;
pub mod sound;
pub mod stmt;
pub mod token;
