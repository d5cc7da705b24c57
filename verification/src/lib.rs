//! A small expression-oriented scripting language: a lexer, a Pratt parser
//! that produces a syntax tree, and a tree-walking evaluator with lexical
//! closures. Every function carries a contract that Verus proves.

pub mod text;
pub mod token;
pub mod lexer;
pub mod ast;
pub mod grammar;
pub mod parser;
pub mod object;
pub mod environment;
pub mod semantics;
pub mod evaluator;
pub mod grouping;
pub mod unwinding;
pub mod scoping;
pub mod wellformed;
pub mod equality;
pub mod spelling;
pub mod derivation;
