//! A small dynamically typed language: a scanner, a Pratt parser, an
//! abstract syntax tree with a canonical rendering, and a tree-walking
//! evaluator with lexical scoping and first-class functions.
//!
//! Each stage carries a specification-level mirror: the lexer is proved
//! against a character-level scanning function, the parser against a
//! token-level parsing function, and the evaluator against a big-step
//! interpreter over ghost values.

pub mod ast;
pub mod environment;
pub mod evaluator;
pub mod lexer;
pub mod object;
pub mod parser;
pub mod repl;
pub mod roundtrip;
pub mod text;
pub mod token;
