//! A verified interpreter for a minimal line-oriented scripting language.
//!
//! The pipeline has three stages: a lexer that turns characters into tokens,
//! a recursive-descent parser with one token of lookahead that builds an
//! abstract syntax tree, and a tree-walking evaluator that runs statements
//! against a mutable variable environment and produces printable output.

pub mod interpreter;
pub mod lexer;
pub mod parser;
