//! A small dynamically typed scripting language: a scanner, a recursive
//! descent parser, a chain of lexical scopes and a tree-walking evaluator.
//!
//! Numbers are IEEE-754 doubles, held as their 64-bit patterns. The crate
//! compares, negates and classifies them itself; rounding arithmetic and the
//! conversions between doubles and decimal text are supplied by the embedding
//! through [`arithmetic::Arithmetic`].

pub mod arithmetic;
pub mod ast;
pub mod environment;
pub mod error;
pub mod interpreter;
pub mod parser;
pub mod runner;
pub mod scanner;
pub mod text;
pub mod token;
pub mod value;
