//! Core compiler code for the Percival language: the abstract syntax of
//! programs, their grammar, and a verified parser from source text to syntax.

pub mod ast;
pub mod grammar;
pub mod props;
pub mod parse;
pub mod laws;

pub use ast::{Fact, Program, Rule, Value};
pub use grammar::{Expected, Label, SyntaxError};
pub use parse::parse;
