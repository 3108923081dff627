//! A scanner and a recursive-descent parser for a minimal, untyped lambda
//! calculus, with the laws that hold of them.

pub mod ast;
pub mod grammar;
pub mod parser;
pub mod repl;
pub mod round_trip;
pub mod scanner;
pub mod std_specs;
