//! The evaluation core of a small Lisp: values, chained environments and an
//! evaluator with special forms, macros and a tail-iteration construct, each
//! executable function proved against a mathematical model of the language.

pub mod model;
pub mod text;
pub mod data;
pub mod equal;
pub mod env;
pub mod builtins;
pub mod semantics;
pub mod eval;
pub mod lexer;
pub mod parser;
pub mod laws;
pub mod cutoff;
