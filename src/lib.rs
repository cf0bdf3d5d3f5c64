//! A small expression language: tokenizer, recursive-descent parser and
//! tree-walking evaluator, with the number theory two of its operators use.
pub mod ast;
pub mod display;
pub mod exec;
pub mod laws;
pub mod round_trip;
pub mod math;
pub mod tokenizer;
