//! Front end for the Zypo language: a verified parsing-and-scoping pipeline
//! that turns source text into a validated, typed abstract syntax tree.

pub mod parser;
