//! The core of a small stack language: a data stack, a dictionary of words,
//! and an evaluator that pushes literals and runs primitive and compound words.

pub mod word;
pub mod literal;
pub mod text;
pub mod interpreter;
pub mod builtin;
pub mod laws;
