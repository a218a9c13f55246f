//! Front end of a small language toolchain: a string-interning pool, a
//! finite-state lexical scanner that turns source text into located tokens
//! one call at a time, a whole-buffer tokenizer that keeps literal text
//! inline, and the command-line parameters of the tool around them.
pub mod batch;
pub mod diag;
pub mod lexer;
pub mod params;
pub mod pool;
pub mod tree;
