//! Front end for a small domain-specific language: a lexer that turns source
//! text into a token sequence ending in an end-of-input marker, and a
//! recursive-descent parser that turns that sequence into statement and
//! expression trees.

pub mod lexer;
pub mod parser;
pub mod laws;
