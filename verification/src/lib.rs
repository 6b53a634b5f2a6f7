//! A verified parser for the opam file syntax.
//!
//! The pipeline is: `lexer::lex` turns source text into tokens with spans,
//! `parser::parse` turns tokens into a typed syntax tree, and
//! `printer::JsonPrinter` encodes that tree as JSON text.  Each stage's
//! contract states exactly what it computes.

pub mod chars;
pub mod lexer;
pub mod parser;
pub mod printer;

pub use lexer::lex;
pub use parser::parse;
pub use printer::json::JsonPrinter;
