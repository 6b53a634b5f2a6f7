//! Printers for the parsed tree.

pub mod json;
