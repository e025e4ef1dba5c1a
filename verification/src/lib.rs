//! A verified reader for Opera Hotlist note exports.
//!
//! The library lexes and parses a Hotlist text into a validated document
//! tree, resolves error offsets to line/column context, and walks the tree
//! in document order driving a caller-supplied visitor, as renderers need.

pub mod ast;
pub mod error;
pub mod gen;
pub mod lexer;
pub mod parser;
pub mod strutil;
