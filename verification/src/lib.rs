//! Extraction of PDF page primitives: the byte-level lexer, stream filters, the standard
//! security handler and the font tables, each proved against its contract.

pub mod content;
pub mod crypt;
pub mod document;
pub mod error;
pub mod filters;
pub mod font;
pub mod lexer;
pub mod object;
pub mod page;
pub mod parser;
pub mod render;
pub mod text;
