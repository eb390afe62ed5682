//! The instructions of a stack machine's line-oriented language: their
//! model, their canonical text, and the parser from text to model.

pub mod inst;
pub mod laws;
pub mod parser;
pub mod scan;
pub mod text;
