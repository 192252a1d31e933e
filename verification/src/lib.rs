//! Lexical scanner for the Crust language: turns source text into a stream of
//! classified, positioned tokens by maximal munch with a fixed precedence among
//! the token classifiers.

pub mod chars;
pub mod checker;
pub mod laws;
pub mod lexer;
pub mod model;
pub mod whitespace;
