//! A scanner that turns the source text of a small C-like language into tokens.

pub mod lexer;
pub mod scan;
pub mod token;

pub use scan::{source, Scanner};
pub use token::{Error, Token, TokenStr};
