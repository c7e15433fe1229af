//! Lexing and parsing of Emblem source.
pub mod point;
pub mod location;
pub mod token;
pub mod cursor;
pub mod lexer;
pub mod grammar;
pub mod parse;
pub mod error;
pub mod driver;
pub mod located;
pub mod verbatim;

pub use point::Point;
pub use location::{FileContentSlice, Location};
pub use token::Tok;
pub use driver::parse;
pub use lexer::{LexicalError, Lexer};
