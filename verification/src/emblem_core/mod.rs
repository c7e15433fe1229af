//! The core of the front end: positions, the lexer and the parser of Emblem
//! source, and the language version.
pub mod parser;
pub mod version;
