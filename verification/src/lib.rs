//! Emblem: a typesetting language front end.
//!
//! The library holds the lexer and parser of Emblem source text, the
//! positions and locations used to report problems, the syntax tree and its
//! textual form, the lints that run over the tree, the message catalogue and
//! the pure parts of command-line handling.
#![allow(unused_imports)]

pub mod text;
pub mod lines;
pub mod pattern;
pub mod format;
pub mod emblem_core;
pub mod ast;
pub mod parser;
pub mod log;
pub mod lint;
pub mod args;
pub mod repo;
pub mod rc_chunk_allocator;

use vstd::prelude::*;

verus! {

} // verus!
