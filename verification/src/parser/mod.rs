//! The first form of the front end's positions and parser, kept for the
//! tools built on it: positions count columns from zero, and verbatim text
//! may be empty.
pub mod point;
pub mod location;

pub use point::Point;
pub use location::{Location, LocationContext};
pub use crate::emblem_core::parser::error::{Error, ParseError};
pub use crate::emblem_core::parser::lexer::LexicalError;

use vstd::prelude::*;
use crate::ast::File;
use crate::emblem_core::parser::cursor::fits;
use crate::emblem_core::parser::driver::{parse_in, parse_outcome, read_from};
use crate::emblem_core::parser::lexer::{lexes, SpannedTok};
use crate::emblem_core::parser::lexer::Dialect;

verus! {

/// Parses `content`, the text of the file `name`, in the first form of the
/// language.
pub fn parse(name: &str, content: &str) -> (r: Result<File, Box<Error>>)
    ensures
        r matches Ok(f) ==> read_from(content@, f),
        r matches Err(e) ==> (*e matches Error::Parse { file_name: n, cause } && n@ == name@)
            || (*e matches Error::TooLong { file_name: n } && n@ == name@ && !fits(content@.len())),
        !fits(content@.len()) ==> (r matches Err(e) && *e is TooLong),
        fits(content@.len()) ==> exists|ts: Seq<SpannedTok>, err: Option<LexicalError>|
            #[trigger] lexes(name@, content@, Dialect::Legacy, ts, err) && parse_outcome(ts, err, match r {
                Ok(f) => Ok(f),
                Err(e) => Err(*e),
            }),
{
    let res = parse_in(name, content, Dialect::Legacy);
    match res {
        Ok(f) => Ok(f),
        Err(e) => Err(Box::new(e)),
    }
}

} // verus!
