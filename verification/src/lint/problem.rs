//! A problem found by a lint, as plain text.
use vstd::prelude::*;
use crate::text::{push_str, string_of};

verus! {

/// A problem: the identifier of the lint that found it, and why.
#[derive(Clone, Debug)]
pub struct Problem {
    pub id: &'static str,
    pub reason: String,
}

impl Problem {
    /// The problem `reason` found by the lint `id`.
    pub fn new(id: &'static str, reason: &str) -> (p: Problem)
        ensures
            p.id == id,
            p.reason@ == reason@,
    {
        Problem { id, reason: string_of(reason) }
    }

    /// The problem written out: the identifier in brackets and a colon,
    /// then the reason on an indented line of its own.
    pub fn to_string(&self) -> (s: String)
        ensures
            s@ == "["@ + self.id@ + "]:\n\t"@ + self.reason@ + "\n"@,
    {
        let mut s = string_of("[");
        push_str(&mut s, self.id);
        push_str(&mut s, "]:\n\t");
        push_str(&mut s, self.reason.as_str());
        push_str(&mut s, "\n");
        s
    }
}

} // verus!
