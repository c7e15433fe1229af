//! Text held by the syntax tree.
use vstd::prelude::*;

verus! {

/// Text that the syntax tree holds: taken from the source or made anew.
#[derive(Debug)]
pub enum Text {
    Owned(String),
    Borrowed(String),
}

impl Text {
    /// The text.
    pub fn as_str(&self) -> (s: &str)
        ensures
            s@ == match self {
                Text::Owned(t) => t@,
                Text::Borrowed(t) => t@,
            },
    {
        match self {
            Text::Owned(s) => s.as_str(),
            Text::Borrowed(s) => s.as_str(),
        }
    }

    /// The text as an owned string.
    pub fn into_string(self) -> (s: String)
        ensures
            s@ == match self {
                Text::Owned(t) => t@,
                Text::Borrowed(t) => t@,
            },
    {
        match self {
            Text::Owned(s) => s,
            Text::Borrowed(s) => s,
        }
    }

    /// Text taken from the source.
    pub fn borrowed(s: &str) -> (t: Text)
        ensures
            t matches Text::Borrowed(u) && u@ == s@,
    {
        Text::Borrowed(crate::text::string_of(s))
    }

    /// Text made anew.
    pub fn owned(s: String) -> (t: Text)
        ensures
            t == Text::Owned(s),
    {
        Text::Owned(s)
    }
}

} // verus!
