//! The content of a parsed document.
use vstd::prelude::*;
use crate::ast::{Dash, Glue, Par};
use crate::emblem_core::parser::location::{slice_range, Location};
use crate::emblem_core::parser::token::{find_char, first_index_of};
use crate::text::{lemma_trimmed_unique, str_chars, string_from_chars, trim_chars, trim_seq, trimmed};

verus! {

/// A piece of content of a line.
#[derive(Debug)]
pub enum Content {
    Shebang { text: String, loc: Location },
    Command {
        qualifier: Option<String>,
        name: String,
        pluses: usize,
        attrs: Option<Attrs>,
        inline_args: Vec<Vec<Content>>,
        remainder_arg: Option<Vec<Content>>,
        trailer_args: Vec<Vec<Par>>,
        loc: Location,
        invocation_loc: Location,
    },
    Sugar(Sugar),
    Word { word: String, loc: Location },
    Whitespace { whitespace: String, loc: Location },
    Dash { dash: Dash, loc: Location },
    Glue { glue: Glue, loc: Location },
    SpiltGlue { raw: String, loc: Location },
    Verbatim { verbatim: String, loc: Location },
    Comment { comment: String, loc: Location },
    MultiLineComment { content: MultiLineComment, loc: Location },
}

/// Syntactic sugar: a short way of writing a command.
#[derive(Debug)]
pub enum Sugar {
    Italic { delimiter: String, arg: Vec<Content>, loc: Location },
    Bold { delimiter: String, arg: Vec<Content>, loc: Location },
    Monospace { arg: Vec<Content>, loc: Location },
    Smallcaps { arg: Vec<Content>, loc: Location },
    AlternateFace { arg: Vec<Content>, loc: Location },
    Heading {
        level: usize,
        pluses: usize,
        gap: String,
        arg: Vec<Content>,
        loc: Location,
        invocation_loc: Location,
    },
    Mark { mark: String, loc: Location },
    Reference { reference: String, loc: Location },
}

/// The attributes given to a command.
#[derive(Debug)]
pub struct Attrs {
    pub attrs: Vec<Attr>,
    pub loc: Option<Location>,
}

impl Attrs {
    /// Attributes with the given members.
    pub fn new(attrs: Vec<Attr>) -> (a: Attrs)
        ensures
            a.attrs == attrs,
            a.loc is None,
    {
        Attrs { attrs, loc: None }
    }

    /// Attributes with the given members, written at `loc`.
    pub fn located(attrs: Vec<Attr>, loc: Location) -> (a: Attrs)
        ensures
            a.attrs == attrs,
            a.loc == Some(loc),
    {
        Attrs { attrs, loc: Some(loc) }
    }

    /// The attributes.
    pub fn args(&self) -> (r: &Vec<Attr>)
        ensures
            r == &self.attrs,
    {
        &self.attrs
    }

    /// Where the attributes were written, where known.
    pub fn loc(&self) -> (r: &Option<Location>)
        ensures
            r == &self.loc,
    {
        &self.loc
    }
}

/// An attribute: `name=value` or just `name`, as written.
#[derive(Clone, Debug, PartialEq, Eq)]
pub enum Attr {
    Named { eq_idx: usize, raw: String, loc: Option<Location> },
    Unnamed { raw: String, loc: Option<Location> },
}

/// The name of an attribute: what comes before the `=` of a named one, or
/// the whole text, with white space taken from both ends.
pub open spec fn attr_name(a: Attr) -> Seq<char> {
    match a {
        Attr::Named { raw, eq_idx, .. } => trim_seq(raw@.subrange(0, if eq_idx <= raw@.len() { eq_idx as int } else { raw@.len() as int })),
        Attr::Unnamed { raw, .. } => trim_seq(raw@),
    }
}

/// The value of a named attribute: what comes after its `=`, with white
/// space taken from both ends.
pub open spec fn attr_value(a: Attr) -> Option<Seq<char>> {
    match a {
        Attr::Named { raw, eq_idx, .. } => Some(trim_seq(raw@.subrange(if eq_idx < raw@.len() { eq_idx + 1 } else { raw@.len() as int }, raw@.len() as int))),
        Attr::Unnamed { .. } => None,
    }
}

impl Attr {
    /// A named attribute written `raw`, whose name ends at its first `=`
    /// (`eq_idx` counts characters).
    pub fn named(raw: &str) -> (a: Attr)
        requires
            first_index_of(raw@, '=') is Some,
        ensures
            a matches Attr::Named { eq_idx, raw: r, loc } && r@ == raw@ && loc is None
                && first_index_of(raw@, '=') == Some(eq_idx as nat),
    {
        let cs = str_chars(raw);
        let eq_idx = match find_char(cs.as_slice(), '=') {
            Some(i) => i,
            None => 0,
        };
        Attr::Named { eq_idx, raw: crate::text::string_of(raw), loc: None }
    }

    /// An unnamed attribute written `raw`.
    pub fn unnamed(raw: &str) -> (a: Attr)
        ensures
            a matches Attr::Unnamed { raw: r, loc } && r@ == raw@ && loc is None,
    {
        Attr::Unnamed { raw: crate::text::string_of(raw), loc: None }
    }

    /// This attribute, written at `loc`.
    pub fn located(self, loc: Location) -> (a: Attr)
        ensures
            match (self, a) {
                (Attr::Named { eq_idx: e0, raw: r0, .. }, Attr::Named { eq_idx: e1, raw: r1, loc: l }) => e0 == e1
                    && r0 == r1 && l == Some(loc),
                (Attr::Unnamed { raw: r0, .. }, Attr::Unnamed { raw: r1, loc: l }) => r0 == r1 && l == Some(loc),
                _ => false,
            },
    {
        match self {
            Attr::Named { eq_idx, raw, .. } => Attr::Named { eq_idx, raw, loc: Some(loc) },
            Attr::Unnamed { raw, .. } => Attr::Unnamed { raw, loc: Some(loc) },
        }
    }

    /// Where the attribute was written, where known.
    pub fn loc(&self) -> (r: &Option<Location>)
        ensures
            r == match self {
                Attr::Named { loc, .. } => loc,
                Attr::Unnamed { loc, .. } => loc,
            },
    {
        match self {
            Attr::Named { loc, .. } => loc,
            Attr::Unnamed { loc, .. } => loc,
        }
    }

    /// The raw text of the attribute.
    pub fn raw(&self) -> (r: &str)
        ensures
            r@ == match self {
                Attr::Named { raw, .. } => raw@,
                Attr::Unnamed { raw, .. } => raw@,
            },
    {
        match self {
            Attr::Named { raw, .. } => raw.as_str(),
            Attr::Unnamed { raw, .. } => raw.as_str(),
        }
    }

    /// The name: what comes before the `=`, or the whole text, with white
    /// space taken from both ends.
    pub fn name(&self) -> (r: String)
        ensures
            r@ == attr_name(*self),
    {
        match self {
            Attr::Named { raw, eq_idx, .. } => {
                let cs = str_chars(raw.as_str());
                let end = if *eq_idx <= cs.len() { *eq_idx } else { cs.len() };
                let part = slice_range(cs.as_slice(), 0, end);
                let (x, y) = trim_chars(part);
                let r = string_from_chars(slice_range(part, x, y));
                proof {
                    lemma_trimmed_unique(raw@.subrange(0, end as int), x as int, y as int);
                }
                r
            },
            Attr::Unnamed { raw, .. } => {
                let cs = str_chars(raw.as_str());
                let (x, y) = trim_chars(cs.as_slice());
                let r = string_from_chars(slice_range(cs.as_slice(), x, y));
                proof {
                    lemma_trimmed_unique(raw@, x as int, y as int);
                }
                r
            },
        }
    }

    /// The value: what comes after the `=`, with white space taken from both
    /// ends; an unnamed attribute has none.
    pub fn value(&self) -> (r: Option<String>)
        ensures
            match r {
                Some(v) => attr_value(*self) == Some(v@),
                None => attr_value(*self) is None,
            },
    {
        match self {
            Attr::Named { raw, eq_idx, .. } => {
                let cs = str_chars(raw.as_str());
                let start = if *eq_idx < cs.len() { *eq_idx + 1 } else { cs.len() };
                let part = slice_range(cs.as_slice(), start, cs.len());
                let (x, y) = trim_chars(part);
                let r = string_from_chars(slice_range(part, x, y));
                proof {
                    lemma_trimmed_unique(raw@.subrange(start as int, raw@.len() as int), x as int, y as int);
                }
                Some(r)
            },
            Attr::Unnamed { .. } => None,
        }
    }
}

/// A multi-line comment: its parts.
#[derive(Debug)]
pub struct MultiLineComment {
    pub parts: Vec<MultiLineCommentPart>,
}

/// A part of a multi-line comment.
#[derive(Debug)]
pub enum MultiLineCommentPart {
    Newline,
    Comment(String),
    Nested(MultiLineComment),
}

} // verus!
