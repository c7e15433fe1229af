//! The syntax tree of Emblem documents.
pub mod parsed;
pub mod text;
pub mod debug;
pub mod region;

pub use debug::AstDebug;

use vstd::prelude::*;
use crate::ast::parsed::Content;
use crate::text::string_of;

verus! {

/// A document: its paragraphs.
#[derive(Debug)]
pub struct File {
    pub pars: Vec<Par>,
}

/// A paragraph: its lines and commands with trailer arguments.
#[derive(Debug)]
pub struct Par {
    pub parts: Vec<ParPart>,
}

/// A part of a paragraph: a command whose trailer arguments take up the
/// lines below it, or a line of content.
#[derive(Debug)]
pub enum ParPart {
    Command(Content),
    Line(Vec<Content>),
}

impl Par {
    /// A paragraph of the given parts.
    pub fn from_parts(parts: Vec<ParPart>) -> (p: Par)
        ensures
            p.parts == parts,
    {
        Par { parts }
    }
}

/// A dash between words: `-`, `--` or `---`.
#[derive(Copy, Clone, Debug, PartialEq, Eq)]
pub enum Dash {
    Hyphen,
    En,
    Em,
}

/// The text of a dash.
pub open spec fn dash_text(d: Dash) -> Seq<char> {
    match d {
        Dash::Hyphen => seq!['-'],
        Dash::En => seq!['-', '-'],
        Dash::Em => seq!['-', '-', '-'],
    }
}

impl Dash {
    /// The dash written `s`, if `s` is one.
    pub fn from_text(s: &str) -> (d: Option<Dash>)
        ensures
            match d {
                Some(d) => dash_text(d) == s@,
                None => forall|d: Dash| dash_text(d) != s@,
            },
    {
        let n = s.unicode_len();
        if n == 0 || n > 3 {
            proof {
                assert(dash_text(Dash::Hyphen).len() == 1);
                assert(dash_text(Dash::En).len() == 2);
                assert(dash_text(Dash::Em).len() == 3);
            }
            return None;
        }
        let mut i: usize = 0;
        while i < n
            invariant
                n == s@.len(),
                i <= n,
                forall|j: int| 0 <= j < i ==> s@[j] == '-',
            decreases n - i,
        {
            if s.get_char(i) != '-' {
                proof {
                    assert forall|d: Dash| dash_text(d) != s@ by {
                        if dash_text(d) == s@ {
                            assert(dash_text(d)[i as int] == '-');
                        }
                    }
                }
                return None;
            }
            i = i + 1;
        }
        if n == 1 {
            assert(s@ =~= seq!['-']);
            Some(Dash::Hyphen)
        } else if n == 2 {
            assert(s@ =~= seq!['-', '-']);
            Some(Dash::En)
        } else {
            assert(s@ =~= seq!['-', '-', '-']);
            Some(Dash::Em)
        }
    }

    /// The text of the dash.
    pub fn as_str(&self) -> (s: &'static str)
        ensures
            s@ == dash_text(*self),
    {
        proof {
            reveal_strlit("-");
            reveal_strlit("--");
            reveal_strlit("---");
        }
        match self {
            Dash::Hyphen => "-",
            Dash::En => "--",
            Dash::Em => "---",
        }
    }
}

/// Glue between words: `~` keeps them tight, `~~` puts a non-breaking
/// space between them.
#[derive(Copy, Clone, Debug, PartialEq, Eq)]
pub enum Glue {
    Tight,
    Nbsp,
}

/// The text of glue.
pub open spec fn glue_text(g: Glue) -> Seq<char> {
    match g {
        Glue::Tight => seq!['~'],
        Glue::Nbsp => seq!['~', '~'],
    }
}

impl Glue {
    /// The glue written `s`, if `s` is some.
    pub fn from_text(s: &str) -> (g: Option<Glue>)
        ensures
            match g {
                Some(g) => glue_text(g) == s@,
                None => forall|g: Glue| glue_text(g) != s@,
            },
    {
        let n = s.unicode_len();
        if n == 1 && s.get_char(0) == '~' {
            assert(s@ =~= seq!['~']);
            return Some(Glue::Tight);
        }
        if n == 2 && s.get_char(0) == '~' && s.get_char(1) == '~' {
            assert(s@ =~= seq!['~', '~']);
            return Some(Glue::Nbsp);
        }
        proof {
            assert forall|g: Glue| glue_text(g) != s@ by {
                if glue_text(g) == s@ {
                    assert(glue_text(g)[0] == '~');
                    if g == Glue::Nbsp {
                        assert(glue_text(g)[1] == '~');
                    }
                }
            }
        }
        None
    }

    /// The text of the glue.
    pub fn as_str(&self) -> (s: &'static str)
        ensures
            s@ == glue_text(*self),
    {
        proof {
            reveal_strlit("~");
            reveal_strlit("~~");
        }
        match self {
            Glue::Tight => "~",
            Glue::Nbsp => "~~",
        }
    }
}

} // verus!
