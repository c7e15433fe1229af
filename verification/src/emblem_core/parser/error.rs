//! Errors of lexing and parsing, and how they are written.
use vstd::prelude::*;
use crate::emblem_core::parser::lexer::{LexicalError, SpannedTok};
use crate::emblem_core::parser::location::Location;
use crate::emblem_core::parser::point::Point;
use crate::emblem_core::parser::token::{tok_kind_name, Tok};
use crate::format::{char_debug, debug_char, debug_str, str_debug};
use crate::pattern::{quote, uniquote_quoted};
use crate::text::{decimal, push_decimal, push_str, string_of};

verus! {

/// The texts of locations, separated by `, `.
pub open spec fn joined_locs(ls: Seq<Location>) -> Seq<char>
    decreases ls.len(),
{
    if ls.len() == 0 {
        seq![]
    } else if ls.len() == 1 {
        ls[0].text_of()
    } else {
        joined_locs(ls.drop_last()) + ", "@ + ls.last().text_of()
    }
}

/// The texts of locations, each quoted for debugging, separated by `, `.
pub open spec fn debug_locs(ls: Seq<Location>) -> Seq<char>
    decreases ls.len(),
{
    if ls.len() == 0 {
        seq![]
    } else if ls.len() == 1 {
        str_debug(ls[0].text_of())
    } else {
        debug_locs(ls.drop_last()) + ", "@ + str_debug(ls.last().text_of())
    }
}

/// The message of a lexical error.
pub open spec fn lexical_message(e: LexicalError) -> Seq<char> {
    match e {
        LexicalError::UnexpectedChar { loc, found } => "unexpected character "@ + char_debug(found)
            + " found at "@ + loc.text_of(),
        LexicalError::UnexpectedEOF { point, .. } => "unexpected EOF found at "@ + point.text_of(),
        LexicalError::UnmatchedCommentOpen { unclosed } => "unclosed comment found at ["@ + debug_locs(
            unclosed@,
        ) + "]"@,
        LexicalError::UnmatchedCommentClose { loc } => "no comment to close found at "@ + loc.text_of(),
        LexicalError::NewlineInArg { arg_start_loc, .. } => "newline in braced args found at "@
            + arg_start_loc.text_of(),
        LexicalError::NewlineInAttrs { attr_start_loc, .. } => "newline in attributes found at "@
            + attr_start_loc.text_of(),
        LexicalError::NewlineInEmphDelimiter { newline_loc, expected, .. } => "newline in "@
            + uniquote_quoted(expected@) + " emphasis found at "@ + newline_loc.text_of(),
        LexicalError::DelimiterMismatch { loc, to_close_loc, expected } => "delimiter mismatch for "@
            + expected@ + " found at "@ + loc.text_of() + " (failed to match at "@ + to_close_loc.text_of()
            + ")"@,
        LexicalError::UnexpectedHeading { loc } => "unexpected heading at "@ + loc.text_of(),
        LexicalError::HeadingTooDeep { loc, level } => "heading too deep at "@ + loc.text_of() + " ("@
            + decimal(level as nat) + " levels)"@,
        LexicalError::TooManyQualifiers { loc, dot_locs } => "extra dots found at "@ + joined_locs(dot_locs@)
            + " in command name at "@ + loc.text_of(),
        LexicalError::EmptyQualifier { loc, qualifier_loc } => "empty qualifier found at "@
            + qualifier_loc.text_of() + " in command name at "@ + loc.text_of(),
    }
}

fn push_joined_locs(s: &mut String, ls: &Vec<Location>)
    ensures
        final(s)@ == old(s)@ + joined_locs(ls@),
{
    let ghost start = s@;
    let mut i: usize = 0;
    proof {
        assert(joined_locs(ls@.take(0)) =~= Seq::<char>::empty());
    }
    while i < ls.len()
        invariant
            i <= ls@.len(),
            s@ == start + joined_locs(ls@.take(i as int)),
        decreases ls@.len() - i,
    {
        let ghost before = s@;
        if i > 0 {
            push_str(s, ", ");
        }
        let t = ls[i].to_string();
        push_str(s, t.as_str());
        proof {
            assert(ls@.take(i + 1).drop_last() =~= ls@.take(i as int));
            assert(ls@.take(i + 1).last() == ls@[i as int]);
            if i == 0 {
                assert(ls@.take(1)[0] == ls@[0]);
            }
        }
        i = i + 1;
    }
    proof {
        assert(ls@.take(ls@.len() as int) =~= ls@);
    }
}

fn push_debug_locs(s: &mut String, ls: &Vec<Location>)
    ensures
        final(s)@ == old(s)@ + debug_locs(ls@),
{
    let ghost start = s@;
    let mut i: usize = 0;
    proof {
        assert(debug_locs(ls@.take(0)) =~= Seq::<char>::empty());
    }
    while i < ls.len()
        invariant
            i <= ls@.len(),
            s@ == start + debug_locs(ls@.take(i as int)),
        decreases ls@.len() - i,
    {
        if i > 0 {
            push_str(s, ", ");
        }
        let t = ls[i].to_string();
        let d = debug_str(t.as_str());
        push_str(s, d.as_str());
        proof {
            assert(ls@.take(i + 1).drop_last() =~= ls@.take(i as int));
            assert(ls@.take(i + 1).last() == ls@[i as int]);
            if i == 0 {
                assert(ls@.take(1)[0] == ls@[0]);
            }
        }
        i = i + 1;
    }
    proof {
        assert(ls@.take(ls@.len() as int) =~= ls@);
    }
}

impl LexicalError {
    /// The message of the error.
    pub fn to_string(&self) -> (s: String)
        ensures
            s@ == lexical_message(*self),
    {
        let mut s = String::new();
        match self {
            LexicalError::UnexpectedChar { loc, found } => {
                push_str(&mut s, "unexpected character ");
                push_str(&mut s, debug_char(*found).as_str());
                push_str(&mut s, " found at ");
                push_str(&mut s, loc.to_string().as_str());
            },
            LexicalError::UnexpectedEOF { point, .. } => {
                push_str(&mut s, "unexpected EOF found at ");
                push_str(&mut s, point.to_string().as_str());
            },
            LexicalError::UnmatchedCommentOpen { unclosed } => {
                push_str(&mut s, "unclosed comment found at [");
                push_debug_locs(&mut s, unclosed);
                push_str(&mut s, "]");
            },
            LexicalError::UnmatchedCommentClose { loc } => {
                push_str(&mut s, "no comment to close found at ");
                push_str(&mut s, loc.to_string().as_str());
            },
            LexicalError::NewlineInArg { arg_start_loc, .. } => {
                push_str(&mut s, "newline in braced args found at ");
                push_str(&mut s, arg_start_loc.to_string().as_str());
            },
            LexicalError::NewlineInAttrs { attr_start_loc, .. } => {
                push_str(&mut s, "newline in attributes found at ");
                push_str(&mut s, attr_start_loc.to_string().as_str());
            },
            LexicalError::NewlineInEmphDelimiter { newline_loc, expected, .. } => {
                push_str(&mut s, "newline in ");
                push_str(&mut s, quote(expected.as_str()).as_str());
                push_str(&mut s, " emphasis found at ");
                push_str(&mut s, newline_loc.to_string().as_str());
            },
            LexicalError::DelimiterMismatch { loc, to_close_loc, expected } => {
                push_str(&mut s, "delimiter mismatch for ");
                push_str(&mut s, expected.as_str());
                push_str(&mut s, " found at ");
                push_str(&mut s, loc.to_string().as_str());
                push_str(&mut s, " (failed to match at ");
                push_str(&mut s, to_close_loc.to_string().as_str());
                push_str(&mut s, ")");
            },
            LexicalError::UnexpectedHeading { loc } => {
                push_str(&mut s, "unexpected heading at ");
                push_str(&mut s, loc.to_string().as_str());
            },
            LexicalError::HeadingTooDeep { loc, level } => {
                push_str(&mut s, "heading too deep at ");
                push_str(&mut s, loc.to_string().as_str());
                push_str(&mut s, " (");
                push_decimal(&mut s, *level);
                push_str(&mut s, " levels)");
            },
            LexicalError::TooManyQualifiers { loc, dot_locs } => {
                push_str(&mut s, "extra dots found at ");
                push_joined_locs(&mut s, dot_locs);
                push_str(&mut s, " in command name at ");
                push_str(&mut s, loc.to_string().as_str());
            },
            LexicalError::EmptyQualifier { loc, qualifier_loc } => {
                push_str(&mut s, "empty qualifier found at ");
                push_str(&mut s, qualifier_loc.to_string().as_str());
                push_str(&mut s, " in command name at ");
                push_str(&mut s, loc.to_string().as_str());
            },
        }
        proof {
            assert(s@ =~= lexical_message(*self));
        }
        s
    }

    /// Where the error was found: the place the message points at (the
    /// innermost unclosed comment, for comments left open).
    pub fn location(&self) -> (l: Option<Location>)
        ensures
            match *self {
                LexicalError::UnexpectedChar { loc, .. } => l == Some(loc),
                LexicalError::UnexpectedEOF { point, .. } => l == Some(Location::between(point, point)),
                LexicalError::UnmatchedCommentOpen { unclosed } => l == (if unclosed@.len() > 0 {
                    Some(unclosed@.last())
                } else {
                    None
                }),
                LexicalError::UnmatchedCommentClose { loc } => l == Some(loc),
                LexicalError::NewlineInArg { arg_start_loc, .. } => l == Some(arg_start_loc),
                LexicalError::NewlineInAttrs { attr_start_loc, .. } => l == Some(attr_start_loc),
                LexicalError::NewlineInEmphDelimiter { newline_loc, .. } => l == Some(newline_loc),
                LexicalError::DelimiterMismatch { loc, .. } => l == Some(loc),
                LexicalError::UnexpectedHeading { loc } => l == Some(loc),
                LexicalError::HeadingTooDeep { loc, .. } => l == Some(loc),
                LexicalError::TooManyQualifiers { loc, .. } => l == Some(loc),
                LexicalError::EmptyQualifier { loc, .. } => l == Some(loc),
            },
    {
        match self {
            LexicalError::UnexpectedChar { loc, .. } => Some(loc.duplicate()),
            LexicalError::UnexpectedEOF { point, .. } => Some(Location::new(point, point)),
            LexicalError::UnmatchedCommentOpen { unclosed } => {
                if unclosed.len() > 0 {
                    Some(unclosed[unclosed.len() - 1].duplicate())
                } else {
                    None
                }
            },
            LexicalError::UnmatchedCommentClose { loc } => Some(loc.duplicate()),
            LexicalError::NewlineInArg { arg_start_loc, .. } => Some(arg_start_loc.duplicate()),
            LexicalError::NewlineInAttrs { attr_start_loc, .. } => Some(attr_start_loc.duplicate()),
            LexicalError::NewlineInEmphDelimiter { newline_loc, .. } => Some(newline_loc.duplicate()),
            LexicalError::DelimiterMismatch { loc, .. } => Some(loc.duplicate()),
            LexicalError::UnexpectedHeading { loc } => Some(loc.duplicate()),
            LexicalError::HeadingTooDeep { loc, .. } => Some(loc.duplicate()),
            LexicalError::TooManyQualifiers { loc, .. } => Some(loc.duplicate()),
            LexicalError::EmptyQualifier { loc, .. } => Some(loc.duplicate()),
        }
    }
}

/// Why a text could not be parsed: a token where the grammar allows none
/// of its kind, the end of the tokens where more were needed, or the
/// lexical error that stopped the tokens.
#[derive(Debug)]
pub enum ParseError {
    UnrecognizedEof { location: Point, expected: Vec<String> },
    UnrecognizedToken { token: SpannedTok, expected: Vec<String> },
    User { error: LexicalError },
}

/// The message of a parse error.
pub open spec fn parse_message(e: ParseError) -> Seq<char> {
    match e {
        ParseError::UnrecognizedEof { location, .. } => "Unrecognized EOF found at "@ + location.text_of(),
        ParseError::UnrecognizedToken { token, .. } => "Unrecognized token `"@ + tok_kind_name(token.1)
            + "` found at "@ + token.0.text_of() + ":"@ + token.2.text_of(),
        ParseError::User { error } => lexical_message(error),
    }
}

impl ParseError {
    /// The message of the error.
    pub fn to_string(&self) -> (s: String)
        ensures
            s@ == parse_message(*self),
    {
        match self {
            ParseError::UnrecognizedEof { location, .. } => {
                let mut s = string_of("Unrecognized EOF found at ");
                push_str(&mut s, location.to_string().as_str());
                s
            },
            ParseError::UnrecognizedToken { token, .. } => {
                let mut s = string_of("Unrecognized token `");
                push_str(&mut s, token.1.to_string().as_str());
                push_str(&mut s, "` found at ");
                push_str(&mut s, token.0.to_string().as_str());
                push_str(&mut s, ":");
                push_str(&mut s, token.2.to_string().as_str());
                s
            },
            ParseError::User { error } => error.to_string(),
        }
    }
}

/// A failure to parse a named file.
#[derive(Debug)]
pub enum Error {
    Parse { file_name: String, cause: ParseError },
    TooLong { file_name: String },
}

impl Error {
    /// A failure to parse the file `file_name`.
    pub fn parse_error_in(file_name: &str, cause: ParseError) -> (e: Error)
        ensures
            e matches Error::Parse { file_name: f, cause: c } && f@ == file_name@ && c == cause,
    {
        Error::Parse { file_name: string_of(file_name), cause }
    }

    /// The parse error, where the failure is one.
    pub fn parse_error(&self) -> (r: Option<&ParseError>)
        ensures
            match self {
                Error::Parse { cause, .. } => r == Some(cause),
                Error::TooLong { .. } => r is None,
            },
    {
        match self {
            Error::Parse { cause, .. } => Some(cause),
            Error::TooLong { .. } => None,
        }
    }

    /// The message: the file's name, then the cause.
    pub fn to_string(&self) -> (s: String)
        ensures
            match *self {
                Error::Parse { file_name, cause } => s@ == file_name@ + ": "@ + parse_message(cause),
                Error::TooLong { file_name } => s@ == file_name@ + ": the text is too long"@,
            },
    {
        match self {
            Error::Parse { file_name, cause } => {
                let mut s = string_of(file_name.as_str());
                push_str(&mut s, ": ");
                push_str(&mut s, cause.to_string().as_str());
                s
            },
            Error::TooLong { file_name } => {
                let mut s = string_of(file_name.as_str());
                push_str(&mut s, ": the text is too long");
                s
            },
        }
    }
}

} // verus!
