//! The catalogue of messages: each problem the user may be told of, how it
//! is worded, and, for those with an identifier, a longer explanation.
use vstd::prelude::*;
use crate::emblem_core::parser::location::Location;
use crate::emblem_core::parser::point::Point;
use crate::emblem_core::parser::token::{tok_kind_name, Tok};
use crate::format::{debug_str, str_debug};
use crate::lint::names::same_text;
use crate::log::{expected_text, Level, Log, Note, Src};
use crate::text::{push_str, string_of};

verus! {

/// The explanation of a newline in inline arguments.
pub const NEWLINE_IN_INLINE_ARG_EXPLANATION: &'static str = "This error means that a newline was detected early in the parsing of arguments. Command arguments have two forms:\n\n```\n.command{inline-arg-1}{inline-arg-2}{...}: remainder-arg\n// or\n.command{inline-arg-1}{inline-arg-2}{...}:\n\ttrailer\n\targ\n\t1\n::\n\ttrailer\n\targ\n\t2\n::\n\t...\n```\n\nIf you are an extension author, consider ordering arguments so your users are encouraged to place longer ones later.";

/// The explanation of an unknown error code.
pub const NO_SUCH_ERROR_CODE_EXPLANATION: &'static str = "Error codes have the form `Eddd`, for digits `d`, such as this error, E001. If you're seeing this, please check for any typos.";

/// A problem that the user may be told of.
pub trait Message: Sized {
    /// The message's identifier, of the form `Eddd`, or empty where it has
    /// none.
    fn id() -> &'static str;

    /// Whether the message's positions can be shown: spans that are joined
    /// lie in one file, and a position that is moved can move.
    spec fn showable(&self) -> bool;

    /// The message, worded for the user.
    fn log(self) -> Log
        requires
            self.showable(),
    ;

    /// A longer explanation: why the problem comes up and how to avoid it.
    fn explain(&self) -> &'static str;
}

/// A newline inside emphasis.
pub struct NewlineInEmphDelimiter {
    pub delimiter_start_loc: Location,
    pub newline_loc: Location,
    pub expected: String,
}

impl NewlineInEmphDelimiter {
    pub fn new(delimiter_start_loc: Location, newline_loc: Location, expected: String) -> (m: NewlineInEmphDelimiter)
        ensures
            m.delimiter_start_loc == delimiter_start_loc,
            m.newline_loc == newline_loc,
            m.expected == expected,
    {
        NewlineInEmphDelimiter { delimiter_start_loc, newline_loc, expected }
    }
}

impl Message for NewlineInEmphDelimiter {
    open spec fn showable(&self) -> bool {
        self.delimiter_start_loc.file_name@ == self.newline_loc.file_name@
    }

    fn id() -> (r: &'static str)
        ensures
            r@ == ""@,
    {
        ""
    }

    /// An error pointing at the newline, within the span from where the
    /// emphasis started.
    fn log(self) -> (l: Log)
        ensures
            l.msg@ == "newline in ‘"@ + self.expected@ + "’ emphasis"@,
            l.msg_type == Level::Error,
            l.id is None,
            l.srcs@.len() == 1,
            l.srcs@[0].annotations@.len() == 2,
            l.srcs@[0].annotations@[0].loc == self.newline_loc,
            l.srcs@[0].annotations@[1].loc == self.delimiter_start_loc,
    {
        let mut msg = string_of("newline in ‘");
        push_str(&mut msg, self.expected.as_str());
        push_str(&mut msg, "’ emphasis");
        let span = self.delimiter_start_loc.span_to(&self.newline_loc);
        Log::error(msg.as_str()).src(
            Src::new(&span).annotate(Note::error(&self.newline_loc, "newline found here")).annotate(
                Note::info(&self.delimiter_start_loc, "in emphasis started here"),
            ),
        )
    }

    fn explain(&self) -> (r: &'static str)
        ensures
            r@ == ""@,
    {
        ""
    }
}

/// A newline inside inline arguments.
pub struct NewlineInInlineArg {
    pub arg_start_loc: Location,
    pub newline_loc: Location,
}

impl NewlineInInlineArg {
    pub fn new(arg_start_loc: Location, newline_loc: Location) -> (m: NewlineInInlineArg)
        ensures
            m.arg_start_loc == arg_start_loc,
            m.newline_loc == newline_loc,
    {
        NewlineInInlineArg { arg_start_loc, newline_loc }
    }
}

impl Message for NewlineInInlineArg {
    open spec fn showable(&self) -> bool {
        self.arg_start_loc.file_name@ == self.newline_loc.file_name@
    }

    fn id() -> (r: &'static str)
        ensures
            r@ == "E002"@,
    {
        "E002"
    }

    /// An explainable error pointing at the newline, within the span from
    /// where the argument started, with help.
    fn log(self) -> (l: Log)
        ensures
            l.msg@ == "newline in inline (curly-braced) arguments"@,
            l.msg_type == Level::Error,
            l.id matches Some(i) && i@ == "E002"@,
            l.explainable,
            l.srcs@.len() == 1,
            l.help matches Some(h) && h@ == "consider using trailer (colon) arguments"@,
    {
        let span = self.arg_start_loc.span_to(&self.newline_loc);
        Log::error("newline in inline (curly-braced) arguments").id(Self::id()).explainable().src(
            Src::new(&span).annotate(Note::error(&self.newline_loc, "newline found here")).annotate(
                Note::info(&self.arg_start_loc, "in inline argument started here"),
            ),
        ).help("consider using trailer (colon) arguments")
    }

    fn explain(&self) -> (r: &'static str)
        ensures
            r == NEWLINE_IN_INLINE_ARG_EXPLANATION,
    {
        NEWLINE_IN_INLINE_ARG_EXPLANATION
    }
}

/// An error code that names no message.
#[derive(Debug)]
pub struct NoSuchErrorCode {
    pub id: String,
}

impl NoSuchErrorCode {
    pub fn new(id: &str) -> (m: NoSuchErrorCode)
        ensures
            m.id@ == id@,
    {
        NoSuchErrorCode { id: string_of(id) }
    }
}

impl Message for NoSuchErrorCode {
    open spec fn showable(&self) -> bool {
        true
    }

    fn id() -> (r: &'static str)
        ensures
            r@ == "E001"@,
    {
        "E001"
    }

    /// An explainable error naming the code, quoted, with help.
    fn log(self) -> (l: Log)
        ensures
            l.msg@ == "no such error code "@ + str_debug(self.id@),
            l.msg_type == Level::Error,
            l.id matches Some(i) && i@ == "E001"@,
            l.explainable,
            l.srcs@.len() == 0,
            l.help matches Some(h) && h@ == "perhaps there is a typo here?"@,
    {
        let mut msg = string_of("no such error code ");
        let quoted = debug_str(self.id.as_str());
        push_str(&mut msg, quoted.as_str());
        Log::error(msg.as_str()).id(Self::id()).explainable().help("perhaps there is a typo here?")
    }

    fn explain(&self) -> (r: &'static str)
        ensures
            r == NO_SUCH_ERROR_CODE_EXPLANATION,
    {
        NO_SUCH_ERROR_CODE_EXPLANATION
    }
}

/// Comments left open at the end of the file.
pub struct UnclosedComments {
    pub unclosed: Vec<Location>,
}

impl UnclosedComments {
    pub fn new(unclosed: Vec<Location>) -> (m: UnclosedComments)
        ensures
            m.unclosed == unclosed,
    {
        UnclosedComments { unclosed }
    }
}

impl Message for UnclosedComments {
    open spec fn showable(&self) -> bool {
        true
    }

    fn id() -> (r: &'static str)
        ensures
            r@ == ""@,
    {
        ""
    }

    /// An error pointing at each comment left open, in order.
    fn log(self) -> (l: Log)
        ensures
            l.msg@ == (if self.unclosed@.len() > 1 { "unclosed comments"@ } else { "unclosed comment"@ }),
            l.msg_type == Level::Error,
            l.id is None,
            l.srcs@.len() == self.unclosed@.len(),
            forall|i: int| 0 <= i < l.srcs@.len() ==> (#[trigger] l.srcs@[i]).loc == self.unclosed@[i]
                && l.srcs@[i].annotations@.len() == 1 && l.srcs@[i].annotations@[0].loc == self.unclosed@[i]
                && l.srcs@[i].annotations@[0].msg@ == "found here"@,
    {
        let msg = if self.unclosed.len() > 1 { "unclosed comments" } else { "unclosed comment" };
        let mut ret = Log::error(msg);
        let mut i: usize = 0;
        while i < self.unclosed.len()
            invariant
                i <= self.unclosed@.len(),
                ret.msg@ == (if self.unclosed@.len() > 1 { "unclosed comments"@ } else { "unclosed comment"@ }),
                ret.msg_type == Level::Error,
                ret.id is None,
                ret.srcs@.len() == i,
                forall|k: int| 0 <= k < i ==> (#[trigger] ret.srcs@[k]).loc == self.unclosed@[k]
                    && ret.srcs@[k].annotations@.len() == 1 && ret.srcs@[k].annotations@[0].loc
                    == self.unclosed@[k] && ret.srcs@[k].annotations@[0].msg@ == "found here"@,
            decreases self.unclosed@.len() - i,
        {
            let loc = &self.unclosed[i];
            let src = Src::new(loc).annotate(Note::error(loc, "found here"));
            ret = ret.src(src);
            i = i + 1;
        }
        ret
    }

    fn explain(&self) -> (r: &'static str)
        ensures
            r@ == ""@,
    {
        ""
    }
}

/// The file ended where more was expected.
pub struct UnexpectedEOF {
    pub point: Point,
    pub expected: Vec<String>,
}

impl UnexpectedEOF {
    /// The end of the file found at `point`, where one of `expected` was
    /// wanted; the message points one byte back, at the file's last
    /// character.
    pub fn new(point: Point, expected: Vec<String>) -> (m: UnexpectedEOF)
        requires
            point.index > 0,
        ensures
            m.point == (Point { index: (point.index - 1) as usize, ..point }),
            m.expected == expected,
    {
        let mut point = point;
        point.index = point.index - 1;
        UnexpectedEOF { point, expected }
    }
}

impl Message for UnexpectedEOF {
    open spec fn showable(&self) -> bool {
        self.point.can_advance(1)
    }

    fn id() -> (r: &'static str)
        ensures
            r@ == ""@,
    {
        ""
    }

    /// An error pointing at where the file ended, with what was expected.
    fn log(self) -> (l: Log)
        ensures
            l.msg@ == "unexpected eof"@,
            l.msg_type == Level::Error,
            l.id matches Some(i) && i@ == ""@,
            l.srcs@.len() == 1,
            l.note matches Some(n) && n@ == expected_text(self.expected@.map_values(|e: String| e@)),
    {
        proof {
            reveal_strlit("\0");
        }
        let end = self.point.duplicate().shift("\0");
        let loc = Location::new(&self.point, &end);
        Log::error("unexpected eof").id(Self::id()).src(
            Src::new(&loc).annotate(Note::error(&loc, "file ended early here")),
        ).expect_one_of(&self.expected)
    }

    fn explain(&self) -> (r: &'static str)
        ensures
            r@ == ""@,
    {
        ""
    }
}

/// A heading where none may stand.
pub struct UnexpectedHeading {
    pub loc: Location,
}

impl UnexpectedHeading {
    pub fn new(loc: Location) -> (m: UnexpectedHeading)
        ensures
            m.loc == loc,
    {
        UnexpectedHeading { loc }
    }
}

impl Message for UnexpectedHeading {
    open spec fn showable(&self) -> bool {
        true
    }

    fn id() -> (r: &'static str)
        ensures
            r@ == "E004"@,
    {
        "E004"
    }

    /// An explainable error pointing at the heading, with help.
    fn log(self) -> (l: Log)
        ensures
            l.msg@ == "unexpected heading"@,
            l.msg_type == Level::Error,
            l.id matches Some(i) && i@ == "E004"@,
            l.explainable,
            l.srcs@.len() == 1,
            l.help matches Some(h) && h@ == "headings should only appear at the start of lines"@,
    {
        Log::error("unexpected heading").id(Self::id()).explainable().src(
            Src::new(&self.loc).annotate(Note::error(&self.loc, "found here")),
        ).help("headings should only appear at the start of lines")
    }

    fn explain(&self) -> (r: &'static str)
        ensures
            r@ == ""@,
    {
        ""
    }
}

/// A token where none of the expected ones came.
pub struct UnexpectedToken {
    pub loc: Location,
    pub token: Tok,
    pub expected: Vec<String>,
}

impl UnexpectedToken {
    pub fn new(loc: Location, token: Tok, expected: Vec<String>) -> (m: UnexpectedToken)
        ensures
            m.loc == loc,
            m.token == token,
            m.expected == expected,
    {
        UnexpectedToken { loc, token, expected }
    }
}

impl Message for UnexpectedToken {
    open spec fn showable(&self) -> bool {
        true
    }

    fn id() -> (r: &'static str)
        ensures
            r@ == ""@,
    {
        ""
    }

    /// An error pointing at the token and naming its kind, with what was
    /// expected.
    fn log(self) -> (l: Log)
        ensures
            l.msg@ == "unexpected token"@,
            l.msg_type == Level::Error,
            l.srcs@.len() == 1,
            l.srcs@[0].annotations@.len() == 1,
            l.srcs@[0].annotations@[0].msg@ == "found a "@ + tok_kind_name(self.token) + " here"@,
            l.note matches Some(n) && n@ == expected_text(self.expected@.map_values(|e: String| e@)),
    {
        let mut text = string_of("found a ");
        let name = self.token.to_string();
        push_str(&mut text, name.as_str());
        push_str(&mut text, " here");
        Log::error("unexpected token").src(Src::new(&self.loc).annotate(Note::error(&self.loc, text.as_str())))
            .expect_one_of(&self.expected)
    }

    fn explain(&self) -> (r: &'static str)
        ensures
            r@ == ""@,
    {
        ""
    }
}

/// A message of the catalogue: its identifier and its explanation.
pub struct MessageInfo {
    pub id: &'static str,
    pub explanation: &'static str,
}

impl MessageInfo {
    /// The message's identifier, empty where it has none.
    pub fn id(&self) -> (r: &'static str)
        ensures
            r == self.id,
    {
        self.id
    }

    /// The message's explanation, empty where it has none.
    pub fn explanation(&self) -> (r: &'static str)
        ensures
            r == self.explanation,
    {
        self.explanation
    }
}

/// The catalogue, as identifier and explanation of each message in turn.
pub open spec fn catalogue() -> Seq<(Seq<char>, Seq<char>)> {
    seq![
        ("E002"@, NEWLINE_IN_INLINE_ARG_EXPLANATION@),
        ("E001"@, NO_SUCH_ERROR_CODE_EXPLANATION@),
        (""@, ""@),
        (""@, ""@),
        (""@, ""@),
    ]
}

/// The catalogue of messages: a newline in inline arguments, an unknown
/// error code, unclosed comments, an early end of file and an unexpected
/// token.
pub fn messages() -> (r: Vec<MessageInfo>)
    ensures
        r@.len() == catalogue().len(),
        forall|i: int| 0 <= i < r@.len() ==> (#[trigger] r@[i]).id@ == catalogue()[i].0
            && r@[i].explanation@ == catalogue()[i].1,
{
    let mut r: Vec<MessageInfo> = Vec::new();
    r.push(MessageInfo { id: NewlineInInlineArg::id(), explanation: NEWLINE_IN_INLINE_ARG_EXPLANATION });
    r.push(MessageInfo { id: NoSuchErrorCode::id(), explanation: NO_SUCH_ERROR_CODE_EXPLANATION });
    r.push(MessageInfo { id: UnclosedComments::id(), explanation: "" });
    r.push(MessageInfo { id: UnexpectedEOF::id(), explanation: "" });
    r.push(MessageInfo { id: UnexpectedToken::id(), explanation: "" });
    proof {
        reveal_strlit("");
    }
    r
}

/// The explanation of the first message of the catalogue with the
/// identifier `id`, where there is one.
pub open spec fn explanation_of(id: Seq<char>) -> Option<Seq<char>> {
    if exists|i: int| 0 <= i < catalogue().len() && catalogue()[i].0 == id {
        let i = choose|i: int|
            0 <= i < catalogue().len() && catalogue()[i].0 == id && forall|j: int|
                0 <= j < i ==> catalogue()[j].0 != id;
        Some(catalogue()[i].1)
    } else {
        None
    }
}

/// The explanation of the message with the identifier `id`; an empty or
/// unknown identifier is answered with a `NoSuchErrorCode` for it.
pub fn get_explanation(id: &str) -> (r: Result<&'static str, NoSuchErrorCode>)
    ensures
        id@.len() == 0 ==> (r matches Err(e) && e.id@ == id@),
        id@.len() > 0 ==> match explanation_of(id@) {
            Some(x) => r matches Ok(s) && s@ == x,
            None => r matches Err(e) && e.id@ == id@,
        },
{
    proof {
        reveal_strlit("");
        assert(id@.len() == 0 ==> id@ =~= ""@);
    }
    if same_text(id, "") {
        return Err(NoSuchErrorCode::new(id));
    }
    let msgs = messages();
    let mut i: usize = 0;
    while i < msgs.len()
        invariant
            msgs@.len() == catalogue().len(),
            forall|k: int| 0 <= k < msgs@.len() ==> (#[trigger] msgs@[k]).id@ == catalogue()[k].0
                && msgs@[k].explanation@ == catalogue()[k].1,
            i <= msgs@.len(),
            forall|j: int| 0 <= j < i ==> catalogue()[j].0 != id@,
            id@.len() > 0,
        decreases msgs@.len() - i,
    {
        if same_text(msgs[i].id(), id) {
            proof {
                let k = choose|k: int|
                    0 <= k < catalogue().len() && catalogue()[k].0 == id@ && forall|j: int|
                        0 <= j < k ==> catalogue()[j].0 != id@;
                assert(catalogue()[i as int].0 == id@);
                assert(k == i) by {
                    if k < i {
                        assert(catalogue()[k].0 != id@);
                    }
                    if k > i {
                        assert(catalogue()[i as int].0 != id@);
                    }
                }
            }
            return Ok(msgs[i].explanation());
        }
        i = i + 1;
    }
    Err(NoSuchErrorCode::new(id))
}

} // verus!
