//! The lexer of Emblem source: it turns text into tokens with their spans.
use vstd::prelude::*;
use std::collections::VecDeque;
use crate::emblem_core::parser::cursor::{fits, lemma_advanced_bounds, point_within, Cursor};
use crate::emblem_core::parser::location::{slice_range, Location};
use crate::emblem_core::parser::point::Point;
use crate::emblem_core::parser::token::{
    count_trailing_pluses, emph_close_tok, emph_opens, emph_kind, emph_kind_of, emph_open_tok, find_char,
    first_index_of, indent_level, indent_level_of, trailing_pluses, EmphKind, Tok,
};
use crate::lines::line_scan;
use crate::pattern::regex_match_end;
use crate::text::{byte_offset, lemma_byte_offset_monotonic, string_from_chars, utf8_len};

verus! {

/// A token with the points where it starts and ends.
pub type SpannedTok = (Point, Tok, Point);

/// The two forms of the language that the lexer reads. They differ only in
/// verbatim text: the current form needs at least one character between the
/// `!` marks and stops at the first closing `!`; the legacy form accepts an
/// empty `!!` and runs to the last `!` on the line.
#[derive(Copy, Clone, Debug, PartialEq, Eq)]
pub enum Dialect {
    Current,
    Legacy,
}

/// A problem found while lexing.
#[derive(Debug)]
pub enum LexicalError {
    UnexpectedChar { loc: Location, found: char },
    UnexpectedEOF { point: Point, expected: Vec<String> },
    UnmatchedCommentOpen { unclosed: Vec<Location> },
    UnmatchedCommentClose { loc: Location },
    NewlineInArg { arg_start_loc: Location, newline_loc: Location },
    NewlineInAttrs { attr_start_loc: Location, newline_loc: Location },
    NewlineInEmphDelimiter { delimiter_start_loc: Location, newline_loc: Location, expected: String },
    DelimiterMismatch { loc: Location, to_close_loc: Location, expected: String },
    UnexpectedHeading { loc: Location },
    HeadingTooDeep { loc: Location, level: usize },
    TooManyQualifiers { loc: Location, dot_locs: Vec<Location> },
    EmptyQualifier { loc: Location, qualifier_loc: Location },
}

pub const SHEBANG: &'static str = r"^#![^\r\n]*";
pub const WORD: &'static str = r"^([^ /\t\r\n}_*`=~-]|/[^ /\t\r\n}_*`=~-])+";
pub const WHITESPACE: &'static str = r"^[ \t]+";
pub const PAR_BREAKS: &'static str = r"^([ \t]*(\n|\r\n|\r))+";
pub const LN: &'static str = r"^(\n|\r\n|\r)";
pub const COLON: &'static str = r"^:[ \t]*";
pub const DOUBLE_COLON: &'static str = r"^::";
pub const VERBATIM: &'static str = r"^![^!\r\n]+!";
pub const LEGACY_VERBATIM: &'static str = r"^![^\r\n]*!";
pub const BRACE_LEFT: &'static str = r"^\{";
pub const BRACE_RIGHT: &'static str = r"^\}";
pub const COMMENT: &'static str = r"^//[^\r\n]*";
pub const DASH: &'static str = r"^-{1,3}";
pub const GLUE: &'static str = r"^ *~~? *";
pub const UNDERSCORES: &'static str = r"^_{1,2}";
pub const ASTERISKS: &'static str = r"^\*{1,2}";
pub const EQUALS: &'static str = r"^={1,2}";
pub const BACKTICKS: &'static str = r"^`";
pub const HEADING: &'static str = r"^#+\+*";
pub const MARK: &'static str = r#"^@[^ \t\r\n#+.,?!'"(){}\[\]]+"#;
pub const REFERENCE: &'static str = r#"^#[^ \t\r\n#+.,?!'"(){}\[\]]+"#;
pub const QUALIFIED_COMMAND: &'static str = r"^(\.+[^ \t{}\[\]\r\n:+.]*){2,}[^ \t{}\[\]\r\n:+.]\+*";
pub const COMMAND: &'static str = r"^\.[^ \t{}\[\]\r\n:+.]+\+*";
pub const OPEN_ATTRS: &'static str = r"^\[";
pub const CLOSE_ATTRS: &'static str = r"^]";
pub const COMMA: &'static str = r"^,";
pub const UNNAMED_ATTR: &'static str = r"^[ \t]*([^,= \r\n\t\[\]]|\\[,=\[\]])+[ \t]*";
pub const NAMED_ATTR: &'static str = r"^[ \t]*([^,= \r\n\t\[\]]|\\[,=\[\]])+[ \t]*=[ \t]*([^,\[\]\r\n]|\\[,\[\]])*[ \t]*";
pub const NESTED_COMMENT_OPEN: &'static str = r"^/\*";
pub const NESTED_COMMENT_CLOSE: &'static str = r"^\*/";
pub const NESTED_COMMENT_PART: &'static str = r"^([^*/\r\n]|\*[^/\r\n]|/[^*\r\n])+";

/// The patterns of the lexer.
#[derive(Copy, Clone, Debug, PartialEq, Eq)]
pub enum Pat {
    Shebang,
    Word,
    Whitespace,
    ParBreaks,
    Ln,
    Colon,
    DoubleColon,
    Verbatim,
    LegacyVerbatim,
    BraceLeft,
    BraceRight,
    Comment,
    Dash,
    Glue,
    Underscores,
    Asterisks,
    Equals,
    Backticks,
    Heading,
    Mark,
    Reference,
    QualifiedCommand,
    Command,
    OpenAttrs,
    CloseAttrs,
    Comma,
    UnnamedAttr,
    NamedAttr,
    NestedCommentOpen,
    NestedCommentClose,
    NestedCommentPart,
}

/// The text of a pattern.
pub open spec fn pat_source(p: Pat) -> &'static str {
    match p {
        Pat::Shebang => SHEBANG,
        Pat::Word => WORD,
        Pat::Whitespace => WHITESPACE,
        Pat::ParBreaks => PAR_BREAKS,
        Pat::Ln => LN,
        Pat::Colon => COLON,
        Pat::DoubleColon => DOUBLE_COLON,
        Pat::Verbatim => VERBATIM,
        Pat::LegacyVerbatim => LEGACY_VERBATIM,
        Pat::BraceLeft => BRACE_LEFT,
        Pat::BraceRight => BRACE_RIGHT,
        Pat::Comment => COMMENT,
        Pat::Dash => DASH,
        Pat::Glue => GLUE,
        Pat::Underscores => UNDERSCORES,
        Pat::Asterisks => ASTERISKS,
        Pat::Equals => EQUALS,
        Pat::Backticks => BACKTICKS,
        Pat::Heading => HEADING,
        Pat::Mark => MARK,
        Pat::Reference => REFERENCE,
        Pat::QualifiedCommand => QUALIFIED_COMMAND,
        Pat::Command => COMMAND,
        Pat::OpenAttrs => OPEN_ATTRS,
        Pat::CloseAttrs => CLOSE_ATTRS,
        Pat::Comma => COMMA,
        Pat::UnnamedAttr => UNNAMED_ATTR,
        Pat::NamedAttr => NAMED_ATTR,
        Pat::NestedCommentOpen => NESTED_COMMENT_OPEN,
        Pat::NestedCommentClose => NESTED_COMMENT_CLOSE,
        Pat::NestedCommentPart => NESTED_COMMENT_PART,
    }
}

/// The text of a pattern.
pub fn source(p: Pat) -> (s: &'static str)
    ensures
        s == pat_source(p),
{
    match p {
        Pat::Shebang => SHEBANG,
        Pat::Word => WORD,
        Pat::Whitespace => WHITESPACE,
        Pat::ParBreaks => PAR_BREAKS,
        Pat::Ln => LN,
        Pat::Colon => COLON,
        Pat::DoubleColon => DOUBLE_COLON,
        Pat::Verbatim => VERBATIM,
        Pat::LegacyVerbatim => LEGACY_VERBATIM,
        Pat::BraceLeft => BRACE_LEFT,
        Pat::BraceRight => BRACE_RIGHT,
        Pat::Comment => COMMENT,
        Pat::Dash => DASH,
        Pat::Glue => GLUE,
        Pat::Underscores => UNDERSCORES,
        Pat::Asterisks => ASTERISKS,
        Pat::Equals => EQUALS,
        Pat::Backticks => BACKTICKS,
        Pat::Heading => HEADING,
        Pat::Mark => MARK,
        Pat::Reference => REFERENCE,
        Pat::QualifiedCommand => QUALIFIED_COMMAND,
        Pat::Command => COMMAND,
        Pat::OpenAttrs => OPEN_ATTRS,
        Pat::CloseAttrs => CLOSE_ATTRS,
        Pat::Comma => COMMA,
        Pat::UnnamedAttr => UNNAMED_ATTR,
        Pat::NamedAttr => NAMED_ATTR,
        Pat::NestedCommentOpen => NESTED_COMMENT_OPEN,
        Pat::NestedCommentClose => NESTED_COMMENT_CLOSE,
        Pat::NestedCommentPart => NESTED_COMMENT_PART,
    }
}

/// Whether a match of the pattern `p` may start with the character `c`:
/// each pattern's first part admits only some characters, or all but some.
pub open spec fn can_start(p: Pat, c: char) -> bool {
    match p {
        Pat::Shebang => c == '#',
        Pat::Word => !(c == ' ' || c == '\t' || c == '\r' || c == '\n' || c == '}' || c == '_' || c == '*' || c
            == '`' || c == '=' || c == '~' || c == '-'),
        Pat::Whitespace => c == ' ' || c == '\t',
        Pat::ParBreaks => c == ' ' || c == '\t' || c == '\n' || c == '\r',
        Pat::Ln => c == '\n' || c == '\r',
        Pat::Colon => c == ':',
        Pat::DoubleColon => c == ':',
        Pat::Verbatim => c == '!',
        Pat::LegacyVerbatim => c == '!',
        Pat::BraceLeft => c == '{',
        Pat::BraceRight => c == '}',
        Pat::Comment => c == '/',
        Pat::Dash => c == '-',
        Pat::Glue => c == ' ' || c == '~',
        Pat::Underscores => c == '_',
        Pat::Asterisks => c == '*',
        Pat::Equals => c == '=',
        Pat::Backticks => c == '`',
        Pat::Heading => c == '#',
        Pat::Mark => c == '@',
        Pat::Reference => c == '#',
        Pat::QualifiedCommand => c == '.',
        Pat::Command => c == '.',
        Pat::OpenAttrs => c == '[',
        Pat::CloseAttrs => c == ']',
        Pat::Comma => c == ',',
        Pat::UnnamedAttr => !(c == ',' || c == '=' || c == '\r' || c == '\n' || c == '[' || c == ']'),
        Pat::NamedAttr => !(c == ',' || c == '=' || c == '\r' || c == '\n' || c == '[' || c == ']'),
        Pat::NestedCommentOpen => c == '/',
        Pat::NestedCommentClose => c == '*',
        Pat::NestedCommentPart => !(c == '\r' || c == '\n'),
    }
}

/// Whether a match of `p` can start with `c`: each pattern can start only
/// with the characters that its first part admits.
fn may_start(p: Pat, c: char) -> (r: bool)
    ensures
        r == can_start(p, c),
{
    match p {
        Pat::Shebang => c == '#',
        Pat::Word => !(c == ' ' || c == '\t' || c == '\r' || c == '\n' || c == '}' || c == '_' || c == '*' || c
            == '`' || c == '=' || c == '~' || c == '-'),
        Pat::Whitespace => c == ' ' || c == '\t',
        Pat::ParBreaks => c == ' ' || c == '\t' || c == '\n' || c == '\r',
        Pat::Ln => c == '\n' || c == '\r',
        Pat::Colon => c == ':',
        Pat::DoubleColon => c == ':',
        Pat::Verbatim => c == '!',
        Pat::LegacyVerbatim => c == '!',
        Pat::BraceLeft => c == '{',
        Pat::BraceRight => c == '}',
        Pat::Comment => c == '/',
        Pat::Dash => c == '-',
        Pat::Glue => c == ' ' || c == '~',
        Pat::Underscores => c == '_',
        Pat::Asterisks => c == '*',
        Pat::Equals => c == '=',
        Pat::Backticks => c == '`',
        Pat::Heading => c == '#',
        Pat::Mark => c == '@',
        Pat::Reference => c == '#',
        Pat::QualifiedCommand => c == '.',
        Pat::Command => c == '.',
        Pat::OpenAttrs => c == '[',
        Pat::CloseAttrs => c == ']',
        Pat::Comma => c == ',',
        Pat::UnnamedAttr => !(c == ',' || c == '=' || c == '\r' || c == '\n' || c == '[' || c == ']'),
        Pat::NamedAttr => !(c == ',' || c == '=' || c == '\r' || c == '\n' || c == '[' || c == ']'),
        Pat::NestedCommentOpen => c == '/',
        Pat::NestedCommentClose => c == '*',
        Pat::NestedCommentPart => !(c == '\r' || c == '\n'),
    }
}

/// The number of `Indent` tokens less the number of `Dedent` tokens in `ts`.
pub open spec fn indent_balance(ts: Seq<SpannedTok>) -> int
    decreases ts.len(),
{
    if ts.len() == 0 {
        0
    } else {
        indent_balance(ts.drop_last()) + match ts.last().1 {
            Tok::Indent => 1int,
            Tok::Dedent => -1int,
            _ => 0int,
        }
    }
}

pub proof fn lemma_indent_balance_concat(a: Seq<SpannedTok>, b: Seq<SpannedTok>)
    ensures
        indent_balance(a + b) == indent_balance(a) + indent_balance(b),
    decreases b.len(),
{
    if b.len() == 0 {
        assert(a + b =~= a);
    } else {
        assert((a + b).drop_last() =~= a + b.drop_last());
        lemma_indent_balance_concat(a, b.drop_last());
    }
}

/// Every prefix of `ts` holds at least as many `Indent` as `Dedent` tokens:
/// the indentation never falls below the left margin.
pub open spec fn indents_never_negative(ts: Seq<SpannedTok>) -> bool {
    forall|k: int| 0 <= k <= ts.len() ==> indent_balance(#[trigger] ts.take(k)) >= 0
}

/// A token after which the balance stays at or above zero keeps every prefix
/// so.
pub proof fn lemma_never_negative_push(ts: Seq<SpannedTok>, t: SpannedTok)
    requires
        indents_never_negative(ts),
        t.1 is Dedent ==> indent_balance(ts) >= 1,
    ensures
        indents_never_negative(ts.push(t)),
{
    let s = ts.push(t);
    assert(s.drop_last() =~= ts);
    assert(ts.take(ts.len() as int) =~= ts);
    assert(indent_balance(ts.take(ts.len() as int)) >= 0);
    assert forall|k: int| 0 <= k <= s.len() implies indent_balance(#[trigger] s.take(k)) >= 0 by {
        if k <= ts.len() {
            assert(s.take(k) =~= ts.take(k));
        } else {
            assert(s.take(k) =~= s);
        }
    }
}

/// The prefixes of a sequence whose prefixes keep the balance at or above
/// zero keep it too.
pub proof fn lemma_never_negative_prefix(ts: Seq<SpannedTok>, n: int)
    requires
        indents_never_negative(ts),
        0 <= n <= ts.len(),
    ensures
        indents_never_negative(ts.take(n)),
{
    assert forall|k: int| 0 <= k <= ts.take(n).len() implies indent_balance(#[trigger] ts.take(n).take(k)) >= 0 by {
        assert(ts.take(n).take(k) =~= ts.take(k));
    }
}

/// Some token of `ts` is a line break.
pub open spec fn has_newline(ts: Seq<SpannedTok>) -> bool {
    exists|i: int| 0 <= i < ts.len() && (#[trigger] ts[i]).1 is Newline
}

/// A line break stays among the tokens when one more comes, and the one
/// that comes may be it.
pub proof fn lemma_has_newline_push(ts: Seq<SpannedTok>, t: SpannedTok)
    ensures
        has_newline(ts) ==> has_newline(ts.push(t)),
        t.1 is Newline ==> has_newline(ts.push(t)),
{
    if has_newline(ts) {
        let i = choose|i: int| 0 <= i < ts.len() && (#[trigger] ts[i]).1 is Newline;
        assert(ts.push(t)[i] == ts[i]);
    }
    if t.1 is Newline {
        assert(ts.push(t)[ts.len() as int] == t);
    }
}

/// What waits after a line break: the change of indentation, `Indent` or
/// `Dedent` tokens all of one kind, then at most one paragraph break.
pub open spec fn line_queue(q: Seq<SpannedTok>) -> bool {
    &&& forall|i: int| 0 <= i < q.len() ==> (#[trigger] q[i]).1 is Indent || q[i].1 is Dedent || (q[i].1 is ParBreak
        && i == q.len() - 1)
    &&& forall|i: int, j: int| 0 <= i < q.len() && 0 <= j < q.len() ==> !((#[trigger] q[i]).1 is Indent && (
    #[trigger] q[j]).1 is Dedent)
}

/// The spans of `ts` run forwards and end no later than byte `end`.
pub open spec fn spans_ordered(ts: Seq<SpannedTok>, end: nat) -> bool {
    forall|i: int| 0 <= i < ts.len() ==> #[trigger] ts[i].0.index <= ts[i].2.index <= end
}

/// The tokens `ts` start in the order they come, none after byte `bound`.
pub open spec fn starts_by(ts: Seq<SpannedTok>, bound: nat) -> bool {
    &&& forall|i: int, j: int| 0 <= i < j < ts.len() ==> #[trigger] ts[i].0.index <= #[trigger] ts[j].0.index
    &&& forall|i: int| 0 <= i < ts.len() ==> #[trigger] ts[i].0.index <= bound
}

/// A token that starts at `bound` keeps tokens that start by `bound` in
/// order.
pub proof fn lemma_starts_by_push(ts: Seq<SpannedTok>, t: SpannedTok, bound: nat)
    requires
        starts_by(ts, bound),
        t.0.index == bound,
    ensures
        starts_by(ts.push(t), bound),
{
    assert forall|i: int, j: int| 0 <= i < j < ts.push(t).len() implies #[trigger] ts.push(t)[i].0.index
        <= #[trigger] ts.push(t)[j].0.index by {
        if j < ts.len() {
            assert(ts.push(t)[i] == ts[i]);
            assert(ts.push(t)[j] == ts[j]);
        } else {
            assert(ts.push(t)[i] == ts[i]);
        }
    }
    assert forall|i: int| 0 <= i < ts.push(t).len() implies #[trigger] ts.push(t)[i].0.index <= bound by {
        if i < ts.len() {
            assert(ts.push(t)[i] == ts[i]);
        }
    }
}

/// The part of `text` from `x` up to `y`, each first kept within the text.
pub open spec fn within(text: Seq<char>, x: int, y: int) -> Seq<char> {
    let a = clamp_spec(x, 0, text.len() as int);
    text.subrange(a, clamp_spec(y, a, text.len() as int))
}

/// The pattern `p` matches the source `s` from character `k1` up to `k2`.
pub open spec fn matched(p: Pat, s: Seq<char>, k1: int, k2: int) -> bool {
    regex_match_end(pat_source(p)@, s.skip(k1)) == Some((k2 - k1) as nat)
}

/// What the token `tok` read from characters `k1` to `k2` of `s` holds of
/// them, and the pattern that matched them there: the text itself for words,
/// white space, dashes, glue, attributes and emphasis delimiters that keep
/// it; the text after the leading marks for comments, shebangs, references
/// and marks, inside the delimiters for verbatim text; the level and plus
/// marks of a heading; the parts of a command's name.
pub open spec fn carries(tok: Tok, s: Seq<char>, k1: int, k2: int) -> bool {
    let text = s.subrange(k1, k2);
    match tok {
        Tok::Word(w) => w@ == text && matched(Pat::Word, s, k1, k2),
        Tok::Whitespace(w) => w@ == text && matched(Pat::Whitespace, s, k1, k2),
        Tok::Dash(w) => w@ == text && matched(Pat::Dash, s, k1, k2),
        Tok::Glue(w) => w@ == text && matched(Pat::Glue, s, k1, k2),
        Tok::SpiltGlue(w) => w@ == text && matched(Pat::Glue, s, k1, k2),
        Tok::NamedAttr(w) => w@ == text && matched(Pat::NamedAttr, s, k1, k2),
        Tok::UnnamedAttr(w) => w@ == text && matched(Pat::UnnamedAttr, s, k1, k2),
        Tok::ItalicOpen(w) => w@ == text && (matched(Pat::Underscores, s, k1, k2) || matched(
            Pat::Asterisks,
            s,
            k1,
            k2,
        ) || matched(Pat::Equals, s, k1, k2) || matched(Pat::Backticks, s, k1, k2)),
        Tok::BoldOpen(w) => w@ == text && (matched(Pat::Underscores, s, k1, k2) || matched(
            Pat::Asterisks,
            s,
            k1,
            k2,
        ) || matched(Pat::Equals, s, k1, k2) || matched(Pat::Backticks, s, k1, k2)),
        Tok::Comment(c) => (c@ == text && matched(Pat::NestedCommentPart, s, k1, k2)) || (c@ == within(
            text,
            2,
            text.len() as int,
        ) && matched(Pat::Comment, s, k1, k2)),
        Tok::Shebang(x) => x@ == within(text, 2, text.len() as int) && matched(Pat::Shebang, s, k1, k2),
        Tok::Reference(x) => x@ == within(text, 1, text.len() as int) && matched(Pat::Reference, s, k1, k2),
        Tok::Mark(x) => x@ == within(text, 1, text.len() as int) && matched(Pat::Mark, s, k1, k2),
        Tok::Verbatim(v) => v@ == within(text, 1, text.len() - 1) && (matched(Pat::Verbatim, s, k1, k2)
            || matched(Pat::LegacyVerbatim, s, k1, k2)),
        Tok::Heading { level, pluses } => level + pluses == text.len() && (match first_index_of(text, '+') {
            Some(i) => level == i,
            None => level == text.len(),
        }) && matched(Pat::Heading, s, k1, k2),
        Tok::Command { qualifier, name, pluses } => {
            let parts = command_parts(text);
            &&& parts.2 == pluses
            &&& name@ == parts.1
            &&& match qualifier {
                Some(q) => parts.0 == Some(q@),
                None => parts.0 is None,
            }
            &&& matched(Pat::QualifiedCommand, s, k1, k2) || matched(Pat::Command, s, k1, k2)
        },
        _ => true,
    }
}

/// The token `t` spans whole characters of the source `s`, holds what it
/// was read from, and was matched there by its pattern.
pub open spec fn tok_text_ok(t: SpannedTok, s: Seq<char>) -> bool {
    exists|k1: int, k2: int|
        0 <= k1 <= k2 <= s.len() && byte_offset(s, k1) == t.0.index && byte_offset(s, k2) == t.2.index
            && #[trigger] carries(t.1, s, k1, k2)
}

/// Every token of `ts` holds what it was read from in `s`, where its
/// pattern matched.
pub open spec fn texts_ok(ts: Seq<SpannedTok>, s: Seq<char>) -> bool {
    forall|i: int| 0 <= i < ts.len() ==> #[trigger] tok_text_ok(ts[i], s)
}

/// Keeping the characters from `a + x` up to `b - z`, each within `a` to
/// `b`, is keeping the part from `x` up to `(b - a) - z` of the text from `a`
/// to `b`.
pub proof fn lemma_within(s: Seq<char>, a: int, b: int, x: int, z: int)
    requires
        0 <= a <= b <= s.len(),
        x >= 0,
        z >= 0,
    ensures
        s.subrange(clamp_spec(a + x, a, b), clamp_spec(b - z, clamp_spec(a + x, a, b), b)) == within(
            s.subrange(a, b),
            x,
            (b - a) - z,
        ),
{
    let t = s.subrange(a, b);
    let a1 = clamp_spec(a + x, a, b);
    let c1 = clamp_spec(x, 0, t.len() as int);
    assert(a1 == a + c1);
    assert(clamp_spec(b - z, a1, b) == a + clamp_spec((b - a) - z, c1, t.len() as int));
    assert(s.subrange(a1, clamp_spec(b - z, a1, b)) =~= within(t, x, (b - a) - z));
}

/// A token spanning characters `k1` to `k2` of `s` that holds what they
/// read holds what it was read from.
pub proof fn lemma_tok_text_ok(t: SpannedTok, s: Seq<char>, k1: int, k2: int)
    requires
        0 <= k1 <= k2 <= s.len(),
        byte_offset(s, k1) == t.0.index,
        byte_offset(s, k2) == t.2.index,
        carries(t.1, s, k1, k2),
    ensures
        tok_text_ok(t, s),
{
}

/// A token that holds what it was read from keeps every token doing so.
pub proof fn lemma_texts_ok_push(ts: Seq<SpannedTok>, t: SpannedTok, s: Seq<char>)
    requires
        texts_ok(ts, s),
        tok_text_ok(t, s),
    ensures
        texts_ok(ts.push(t), s),
{
    assert forall|i: int| 0 <= i < ts.push(t).len() implies #[trigger] tok_text_ok(ts.push(t)[i], s) by {
        if i < ts.len() {
            assert(ts.push(t)[i] == ts[i]);
        }
    }
}

/// The lexer of Emblem source.
pub struct Lexer {
    cursor: Cursor,
    dialect: Dialect,
    done: bool,
    failed: bool,
    start_of_line: bool,
    current_indent: usize,
    open_braces: Vec<Location>,
    next_toks: VecDeque<SpannedTok>,
    multi_line_comment_starts: Vec<Location>,
    last_tok: Option<Tok>,
    attr_open: Option<Location>,
    opening_delimiters: bool,
    open_delimiters: Vec<(String, Location)>,
    emitted: Ghost<Seq<SpannedTok>>,
}

impl Lexer {
    /// The lexer is consistent: the cursor is, the indentation it tracks is
    /// what the tokens returned and queued open, and never falls below the
    /// margin along them; a line break is among them once the last token was
    /// one or the end is reached; queued spans run forwards; and once the
    /// end is reached all indentation is closed.
    pub closed spec fn wf(self) -> bool {
        &&& self.cursor.wf()
        &&& indent_balance(self.emitted@ + self.next_toks@) == self.current_indent
        &&& indents_never_negative(self.emitted@ + self.next_toks@)
        &&& (self.last_tok matches Some(Tok::Newline { .. })) ==> has_newline(self.emitted@ + self.next_toks@)
        &&& self.done ==> has_newline(self.emitted@ + self.next_toks@)
        &&& spans_ordered(self.next_toks@, self.cursor.curr.index as nat)
        &&& starts_by(self.emitted@ + self.next_toks@, self.cursor.prev.index as nat)
        &&& texts_ok(self.emitted@ + self.next_toks@, self.cursor.chars@)
        &&& self.done ==> self.current_indent == 0 && self.cursor.pos == self.cursor.chars@.len()
    }

    /// The tokens returned so far.
    pub closed spec fn emitted(self) -> Seq<SpannedTok> {
        self.emitted@
    }

    /// Where the lexer stands in the text.
    pub closed spec fn position(self) -> Point {
        self.cursor.curr
    }

    /// Where the text read last starts.
    pub closed spec fn last_start(self) -> Point {
        self.cursor.prev
    }

    /// The tokens read and waiting to be handed out, in order.
    pub closed spec fn queued(self) -> Seq<SpannedTok> {
        self.next_toks@
    }

    /// The source text being read.
    pub closed spec fn source(self) -> Seq<char> {
        self.cursor.chars@
    }

    /// The number of bytes of the source read so far.
    pub closed spec fn bytes_read(self) -> nat {
        self.cursor.curr.index as nat
    }

    /// Whether the lexer has stopped on an error.
    pub closed spec fn has_failed(self) -> bool {
        self.failed
    }

    /// Whether the lexer has read to the end and handed out every token.
    pub closed spec fn is_finished(self) -> bool {
        self.done && self.next_toks@.len() == 0
    }

    /// Where the lexer may meet the error `e`, in this state: at the end of
    /// the text for a missing close; where the next character starts none
    /// of the patterns read in the current mode for an unexpected one; where
    /// the pattern whose use is wrong matches for the others.
    pub closed spec fn error_owed(self, e: LexicalError) -> bool {
        let cs = self.cursor.chars@;
        let pos = self.cursor.pos as int;
        let in_comment = self.multi_line_comment_starts@.len() > 0;
        let in_attrs = !in_comment && self.attr_open is Some;
        let in_text = !in_comment && self.attr_open is None;
        let delimiter = consumes(self, Pat::Underscores) || consumes(self, Pat::Asterisks) || consumes(self, Pat::Equals)
            || consumes(self, Pat::Backticks);
        match e {
            LexicalError::UnexpectedEOF { point, .. } => pos == cs.len() && point == self.cursor.curr && (in_attrs
                || (in_text && self.open_braces@.len() > 0)),
            LexicalError::UnmatchedCommentOpen { .. } => pos == cs.len() && in_comment,
            LexicalError::UnexpectedChar { found, .. } => {
                &&& pos < cs.len() && found == cs[pos]
                &&& in_comment ==> !consumes(self, Pat::NestedCommentPart) && !consumes(self, Pat::Ln)
                &&& in_attrs ==> !consumes(self, Pat::NamedAttr) && !consumes(self, Pat::UnnamedAttr)
                &&& in_text ==> !consumes(self, Pat::Word) && !consumes(self, Pat::Whitespace)
            },
            LexicalError::UnmatchedCommentClose { .. } => in_text && consumes(self, Pat::NestedCommentClose),
            LexicalError::NewlineInArg { .. } => in_text && consumes(self, Pat::Ln) && self.open_braces@.len() > 0,
            LexicalError::NewlineInEmphDelimiter { .. } => in_text && consumes(self, Pat::Ln) && self.open_delimiters@.len()
                > 0,
            LexicalError::NewlineInAttrs { .. } => in_attrs && consumes(self, Pat::Ln),
            LexicalError::DelimiterMismatch { .. } => in_text && delimiter && !self.opening_delimiters
                && self.open_delimiters@.len() > 0,
            LexicalError::UnexpectedHeading { .. } => in_text && consumes(self, Pat::Heading),
            LexicalError::HeadingTooDeep { .. } => in_text && self.start_of_line && consumes(self, Pat::Heading),
            LexicalError::TooManyQualifiers { .. } => in_text && (consumes(self, Pat::QualifiedCommand) || consumes(
                self,
                Pat::Command,
            )),
            LexicalError::EmptyQualifier { .. } => in_text && (consumes(self, Pat::QualifiedCommand) || consumes(
                self,
                Pat::Command,
            )),
        }
    }

    /// The lexer stands at the start of the text `text` of the file `file`,
    /// reading the form `dialect` of the language: at its first character,
    /// at line 1, column 1, byte 0, at the start of a line, with nothing
    /// open, queued or returned.
    pub closed spec fn starts_at(self, file: Seq<char>, text: Seq<char>, dialect: Dialect) -> bool {
        &&& self.cursor.chars@ == text
        &&& self.cursor.pos == 0 && self.cursor.prev_pos == 0
        &&& self.cursor.curr == self.cursor.prev
        &&& self.cursor.curr.file_name@ == file && self.cursor.curr.src@ == text
        &&& self.cursor.curr.line == 1 && self.cursor.curr.col == 1 && self.cursor.curr.index == 0
        &&& self.dialect == dialect
        &&& !self.done && !self.failed && self.start_of_line && self.current_indent == 0
        &&& self.open_braces@.len() == 0 && self.next_toks@.len() == 0
        &&& self.multi_line_comment_starts@.len() == 0 && self.last_tok is None && self.attr_open is None
        &&& self.opening_delimiters && self.open_delimiters@.len() == 0
        &&& self.emitted@.len() == 0
    }

    /// Whether the lexer has read the whole source.
    pub closed spec fn read_all(self) -> bool {
        self.bytes_read() == utf8_len(self.source())
    }

    /// The parts of a measure that every token returned makes smaller.
    pub closed spec fn rank_failed(self) -> int {
        if self.failed { 0 } else { 1 }
    }

    pub closed spec fn rank_input(self) -> int {
        (self.cursor.chars@.len() - self.cursor.pos) + if self.done { 0int } else { 1int }
    }

    pub closed spec fn rank_queue(self) -> int {
        self.next_toks@.len() as int
    }

    /// `new` comes lexicographically before `old` in the measure.
    pub open spec fn progressed(old: Lexer, new: Lexer) -> bool {
        ||| new.rank_failed() < old.rank_failed()
        ||| (new.rank_failed() == old.rank_failed() && new.rank_input() < old.rank_input())
        ||| (new.rank_failed() == old.rank_failed() && new.rank_input() == old.rank_input()
            && new.rank_queue() < old.rank_queue())
    }

    /// A lexer at the start of `input`, reading the given form of the
    /// language.
    pub fn new_in(file: &str, input: &str, dialect: Dialect) -> (l: Lexer)
        requires
            fits(input@.len()),
        ensures
            l.wf(),
            l.emitted() == Seq::<SpannedTok>::empty(),
            !l.has_failed(),
            l.rank_failed() == 1,
            l.source() == input@,
            l.starts_at(file@, input@, dialect),
    {
        let cursor = Cursor::new(file, input);
        let l = Lexer {
            cursor,
            dialect,
            done: false,
            failed: false,
            start_of_line: true,
            current_indent: 0,
            open_braces: Vec::new(),
            next_toks: VecDeque::new(),
            multi_line_comment_starts: Vec::new(),
            last_tok: None,
            attr_open: None,
            opening_delimiters: true,
            open_delimiters: Vec::new(),
            emitted: Ghost(Seq::empty()),
        };
        assert(l.emitted@ + l.next_toks@ =~= Seq::<SpannedTok>::empty());
        l
    }

    /// A lexer at the start of `input`.
    pub fn new(file: &str, input: &str) -> (l: Lexer)
        requires
            fits(input@.len()),
        ensures
            l.wf(),
            l.emitted() == Seq::<SpannedTok>::empty(),
            !l.has_failed(),
            l.rank_failed() == 1,
            l.source() == input@,
            l.starts_at(file@, input@, Dialect::Current),
    {
        Lexer::new_in(file, input, Dialect::Current)
    }

    /// `tok` spanning the text last read.
    fn span(&self, tok: Tok) -> (t: SpannedTok)
        requires
            self.cursor.wf(),
        ensures
            t == (self.cursor.prev, tok, self.cursor.curr),
            t.0.index <= t.2.index,
            carries(tok, self.cursor.chars@, self.cursor.prev_pos as int, self.cursor.pos as int)
                ==> tok_text_ok(t, self.cursor.chars@),
    {
        proof {
            lemma_byte_offset_monotonic(self.cursor.chars@, self.cursor.prev_pos as int, self.cursor.pos as int);
            let k1 = self.cursor.prev_pos as int;
            let k2 = self.cursor.pos as int;
            if carries(tok, self.cursor.chars@, k1, k2) {
                assert(byte_offset(self.cursor.chars@, k1) == self.cursor.prev.index);
                assert(byte_offset(self.cursor.chars@, k2) == self.cursor.curr.index);
                lemma_tok_text_ok((self.cursor.prev, tok, self.cursor.curr), self.cursor.chars@, k1, k2);
            }
        }
        (self.cursor.prev.duplicate(), tok, self.cursor.curr.duplicate())
    }

    /// Queues a token.
    fn enqueue(&mut self, t: SpannedTok)
        requires
            old(self).cursor.wf(),
            spans_ordered(old(self).next_toks@, old(self).cursor.curr.index as nat),
            starts_by(old(self).emitted@ + old(self).next_toks@, old(self).cursor.prev.index as nat),
            texts_ok(old(self).emitted@ + old(self).next_toks@, old(self).cursor.chars@),
            tok_text_ok(t, old(self).cursor.chars@),
            t.0.index == old(self).cursor.prev.index,
            t.0.index <= t.2.index <= old(self).cursor.curr.index,
            indents_never_negative(old(self).emitted@ + old(self).next_toks@),
            t.1 is Dedent ==> indent_balance(old(self).emitted@ + old(self).next_toks@) >= 1,
        ensures
            final(self).next_toks@ == old(self).next_toks@.push(t),
            indents_never_negative(final(self).emitted@ + final(self).next_toks@),
            has_newline(old(self).emitted@ + old(self).next_toks@) ==> has_newline(
                final(self).emitted@ + final(self).next_toks@,
            ),
            t.1 is Newline ==> has_newline(final(self).emitted@ + final(self).next_toks@),
            spans_ordered(final(self).next_toks@, final(self).cursor.curr.index as nat),
            starts_by(final(self).emitted@ + final(self).next_toks@, final(self).cursor.prev.index as nat),
            texts_ok(final(self).emitted@ + final(self).next_toks@, final(self).cursor.chars@),
            final(self).cursor == old(self).cursor,
            final(self).emitted == old(self).emitted,
            final(self).current_indent == old(self).current_indent,
            final(self).done == old(self).done,
            final(self).failed == old(self).failed,
            final(self).last_tok == old(self).last_tok,
            final(self).start_of_line == old(self).start_of_line,
            final(self).opening_delimiters == old(self).opening_delimiters,
            final(self).attr_open == old(self).attr_open,
            final(self).multi_line_comment_starts == old(self).multi_line_comment_starts,
            final(self).open_braces == old(self).open_braces,
            final(self).open_delimiters == old(self).open_delimiters,
            final(self).dialect == old(self).dialect,
    {
        let ghost before = self.emitted@ + self.next_toks@;
        self.next_toks.push_back(t);
        proof {
            assert(self.emitted@ + self.next_toks@ =~= before.push(t));
            lemma_starts_by_push(before, t, self.cursor.prev.index as nat);
            lemma_texts_ok_push(before, t, self.cursor.chars@);
            lemma_never_negative_push(before, t);
            lemma_has_newline_push(before, t);
        }
    }

    /// Queues the `Indent` or `Dedent` tokens that move the indentation to
    /// `target`, one per level.
    fn enqueue_indentation_level(&mut self, target: usize)
        requires
            old(self).cursor.wf(),
            spans_ordered(old(self).next_toks@, old(self).cursor.curr.index as nat),
            starts_by(old(self).emitted@ + old(self).next_toks@, old(self).cursor.prev.index as nat),
            texts_ok(old(self).emitted@ + old(self).next_toks@, old(self).cursor.chars@),
            indent_balance(old(self).emitted@ + old(self).next_toks@) == old(self).current_indent,
            indents_never_negative(old(self).emitted@ + old(self).next_toks@),
        ensures
            final(self).current_indent == target,
            final(self).next_toks@.len() == old(self).next_toks@.len() + (if target > old(self).current_indent {
                target - old(self).current_indent
            } else {
                old(self).current_indent - target
            }),
            forall|i: int| old(self).next_toks@.len() <= i < final(self).next_toks@.len() ==> (
            #[trigger] final(self).next_toks@[i]).0 == old(self).cursor.prev,
            forall|i: int| old(self).next_toks@.len() <= i < final(self).next_toks@.len() ==> (
            #[trigger] final(self).next_toks@[i]).1 == (if target > old(self).current_indent {
                Tok::Indent
            } else {
                Tok::Dedent
            }),
            indents_never_negative(final(self).emitted@ + final(self).next_toks@),
            has_newline(old(self).emitted@ + old(self).next_toks@) ==> has_newline(
                final(self).emitted@ + final(self).next_toks@,
            ),
            indent_balance(final(self).emitted@ + final(self).next_toks@) == target,
            spans_ordered(final(self).next_toks@, final(self).cursor.curr.index as nat),
            starts_by(final(self).emitted@ + final(self).next_toks@, final(self).cursor.prev.index as nat),
            texts_ok(final(self).emitted@ + final(self).next_toks@, final(self).cursor.chars@),
            final(self).next_toks@.len() >= old(self).next_toks@.len(),
            final(self).next_toks@.subrange(0, old(self).next_toks@.len() as int) == old(self).next_toks@,
            final(self).cursor == old(self).cursor,
            final(self).emitted == old(self).emitted,
            final(self).done == old(self).done,
            final(self).failed == old(self).failed,
            final(self).last_tok == old(self).last_tok,
            final(self).start_of_line == old(self).start_of_line,
            final(self).opening_delimiters == old(self).opening_delimiters,
            final(self).attr_open == old(self).attr_open,
            final(self).multi_line_comment_starts == old(self).multi_line_comment_starts,
            final(self).open_braces == old(self).open_braces,
            final(self).open_delimiters == old(self).open_delimiters,
            final(self).dialect == old(self).dialect,
    {
        let ghost q0 = self.next_toks@;
        while self.current_indent != target
            invariant
                self.cursor == old(self).cursor,
                self.cursor.wf(),
                self.emitted == old(self).emitted,
                self.done == old(self).done,
                self.failed == old(self).failed,
                self.last_tok == old(self).last_tok,
                self.start_of_line == old(self).start_of_line,
                self.opening_delimiters == old(self).opening_delimiters,
                self.attr_open == old(self).attr_open,
                self.multi_line_comment_starts == old(self).multi_line_comment_starts,
                self.open_braces == old(self).open_braces,
                self.open_delimiters == old(self).open_delimiters,
                self.dialect == old(self).dialect,
                spans_ordered(self.next_toks@, self.cursor.curr.index as nat),
                starts_by(self.emitted@ + self.next_toks@, self.cursor.prev.index as nat),
                texts_ok(self.emitted@ + self.next_toks@, self.cursor.chars@),
                indent_balance(self.emitted@ + self.next_toks@) == self.current_indent,
                indents_never_negative(self.emitted@ + self.next_toks@),
                has_newline(old(self).emitted@ + old(self).next_toks@) ==> has_newline(
                    self.emitted@ + self.next_toks@,
                ),
                self.next_toks@.len() >= q0.len(),
                self.next_toks@.subrange(0, q0.len() as int) == q0,
                q0 == old(self).next_toks@,
                self.next_toks@.len() == q0.len() + (if target > old(self).current_indent {
                    self.current_indent - old(self).current_indent
                } else {
                    old(self).current_indent - self.current_indent
                }),
                target > old(self).current_indent ==> old(self).current_indent <= self.current_indent <= target,
                target <= old(self).current_indent ==> target <= self.current_indent <= old(self).current_indent,
                forall|i: int| q0.len() <= i < self.next_toks@.len() ==> (#[trigger] self.next_toks@[i]).0
                    == old(self).cursor.prev,
                forall|i: int| q0.len() <= i < self.next_toks@.len() ==> (#[trigger] self.next_toks@[i]).1 == (
                if target > old(self).current_indent {
                    Tok::Indent
                } else {
                    Tok::Dedent
                }),
            decreases if self.current_indent < target {
                target - self.current_indent
            } else {
                self.current_indent - target
            },
        {
            let up = self.current_indent < target;
            let tok = if up { Tok::Indent } else { Tok::Dedent };
            let t = self.span(tok);
            let ghost before = self.emitted@ + self.next_toks@;
            proof {
                lemma_byte_offset_monotonic(self.cursor.chars@, self.cursor.prev_pos as int, self.cursor.pos as int);
            }
            self.enqueue(t);
            proof {
                assert(self.emitted@ + self.next_toks@ =~= before.push(t));
                assert(before.push(t).drop_last() =~= before);
                assert(self.next_toks@.subrange(0, q0.len() as int) =~= q0);
            }
            if up {
                self.current_indent = self.current_indent + 1;
            } else {
                self.current_indent = self.current_indent - 1;
            }
        }
    }
}


/// What one step of the lexer does: it stays consistent; a token it returns
/// is added to those returned, spans forwards and leaves the lexer running;
/// any result moves the measure down; and it returns nothing only once it
/// has failed or handed out everything.
pub open spec fn stepped(old: Lexer, new: Lexer, r: Option<Result<SpannedTok, LexicalError>>) -> bool {
    &&& new.wf()
    &&& match r {
        Some(Ok(t)) => {
            &&& new.emitted() == old.emitted().push(t)
            &&& t.0.index <= t.2.index <= new.bytes_read()
            &&& !new.has_failed()
        },
        _ => new.emitted() == old.emitted(),
    }
    &&& (r is Some ==> Lexer::progressed(old, new))
    &&& (r is None ==> new.has_failed() || new.is_finished())
    &&& old.bytes_read() <= new.bytes_read()
    &&& new.source() == old.source()
}

/// The length of the non-empty text that the pattern `p` reads from the
/// character `pos` of `cs` on, or 0 where it reads none there.
spec fn match_len(cs: Seq<char>, pos: int, p: Pat) -> nat {
    if 0 <= pos < cs.len() && can_start(p, cs[pos]) {
        match regex_match_end(pat_source(p)@, cs.skip(pos)) {
            Some(n) => n,
            None => 0,
        }
    } else {
        0
    }
}

/// The indentation of the line that starts at the character `pos` of `cs`,
/// after any blank lines there: the level of its leading blanks.
spec fn indent_at(cs: Seq<char>, pos: int) -> nat {
    let p = pos + match_len(cs, pos, Pat::ParBreaks);
    let w = match_len(cs, p, Pat::Whitespace);
    if w > 0 {
        indent_level_of(cs.subrange(p, p + w))
    } else {
        0
    }
}

/// After a line break from `old`: the indentation of `new` is that of the
/// next line, the queued `Indent` and `Dedent` tokens move to it from that
/// of `old`, and a paragraph break ends the queue exactly where blank lines
/// follow the line break.
spec fn line_indentation(old: Lexer, new: Lexer) -> bool {
    let cs = old.cursor.chars@;
    let p1 = old.cursor.pos + match_len(cs, old.cursor.pos as int, Pat::Ln);
    let q = new.next_toks@;
    &&& new.current_indent == indent_at(cs, p1)
    &&& indent_balance(q) == new.current_indent - old.current_indent
    &&& (q.len() > 0 && q.last().1 is ParBreak) <==> match_len(cs, p1, Pat::ParBreaks) > 0
}

/// A token that a step returns starts where the lexer stood: at the end of
/// the text read before it, or at the start of that text.
spec fn starts_here(l: Lexer, r: Option<Result<SpannedTok, LexicalError>>) -> bool {
    r matches Some(Ok(t)) ==> t.0 == l.cursor.curr || t.0 == l.cursor.prev
}

/// Whether the pattern `p` matches a non-empty text at the lexer's place,
/// whose first character may start it.
spec fn consumes(l: Lexer, p: Pat) -> bool {
    let cs = l.cursor.chars@;
    let pos = l.cursor.pos as int;
    &&& pos < cs.len()
    &&& can_start(p, cs[pos])
    &&& regex_match_end(pat_source(p)@, cs.skip(pos)) matches Some(n) && n > 0
}

/// The pattern of verbatim text in the form `d` of the language.
pub open spec fn verbatim_pat(d: Dialect) -> Pat {
    match d {
        Dialect::Current => Pat::Verbatim,
        Dialect::Legacy => Pat::LegacyVerbatim,
    }
}

/// Whether a mark of structure comes next: an attribute list after a
/// command, a comment, a colon or double colon, a brace, or a multi-line
/// comment delimiter.
spec fn structure_next(l: Lexer) -> bool {
    ||| l.last_tok matches Some(Tok::Command { .. }) && consumes(l, Pat::OpenAttrs)
    ||| consumes(l, Pat::Comment)
    ||| consumes(l, Pat::DoubleColon)
    ||| consumes(l, Pat::Colon)
    ||| consumes(l, Pat::BraceLeft)
    ||| consumes(l, Pat::BraceRight)
    ||| consumes(l, Pat::NestedCommentOpen)
    ||| consumes(l, Pat::NestedCommentClose)
}

/// Whether a command, dash, glue or emphasis delimiter comes next.
spec fn mark_next(l: Lexer) -> bool {
    ||| consumes(l, Pat::QualifiedCommand)
    ||| consumes(l, Pat::Command)
    ||| consumes(l, Pat::Dash)
    ||| consumes(l, Pat::Glue)
    ||| consumes(l, Pat::Underscores)
    ||| consumes(l, Pat::Asterisks)
    ||| consumes(l, Pat::Equals)
    ||| consumes(l, Pat::Backticks)
}

/// The first of the emphasis delimiter patterns that matches at the lexer's
/// place, if any.
spec fn delimiter_pat(l: Lexer) -> Option<Pat> {
    if consumes(l, Pat::Underscores) {
        Some(Pat::Underscores)
    } else if consumes(l, Pat::Asterisks) {
        Some(Pat::Asterisks)
    } else if consumes(l, Pat::Equals) {
        Some(Pat::Equals)
    } else if consumes(l, Pat::Backticks) {
        Some(Pat::Backticks)
    } else {
        None
    }
}

/// The text that the pattern `p` reads at the lexer's place.
spec fn read_by(l: Lexer, p: Pat) -> Seq<char> {
    let cs = l.cursor.chars@;
    let pos = l.cursor.pos as int;
    match regex_match_end(pat_source(p)@, cs.skip(pos)) {
        Some(n) => cs.subrange(pos, pos + n),
        None => Seq::empty(),
    }
}

/// What a step at an emphasis delimiter returns: where delimiters open, the
/// token that opens emphasis of the delimiter's kind; elsewhere, where it
/// returns a token, the one that closes it; and an unexpected character for
/// a delimiter of no kind.
spec fn emph_result(l: Lexer, r: Option<Result<SpannedTok, LexicalError>>) -> bool {
    match delimiter_pat(l) {
        Some(p) => {
            let raw = read_by(l, p);
            match emph_kind_of(raw) {
                Some(k) => {
                    &&& l.opening_delimiters ==> (r matches Some(Ok(t)) && emph_opens(t.1, k, raw))
                    &&& !l.opening_delimiters ==> (r matches Some(res) && (res matches Ok(t) ==> t.1
                        == emph_close_tok(k)))
                },
                None => r matches Some(Err(e)) && e is UnexpectedChar,
            }
        },
        None => true,
    }
}

/// What a step among words returns, by the order in which their patterns
/// are tried: a heading out of place is an error; then a mark, verbatim
/// text, a word, white space; and anything else is an unexpected character.
spec fn words_result(l: Lexer, r: Option<Result<SpannedTok, LexicalError>>) -> bool {
    let h = consumes(l, Pat::Heading);
    let m = consumes(l, Pat::Mark);
    let v = consumes(l, verbatim_pat(l.dialect));
    let w = consumes(l, Pat::Word);
    let ws = consumes(l, Pat::Whitespace);
    &&& h ==> (r matches Some(Err(LexicalError::UnexpectedHeading { .. })))
    &&& !h && m ==> (r matches Some(Ok((_, Tok::Mark(_), _))))
    &&& !h && !m && v ==> (r matches Some(Ok((_, Tok::Verbatim(_), _))))
    &&& !h && !m && !v && w ==> (r matches Some(Ok((_, Tok::Word(_), _))))
    &&& !h && !m && !v && !w && ws ==> (r matches Some(Ok((_, Tok::Whitespace(_), _))))
    &&& !h && !m && !v && !w && !ws ==> (r matches Some(Err(LexicalError::UnexpectedChar { .. })))
}

/// What a step in running text returns, past line breaks, references and
/// line starts, by the order in which the steps are tried: marks of
/// structure, then commands, dashes, glue and emphasis, then words.
spec fn text_result(l: Lexer, r: Option<Result<SpannedTok, LexicalError>>) -> bool {
    let st = structure_next(l);
    let mk = mark_next(l);
    let cmd = consumes(l, Pat::QualifiedCommand) || consumes(l, Pat::Command);
    &&& structure_result(l, r)
    &&& st ==> (r matches Some(res) && (res matches Ok(t) ==> {
        ||| t.1 is LBracket
        ||| t.1 is Comment
        ||| t.1 is DoubleColon
        ||| t.1 is Colon
        ||| t.1 is LBrace
        ||| t.1 is RBrace
        ||| t.1 is NestedCommentOpen
    }) && (res matches Err(e) ==> e is UnmatchedCommentClose))
    &&& !st && cmd ==> (r matches Some(res) && (res matches Ok(t) ==> t.1 is Command))
    &&& !st && !cmd && consumes(l, Pat::Dash) ==> (r matches Some(Ok((_, Tok::Dash(_), _))))
    &&& !st && !cmd && !consumes(l, Pat::Dash) && consumes(l, Pat::Glue) ==> (r matches Some(Ok(t)) && (t.1 is Glue
        || t.1 is SpiltGlue))
    &&& !st && !cmd && !consumes(l, Pat::Dash) && !consumes(l, Pat::Glue) ==> emph_result(l, r)
    &&& !st && mk ==> r is Some
    &&& !st && !mk ==> words_result(l, r)
}

/// What a step at a mark of structure returns, by the order in which those
/// patterns are tried: `[` after a command, a comment, `::`, `:`, `{`, `}`,
/// the opening of a multi-line comment, and its closing, which is an error
/// here.
spec fn structure_result(l: Lexer, r: Option<Result<SpannedTok, LexicalError>>) -> bool {
    let attrs = l.last_tok matches Some(Tok::Command { .. }) && consumes(l, Pat::OpenAttrs);
    let comment = consumes(l, Pat::Comment);
    let dcolon = consumes(l, Pat::DoubleColon);
    let colon = consumes(l, Pat::Colon);
    let lbrace = consumes(l, Pat::BraceLeft);
    let rbrace = consumes(l, Pat::BraceRight);
    let open = consumes(l, Pat::NestedCommentOpen);
    let close = consumes(l, Pat::NestedCommentClose);
    &&& attrs ==> (r matches Some(Ok(t)) && t.1 is LBracket)
    &&& !attrs && comment ==> (r matches Some(Ok(t)) && t.1 is Comment)
    &&& !attrs && !comment && dcolon ==> (r matches Some(Ok(t)) && t.1 is DoubleColon)
    &&& !attrs && !comment && !dcolon && colon ==> (r matches Some(Ok(t)) && t.1 is Colon)
    &&& !attrs && !comment && !dcolon && !colon && lbrace ==> (r matches Some(Ok(t)) && t.1 is LBrace)
    &&& !attrs && !comment && !dcolon && !colon && !lbrace && rbrace ==> (r matches Some(Ok(t)) && t.1 is RBrace)
    &&& !attrs && !comment && !dcolon && !colon && !lbrace && !rbrace && open ==> (r matches Some(Ok(t))
        && t.1 is NestedCommentOpen)
    &&& !attrs && !comment && !dcolon && !colon && !lbrace && !rbrace && !open && close ==> (r matches Some(
        Err(e),
    ) && e is UnmatchedCommentClose)
}

/// What a step inside a multi-line comment returns, by the order in which
/// its patterns are tried: at the end of the text, the error of the comment
/// left open; else comment text, a line break, a nested opening, a closing,
/// and anything else is an unexpected character.
spec fn comment_result(l: Lexer, r: Option<Result<SpannedTok, LexicalError>>) -> bool {
    let at_end = l.cursor.pos == l.cursor.chars@.len();
    let part = consumes(l, Pat::NestedCommentPart);
    let line = consumes(l, Pat::Ln);
    let open = consumes(l, Pat::NestedCommentOpen);
    let close = consumes(l, Pat::NestedCommentClose);
    &&& at_end ==> (r matches Some(Err(e)) && e is UnmatchedCommentOpen)
    &&& !at_end && part ==> (r matches Some(Ok((_, Tok::Comment(_), _))))
    &&& !at_end && !part && line ==> (r matches Some(Ok(t)) && t.1 == (Tok::Newline { at_eof: false }))
    &&& !at_end && !part && !line && open ==> (r matches Some(Ok(t)) && t.1 is NestedCommentOpen)
    &&& !at_end && !part && !line && !open && close ==> (r matches Some(Ok(t)) && t.1 is NestedCommentClose)
    &&& !at_end && !part && !line && !open && !close ==> (r matches Some(Err(e)) && e is UnexpectedChar)
}

/// What a step inside an attribute list returns, by the order in which its
/// patterns are tried: at the end of the text, an unexpected end; else a
/// named attribute, an unnamed one, a comma, a misplaced `[` (an unexpected
/// character), the closing `]`, a line break (an error), and anything else
/// is an unexpected character.
spec fn attrs_result(l: Lexer, r: Option<Result<SpannedTok, LexicalError>>) -> bool {
    let at_end = l.cursor.pos == l.cursor.chars@.len();
    let named = consumes(l, Pat::NamedAttr);
    let unnamed = consumes(l, Pat::UnnamedAttr);
    let comma = consumes(l, Pat::Comma);
    let open = consumes(l, Pat::OpenAttrs);
    let close = consumes(l, Pat::CloseAttrs);
    let line = consumes(l, Pat::Ln);
    &&& at_end ==> (r matches Some(Err(e)) && e is UnexpectedEOF)
    &&& !at_end && named ==> (r matches Some(Ok((_, Tok::NamedAttr(_), _))))
    &&& !at_end && !named && unnamed ==> (r matches Some(Ok((_, Tok::UnnamedAttr(_), _))))
    &&& !at_end && !named && !unnamed && comma ==> (r matches Some(Ok(t)) && t.1 is AttrComma)
    &&& !at_end && !named && !unnamed && !comma && open ==> (r matches Some(Err(e)) && e is UnexpectedChar)
    &&& !at_end && !named && !unnamed && !comma && !open && close ==> (r matches Some(Ok(t)) && t.1 is RBracket)
    &&& !at_end && !named && !unnamed && !comma && !open && !close && line ==> (r matches Some(Err(e))
        && e is NewlineInAttrs)
    &&& !at_end && !named && !unnamed && !comma && !open && !close && !line ==> (r matches Some(Err(e))
        && e is UnexpectedChar)
}

/// A step from running text, nothing queued, not at the end of the text.
spec fn in_running_text(l: Lexer) -> bool {
    &&& !l.failed && !l.done && l.next_toks@.len() == 0
    &&& l.multi_line_comment_starts@.len() == 0 && l.attr_open is None
    &&& l.cursor.pos < l.cursor.chars@.len()
}

impl Lexer {
    /// Which token a step from running text returns, by the order in which
    /// the steps are tried: at a line break a newline (or the error of a
    /// brace or emphasis left open); then a reference; then, at the start of
    /// a line, a shebang at the very start of the text or a heading; then
    /// marks of structure, commands and marks, and words.
    pub closed spec fn text_step(self, r: Option<Result<SpannedTok, LexicalError>>) -> bool {
        let line = consumes(self, Pat::Ln);
        let reference = consumes(self, Pat::Reference);
        let start = self.start_of_line && ((self.cursor.curr.index == 0 && consumes(self, Pat::Shebang)) || consumes(
            self,
            Pat::Heading,
        ));
        in_running_text(self) ==> {
            &&& line ==> (r matches Some(res) && (res matches Ok(t) ==> t.1 is Newline))
            &&& !line && reference ==> (r matches Some(Ok((_, Tok::Reference(_), _))))
            &&& !line && !reference && start ==> (r matches Some(res) && (res matches Ok(t) ==> t.1 is Shebang
                || t.1 is Heading) && (res matches Err(e) ==> e is HeadingTooDeep))
            &&& !line && !reference && !start ==> text_result(self, r)
        }
    }
}

impl Lexer {
    /// Which token a step inside a multi-line comment or an attribute list
    /// returns, with nothing queued, by the order in which the patterns of
    /// that mode are tried.
    pub closed spec fn mode_step(self, r: Option<Result<SpannedTok, LexicalError>>) -> bool {
        let ready = !self.failed && !self.done && self.next_toks@.len() == 0;
        &&& ready && self.multi_line_comment_starts@.len() > 0 ==> comment_result(self, r)
        &&& ready && self.multi_line_comment_starts@.len() == 0 && self.attr_open is Some ==> attrs_result(self, r)
    }

    /// A step at the end of the text, in running text with nothing queued:
    /// with a brace still open, an unexpected end; else the lexer is done,
    /// and returns a final line break where the last token was none, then
    /// the `Dedent` tokens that close the indentation, one per level.
    pub closed spec fn end_step(self, new: Lexer, r: Option<Result<SpannedTok, LexicalError>>) -> bool {
        let at_end = !self.failed && !self.done && self.next_toks@.len() == 0 && self.multi_line_comment_starts@.len()
            == 0 && self.attr_open is None && self.cursor.pos == self.cursor.chars@.len();
        let after_line = self.last_tok matches Some(Tok::Newline { .. });
        at_end ==> {
            &&& self.open_braces@.len() > 0 ==> (r matches Some(Err(e)) && e is UnexpectedEOF)
            &&& self.open_braces@.len() == 0 ==> new.done
            &&& self.open_braces@.len() == 0 && !after_line ==> (r matches Some(Ok(t)) && t.1 == (Tok::Newline {
                at_eof: true,
            }) && new.next_toks@.len() == self.current_indent && forall|i: int|
                0 <= i < new.next_toks@.len() ==> (#[trigger] new.next_toks@[i]).1 is Dedent)
            &&& self.open_braces@.len() == 0 && after_line && self.current_indent > 0 ==> (r matches Some(Ok(t))
                && t.1 is Dedent && new.next_toks@.len() + 1 == self.current_indent && forall|i: int|
                0 <= i < new.next_toks@.len() ==> (#[trigger] new.next_toks@[i]).1 is Dedent)
            &&& self.open_braces@.len() == 0 && after_line && self.current_indent == 0 ==> r is None
        }
    }

    /// After a line break read from running text, what waits to be handed
    /// out: the `Indent` or `Dedent` tokens that move the indentation to
    /// the level of the next line's leading blanks, then a paragraph break
    /// exactly where blank lines follow.
    pub closed spec fn line_step(self, new: Lexer, r: Option<Result<SpannedTok, LexicalError>>) -> bool {
        in_running_text(self) && consumes(self, Pat::Ln) && (r matches Some(Ok(_))) ==> line_queue(new.next_toks@)
            && line_indentation(self, new)
    }
}

/// What one call of `Lexer::next` does, as its contract states: a step;
/// nothing, and no change, once the lexer has failed or finished; nothing
/// only then; an error only where the state owes it, after which the lexer
/// has failed; from running text, the token that the order of attempts
/// gives, after a line break the change of indentation queued, and at the
/// end of the text the final line break and the indentation closed; in a
/// comment or an attribute list, the token that the order of attempts
/// there gives; the first queued token where one waits, and else a token
/// that starts where the lexer stood; and, among the tokens handed out,
/// indentation that never falls below the margin and, once finished, a
/// line break.
pub open spec fn next_step(old: Lexer, new: Lexer, r: Option<Result<SpannedTok, LexicalError>>) -> bool {
    &&& stepped(old, new, r)
    &&& old.has_failed() || old.is_finished() ==> r is None && new == old
    &&& r is None ==> new.has_failed() || new.is_finished()
    &&& r is None && !old.has_failed() ==> new.is_finished()
    &&& r matches Some(Err(e)) ==> new.has_failed() && old.error_owed(e)
    &&& old.text_step(r)
    &&& old.line_step(new, r)
    &&& old.end_step(new, r)
    &&& old.mode_step(r)
    &&& !old.has_failed() && old.queued().len() == 0 ==> (r matches Some(Ok(t)) ==> t.0 == old.position() || t.0
        == old.last_start())
    &&& !old.has_failed() && old.queued().len() > 0 ==> r == Some(Ok::<SpannedTok, LexicalError>(old.queued()[0]))
        && new.queued() == old.queued().skip(1)
    &&& indents_never_negative(new.emitted())
    &&& new.is_finished() ==> has_newline(new.emitted()) && indent_balance(new.emitted()) == 0
}

/// `ls` and `rs` are a run of `Lexer::next`: each lexer of `ls` after the
/// first is the one before it after a call that returned the result of `rs`
/// at the same place.
#[verifier::opaque]
pub open spec fn is_run(ls: Seq<Lexer>, rs: Seq<Option<Result<SpannedTok, LexicalError>>>) -> bool {
    &&& ls.len() == rs.len() + 1
    &&& forall|i: int| 0 <= i < rs.len() ==> next_step(#[trigger] ls[i], ls[i + 1], rs[i])
}

/// A run from the lexer `l` that calls `Lexer::next` until it returns
/// nothing or an error returns the tokens `ts`, then stops with `err`.
pub open spec fn run_from(l: Lexer, ts: Seq<SpannedTok>, err: Option<LexicalError>) -> bool {
    exists|ls: Seq<Lexer>, rs: Seq<Option<Result<SpannedTok, LexicalError>>>|
        #![trigger is_run(ls, rs)]
        {
            &&& is_run(ls, rs)
            &&& ls[0] == l
            &&& rs.len() == ts.len() + 1
            &&& forall|i: int| 0 <= i < ts.len() ==> rs[i] == Some(Ok::<SpannedTok, LexicalError>(#[trigger] ts[i]))
            &&& rs.last() == match err {
                Some(e) => Some(Err::<SpannedTok, LexicalError>(e)),
                None => None,
            }
        }
}

/// The lexer, started on the text `text` of the file `file` in the form
/// `dialect`, returns the tokens `ts` and then stops with `err`.
pub open spec fn lexes(file: Seq<char>, text: Seq<char>, dialect: Dialect, ts: Seq<SpannedTok>, err: Option<
    LexicalError,
>) -> bool {
    exists|l: Lexer| #[trigger] l.starts_at(file, text, dialect) && run_from(l, ts, err)
}

/// An empty text lexes to a single final line break, with no error.
pub proof fn lemma_lexes_empty(file: Seq<char>, dialect: Dialect, ts: Seq<SpannedTok>, err: Option<LexicalError>)
    requires
        lexes(file, Seq::empty(), dialect, ts, err),
    ensures
        ts.len() == 1,
        ts[0].1 == (Tok::Newline { at_eof: true }),
        err is None,
{
    let l = choose|l: Lexer| #[trigger] l.starts_at(file, Seq::empty(), dialect) && run_from(l, ts, err);
    let (ls, rs) = choose|ls: Seq<Lexer>, rs: Seq<Option<Result<SpannedTok, LexicalError>>>|
        #![trigger is_run(ls, rs)]
        {
            &&& is_run(ls, rs)
            &&& ls[0] == l
            &&& rs.len() == ts.len() + 1
            &&& forall|i: int| 0 <= i < ts.len() ==> rs[i] == Some(Ok::<SpannedTok, LexicalError>(#[trigger] ts[i]))
            &&& rs.last() == match err {
                Some(e) => Some(Err::<SpannedTok, LexicalError>(e)),
                None => None,
            }
        };
    reveal(is_run);
    assert(next_step(ls[0], ls[1], rs[0]));
    assert(ls[0].end_step(ls[1], rs[0]));
    assert(rs[0] matches Some(Ok(t)) && t.1 == (Tok::Newline { at_eof: true }));
    assert(ls[1].is_finished());
    if ts.len() == 0 {
        assert(rs.last() == rs[0]);
    }
    if ts.len() >= 2 {
        assert(next_step(ls[1], ls[2], rs[1]));
        assert(rs[1] == Some(Ok::<SpannedTok, LexicalError>(ts[1])));
    }
    assert(ts.len() == 1);
    assert(rs[0] == Some(Ok::<SpannedTok, LexicalError>(ts[0])));
    assert(next_step(ls[1], ls[2], rs[1]));
    assert(rs.last() == rs[1]);
}

/// Along a run from a fresh lexer, each lexer has returned the tokens of the
/// run so far and has not failed.
proof fn lemma_run_prefix(
    ls: Seq<Lexer>,
    rs: Seq<Option<Result<SpannedTok, LexicalError>>>,
    ts: Seq<SpannedTok>,
    k: int,
)
    requires
        is_run(ls, rs),
        rs.len() == ts.len() + 1,
        forall|i: int| 0 <= i < ts.len() ==> rs[i] == Some(Ok::<SpannedTok, LexicalError>(#[trigger] ts[i])),
        ls[0].emitted() == Seq::<SpannedTok>::empty(),
        !ls[0].has_failed(),
        0 <= k <= ts.len(),
    ensures
        ls[k].emitted() == ts.take(k),
        !ls[k].has_failed(),
    decreases k,
{
    reveal(is_run);
    if k == 0 {
        assert(ts.take(0) =~= Seq::<SpannedTok>::empty());
    } else {
        lemma_run_prefix(ls, rs, ts, k - 1);
        assert(next_step(ls[k - 1], ls[k], rs[k - 1]));
        assert(rs[k - 1] == Some(Ok::<SpannedTok, LexicalError>(ts[k - 1])));
        assert(ts.take(k - 1).push(ts[k - 1]) =~= ts.take(k));
    }
}

/// The tokens the lexer returns for a text before it stops: no prefix of
/// them holds more `Dedent` than `Indent` tokens; and where it stops with no
/// error, they hold as many `Dedent` as `Indent` tokens and at least one
/// line break.
pub proof fn lemma_lexes_balanced(
    file: Seq<char>,
    text: Seq<char>,
    dialect: Dialect,
    ts: Seq<SpannedTok>,
    err: Option<LexicalError>,
)
    requires
        lexes(file, text, dialect, ts, err),
    ensures
        indents_never_negative(ts),
        err is None ==> indent_balance(ts) == 0 && has_newline(ts),
{
    let l = choose|l: Lexer| #[trigger] l.starts_at(file, text, dialect) && run_from(l, ts, err);
    let (ls, rs) = choose|ls: Seq<Lexer>, rs: Seq<Option<Result<SpannedTok, LexicalError>>>|
        #![trigger is_run(ls, rs)]
        {
            &&& is_run(ls, rs)
            &&& ls[0] == l
            &&& rs.len() == ts.len() + 1
            &&& forall|i: int| 0 <= i < ts.len() ==> rs[i] == Some(Ok::<SpannedTok, LexicalError>(#[trigger] ts[i]))
            &&& rs.last() == match err {
                Some(e) => Some(Err::<SpannedTok, LexicalError>(e)),
                None => None,
            }
        };
    let n = ts.len() as int;
    assert(ls[0].emitted() =~= Seq::<SpannedTok>::empty());
    lemma_run_prefix(ls, rs, ts, n);
    assert(ts.take(n) =~= ts);
    reveal(is_run);
    assert(next_step(ls[n], ls[n + 1], rs[n]));
    assert(rs[n] == rs.last());
}

/// Once a call of `Lexer::next` in a run returns nothing or an error, every
/// later call returns nothing and leaves the lexer as that call left it.
pub proof fn lemma_run_fused(
    ls: Seq<Lexer>,
    rs: Seq<Option<Result<SpannedTok, LexicalError>>>,
    i: int,
    j: int,
)
    requires
        is_run(ls, rs),
        0 <= i < j < rs.len(),
        !(rs[i] matches Some(Ok(_))),
    ensures
        rs[j] is None,
        ls[j + 1] == ls[i + 1],
    decreases j - i,
{
    reveal(is_run);
    if j > i + 1 {
        lemma_run_fused(ls, rs, i, j - 1);
    }
    assert(next_step(ls[i], ls[i + 1], rs[i]));
    assert(next_step(ls[j], ls[j + 1], rs[j]));
}

/// The first token that the lexer returns from the start of a text starts
/// there: in the file and text given, at line 1, column 1, byte 0.
pub proof fn lemma_first_token_at_start(
    file: Seq<char>,
    text: Seq<char>,
    dialect: Dialect,
    ts: Seq<SpannedTok>,
    err: Option<LexicalError>,
)
    requires
        lexes(file, text, dialect, ts, err),
        ts.len() > 0,
    ensures
        ts[0].0.file_name@ == file,
        ts[0].0.src@ == text,
        ts[0].0.line == 1,
        ts[0].0.col == 1,
        ts[0].0.index == 0,
{
    let l = choose|l: Lexer| #[trigger] l.starts_at(file, text, dialect) && run_from(l, ts, err);
    let (ls, rs) = choose|ls: Seq<Lexer>, rs: Seq<Option<Result<SpannedTok, LexicalError>>>|
        #![trigger is_run(ls, rs)]
        {
            &&& is_run(ls, rs)
            &&& ls[0] == l
            &&& rs.len() == ts.len() + 1
            &&& forall|i: int| 0 <= i < ts.len() ==> rs[i] == Some(Ok::<SpannedTok, LexicalError>(#[trigger] ts[i]))
            &&& rs.last() == match err {
                Some(e) => Some(Err::<SpannedTok, LexicalError>(e)),
                None => None,
            }
        };
    reveal(is_run);
    assert(next_step(ls[0], ls[1], rs[0]));
    assert(rs[0] == Some(Ok::<SpannedTok, LexicalError>(ts[0])));
}

/// A step that may not apply: where it does not, nothing changes.
pub open spec fn tried(old: Lexer, new: Lexer, r: Option<Result<SpannedTok, LexicalError>>) -> bool {
    if r is None {
        new == old
    } else {
        stepped(old, new, r)
    }
}

impl Lexer {
    /// Whether the last token was a command, after which `[` opens attributes.
    fn can_start_attrs(&self) -> (r: bool)
        ensures
            r == (self.last_tok matches Some(Tok::Command { .. })),
    {
        match &self.last_tok {
            Some(Tok::Command { .. }) => true,
            _ => false,
        }
    }

    /// Records a token handed out directly, with nothing queued.
    fn emit(&mut self, t: &SpannedTok)
        requires
            old(self).wf(),
            old(self).next_toks@.len() == 0,
            t.0.index == old(self).cursor.prev.index,
            tok_text_ok(*t, old(self).cursor.chars@),
            !(t.1 is Indent),
            !(t.1 is Dedent),
        ensures
            final(self).emitted@ == old(self).emitted@.push(*t),
            final(self).wf(),
            t.1 is Newline ==> has_newline(final(self).emitted@),
            final(self).cursor == old(self).cursor,
            final(self).next_toks == old(self).next_toks,
            final(self).done == old(self).done,
            final(self).failed == old(self).failed,
            final(self).current_indent == old(self).current_indent,
            final(self).last_tok == old(self).last_tok,
            final(self).start_of_line == old(self).start_of_line,
            final(self).opening_delimiters == old(self).opening_delimiters,
            final(self).attr_open == old(self).attr_open,
            final(self).multi_line_comment_starts == old(self).multi_line_comment_starts,
            final(self).open_braces == old(self).open_braces,
            final(self).open_delimiters == old(self).open_delimiters,
            final(self).dialect == old(self).dialect,
    {
        let ghost e = self.emitted@;
        proof {
            assert(e + self.next_toks@ =~= e);
            assert(e.push(*t) + self.next_toks@ =~= e.push(*t));
            assert(e.push(*t).drop_last() =~= e);
            lemma_starts_by_push(e, *t, self.cursor.prev.index as nat);
            lemma_texts_ok_push(e, *t, self.cursor.chars@);
            lemma_never_negative_push(e, *t);
            lemma_has_newline_push(e, *t);
        }
        self.emitted = Ghost(self.emitted@.push(*t));
    }

    /// Hands out `tok` spanning the text last read, recording it as the last
    /// token.
    fn give(&mut self, tok: Tok) -> (r: Option<Result<SpannedTok, LexicalError>>)
        requires
            old(self).wf(),
            old(self).next_toks@.len() == 0,
            carries(tok, old(self).cursor.chars@, old(self).cursor.prev_pos as int, old(self).cursor.pos as int),
            !(tok is Indent),
            !(tok is Dedent),
        ensures
            r == Some(Ok::<SpannedTok, LexicalError>((old(self).cursor.prev, tok, old(self).cursor.curr))),
            final(self).emitted@ == old(self).emitted@.push((old(self).cursor.prev, tok, old(self).cursor.curr)),
            final(self).wf(),
            final(self).last_tok == Some(tok),
            final(self).cursor == old(self).cursor,
            final(self).next_toks == old(self).next_toks,
            final(self).done == old(self).done,
            final(self).failed == old(self).failed,
            final(self).current_indent == old(self).current_indent,
            final(self).start_of_line == old(self).start_of_line,
            final(self).opening_delimiters == old(self).opening_delimiters,
            final(self).attr_open == old(self).attr_open,
            final(self).multi_line_comment_starts == old(self).multi_line_comment_starts,
            final(self).open_braces == old(self).open_braces,
            final(self).open_delimiters == old(self).open_delimiters,
            final(self).dialect == old(self).dialect,
    {
        let last = tok.duplicate();
        let t = self.span(tok);
        self.emit(&t);
        self.last_tok = Some(last);
        proof {
            assert(self.emitted@ + self.next_toks@ =~= self.emitted@);
        }
        Some(Ok(t))
    }

    /// Hands out `tok` spanning the text last read, leaving the last token
    /// as it was.
    fn give_quietly(&mut self, tok: Tok) -> (r: Option<Result<SpannedTok, LexicalError>>)
        requires
            old(self).wf(),
            old(self).next_toks@.len() == 0,
            carries(tok, old(self).cursor.chars@, old(self).cursor.prev_pos as int, old(self).cursor.pos as int),
            !(tok is Indent),
            !(tok is Dedent),
        ensures
            r == Some(Ok::<SpannedTok, LexicalError>((old(self).cursor.prev, tok, old(self).cursor.curr))),
            final(self).emitted@ == old(self).emitted@.push((old(self).cursor.prev, tok, old(self).cursor.curr)),
            final(self).wf(),
            final(self).last_tok == old(self).last_tok,
            final(self).cursor == old(self).cursor,
            final(self).next_toks == old(self).next_toks,
            final(self).done == old(self).done,
            final(self).failed == old(self).failed,
            final(self).current_indent == old(self).current_indent,
            final(self).start_of_line == old(self).start_of_line,
            final(self).opening_delimiters == old(self).opening_delimiters,
            final(self).attr_open == old(self).attr_open,
            final(self).multi_line_comment_starts == old(self).multi_line_comment_starts,
            final(self).open_braces == old(self).open_braces,
            final(self).open_delimiters == old(self).open_delimiters,
            final(self).dialect == old(self).dialect,
    {
        let t = self.span(tok);
        self.emit(&t);
        Some(Ok(t))
    }

    /// Stops on an error: the lexer fails and returns nothing more.
    fn fail(&mut self, e: LexicalError) -> (r: Option<Result<SpannedTok, LexicalError>>)
        requires
            old(self).wf(),
        ensures
            r == Some(Err::<SpannedTok, LexicalError>(e)),
            final(self).wf(),
            final(self).failed,
            final(self).emitted == old(self).emitted,
            final(self).cursor == old(self).cursor,
            final(self).next_toks == old(self).next_toks,
            final(self).done == old(self).done,
    {
        self.failed = true;
        Some(Err(e))
    }

    /// Reads a match of the pattern `pat` where the next character can start
    /// one; see `Cursor::try_consume`. It reads one just where the pattern
    /// matches a non-empty text there.
    fn try_consume(&mut self, pat: Pat) -> (r: Option<(usize, usize)>)
        requires
            old(self).wf(),
        ensures
            final(self).wf(),
            final(self).cursor.chars@ == old(self).cursor.chars@,
            old(self).cursor.curr.index <= final(self).cursor.curr.index,
            r is Some <==> consumes(*old(self), pat),
            match r {
                Some((a, b)) => {
                    &&& a == old(self).cursor.pos
                    &&& a < b
                    &&& b == final(self).cursor.pos
                    &&& regex_match_end(pat_source(pat)@, old(self).cursor.chars@.skip(a as int)) == Some((b - a) as nat)
                    &&& final(self).cursor.prev == old(self).cursor.curr
                    &&& final(self).cursor.prev_pos == a
                    &&& final(self).cursor.curr == old(self).cursor.curr.advanced(
                        old(self).cursor.chars@.subrange(a as int, b as int),
                    )
                    &&& *final(self) == (Lexer { cursor: final(self).cursor, ..*old(self) })
                },
                None => *final(self) == *old(self),
            },
    {
        let ghost old_curr = self.cursor.curr;
        match self.cursor.peek() {
            Some(c) => {
                if !may_start(pat, c) {
                    return None;
                }
            },
            None => { return None; },
        }
        let r = self.cursor.try_consume(source(pat));
        proof {
            if r is Some {
                lemma_byte_offset_monotonic(old(self).cursor.chars@, old(self).cursor.prev_pos as int, old(self).cursor.pos as int);
                let ts = self.emitted@ + self.next_toks@;
                assert(ts == old(self).emitted@ + old(self).next_toks@);
                assert forall|i: int| 0 <= i < ts.len() implies #[trigger] ts[i].0.index <= self.cursor.prev.index by {
                    assert(ts[i].0.index <= old(self).cursor.prev.index);
                }
                lemma_byte_offset_monotonic(self.cursor.chars@, old(self).cursor.pos as int, self.cursor.pos as int);
                assert(old(self).cursor.curr.index <= self.cursor.curr.index);
                assert(spans_ordered(old(self).next_toks@, old(self).cursor.curr.index as nat));
                assert(self.next_toks@ == old(self).next_toks@);
                assert forall|i: int| 0 <= i < self.next_toks@.len() implies #[trigger] self.next_toks@[i].0.index
                    <= self.next_toks@[i].2.index <= self.cursor.curr.index by {
                    assert(old(self).next_toks@[i].0.index <= old(self).next_toks@[i].2.index <= old(self).cursor.curr.index);
                }
            }
        }
        r
    }
}

impl Lexer {
    /// The first character not yet read, where there is one.
    fn found_char(&self) -> (c: char)
        requires
            self.cursor.wf(),
            self.cursor.pos < self.cursor.chars@.len(),
        ensures
            c == self.cursor.chars@[self.cursor.pos as int],
    {
        self.cursor.chars[self.cursor.pos]
    }

    /// The text from character `a` up to `b`, each first kept within the
    /// range from `lo` to `hi`.
    fn text_within(&self, a: usize, b: usize, lo: usize, hi: usize) -> (s: String)
        requires
            lo <= hi <= self.cursor.chars@.len(),
        ensures
            s@ == self.cursor.chars@.subrange(
                clamp_spec(a as int, lo as int, hi as int),
                clamp_spec(b as int, clamp_spec(a as int, lo as int, hi as int), hi as int),
            ),
    {
        let a1 = if a < lo { lo } else if a > hi { hi } else { a };
        let b1 = if b < a1 { a1 } else if b > hi { hi } else { b };
        self.cursor.text(a1, b1)
    }

    /// One step inside a multi-line comment.
    fn next_in_comment(&mut self) -> (r: Option<Result<SpannedTok, LexicalError>>)
        requires
            old(self).wf(),
            !old(self).failed,
            !old(self).done,
            old(self).next_toks@.len() == 0,
            old(self).multi_line_comment_starts@.len() > 0,
        ensures
            starts_here(*old(self), r),
            comment_result(*old(self), r),
            stepped(*old(self), *final(self), r),
            r is Some,
            r matches Some(Err(e)) ==> old(self).error_owed(e),
    {
        if self.cursor.at_end() {
            let unclosed = self.multi_line_comment_starts.clone();
            return self.fail(LexicalError::UnmatchedCommentOpen { unclosed });
        }
        if let Some((a, b)) = self.try_consume(Pat::NestedCommentPart) {
            let text = self.cursor.text(a, b);
            return self.give(Tok::Comment(text));
        }
        if let Some(_) = self.try_consume(Pat::Ln) {
            return self.give(Tok::Newline { at_eof: false });
        }
        if let Some(_) = self.try_consume(Pat::NestedCommentOpen) {
            let loc = self.cursor.location();
            self.multi_line_comment_starts.push(loc);
            return self.give(Tok::NestedCommentOpen);
        }
        if let Some(_) = self.try_consume(Pat::NestedCommentClose) {
            self.multi_line_comment_starts.pop();
            return self.give(Tok::NestedCommentClose);
        }
        let found = self.found_char();
        let loc = self.cursor.location();
        self.fail(LexicalError::UnexpectedChar { loc, found })
    }
}

/// `x` kept within the range from `lo` to `hi`.
pub open spec fn clamp_spec(x: int, lo: int, hi: int) -> int {
    if x < lo { lo } else if x > hi { hi } else { x }
}

impl Lexer {
    /// One step inside an attribute list.
    fn next_in_attrs(&mut self) -> (r: Option<Result<SpannedTok, LexicalError>>)
        requires
            old(self).wf(),
            !old(self).failed,
            !old(self).done,
            old(self).next_toks@.len() == 0,
            old(self).attr_open is Some,
            old(self).multi_line_comment_starts@.len() == 0,
        ensures
            starts_here(*old(self), r),
            attrs_result(*old(self), r),
            stepped(*old(self), *final(self), r),
            r is Some,
            r matches Some(Err(e)) ==> old(self).error_owed(e),
    {
        let attr_start_loc = match &self.attr_open {
            Some(l) => l.duplicate(),
            None => { return None; },
        };
        if self.cursor.at_end() {
            let point = self.cursor.curr.duplicate();
            return self.fail(LexicalError::UnexpectedEOF { point, expected: Vec::new() });
        }
        if let Some((a, b)) = self.try_consume(Pat::NamedAttr) {
            let text = self.cursor.text(a, b);
            return self.give(Tok::NamedAttr(text));
        }
        if let Some((a, b)) = self.try_consume(Pat::UnnamedAttr) {
            let text = self.cursor.text(a, b);
            return self.give(Tok::UnnamedAttr(text));
        }
        if let Some(_) = self.try_consume(Pat::Comma) {
            return self.give(Tok::AttrComma);
        }
        if let Some((a, b)) = self.try_consume(Pat::OpenAttrs) {
            let found = self.cursor.chars[a];
            let loc = self.cursor.location();
            self.last_tok = None;
            return Some(Err(LexicalError::UnexpectedChar { loc, found }));
        }
        if let Some(_) = self.try_consume(Pat::CloseAttrs) {
            self.attr_open = None;
            return self.give(Tok::RBracket);
        }
        if let Some(_) = self.try_consume(Pat::Ln) {
            self.attr_open = None;
            let newline_loc = self.cursor.location();
            self.last_tok = None;
            return Some(Err(LexicalError::NewlineInAttrs { attr_start_loc, newline_loc }));
        }
        let found = self.found_char();
        let loc = self.cursor.location();
        self.fail(LexicalError::UnexpectedChar { loc, found })
    }

    /// The step at the end of the text: a final newline where the text did
    /// not end with one, then the dedents that close all indentation.
    fn next_at_end(&mut self) -> (r: Option<Result<SpannedTok, LexicalError>>)
        requires
            old(self).wf(),
            !old(self).failed,
            !old(self).done,
            old(self).next_toks@.len() == 0,
            old(self).cursor.pos == old(self).cursor.chars@.len(),
            old(self).multi_line_comment_starts@.len() == 0,
            old(self).attr_open is None,
        ensures
            starts_here(*old(self), r),
            stepped(*old(self), *final(self), r),
            r is None ==> final(self).done && final(self).next_toks@.len() == 0,
            r matches Some(Err(e)) ==> old(self).error_owed(e),
            old(self).end_step(*final(self), r),
    {
        if self.open_braces.len() > 0 {
            let point = self.cursor.curr.duplicate();
            let mut expected: Vec<String> = Vec::new();
            expected.push(crate::text::string_of("\"}\""));
            return self.fail(LexicalError::UnexpectedEOF { point, expected });
        }
        let ends_with_newline = match &self.last_tok {
            Some(Tok::Newline { .. }) => true,
            _ => false,
        };
        if !ends_with_newline {
            let t = self.span(Tok::Newline { at_eof: true });
            let ghost e = self.emitted@;
            self.enqueue(t);
            proof {
                assert(e + self.next_toks@ =~= e.push(t));
                assert(e.push(t).drop_last() =~= e);
                assert(e + Seq::<SpannedTok>::empty() =~= e);
            }
        }
        let ghost q1 = self.next_toks@;
        self.enqueue_indentation_level(0);
        proof {
            if q1.len() > 0 {
                assert(self.next_toks@[0] == q1[0]);
            }
        }
        self.done = true;
        self.dequeue()
    }

    /// Hands out the first queued token, if any.
    #[verifier::spinoff_prover]
    fn dequeue(&mut self) -> (r: Option<Result<SpannedTok, LexicalError>>)
        requires
            old(self).cursor.wf(),
            indent_balance(old(self).emitted@ + old(self).next_toks@) == old(self).current_indent,
            spans_ordered(old(self).next_toks@, old(self).cursor.curr.index as nat),
            starts_by(old(self).emitted@ + old(self).next_toks@, old(self).cursor.prev.index as nat),
            texts_ok(old(self).emitted@ + old(self).next_toks@, old(self).cursor.chars@),
            old(self).done ==> old(self).current_indent == 0 && old(self).cursor.pos == old(self).cursor.chars@.len(),
            indents_never_negative(old(self).emitted@ + old(self).next_toks@),
            (old(self).last_tok matches Some(Tok::Newline { .. })) ==> has_newline(
                old(self).emitted@ + old(self).next_toks@,
            ),
            old(self).done ==> has_newline(old(self).emitted@ + old(self).next_toks@),
        ensures
            final(self).wf(),
            final(self).emitted@ + final(self).next_toks@ == old(self).emitted@ + old(self).next_toks@,
            match r {
                Some(Ok(t)) => {
                    &&& old(self).next_toks@.len() > 0
                    &&& t == old(self).next_toks@[0]
                    &&& final(self).emitted@ == old(self).emitted@.push(t)
                    &&& final(self).next_toks@ == old(self).next_toks@.skip(1)
                    &&& t.0.index <= t.2.index <= final(self).cursor.curr.index
                },
                Some(Err(_)) => false,
                None => {
                    &&& old(self).next_toks@.len() == 0
                    &&& final(self).next_toks@ == old(self).next_toks@
                    &&& final(self).emitted == old(self).emitted
                },
            },
            final(self).cursor == old(self).cursor,
            final(self).done == old(self).done,
            final(self).failed == old(self).failed,
            final(self).current_indent == old(self).current_indent,
            final(self).last_tok == old(self).last_tok,
            final(self).start_of_line == old(self).start_of_line,
            final(self).opening_delimiters == old(self).opening_delimiters,
            final(self).attr_open == old(self).attr_open,
            final(self).multi_line_comment_starts == old(self).multi_line_comment_starts,
            final(self).open_braces == old(self).open_braces,
            final(self).open_delimiters == old(self).open_delimiters,
            final(self).dialect == old(self).dialect,
    {
        let ghost e = self.emitted@;
        let ghost q = self.next_toks@;
        proof {
            assert(spans_ordered(q, self.cursor.curr.index as nat));
            if q.len() > 0 {
                assert(q[0].0.index <= q[0].2.index);
                assert(q[0].2.index <= self.cursor.curr.index);
            }
        }
        match self.next_toks.pop_front() {
            Some(t) => {
                self.emitted = Ghost(self.emitted@.push(t));
                proof {
                    assert(q =~= seq![t] + q.skip(1));
                    assert(e + q =~= e.push(t) + q.skip(1));
                    assert(self.next_toks@ =~= q.skip(1));
                    assert(self.emitted@ + self.next_toks@ == e + q);
                    assert(q[0] == t);
                    assert(q[0].0.index <= q[0].2.index <= self.cursor.curr.index);
                    assert(self.emitted@ == e.push(t));
                    assert forall|i: int| 0 <= i < self.next_toks@.len() implies #[trigger] self.next_toks@[i].0.index
                        <= self.next_toks@[i].2.index <= self.cursor.curr.index by {
                        assert(self.next_toks@[i] == q[i + 1]);
                    }
                }
                Some(Ok(t))
            },
            None => None,
        }
    }
}

impl Lexer {
    /// The step after a line break has been read: a newline, the change of
    /// indentation that the next line's leading blanks make, and a paragraph
    /// break where blank lines follow. An open brace or emphasis delimiter
    /// may not span lines.
    #[verifier::spinoff_prover]
    #[verifier::rlimit(40)]
    fn after_newline(&mut self) -> (r: Option<Result<SpannedTok, LexicalError>>)
        requires
            old(self).wf(),
            !old(self).failed,
            !old(self).done,
            old(self).next_toks@.len() == 0,
        ensures
            starts_here(*old(self), r),
            final(self).wf(),
            !final(self).done,
            final(self).cursor.pos == old(self).cursor.pos || old(self).cursor.pos < final(self).cursor.pos,
            old(self).cursor.curr.index <= final(self).cursor.curr.index,
            final(self).cursor.chars@ == old(self).cursor.chars@,
            match r {
                Some(Ok(t)) => {
                    &&& final(self).emitted() == old(self).emitted().push(t)
                    &&& t.0.index <= t.2.index <= final(self).bytes_read()
                    &&& !final(self).failed
                },
                Some(Err(_)) => final(self).emitted() == old(self).emitted() && final(self).failed,
                None => false,
            },
            r matches Some(Err(e)) ==> (e is NewlineInArg && old(self).open_braces@.len() > 0) || (
            e is NewlineInEmphDelimiter && old(self).open_delimiters@.len() > 0),
            r matches Some(Ok(t)) ==> t.1 is Newline,
            r matches Some(Ok(_)) ==> line_queue(final(self).next_toks@),
            r matches Some(Ok(t)) ==> t.0 == old(self).cursor.prev,
            r matches Some(Ok(_)) ==> final(self).current_indent == indent_at(
                old(self).cursor.chars@,
                old(self).cursor.pos as int,
            ),
            r matches Some(Ok(_)) ==> indent_balance(final(self).next_toks@) == final(self).current_indent
                - old(self).current_indent,
            r matches Some(Ok(_)) ==> ((final(self).next_toks@.len() > 0 && final(self).next_toks@.last().1 is ParBreak)
                <==> match_len(old(self).cursor.chars@, old(self).cursor.pos as int, Pat::ParBreaks) > 0),
    {
        self.start_of_line = true;
        self.opening_delimiters = true;
        if self.open_braces.len() > 0 {
            let arg_start_loc = match self.open_braces.pop() {
                Some(l) => l,
                None => { return None; },
            };
            let newline_loc = self.cursor.location();
            return self.fail(LexicalError::NewlineInArg { arg_start_loc, newline_loc });
        }
        if self.open_delimiters.len() > 0 {
            let (expected, delimiter_start_loc) = match self.open_delimiters.pop() {
                Some(d) => d,
                None => { return None; },
            };
            let newline_loc = self.cursor.location();
            return self.fail(LexicalError::NewlineInEmphDelimiter { delimiter_start_loc, newline_loc, expected });
        }
        let t = self.span(Tok::Newline { at_eof: false });
        let ghost e = self.emitted@;
        self.enqueue(t);
        proof {
            assert(e + self.next_toks@ =~= e.push(t));
            assert(e.push(t).drop_last() =~= e);
            assert(e + Seq::<SpannedTok>::empty() =~= e);
        }
        let ghost cs = self.cursor.chars@;
        let ghost p1 = self.cursor.pos as int;
        let ghost e1 = self.emitted@.push(t);
        let par_break = self.try_consume(Pat::ParBreaks).is_some();
        let ghost p2 = self.cursor.pos as int;
        proof {
            assert(p2 == p1 + match_len(cs, p1, Pat::ParBreaks));
            assert(par_break <==> match_len(cs, p1, Pat::ParBreaks) > 0);
        }
        let target = match self.try_consume(Pat::Whitespace) {
            Some((a, b)) => indent_level(slice_range(self.cursor.chars.as_slice(), a, b)),
            None => 0,
        };
        proof {
            assert(target == indent_at(cs, p1));
        }
        let ghost q1 = self.next_toks@;
        let ghost up = target > self.current_indent;
        self.enqueue_indentation_level(target);
        let ghost q2 = self.next_toks@;
        if par_break {
            let pb = self.span(Tok::ParBreak);
            let ghost e2 = self.emitted@ + self.next_toks@;
            self.enqueue(pb);
            proof {
                assert(self.emitted@ + self.next_toks@ =~= e2.push(pb));
                assert(e2.push(pb).drop_last() =~= e2);
            }
        }
        let ghost q3 = self.next_toks@;
        proof {
            assert(self.next_toks@[0] == q1[0]);
            assert(q1.len() == 1);
            assert forall|i: int| 1 <= i < q3.len() implies (#[trigger] q3[i]).1 == (if up {
                Tok::Indent
            } else {
                Tok::Dedent
            }) || (q3[i].1 is ParBreak && i == q3.len() - 1) by {
                if i < q2.len() {
                    assert(q3[i] == q2[i]);
                }
            }
        }
        let ret = self.dequeue();
        proof {
            let q = self.next_toks@;
            if ret matches Some(Ok(_)) {
                assert(e1.drop_last() =~= e);
                assert(self.emitted@ == e1);
                lemma_indent_balance_concat(e1, q);
                assert(e + Seq::<SpannedTok>::empty() =~= e);
                assert(q =~= q3.skip(1));
                if par_break {
                    assert(q.last() == q3.last());
                } else if q.len() > 0 {
                    assert(q.last() == q2[q2.len() - 1]);
                }
                assert forall|i: int| 0 <= i < q.len() implies (#[trigger] q[i]).1 is Indent || q[i].1 is Dedent || (
                q[i].1 is ParBreak && i == q.len() - 1) by {
                    assert(q[i] == q3[i + 1]);
                }
                assert forall|i: int, j: int| 0 <= i < q.len() && 0 <= j < q.len() implies !((#[trigger] q[i]).1 is Indent
                    && (#[trigger] q[j]).1 is Dedent) by {
                    assert(q[i] == q3[i + 1]);
                    assert(q[j] == q3[j + 1]);
                }
            }
        }
        match &ret {
            Some(Ok(t)) => {
                self.last_tok = Some(t.1.duplicate());
            },
            _ => {},
        }
        ret
    }

    /// The step for a line break, where one comes next.
    fn try_newline(&mut self) -> (r: Option<Result<SpannedTok, LexicalError>>)
        requires
            old(self).wf(),
            !old(self).failed,
            !old(self).done,
            old(self).next_toks@.len() == 0,
            old(self).attr_open is None,
            old(self).multi_line_comment_starts@.len() == 0,
        ensures
            starts_here(*old(self), r),
            tried(*old(self), *final(self), r),
            r is Some <==> consumes(*old(self), Pat::Ln),
            r matches Some(Err(e)) ==> old(self).error_owed(e),
            r matches Some(Ok(t)) ==> t.1 is Newline,
            r matches Some(Ok(_)) ==> line_queue(final(self).next_toks@),
            r matches Some(Ok(_)) ==> line_indentation(*old(self), *final(self)),
    {
        match self.try_consume(Pat::Ln) {
            Some(_) => self.after_newline(),
            None => None,
        }
    }

    /// The step for a reference such as `#intro`, where one comes next.
    fn try_reference(&mut self) -> (r: Option<Result<SpannedTok, LexicalError>>)
        requires
            old(self).wf(),
            !old(self).failed,
            !old(self).done,
            old(self).next_toks@.len() == 0,
        ensures
            starts_here(*old(self), r),
            tried(*old(self), *final(self), r),
            r is Some <==> consumes(*old(self), Pat::Reference),
            r is Some ==> r matches Some(Ok((_, Tok::Reference(_), _))),
    {
        match self.try_consume(Pat::Reference) {
            Some((a, b)) => {
                let text = self.text_within(a + 1, b, a, b);
                proof {
                    lemma_within(self.cursor.chars@, a as int, b as int, 1, 0);
                }
                self.give_quietly(Tok::Reference(text))
            },
            None => None,
        }
    }

    /// The steps that only the start of a line allows: a shebang at the very
    /// start of the text, and a heading.
    fn try_line_start(&mut self) -> (r: Option<Result<SpannedTok, LexicalError>>)
        requires
            old(self).wf(),
            !old(self).failed,
            !old(self).done,
            old(self).next_toks@.len() == 0,
        ensures
            starts_here(*old(self), r),
            tried(*old(self), *final(self), r),
            r is Some <==> old(self).start_of_line && ((old(self).cursor.curr.index == 0 && consumes(
                *old(self),
                Pat::Shebang,
            )) || consumes(*old(self), Pat::Heading)),
            r matches Some(Ok(t)) ==> (t.1 is Shebang || t.1 is Heading),
            r matches Some(Err(e)) ==> e is HeadingTooDeep,
            old(self).multi_line_comment_starts@.len() == 0 && old(self).attr_open is None ==> (r matches Some(
                Err(e),
            ) ==> old(self).error_owed(e)),
    {
        if !self.start_of_line {
            return None;
        }
        if self.cursor.curr.index == 0 {
            if let Some((a, b)) = self.try_consume(Pat::Shebang) {
                let text = self.text_within(a + 2, b, a, b);
                proof {
                    lemma_within(self.cursor.chars@, a as int, b as int, 2, 0);
                }
                return self.give_quietly(Tok::Shebang(text));
            }
        }
        if let Some((a, b)) = self.try_consume(Pat::Heading) {
            self.start_of_line = false;
            let marker = slice_range(self.cursor.chars.as_slice(), a, b);
            let len = b - a;
            let level = match find_char(marker, '+') {
                Some(i) => i,
                None => len,
            };
            if level > 6 {
                let loc = self.cursor.location();
                return Some(Err(LexicalError::HeadingTooDeep { loc, level }));
            }
            return self.give_quietly(Tok::Heading { level, pluses: len - level });
        }
        None
    }
}

/// The qualifier and name of a command written `text` (with its leading
/// dot): where the text has a second dot, the qualifier is what lies between
/// the first two dots and the name what follows the second, less the
/// trailing `+` marks.
pub open spec fn command_parts(text: Seq<char>) -> (Option<Seq<char>>, Seq<char>, nat) {
    let pluses = trailing_pluses(text);
    let body_end = text.len() - pluses;
    match first_index_of(text.skip(1), '.') {
        Some(i) => (Some(text.subrange(1, if body_end < 1 { 1 } else { clamp_spec((1 + i) as int, 1, body_end) })), text.subrange(
            clamp_spec((2 + i) as int, 1, body_end),
            body_end,
        ), pluses),
        None => (None, text.subrange(clamp_spec(1, 0, body_end), body_end), pluses),
    }
}

/// Where the lexer reports the dots among the first `n` characters of a
/// command's name that starts at character `name_start` of `cs`: for the
/// dot at place `i` of the name, the span of one character from the point
/// reached from `after` over the `i` characters of the command from `a` on.
pub open spec fn dot_locs(cs: Seq<char>, a: int, after: Point, name_start: int, n: int) -> Seq<Location>
    decreases n,
{
    if n <= 0 {
        seq![]
    } else {
        let rest = dot_locs(cs, a, after, name_start, n - 1);
        if cs[name_start + n - 1] == '.' {
            let p = after.advanced(cs.subrange(a, a + n - 1));
            rest.push(Location::between(p, p.advanced(seq!['.'])))
        } else {
            rest
        }
    }
}

impl Lexer {
    /// The location of each dot in the name of a qualified command read from
    /// `a` to `b`, whose second dot is at `a + dot`. Each is found by moving
    /// from the point after the second dot over as many characters of the
    /// command as the dot lies into the name.
    fn dot_locations(&self, a: usize, b: usize, dot: usize, name_end: usize) -> (locs: Vec<Location>)
        requires
            self.cursor.wf(),
            self.cursor.prev_pos == a,
            a + dot < name_end <= b <= self.cursor.chars@.len(),
            b == self.cursor.pos,
        ensures
            locs@ == dot_locs(
                self.cursor.chars@,
                a as int,
                self.cursor.prev.advanced(self.cursor.chars@.subrange(a as int, a + dot + 1)),
                a + dot + 1,
                name_end - (a + dot + 1),
            ),
    {
        let chars = self.cursor.chars.as_slice();
        let start = self.cursor.prev.duplicate();
        proof {
            lemma_advanced_bounds(start, chars@.subrange(a as int, (a + dot + 1) as int));
        }
        let after = start.shift_chars(slice_range(chars, a, a + dot + 1));
        let mut locs: Vec<Location> = Vec::new();
        let name_start = a + dot + 1;
        let mut i: usize = 0;
        while name_start + i < name_end
            invariant
                self.cursor.wf(),
                chars@ == self.cursor.chars@,
                a + dot < name_end <= b <= chars@.len(),
                name_start == a + dot + 1,
                name_start + i <= name_end,
                self.cursor.prev_pos == a,
                b == self.cursor.pos,
                point_within(self.cursor.prev, a as nat),
                after.line <= 1 + a + dot + 1,
                1 <= after.col <= 4 * a + 1 + 4 * (dot + 1),
                after.index <= 4 * a + 4 * (dot + 1),
                fits(chars@.len()),
                after == self.cursor.prev.advanced(chars@.subrange(a as int, a + dot + 1)),
                locs@ == dot_locs(chars@, a as int, after, name_start as int, i as int),
            decreases name_end - (name_start + i),
        {
            if chars[name_start + i] == '.' {
                proof {
                    lemma_advanced_bounds(after, chars@.subrange(a as int, (a + i) as int));
                }
                let dot_pos = after.duplicate().shift_chars(slice_range(chars, a, a + i));
                let one = ['.'];
                proof {
                    lemma_advanced_bounds(dot_pos, one@);
                }
                let dot_end = dot_pos.duplicate().shift_chars(&one);
                locs.push(Location::new(&dot_pos, &dot_end));
                proof {
                    assert(one@ =~= seq!['.']);
                }
            }
            i = i + 1;
        }
        locs
    }

    /// The token or error for a qualified command read from `a` to `b`.
    fn qualified_command(&mut self, a: usize, b: usize) -> (r: Result<Tok, LexicalError>)
        requires
            old(self).cursor.wf(),
            old(self).cursor.prev_pos == a,
            a < b,
            b == old(self).cursor.pos,
        ensures
            *final(self) == *old(self),
            r matches Ok(Tok::Command { qualifier, name, pluses }) ==> {
                let parts = command_parts(old(self).cursor.chars@.subrange(a as int, b as int));
                &&& parts.2 == pluses
                &&& name@ == parts.1
                &&& (match qualifier {
                    Some(q) => parts.0 == Some(q@),
                    None => parts.0 is None,
                })
            },
            r is Ok ==> r matches Ok(Tok::Command { .. }),
            ({
                let text = old(self).cursor.chars@.subrange(a as int, b as int);
                let body_end = text.len() - trailing_pluses(text);
                let prev = old(self).cursor.prev;
                match first_index_of(text.skip(1), '.') {
                    Some(i) => {
                        let dot: int = 1 + i as int;
                        let name_start = clamp_spec(dot + 1, 1, body_end as int);
                        let more = first_index_of(text.subrange(name_start, body_end), '.') is Some;
                        &&& more ==> (r matches Err(LexicalError::TooManyQualifiers { loc, dot_locs: ds }) && loc
                            == Location::between(prev, old(self).cursor.curr) && ds@ == (if dot < body_end {
                            dot_locs(
                                old(self).cursor.chars@,
                                a as int,
                                prev.advanced(old(self).cursor.chars@.subrange(a as int, a + dot + 1)),
                                a + dot + 1,
                                body_end - dot - 1,
                            )
                        } else {
                            seq![]
                        }))
                        &&& !more && i == 0 ==> (r matches Err(LexicalError::EmptyQualifier { loc, qualifier_loc })
                            && loc == Location::between(prev, old(self).cursor.curr) && qualifier_loc
                            == Location::between(prev, prev.advanced(seq!['.', '.'])))
                        &&& !more && i > 0 ==> r is Ok
                    },
                    None => r is Ok,
                }
            }),
    {
        let ghost text = self.cursor.chars@.subrange(a as int, b as int);
        let s = slice_range(self.cursor.chars.as_slice(), a, b);
        let pluses = count_trailing_pluses(s);
        let len = b - a;
        let body_end = len - pluses;
        let rest = slice_range(s, 1, len);
        proof {
            assert(rest@ =~= text.skip(1));
        }
        match find_char(rest, '.') {
            Some(i) => {
                let dot = 1 + i;
                let name_start = if dot + 1 < 1 { 1 } else if dot + 1 > body_end { body_end } else { dot + 1 };
                let q_end = if body_end < 1 { 1 } else if dot > body_end { body_end } else { dot };
                if find_char(slice_range(s, name_start, body_end), '.').is_some() {
                    let loc = self.cursor.location();
                    let dot_locs = if dot < body_end {
                        self.dot_locations(a, b, dot, a + body_end)
                    } else {
                        Vec::new()
                    };
                    return Err(LexicalError::TooManyQualifiers { loc, dot_locs });
                }
                if dot == 1 {
                    let loc = self.cursor.location();
                    let start = self.cursor.prev.duplicate();
                    let two = ['.', '.'];
                    let end = start.duplicate().shift_chars(&two);
                    let qualifier_loc = Location::new(&start, &end);
                    return Err(LexicalError::EmptyQualifier { loc, qualifier_loc });
                }
                let qualifier = string_from_chars(slice_range(s, 1, q_end));
                let name = string_from_chars(slice_range(s, name_start, body_end));
                proof {
                    assert(first_index_of(text.skip(1), '.') == Some(i as nat));
                    assert(qualifier@ =~= text.subrange(1, q_end as int));
                    assert(name@ =~= text.subrange(name_start as int, body_end as int));
                }
                Ok(Tok::Command { qualifier: Some(qualifier), name, pluses })
            },
            None => {
                let name_start = if body_end < 1 { body_end } else { 1 };
                let name = string_from_chars(slice_range(s, name_start, body_end));
                Ok(Tok::Command { qualifier: None, name, pluses })
            },
        }
    }
}

impl Lexer {
    /// The token or error for an emphasis delimiter read from `a` to `b`:
    /// where delimiters may open it opens emphasis; otherwise it closes the
    /// innermost open emphasis, whose delimiter it must repeat.
    fn emph(&mut self, a: usize, b: usize) -> (r: Result<Tok, LexicalError>)
        requires
            old(self).wf(),
            a < b <= old(self).cursor.chars@.len(),
        ensures
            final(self).wf(),
            final(self).cursor == old(self).cursor,
            final(self).emitted == old(self).emitted,
            final(self).next_toks == old(self).next_toks,
            final(self).done == old(self).done,
            final(self).current_indent == old(self).current_indent,
            r is Ok ==> final(self).failed == old(self).failed,
            r is Err ==> final(self).failed,
            r matches Err(e) ==> (e matches LexicalError::UnexpectedChar { found, .. } && found
                == old(self).cursor.chars@[a as int]) || (e is DelimiterMismatch && !old(self).opening_delimiters
                && old(self).open_delimiters@.len() > 0),
            match emph_kind_of(old(self).cursor.chars@.subrange(a as int, b as int)) {
                Some(k) => {
                    &&& old(self).opening_delimiters ==> (r matches Ok(t) && emph_opens(t, k, old(self).cursor.chars@.subrange(a as int, b as int)))
                    &&& (!old(self).opening_delimiters && r is Ok) ==> r == Ok::<Tok, LexicalError>(emph_close_tok(k))
                },
                None => r matches Err(e) && e is UnexpectedChar,
            },
    {
        let raw = slice_range(self.cursor.chars.as_slice(), a, b);
        let kind = match emph_kind(raw) {
            Some(k) => k,
            None => {
                let found = self.cursor.chars[a];
                let loc = self.cursor.location();
                self.failed = true;
                return Err(LexicalError::UnexpectedChar { loc, found });
            },
        };
        let text = string_from_chars(raw);
        if self.opening_delimiters {
            let loc = self.cursor.location();
            let tok = match kind {
                EmphKind::Italic => Tok::ItalicOpen(text.clone()),
                EmphKind::Bold => Tok::BoldOpen(text.clone()),
                EmphKind::Smallcaps => Tok::SmallcapsOpen,
                EmphKind::AlternateFace => Tok::AlternateFaceOpen,
                EmphKind::Monospace => Tok::MonospaceOpen,
            };
            self.open_delimiters.push((text, loc));
            return Ok(tok);
        }
        if self.open_delimiters.len() > 0 {
            let (to_close, to_close_loc) = match self.open_delimiters.pop() {
                Some(d) => d,
                None => { return Ok(emph_close(kind)); },
            };
            if to_close != text {
                let loc = self.cursor.location();
                self.failed = true;
                return Err(LexicalError::DelimiterMismatch { loc, to_close_loc, expected: to_close });
            }
        }
        Ok(emph_close(kind))
    }

    /// The token or error for glue read from `a` to `b`: it is split where
    /// it touches a line's start or end or holds a space.
    fn glue(&mut self, a: usize, b: usize, line_started: bool) -> (t: Tok)
        requires
            old(self).cursor.wf(),
            a < b == old(self).cursor.pos,
        ensures
            ({
                let chars = old(self).cursor.chars@;
                let split = b == chars.len() || chars[b as int] == '\r' || chars[b as int] == '\n'
                    || line_started || chars[a as int] == ' ' || chars[b - 1] == ' ';
                &&& split ==> (t matches Tok::SpiltGlue(s) && s@ == chars.subrange(a as int, b as int))
                &&& !split ==> (t matches Tok::Glue(s) && s@ == chars.subrange(a as int, b as int))
                &&& final(self).opening_delimiters == (split || b - a == 2 || old(self).opening_delimiters)
            }),
            *final(self) == (Lexer { opening_delimiters: final(self).opening_delimiters, ..*old(self) }),
    {
        let text = self.cursor.text(a, b);
        let newline_after = match self.cursor.peek() {
            None => true,
            Some(c) => c == '\r' || c == '\n',
        };
        let chars = self.cursor.chars.as_slice();
        if newline_after || line_started || chars[a] == ' ' || chars[b - 1] == ' ' {
            self.opening_delimiters = true;
            return Tok::SpiltGlue(text);
        }
        if b - a == 2 {
            self.opening_delimiters = true;
        }
        Tok::Glue(text)
    }
}

/// The token that closes emphasis of kind `k`.
fn emph_close(k: EmphKind) -> (t: Tok)
    ensures
        t == emph_close_tok(k),
{
    match k {
        EmphKind::Italic => Tok::ItalicClose,
        EmphKind::Bold => Tok::BoldClose,
        EmphKind::Smallcaps => Tok::SmallcapsClose,
        EmphKind::AlternateFace => Tok::AlternateFaceClose,
        EmphKind::Monospace => Tok::MonospaceClose,
    }
}

impl Lexer {
    /// Hands out the outcome of a match: a token spanning the text last
    /// read, recorded as the last token, or an error, after which there is
    /// no last token.
    fn finish(&mut self, res: Result<Tok, LexicalError>) -> (r: Option<Result<SpannedTok, LexicalError>>)
        requires
            old(self).wf(),
            old(self).next_toks@.len() == 0,
            res is Ok ==> !old(self).failed,
            res matches Ok(t) ==> !(t is Indent) && !(t is Dedent),
            res matches Ok(t) ==> carries(
                t,
                old(self).cursor.chars@,
                old(self).cursor.prev_pos as int,
                old(self).cursor.pos as int,
            ),
        ensures
            res matches Err(e) ==> r == Some(Err::<SpannedTok, LexicalError>(e)),
            final(self).wf(),
            r is Some,
            final(self).cursor == old(self).cursor,
            final(self).done == old(self).done,
            final(self).failed == old(self).failed,
            final(self).next_toks == old(self).next_toks,
            match r {
                Some(Ok(t)) => {
                    &&& res is Ok
                    &&& t == (old(self).cursor.prev, res->Ok_0, old(self).cursor.curr)
                    &&& final(self).emitted@ == old(self).emitted@.push(t)
                },
                _ => res is Err && final(self).emitted == old(self).emitted,
            },
    {
        match res {
            Ok(tok) => self.give(tok),
            Err(e) => {
                self.last_tok = None;
                Some(Err(e))
            },
        }
    }

    /// The steps for marks of structure: attributes after a command,
    /// comments, colons, braces and multi-line comment delimiters.
    #[verifier::spinoff_prover]
    #[verifier::rlimit(40)]
    fn try_structure(&mut self) -> (r: Option<Result<SpannedTok, LexicalError>>)
        requires
            old(self).wf(),
            !old(self).failed,
            !old(self).done,
            old(self).next_toks@.len() == 0,
        ensures
            starts_here(*old(self), r),
            tried(*old(self), *final(self), r),
            r is Some <==> {
                ||| old(self).last_tok matches Some(Tok::Command { .. }) && consumes(*old(self), Pat::OpenAttrs)
                ||| consumes(*old(self), Pat::Comment)
                ||| consumes(*old(self), Pat::DoubleColon)
                ||| consumes(*old(self), Pat::Colon)
                ||| consumes(*old(self), Pat::BraceLeft)
                ||| consumes(*old(self), Pat::BraceRight)
                ||| consumes(*old(self), Pat::NestedCommentOpen)
                ||| consumes(*old(self), Pat::NestedCommentClose)
            },
            r matches Some(Ok(t)) ==> {
                ||| t.1 is LBracket
                ||| t.1 is Comment
                ||| t.1 is DoubleColon
                ||| t.1 is Colon
                ||| t.1 is LBrace
                ||| t.1 is RBrace
                ||| t.1 is NestedCommentOpen
            },
            r matches Some(Err(e)) ==> e is UnmatchedCommentClose,
            structure_result(*old(self), r),
            old(self).multi_line_comment_starts@.len() == 0 && old(self).attr_open is None ==> (r matches Some(
                Err(e),
            ) ==> old(self).error_owed(e)),
    {
        if self.can_start_attrs() {
            if let Some(_) = self.try_consume(Pat::OpenAttrs) {
                self.attr_open = Some(self.cursor.location());
                return self.give_quietly(Tok::LBracket);
            }
        }
        if let Some((a, b)) = self.try_consume(Pat::Comment) {
            let text = self.text_within(a + 2, b, a, b);
            proof {
                lemma_within(self.cursor.chars@, a as int, b as int, 2, 0);
            }
            return self.finish(Ok(Tok::Comment(text)));
        }
        if let Some(_) = self.try_consume(Pat::DoubleColon) {
            return self.finish(Ok(Tok::DoubleColon));
        }
        if let Some(_) = self.try_consume(Pat::Colon) {
            return self.finish(Ok(Tok::Colon));
        }
        if let Some(_) = self.try_consume(Pat::BraceLeft) {
            let loc = self.cursor.location();
            self.open_braces.push(loc);
            return self.finish(Ok(Tok::LBrace));
        }
        if let Some(_) = self.try_consume(Pat::BraceRight) {
            self.open_braces.pop();
            return self.finish(Ok(Tok::RBrace));
        }
        if let Some(_) = self.try_consume(Pat::NestedCommentOpen) {
            let loc = self.cursor.location();
            self.multi_line_comment_starts.push(loc);
            return self.finish(Ok(Tok::NestedCommentOpen));
        }
        if let Some(_) = self.try_consume(Pat::NestedCommentClose) {
            let loc = self.cursor.location();
            return self.fail(LexicalError::UnmatchedCommentClose { loc });
        }
        None
    }

    /// The steps for commands, dashes, glue and emphasis delimiters.
    fn try_command_or_mark(&mut self, line_started: bool) -> (r: Option<Result<SpannedTok, LexicalError>>)
        requires
            old(self).wf(),
            !old(self).failed,
            !old(self).done,
            old(self).next_toks@.len() == 0,
        ensures
            starts_here(*old(self), r),
            tried(*old(self), *final(self), r),
            r is Some <==> {
                ||| consumes(*old(self), Pat::QualifiedCommand)
                ||| consumes(*old(self), Pat::Command)
                ||| consumes(*old(self), Pat::Dash)
                ||| consumes(*old(self), Pat::Glue)
                ||| consumes(*old(self), Pat::Underscores)
                ||| consumes(*old(self), Pat::Asterisks)
                ||| consumes(*old(self), Pat::Equals)
                ||| consumes(*old(self), Pat::Backticks)
            },
            (consumes(*old(self), Pat::QualifiedCommand) || consumes(*old(self), Pat::Command)) ==> (r matches Some(
                Ok(t),
            ) ==> t.1 is Command),
            !consumes(*old(self), Pat::QualifiedCommand) && !consumes(*old(self), Pat::Command) && consumes(
                *old(self),
                Pat::Dash,
            ) ==> r matches Some(Ok((_, Tok::Dash(_), _))),
            !consumes(*old(self), Pat::QualifiedCommand) && !consumes(*old(self), Pat::Command) && !consumes(
                *old(self),
                Pat::Dash,
            ) && consumes(*old(self), Pat::Glue) ==> (r matches Some(Ok(t)) && (t.1 is Glue || t.1 is SpiltGlue)),
            !consumes(*old(self), Pat::QualifiedCommand) && !consumes(*old(self), Pat::Command) && !consumes(
                *old(self),
                Pat::Dash,
            ) && !consumes(*old(self), Pat::Glue) ==> emph_result(*old(self), r),
            old(self).multi_line_comment_starts@.len() == 0 && old(self).attr_open is None ==> (r matches Some(
                Err(e),
            ) ==> old(self).error_owed(e)),
    {
        if let Some((a, b)) = self.try_consume(Pat::QualifiedCommand) {
            let res = self.qualified_command(a, b);
            return self.finish(res);
        }
        if let Some((a, b)) = self.try_consume(Pat::Command) {
            let res = self.qualified_command(a, b);
            return self.finish(res);
        }
        if let Some((a, b)) = self.try_consume(Pat::Dash) {
            let text = self.cursor.text(a, b);
            return self.finish(Ok(Tok::Dash(text)));
        }
        if let Some((a, b)) = self.try_consume(Pat::Glue) {
            let tok = self.glue(a, b, line_started);
            return self.finish(Ok(tok));
        }
        if let Some((a, b)) = self.try_consume(Pat::Underscores) {
            proof {
                assert(read_by(*old(self), Pat::Underscores) == self.cursor.chars@.subrange(a as int, b as int));
            }
            let res = self.emph(a, b);
            return self.finish(res);
        }
        if let Some((a, b)) = self.try_consume(Pat::Asterisks) {
            proof {
                assert(read_by(*old(self), Pat::Asterisks) == self.cursor.chars@.subrange(a as int, b as int));
            }
            let res = self.emph(a, b);
            return self.finish(res);
        }
        if let Some((a, b)) = self.try_consume(Pat::Equals) {
            proof {
                assert(read_by(*old(self), Pat::Equals) == self.cursor.chars@.subrange(a as int, b as int));
            }
            let res = self.emph(a, b);
            return self.finish(res);
        }
        if let Some((a, b)) = self.try_consume(Pat::Backticks) {
            proof {
                assert(read_by(*old(self), Pat::Backticks) == self.cursor.chars@.subrange(a as int, b as int));
            }
            let res = self.emph(a, b);
            return self.finish(res);
        }
        None
    }

    /// The steps for headings out of place, marks, verbatim text, words and
    /// whitespace; anything else is an unexpected character.
    fn next_in_words(&mut self) -> (r: Option<Result<SpannedTok, LexicalError>>)
        requires
            old(self).wf(),
            !old(self).failed,
            !old(self).done,
            old(self).next_toks@.len() == 0,
            old(self).cursor.pos < old(self).cursor.chars@.len(),
        ensures
            starts_here(*old(self), r),
            stepped(*old(self), *final(self), r),
            r is Some,
            words_result(*old(self), r),
            old(self).multi_line_comment_starts@.len() == 0 && old(self).attr_open is None ==> (r matches Some(
                Err(e),
            ) ==> old(self).error_owed(e)),
    {
        if let Some(_) = self.try_consume(Pat::Heading) {
            let loc = self.cursor.location();
            return self.finish(Err(LexicalError::UnexpectedHeading { loc }));
        }
        if let Some((a, b)) = self.try_consume(Pat::Mark) {
            let text = self.text_within(a + 1, b, a, b);
            proof {
                lemma_within(self.cursor.chars@, a as int, b as int, 1, 0);
            }
            return self.finish(Ok(Tok::Mark(text)));
        }
        let verbatim = match self.dialect {
            Dialect::Current => Pat::Verbatim,
            Dialect::Legacy => Pat::LegacyVerbatim,
        };
        if let Some((a, b)) = self.try_consume(verbatim) {
            self.opening_delimiters = false;
            let text = self.text_within(a + 1, b - 1, a, b);
            proof {
                lemma_within(self.cursor.chars@, a as int, b as int, 1, 1);
            }
            return self.finish(Ok(Tok::Verbatim(text)));
        }
        if let Some((a, b)) = self.try_consume(Pat::Word) {
            self.opening_delimiters = false;
            let text = self.cursor.text(a, b);
            return self.finish(Ok(Tok::Word(text)));
        }
        if let Some((a, b)) = self.try_consume(Pat::Whitespace) {
            self.opening_delimiters = true;
            let text = self.cursor.text(a, b);
            return self.finish(Ok(Tok::Whitespace(text)));
        }
        let found = self.found_char();
        let loc = self.cursor.location();
        self.fail(LexicalError::UnexpectedChar { loc, found })
    }

    /// One step in running text.
    fn next_in_text(&mut self) -> (r: Option<Result<SpannedTok, LexicalError>>)
        requires
            old(self).wf(),
            !old(self).failed,
            !old(self).done,
            old(self).next_toks@.len() == 0,
            old(self).cursor.pos < old(self).cursor.chars@.len(),
        ensures
            starts_here(*old(self), r),
            stepped(*old(self), *final(self), r),
            r is Some,
            text_result(*old(self), r),
            old(self).multi_line_comment_starts@.len() == 0 && old(self).attr_open is None ==> (r matches Some(
                Err(e),
            ) ==> old(self).error_owed(e) && !(e is HeadingTooDeep)),
    {
        let line_started = self.start_of_line;
        self.start_of_line = false;
        let r = self.try_structure();
        if r.is_some() {
            return r;
        }
        let r = self.try_command_or_mark(line_started);
        if r.is_some() {
            return r;
        }
        self.next_in_words()
    }

    /// The next token, or the error that stops the lexer, or nothing once
    /// the lexer has failed or handed out every token of the text. Once it
    /// has returned an error or nothing, it returns nothing and changes no
    /// more; each error it returns is one that its state owes.
    pub fn next(&mut self) -> (r: Option<Result<SpannedTok, LexicalError>>)
        requires
            old(self).wf(),
        ensures
            next_step(*old(self), *final(self), r),
    {
        if self.failed {
            proof {
                lemma_emitted_never_negative(*self);
                if self.is_finished() {
                    lemma_finished_balanced(*self);
                }
            }
            return None;
        }
        let r = self.step();
        if let Some(Err(_)) = &r {
            self.failed = true;
        }
        proof {
            lemma_emitted_never_negative(*self);
            if self.is_finished() {
                lemma_finished_balanced(*self);
            }
        }
        r
    }

    /// One step of a lexer that has not failed.
    fn step(&mut self) -> (r: Option<Result<SpannedTok, LexicalError>>)
        requires
            old(self).wf(),
            !old(self).failed,
        ensures
            old(self).next_toks@.len() == 0 ==> starts_here(*old(self), r),
            stepped(*old(self), *final(self), r),
            r is None ==> final(self).is_finished(),
            old(self).is_finished() ==> r is None && *final(self) == *old(self),
            r matches Some(Err(e)) ==> old(self).error_owed(e),
            old(self).text_step(r),
            old(self).line_step(*final(self), r),
            old(self).end_step(*final(self), r),
            old(self).mode_step(r),
            old(self).next_toks@.len() > 0 ==> r == Some(Ok::<SpannedTok, LexicalError>(old(self).next_toks@[0]))
                && final(self).next_toks@ == old(self).next_toks@.skip(1),
    {
        if self.next_toks.len() > 0 {
            return self.dequeue();
        }
        if self.done {
            return None;
        }
        if self.multi_line_comment_starts.len() > 0 {
            return self.next_in_comment();
        }
        if self.attr_open.is_some() {
            return self.next_in_attrs();
        }
        if self.cursor.at_end() {
            return self.next_at_end();
        }
        let r = self.try_newline();
        if r.is_some() {
            return r;
        }
        let r = self.try_reference();
        if r.is_some() {
            return r;
        }
        let r = self.try_line_start();
        if r.is_some() {
            return r;
        }
        self.next_in_text()
    }
}

/// Once the lexer has handed out every token, the indentation it opened is
/// closed: the tokens hold as many `Dedent` as `Indent`, and one of them at
/// least is a line break.
pub proof fn lemma_finished_balanced(l: Lexer)
    requires
        l.wf(),
        l.is_finished(),
    ensures
        indent_balance(l.emitted()) == 0,
        has_newline(l.emitted()),
        l.read_all(),
{
    assert(l.emitted@ + l.next_toks@ =~= l.emitted@);
    assert(l.cursor.chars@.take(l.cursor.chars@.len() as int) =~= l.cursor.chars@);
}

/// The indentation of the tokens a consistent lexer has handed out never
/// falls below the left margin, at any point of their sequence.
pub proof fn lemma_emitted_never_negative(l: Lexer)
    requires
        l.wf(),
    ensures
        indents_never_negative(l.emitted()),
{
    let ts = l.emitted@ + l.next_toks@;
    lemma_never_negative_prefix(ts, l.emitted@.len() as int);
    assert(ts.take(l.emitted@.len() as int) =~= l.emitted@);
}

/// The tokens a consistent lexer has handed out start in the order they
/// came.
pub proof fn lemma_emitted_in_order(l: Lexer)
    requires
        l.wf(),
    ensures
        forall|i: int, j: int| 0 <= i < j < l.emitted().len() ==> #[trigger] l.emitted()[i].0.index
            <= #[trigger] l.emitted()[j].0.index,
{
    let ts = l.emitted@ + l.next_toks@;
    assert forall|i: int, j: int| 0 <= i < j < l.emitted().len() implies #[trigger] l.emitted()[i].0.index
        <= #[trigger] l.emitted()[j].0.index by {
        assert(ts[i] == l.emitted@[i]);
        assert(ts[j] == l.emitted@[j]);
    }
}

/// Every token a consistent lexer has handed out holds what it was read
/// from in the source.
pub proof fn lemma_emitted_texts(l: Lexer)
    requires
        l.wf(),
    ensures
        texts_ok(l.emitted(), l.source()),
{
    let ts = l.emitted@ + l.next_toks@;
    assert forall|i: int| 0 <= i < l.emitted().len() implies #[trigger] tok_text_ok(l.emitted()[i], l.source()) by {
        assert(ts[i] == l.emitted@[i]);
    }
}

/// Runs the lexer to the end or to its first error, and returns the tokens
/// it handed out and the error, if one stopped it. Without an error, the
/// whole text is read and the tokens close all the indentation they open;
/// every span runs forwards, the tokens start in the order of the text, and
/// each holds what it was read from.
#[verifier::spinoff_prover]
#[verifier::rlimit(60)]
pub fn tokenize(lexer: &mut Lexer) -> (r: (Vec<SpannedTok>, Option<LexicalError>))
    requires
        old(lexer).wf(),
        !old(lexer).has_failed(),
        old(lexer).emitted() == Seq::<SpannedTok>::empty(),
    ensures
        r.0@ == final(lexer).emitted(),
        r.1 is None ==> indent_balance(r.0@) == 0,
        r.1 is None ==> has_newline(r.0@),
        indents_never_negative(r.0@),
        forall|i: int| 0 <= i < r.0@.len() ==> #[trigger] r.0@[i].0.index <= r.0@[i].2.index,
        forall|i: int, j: int| 0 <= i < j < r.0@.len() ==> #[trigger] r.0@[i].0.index <= #[trigger] r.0@[j].0.index,
        texts_ok(r.0@, old(lexer).source()),
        final(lexer).source() == old(lexer).source(),
        r.1 is None ==> final(lexer).read_all(),
        run_from(*old(lexer), r.0@, r.1),
{
    let mut toks: Vec<SpannedTok> = Vec::new();
    let ghost mut ls: Seq<Lexer> = seq![*lexer];
    let ghost mut rs: Seq<Option<Result<SpannedTok, LexicalError>>> = Seq::empty();
    proof {
        reveal(is_run);
    }
    loop
        invariant
            lexer.wf(),
            !lexer.has_failed(),
            toks@ == lexer.emitted(),
            lexer.source() == old(lexer).source(),
            forall|i: int| 0 <= i < toks@.len() ==> #[trigger] toks@[i].0.index <= toks@[i].2.index,
            is_run(ls, rs),
            ls[0] == *old(lexer),
            ls.last() == *lexer,
            rs.len() == toks@.len(),
            forall|i: int| 0 <= i < toks@.len() ==> rs[i] == Some(Ok::<SpannedTok, LexicalError>(#[trigger] toks@[i])),
        decreases lexer.rank_failed(), lexer.rank_input(), lexer.rank_queue(),
    {
        let ghost before = *lexer;
        let ghost old_toks = toks@;
        let res = lexer.next();
        proof {
            lemma_run_push(ls, rs, *lexer, res);
            ls = ls.push(*lexer);
            rs = rs.push(res);
        }
        match res {
            None => {
                proof {
                    lemma_finished_balanced(*lexer);
                    lemma_emitted_never_negative(*lexer);
                    lemma_emitted_in_order(*lexer);
                    lemma_emitted_texts(*lexer);
                    lemma_run_done(*old(lexer), ls, rs, toks@, None);
                }
                return (toks, None);
            },
            Some(Ok(t)) => {
                toks.push(t);
                proof {
                    assert forall|i: int| 0 <= i < toks@.len() implies rs[i] == Some(
                        Ok::<SpannedTok, LexicalError>(#[trigger] toks@[i]),
                    ) by {
                        if i < old_toks.len() {
                            assert(toks@[i] == old_toks[i]);
                        }
                    }
                }
            },
            Some(Err(e)) => {
                proof {
                    lemma_emitted_never_negative(*lexer);
                    lemma_emitted_in_order(*lexer);
                    lemma_emitted_texts(*lexer);
                    lemma_run_done(*old(lexer), ls, rs, toks@, Some(e));
                }
                return (toks, Some(e));
            },
        }
    }
}

/// A run that ends in what stopped it shows what the lexer returns.
proof fn lemma_run_done(
    l: Lexer,
    ls: Seq<Lexer>,
    rs: Seq<Option<Result<SpannedTok, LexicalError>>>,
    ts: Seq<SpannedTok>,
    err: Option<LexicalError>,
)
    requires
        is_run(ls, rs),
        ls[0] == l,
        rs.len() == ts.len() + 1,
        forall|i: int| 0 <= i < ts.len() ==> rs[i] == Some(Ok::<SpannedTok, LexicalError>(#[trigger] ts[i])),
        rs.last() == match err {
            Some(e) => Some(Err::<SpannedTok, LexicalError>(e)),
            None => None,
        },
    ensures
        run_from(l, ts, err),
{
}

/// A run with one more call is still a run.
proof fn lemma_run_push(
    ls: Seq<Lexer>,
    rs: Seq<Option<Result<SpannedTok, LexicalError>>>,
    l: Lexer,
    r: Option<Result<SpannedTok, LexicalError>>,
)
    requires
        is_run(ls, rs),
        next_step(ls.last(), l, r),
    ensures
        is_run(ls.push(l), rs.push(r)),
        ls.push(l)[0] == ls[0],
        ls.push(l).last() == l,
        forall|i: int| 0 <= i < rs.len() ==> #[trigger] rs.push(r)[i] == rs[i],
{
    reveal(is_run);
    assert forall|i: int| 0 <= i < rs.push(r).len() implies next_step(
        #[trigger] ls.push(l)[i],
        ls.push(l)[i + 1],
        rs.push(r)[i],
    ) by {
        if i < rs.len() {
            assert(ls.push(l)[i] == ls[i]);
            assert(ls.push(l)[i + 1] == ls[i + 1]);
        } else {
            assert(ls.push(l)[i] == ls.last());
        }
    }
}
} // verus!
