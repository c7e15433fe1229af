//! The tokens of Emblem source and the pieces of text they are made from.
use vstd::prelude::*;
use crate::text::{push_str, string_from_chars, string_of};

verus! {

/// A token of Emblem source.
#[derive(Clone, Debug, PartialEq, Eq)]
pub enum Tok {
    Shebang(String),
    Indent,
    Dedent,
    Colon,
    DoubleColon,
    LBrace,
    RBrace,
    LBracket,
    RBracket,
    NamedAttr(String),
    UnnamedAttr(String),
    AttrComma,
    Command { qualifier: Option<String>, name: String, pluses: usize },
    ItalicOpen(String),
    BoldOpen(String),
    MonospaceOpen,
    SmallcapsOpen,
    AlternateFaceOpen,
    Heading { level: usize, pluses: usize },
    ItalicClose,
    BoldClose,
    MonospaceClose,
    SmallcapsClose,
    AlternateFaceClose,
    Reference(String),
    Mark(String),
    ParBreak,
    Word(String),
    Whitespace(String),
    Dash(String),
    Glue(String),
    SpiltGlue(String),
    Verbatim(String),
    NestedCommentOpen,
    NestedCommentClose,
    Comment(String),
    Newline { at_eof: bool },
}

/// The name of a token's kind, as error messages show it.
pub open spec fn tok_kind_name(t: Tok) -> Seq<char> {
    match t {
        Tok::Shebang(_) => "shebang"@,
        Tok::Indent => "indent"@,
        Tok::Dedent => "dedent"@,
        Tok::Colon => ":"@,
        Tok::DoubleColon => "::"@,
        Tok::LBrace => "{"@,
        Tok::RBrace => "}"@,
        Tok::LBracket => "["@,
        Tok::RBracket => "]"@,
        Tok::NamedAttr(_) => "named-attr"@,
        Tok::UnnamedAttr(_) => "unnamed-attr"@,
        Tok::AttrComma => "comma"@,
        Tok::Command { .. } => "command"@,
        Tok::ItalicOpen(_) => "italic-open"@,
        Tok::ItalicClose => "italic-close"@,
        Tok::BoldOpen(_) => "bold-open"@,
        Tok::BoldClose => "bold-close"@,
        Tok::MonospaceOpen => "monospace-open"@,
        Tok::MonospaceClose => "monospace-close"@,
        Tok::SmallcapsOpen => "smallcaps-open"@,
        Tok::SmallcapsClose => "smallcaps-close"@,
        Tok::AlternateFaceOpen => "alternate-face-open"@,
        Tok::AlternateFaceClose => "alternate-face-close"@,
        Tok::Heading { .. } => "heading"@,
        Tok::Reference(_) => "reference"@,
        Tok::Mark(_) => "mark"@,
        Tok::ParBreak => "par-break"@,
        Tok::Word(_) => "word"@,
        Tok::Whitespace(_) => "whitespace"@,
        Tok::Dash(_) => "dash"@,
        Tok::Glue(_) => "glue"@,
        Tok::SpiltGlue(_) => "spilt-glue"@,
        Tok::Verbatim(_) => "verbatim"@,
        Tok::NestedCommentOpen => "/*"@,
        Tok::NestedCommentClose => "*/"@,
        Tok::Newline { .. } => "newline"@,
        Tok::Comment(_) => "comment"@,
    }
}

impl Tok {
    /// The name of the token's kind, as error messages show it.
    pub fn to_string(&self) -> (s: String)
        ensures
            s@ == tok_kind_name(*self),
    {
        let name: &str = match self {
            Tok::Shebang(_) => "shebang",
            Tok::Indent => "indent",
            Tok::Dedent => "dedent",
            Tok::Colon => ":",
            Tok::DoubleColon => "::",
            Tok::LBrace => "{",
            Tok::RBrace => "}",
            Tok::LBracket => "[",
            Tok::RBracket => "]",
            Tok::NamedAttr(_) => "named-attr",
            Tok::UnnamedAttr(_) => "unnamed-attr",
            Tok::AttrComma => "comma",
            Tok::Command { .. } => "command",
            Tok::ItalicOpen(_) => "italic-open",
            Tok::ItalicClose => "italic-close",
            Tok::BoldOpen(_) => "bold-open",
            Tok::BoldClose => "bold-close",
            Tok::MonospaceOpen => "monospace-open",
            Tok::MonospaceClose => "monospace-close",
            Tok::SmallcapsOpen => "smallcaps-open",
            Tok::SmallcapsClose => "smallcaps-close",
            Tok::AlternateFaceOpen => "alternate-face-open",
            Tok::AlternateFaceClose => "alternate-face-close",
            Tok::Heading { .. } => "heading",
            Tok::Reference(_) => "reference",
            Tok::Mark(_) => "mark",
            Tok::ParBreak => "par-break",
            Tok::Word(_) => "word",
            Tok::Whitespace(_) => "whitespace",
            Tok::Dash(_) => "dash",
            Tok::Glue(_) => "glue",
            Tok::SpiltGlue(_) => "spilt-glue",
            Tok::Verbatim(_) => "verbatim",
            Tok::NestedCommentOpen => "/*",
            Tok::NestedCommentClose => "*/",
            Tok::Newline { .. } => "newline",
            Tok::Comment(_) => "comment",
        };
        string_of(name)
    }

    /// A copy of this token.
    pub fn duplicate(&self) -> (t: Tok)
        ensures
            t == *self,
    {
        match self {
            Tok::Shebang(s) => Tok::Shebang(s.clone()),
            Tok::Indent => Tok::Indent,
            Tok::Dedent => Tok::Dedent,
            Tok::Colon => Tok::Colon,
            Tok::DoubleColon => Tok::DoubleColon,
            Tok::LBrace => Tok::LBrace,
            Tok::RBrace => Tok::RBrace,
            Tok::LBracket => Tok::LBracket,
            Tok::RBracket => Tok::RBracket,
            Tok::NamedAttr(s) => Tok::NamedAttr(s.clone()),
            Tok::UnnamedAttr(s) => Tok::UnnamedAttr(s.clone()),
            Tok::AttrComma => Tok::AttrComma,
            Tok::Command { qualifier, name, pluses } => Tok::Command {
                qualifier: match qualifier {
                    Some(q) => Some(q.clone()),
                    None => None,
                },
                name: name.clone(),
                pluses: *pluses,
            },
            Tok::ItalicOpen(s) => Tok::ItalicOpen(s.clone()),
            Tok::BoldOpen(s) => Tok::BoldOpen(s.clone()),
            Tok::MonospaceOpen => Tok::MonospaceOpen,
            Tok::SmallcapsOpen => Tok::SmallcapsOpen,
            Tok::AlternateFaceOpen => Tok::AlternateFaceOpen,
            Tok::Heading { level, pluses } => Tok::Heading { level: *level, pluses: *pluses },
            Tok::ItalicClose => Tok::ItalicClose,
            Tok::BoldClose => Tok::BoldClose,
            Tok::MonospaceClose => Tok::MonospaceClose,
            Tok::SmallcapsClose => Tok::SmallcapsClose,
            Tok::AlternateFaceClose => Tok::AlternateFaceClose,
            Tok::Reference(s) => Tok::Reference(s.clone()),
            Tok::Mark(s) => Tok::Mark(s.clone()),
            Tok::ParBreak => Tok::ParBreak,
            Tok::Word(s) => Tok::Word(s.clone()),
            Tok::Whitespace(s) => Tok::Whitespace(s.clone()),
            Tok::Dash(s) => Tok::Dash(s.clone()),
            Tok::Glue(s) => Tok::Glue(s.clone()),
            Tok::SpiltGlue(s) => Tok::SpiltGlue(s.clone()),
            Tok::Verbatim(s) => Tok::Verbatim(s.clone()),
            Tok::NestedCommentOpen => Tok::NestedCommentOpen,
            Tok::NestedCommentClose => Tok::NestedCommentClose,
            Tok::Comment(s) => Tok::Comment(s.clone()),
            Tok::Newline { at_eof } => Tok::Newline { at_eof: *at_eof },
        }
    }
}

/// The number of leading spaces and tabs of `s`, as a pair.
pub open spec fn leading_blanks(s: Seq<char>) -> (nat, nat)
    decreases s.len(),
{
    if s.len() == 0 {
        (0, 0)
    } else if s[0] == ' ' {
        let r = leading_blanks(s.skip(1));
        (r.0 + 1, r.1)
    } else if s[0] == '\t' {
        let r = leading_blanks(s.skip(1));
        (r.0, r.1 + 1)
    } else {
        (0, 0)
    }
}

/// The indentation level that the leading blanks of `s` make: one per tab,
/// and one per four spaces or part thereof.
pub open spec fn indent_level_of(s: Seq<char>) -> nat {
    let (spaces, tabs) = leading_blanks(s);
    tabs + spaces / 4 + (if spaces % 4 == 0 { 0nat } else { 1nat })
}

proof fn lemma_leading_blanks_bound(s: Seq<char>)
    ensures
        leading_blanks(s).0 + leading_blanks(s).1 <= s.len(),
    decreases s.len(),
{
    if s.len() > 0 {
        lemma_leading_blanks_bound(s.skip(1));
    }
}

/// The indentation level of `s`.
pub fn indent_level(s: &[char]) -> (r: usize)
    ensures
        r == indent_level_of(s@),
{
    let n = s.len();
    let mut i = n;
    let mut spaces: usize = 0;
    let mut tabs: usize = 0;
    let mut k: usize = 0;
    while k < n && (s[k] == ' ' || s[k] == '\t')
        invariant
            n == s@.len(),
            k <= n,
            forall|j: int| 0 <= j < k ==> s@[j] == ' ' || s@[j] == '\t',
        decreases n - k,
    {
        k = k + 1;
    }
    // The blanks run from 0 to k; count them from the end of the run.
    assert(leading_blanks(s@.skip(k as int)) == (0nat, 0nat)) by {
        if k < n {
            assert(s@.skip(k as int)[0] == s@[k as int]);
        }
    }
    i = k;
    while i > 0
        invariant
            n == s@.len(),
            i <= k <= n,
            forall|j: int| 0 <= j < k ==> s@[j] == ' ' || s@[j] == '\t',
            leading_blanks(s@.skip(i as int)) == (spaces as nat, tabs as nat),
            spaces + tabs <= k - i,
        decreases i,
    {
        let ghost t = s@.skip(i - 1);
        assert(t.skip(1) =~= s@.skip(i as int));
        assert(t[0] == s@[i - 1]);
        if s[i - 1] == ' ' {
            spaces = spaces + 1;
        } else {
            tabs = tabs + 1;
        }
        i = i - 1;
    }
    assert(s@.skip(0) =~= s@);
    let part: usize = if spaces % 4 == 0 { 0 } else { 1 };
    tabs + spaces / 4 + part
}

/// The kinds of emphasis that a delimiter can open or close.
#[derive(Copy, Clone, Debug, PartialEq, Eq)]
pub enum EmphKind {
    Italic,
    Bold,
    Smallcaps,
    AlternateFace,
    Monospace,
}

/// The kind of emphasis that the delimiter `raw` stands for.
pub open spec fn emph_kind_of(raw: Seq<char>) -> Option<EmphKind> {
    if raw == seq!['_'] || raw == seq!['*'] {
        Some(EmphKind::Italic)
    } else if raw == seq!['_', '_'] || raw == seq!['*', '*'] {
        Some(EmphKind::Bold)
    } else if raw == seq!['='] {
        Some(EmphKind::Smallcaps)
    } else if raw == seq!['=', '='] {
        Some(EmphKind::AlternateFace)
    } else if raw == seq!['`'] {
        Some(EmphKind::Monospace)
    } else {
        None
    }
}

fn chars_eq(a: &[char], b: &[char]) -> (r: bool)
    ensures
        r == (a@ == b@),
{
    if a.len() != b.len() {
        return false;
    }
    let mut i: usize = 0;
    while i < a.len()
        invariant
            a@.len() == b@.len(),
            i <= a@.len(),
            forall|j: int| 0 <= j < i ==> a@[j] == b@[j],
        decreases a@.len() - i,
    {
        if a[i] != b[i] {
            return false;
        }
        i = i + 1;
    }
    assert(a@ =~= b@);
    true
}

/// The kind of emphasis that the delimiter `raw` stands for.
pub fn emph_kind(raw: &[char]) -> (k: Option<EmphKind>)
    ensures
        k == emph_kind_of(raw@),
{
    let one_us = ['_'];
    let one_st = ['*'];
    let two_us = ['_', '_'];
    let two_st = ['*', '*'];
    let one_eq = ['='];
    let two_eq = ['=', '='];
    let tick = ['`'];
    assert(one_us@ == seq!['_']);
    assert(one_st@ == seq!['*']);
    assert(two_us@ == seq!['_', '_']);
    assert(two_st@ == seq!['*', '*']);
    assert(one_eq@ == seq!['=']);
    assert(two_eq@ == seq!['=', '=']);
    assert(tick@ == seq!['`']);
    if chars_eq(raw, &one_us) || chars_eq(raw, &one_st) {
        Some(EmphKind::Italic)
    } else if chars_eq(raw, &two_us) || chars_eq(raw, &two_st) {
        Some(EmphKind::Bold)
    } else if chars_eq(raw, &one_eq) {
        Some(EmphKind::Smallcaps)
    } else if chars_eq(raw, &two_eq) {
        Some(EmphKind::AlternateFace)
    } else if chars_eq(raw, &tick) {
        Some(EmphKind::Monospace)
    } else {
        None
    }
}

/// The token that opens emphasis of kind `k` with delimiter `raw`.
pub open spec fn emph_open_tok(k: EmphKind, raw: String) -> Tok {
    match k {
        EmphKind::Italic => Tok::ItalicOpen(raw),
        EmphKind::Bold => Tok::BoldOpen(raw),
        EmphKind::Smallcaps => Tok::SmallcapsOpen,
        EmphKind::AlternateFace => Tok::AlternateFaceOpen,
        EmphKind::Monospace => Tok::MonospaceOpen,
    }
}

/// `t` opens emphasis of kind `k` with the delimiter `raw`.
pub open spec fn emph_opens(t: Tok, k: EmphKind, raw: Seq<char>) -> bool {
    match (k, t) {
        (EmphKind::Italic, Tok::ItalicOpen(s)) => s@ == raw,
        (EmphKind::Bold, Tok::BoldOpen(s)) => s@ == raw,
        (EmphKind::Smallcaps, Tok::SmallcapsOpen) => true,
        (EmphKind::AlternateFace, Tok::AlternateFaceOpen) => true,
        (EmphKind::Monospace, Tok::MonospaceOpen) => true,
        _ => false,
    }
}

/// The token that closes emphasis of kind `k`.
pub open spec fn emph_close_tok(k: EmphKind) -> Tok {
    match k {
        EmphKind::Italic => Tok::ItalicClose,
        EmphKind::Bold => Tok::BoldClose,
        EmphKind::Smallcaps => Tok::SmallcapsClose,
        EmphKind::AlternateFace => Tok::AlternateFaceClose,
        EmphKind::Monospace => Tok::MonospaceClose,
    }
}

/// The number of `+` that `s` ends with.
pub open spec fn trailing_pluses(s: Seq<char>) -> nat
    decreases s.len(),
{
    if s.len() > 0 && s.last() == '+' {
        trailing_pluses(s.drop_last()) + 1
    } else {
        0
    }
}

proof fn lemma_trailing_pluses_bound(s: Seq<char>)
    ensures
        trailing_pluses(s) <= s.len(),
    decreases s.len(),
{
    if s.len() > 0 && s.last() == '+' {
        lemma_trailing_pluses_bound(s.drop_last());
    }
}

/// The number of `+` that `s` ends with.
pub fn count_trailing_pluses(s: &[char]) -> (n: usize)
    ensures
        n == trailing_pluses(s@),
        n <= s@.len(),
{
    let mut k = s.len();
    assert(s@.take(k as int) =~= s@);
    while k > 0 && s[k - 1] == '+'
        invariant
            k <= s@.len(),
            forall|j: int| k <= j < s@.len() ==> s@[j] == '+',
            trailing_pluses(s@) == trailing_pluses(s@.take(k as int)) + (s@.len() - k),
        decreases k,
    {
        assert(s@.take(k as int).drop_last() =~= s@.take(k - 1));
        k = k - 1;
    }
    assert(s@.take(k as int) =~= s@.take(k as int));
    proof {
        if k > 0 {
            assert(s@.take(k as int).last() == s@[k - 1]);
        }
    }
    s.len() - k
}

/// The first index of `c` in `s`, if any.
pub open spec fn first_index_of(s: Seq<char>, c: char) -> Option<nat>
    decreases s.len(),
{
    if s.len() == 0 {
        None
    } else if s[0] == c {
        Some(0)
    } else {
        match first_index_of(s.skip(1), c) {
            Some(i) => Some(i + 1),
            None => None,
        }
    }
}

proof fn lemma_first_index_of(s: Seq<char>, c: char, k: int)
    requires
        0 <= k <= s.len(),
        forall|j: int| 0 <= j < k ==> s[j] != c,
    ensures
        first_index_of(s, c) == (match first_index_of(s.skip(k), c) {
            Some(i) => Some((i + k) as nat),
            None => None,
        }),
    decreases k,
{
    if k > 0 {
        assert(s.skip(1).skip(k - 1) =~= s.skip(k));
        lemma_first_index_of(s.skip(1), c, k - 1);
    } else {
        assert(s.skip(0) =~= s);
        match first_index_of(s, c) {
            Some(i) => {},
            None => {},
        }
    }
}

/// The first index of `c` in `s`, if any.
pub fn find_char(s: &[char], c: char) -> (r: Option<usize>)
    ensures
        match r {
            Some(i) => first_index_of(s@, c) == Some(i as nat) && i < s@.len() && s@[i as int] == c,
            None => first_index_of(s@, c) is None,
        },
{
    let mut k: usize = 0;
    while k < s.len()
        invariant
            k <= s@.len(),
            forall|j: int| 0 <= j < k ==> s@[j] != c,
        decreases s@.len() - k,
    {
        if s[k] == c {
            proof {
                lemma_first_index_of(s@, c, k as int);
                assert(s@.skip(k as int)[0] == c);
            }
            return Some(k);
        }
        k = k + 1;
    }
    proof {
        lemma_first_index_of(s@, c, k as int);
        assert(s@.skip(k as int).len() == 0);
    }
    None
}


/// A token as a mathematical value: its text as sequences of characters,
/// and newlines without the mark of whether they end the text.
pub enum TokV {
    Shebang(Seq<char>),
    Indent,
    Dedent,
    Colon,
    DoubleColon,
    LBrace,
    RBrace,
    LBracket,
    RBracket,
    NamedAttr(Seq<char>),
    UnnamedAttr(Seq<char>),
    AttrComma,
    Command { qualifier: Option<Seq<char>>, name: Seq<char>, pluses: nat },
    ItalicOpen(Seq<char>),
    BoldOpen(Seq<char>),
    MonospaceOpen,
    SmallcapsOpen,
    AlternateFaceOpen,
    Heading { level: nat, pluses: nat },
    ItalicClose,
    BoldClose,
    MonospaceClose,
    SmallcapsClose,
    AlternateFaceClose,
    Reference(Seq<char>),
    Mark(Seq<char>),
    ParBreak,
    Word(Seq<char>),
    Whitespace(Seq<char>),
    Dash(Seq<char>),
    Glue(Seq<char>),
    SpiltGlue(Seq<char>),
    Verbatim(Seq<char>),
    NestedCommentOpen,
    NestedCommentClose,
    Comment(Seq<char>),
    Newline,
}

/// `t` as a mathematical value.
pub open spec fn tv(t: Tok) -> TokV {
    match t {
        Tok::Shebang(s) => TokV::Shebang(s@),
        Tok::Indent => TokV::Indent,
        Tok::Dedent => TokV::Dedent,
        Tok::Colon => TokV::Colon,
        Tok::DoubleColon => TokV::DoubleColon,
        Tok::LBrace => TokV::LBrace,
        Tok::RBrace => TokV::RBrace,
        Tok::LBracket => TokV::LBracket,
        Tok::RBracket => TokV::RBracket,
        Tok::NamedAttr(s) => TokV::NamedAttr(s@),
        Tok::UnnamedAttr(s) => TokV::UnnamedAttr(s@),
        Tok::AttrComma => TokV::AttrComma,
        Tok::Command { qualifier, name, pluses } => TokV::Command {
            qualifier: match qualifier {
                Some(q) => Some(q@),
                None => None,
            },
            name: name@,
            pluses: pluses as nat,
        },
        Tok::ItalicOpen(s) => TokV::ItalicOpen(s@),
        Tok::BoldOpen(s) => TokV::BoldOpen(s@),
        Tok::MonospaceOpen => TokV::MonospaceOpen,
        Tok::SmallcapsOpen => TokV::SmallcapsOpen,
        Tok::AlternateFaceOpen => TokV::AlternateFaceOpen,
        Tok::Heading { level, pluses } => TokV::Heading { level: level as nat, pluses: pluses as nat },
        Tok::ItalicClose => TokV::ItalicClose,
        Tok::BoldClose => TokV::BoldClose,
        Tok::MonospaceClose => TokV::MonospaceClose,
        Tok::SmallcapsClose => TokV::SmallcapsClose,
        Tok::AlternateFaceClose => TokV::AlternateFaceClose,
        Tok::Reference(s) => TokV::Reference(s@),
        Tok::Mark(s) => TokV::Mark(s@),
        Tok::ParBreak => TokV::ParBreak,
        Tok::Word(s) => TokV::Word(s@),
        Tok::Whitespace(s) => TokV::Whitespace(s@),
        Tok::Dash(s) => TokV::Dash(s@),
        Tok::Glue(s) => TokV::Glue(s@),
        Tok::SpiltGlue(s) => TokV::SpiltGlue(s@),
        Tok::Verbatim(s) => TokV::Verbatim(s@),
        Tok::NestedCommentOpen => TokV::NestedCommentOpen,
        Tok::NestedCommentClose => TokV::NestedCommentClose,
        Tok::Comment(s) => TokV::Comment(s@),
        Tok::Newline { .. } => TokV::Newline,
    }
}
} // verus!
