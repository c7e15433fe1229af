//! A compact textual form of the syntax tree, used to check what the parser
//! builds.
use vstd::prelude::*;
use crate::ast::parsed::{attr_name, attr_value, Attr, Attrs, Content, MultiLineComment, MultiLineCommentPart, Sugar};
use crate::ast::{dash_text, glue_text, File, Par, ParPart};
use crate::emblem_core::parser::location::{slice_range, Location};
use crate::format::{debug_str, str_debug};
use crate::pattern::{regex_replace_all, replace_all};
use crate::text::{decimal, push_char, push_decimal, push_str, str_chars, string_from_chars, string_of};

verus! {

/// The characters that the textual form escapes with a backslash.
pub const ILLEGAL: &'static str = r"([|()\[\]])";

/// The replacement that puts a backslash before what `ILLEGAL` matches.
pub const ESCAPED: &'static str = r"\$1";

/// `s` less its first and last characters.
pub open spec fn unquoted(s: Seq<char>) -> Seq<char> {
    if s.len() >= 2 {
        s.subrange(1, s.len() - 1)
    } else {
        seq![]
    }
}

/// The textual form of text: as `{:?}` writes it, with `|`, brackets and
/// parentheses escaped by a backslash, and without the surrounding quotes.
pub open spec fn str_repr(s: Seq<char>) -> Seq<char> {
    match regex_replace_all(ILLEGAL@, str_debug(s), ESCAPED@) {
        Some(t) => unquoted(t),
        None => unquoted(str_debug(s)),
    }
}

/// The textual form of text.
pub fn repr_str(s: &str) -> (r: String)
    ensures
        r@ == str_repr(s@),
{
    let quoted = debug_str(s);
    let escaped = match replace_all(ILLEGAL, quoted.as_str(), ESCAPED) {
        Some(t) => t,
        None => quoted,
    };
    let cs = str_chars(escaped.as_str());
    if cs.len() >= 2 {
        string_from_chars(slice_range(cs.as_slice(), 1, cs.len() - 1))
    } else {
        String::new()
    }
}

/// `n` plus signs in parentheses, or nothing for none.
pub open spec fn pluses_repr(n: nat) -> Seq<char> {
    if n == 0 {
        seq![]
    } else {
        seq!['('] + Seq::new(n, |i: int| '+') + seq![')']
    }
}

fn push_pluses(out: &mut String, n: usize)
    ensures
        final(out)@ == old(out)@ + pluses_repr(n as nat),
{
    if n == 0 {
        assert(old(out)@ + pluses_repr(n as nat) =~= old(out)@);
        return;
    }
    let ghost start = out@;
    push_char(out, '(');
    let mut i: usize = 0;
    while i < n
        invariant
            i <= n,
            out@ == start + seq!['('] + Seq::new(i as nat, |k: int| '+'),
        decreases n - i,
    {
        push_char(out, '+');
        i = i + 1;
        assert(out@ =~= start + seq!['('] + Seq::new(i as nat, |k: int| '+'));
    }
    push_char(out, ')');
    assert(out@ =~= start + pluses_repr(n as nat));
}

/// The textual form of an attribute: its name in parentheses, and for a
/// named one `=` and its value in parentheses.
pub open spec fn attr_repr(name: Seq<char>, value: Option<Seq<char>>) -> Seq<char> {
    match value {
        Some(v) => seq!['('] + str_repr(name) + ")=("@ + str_repr(v) + seq![')'],
        None => seq!['('] + str_repr(name) + seq![')'],
    }
}

/// The textual forms of `items`, separated by `|` and in square brackets.
pub open spec fn bracketed(items: Seq<Seq<char>>) -> Seq<char> {
    seq!['['] + joined(items) + seq![']']
}

/// The textual forms of `items`, separated by `|`.
pub open spec fn joined(items: Seq<Seq<char>>) -> Seq<char>
    decreases items.len(),
{
    if items.len() == 0 {
        seq![]
    } else if items.len() == 1 {
        items[0]
    } else {
        joined(items.drop_last()) + seq!['|'] + items.last()
    }
}

/// The textual form of a multi-line comment.
pub open spec fn mlc_repr(m: MultiLineComment) -> Seq<char>
    decreases m,
{
    seq!['['] + mlc_parts_repr(m.parts@) + seq![']']
}

/// The textual forms of the parts of a multi-line comment, separated by `|`.
pub open spec fn mlc_parts_repr(ps: Seq<MultiLineCommentPart>) -> Seq<char>
    decreases ps,
{
    if ps.len() == 0 {
        seq![]
    } else {
        let last = match ps.last() {
            MultiLineCommentPart::Newline => seq!['\\', 'n'],
            MultiLineCommentPart::Comment(s) => str_repr(s@),
            MultiLineCommentPart::Nested(m) => "Nested"@ + mlc_repr(m),
        };
        if ps.len() == 1 {
            last
        } else {
            mlc_parts_repr(ps.drop_last()) + seq!['|'] + last
        }
    }
}

fn push_mlc(out: &mut String, m: &MultiLineComment)
    ensures
        final(out)@ == old(out)@ + mlc_repr(*m),
    decreases m,
{
    let ghost start = out@;
    push_char(out, '[');
    let mut i: usize = 0;
    proof {
        assert(mlc_parts_repr(m.parts@.take(0)) =~= Seq::<char>::empty());
    }
    while i < m.parts.len()
        invariant
            i <= m.parts@.len(),
            out@ == start + seq!['['] + mlc_parts_repr(m.parts@.take(i as int)),
        decreases m.parts@.len() - i,
    {
        let ghost before = out@;
        if i > 0 {
            push_char(out, '|');
        }
        let ghost mid = out@;
        match &m.parts[i] {
            MultiLineCommentPart::Newline => {
                push_char(out, '\\');
                push_char(out, 'n');
            },
            MultiLineCommentPart::Comment(s) => {
                let r = repr_str(s.as_str());
                push_str(out, r.as_str());
            },
            MultiLineCommentPart::Nested(n) => {
                push_str(out, "Nested");
                push_mlc(out, n);
            },
        }
        proof {
            let t = m.parts@.take(i + 1);
            assert(t.drop_last() =~= m.parts@.take(i as int));
            assert(t.last() == m.parts@[i as int]);
            assert(out@ =~= start + seq!['['] + mlc_parts_repr(t));
        }
        i = i + 1;
    }
    push_char(out, ']');
    proof {
        assert(m.parts@.take(m.parts@.len() as int) =~= m.parts@);
        assert(out@ =~= start + mlc_repr(*m));
    }
}


/// The textual forms of attributes, separated by `|`.
pub open spec fn attr_items(xs: Seq<Attr>) -> Seq<char>
    decreases xs.len(),
{
    if xs.len() == 0 {
        seq![]
    } else if xs.len() == 1 {
        attr_repr(attr_name(xs[0]), attr_value(xs[0]))
    } else {
        attr_items(xs.drop_last()) + seq!['|'] + attr_repr(attr_name(xs.last()), attr_value(xs.last()))
    }
}

/// The textual form of an attribute list, where there is one.
pub open spec fn attrs_repr(a: Option<Attrs>) -> Seq<char> {
    match a {
        Some(a) => seq!['['] + attr_items(a.attrs@) + seq![']'],
        None => seq![],
    }
}

/// The textual form of a piece of content.
pub open spec fn content_repr(c: Content) -> Seq<char>
    decreases c,
{
    match c {
        Content::Shebang { text, .. } => "Shebang("@ + str_repr(text@) + seq![')'],
        Content::Command { qualifier, name, pluses, attrs, inline_args, remainder_arg, trailer_args, .. } => {
            seq!['.'] + match qualifier {
                Some(q) => seq!['('] + str_repr(q@) + ")."@,
                None => seq![],
            } + str_repr(name@) + pluses_repr(pluses as nat) + attrs_repr(attrs) + inline_args_repr(
                inline_args@,
            ) + match remainder_arg {
                Some(r) => seq![':'] + (seq!['['] + contents_items(r@) + seq![']']),
                None => seq![],
            } + trailers_repr(trailer_args@)
        },
        Content::Sugar(s) => sugar_repr(s),
        Content::Word { word, .. } => "Word("@ + str_repr(word@) + seq![')'],
        Content::Whitespace { whitespace, .. } => seq!['<'] + str_repr(whitespace@) + seq!['>'],
        Content::Dash { dash, .. } => dash_text(dash),
        Content::Glue { glue, .. } => glue_text(glue),
        Content::SpiltGlue { raw, .. } => "SpiltGlue("@ + str_repr(raw@) + seq![')'],
        Content::Verbatim { verbatim, .. } => seq!['!'] + str_repr(verbatim@) + seq!['!'],
        Content::Comment { comment, .. } => "//"@ + str_repr(comment@),
        Content::MultiLineComment { content, .. } => "/*"@ + mlc_repr(content) + "*/"@,
    }
}

/// The textual form of syntactic sugar.
pub open spec fn sugar_repr(s: Sugar) -> Seq<char>
    decreases s,
{
    match s {
        Sugar::Italic { delimiter, arg, .. } => "$it("@ + str_repr(delimiter@) + "){"@ + (seq!['['] + contents_items(arg@) + seq![']'])
            + seq!['}'],
        Sugar::Bold { delimiter, arg, .. } => "$bf("@ + str_repr(delimiter@) + "){"@ + (seq!['['] + contents_items(arg@) + seq![']'])
            + seq!['}'],
        Sugar::Monospace { arg, .. } => "$tt{"@ + (seq!['['] + contents_items(arg@) + seq![']']) + seq!['}'],
        Sugar::Smallcaps { arg, .. } => "$sc{"@ + (seq!['['] + contents_items(arg@) + seq![']']) + seq!['}'],
        Sugar::AlternateFace { arg, .. } => "$af{"@ + (seq!['['] + contents_items(arg@) + seq![']']) + seq!['}'],
        Sugar::Heading { level, pluses, arg, .. } => "$h"@ + decimal(level as nat) + pluses_repr(pluses as nat)
            + seq!['{'] + (seq!['['] + contents_items(arg@) + seq![']']) + seq!['}'],
        Sugar::Mark { mark, .. } => "$mark["@ + str_repr(mark@) + seq![']'],
        Sugar::Reference { reference, .. } => "$ref["@ + str_repr(reference@) + seq![']'],
    }
}


/// The textual forms of pieces of content, separated by `|`.
pub open spec fn contents_items(cs: Seq<Content>) -> Seq<char>
    decreases cs,
{
    if cs.len() == 0 {
        seq![]
    } else if cs.len() == 1 {
        content_repr(cs[0])
    } else {
        contents_items(cs.drop_last()) + seq!['|'] + content_repr(cs.last())
    }
}

/// The textual form of inline arguments: each in braces.
pub open spec fn inline_args_repr(args: Seq<Vec<Content>>) -> Seq<char>
    decreases args,
{
    if args.len() == 0 {
        seq![]
    } else {
        inline_args_repr(args.drop_last()) + seq!['{'] + (seq!['['] + contents_items(args.last()@) + seq![']']) + seq!['}']
    }
}

/// The textual form of trailer arguments: each after `::`.
pub open spec fn trailers_repr(ts: Seq<Vec<Par>>) -> Seq<char>
    decreases ts,
{
    if ts.len() == 0 {
        seq![]
    } else {
        trailers_repr(ts.drop_last()) + "::"@ + (seq!['['] + pars_items(ts.last()@) + seq![']'])
    }
}


/// The textual forms of paragraphs, separated by `|`.
pub open spec fn pars_items(ps: Seq<Par>) -> Seq<char>
    decreases ps,
{
    if ps.len() == 0 {
        seq![]
    } else if ps.len() == 1 {
        par_repr(ps[0])
    } else {
        pars_items(ps.drop_last()) + seq!['|'] + par_repr(ps.last())
    }
}

/// The textual form of a paragraph.
pub open spec fn par_repr(p: Par) -> Seq<char>
    decreases p,
{
    "Par"@ + seq!['['] + parts_items(p.parts@) + seq![']']
}

/// The textual forms of the parts of a paragraph, separated by `|`.
pub open spec fn parts_items(ps: Seq<ParPart>) -> Seq<char>
    decreases ps,
{
    if ps.len() == 0 {
        seq![]
    } else if ps.len() == 1 {
        part_repr(ps[0])
    } else {
        parts_items(ps.drop_last()) + seq!['|'] + part_repr(ps.last())
    }
}

/// The textual form of a part of a paragraph.
pub open spec fn part_repr(p: ParPart) -> Seq<char>
    decreases p,
{
    match p {
        ParPart::Command(c) => content_repr(c),
        ParPart::Line(cs) => (seq!['['] + contents_items(cs@) + seq![']']),
    }
}

/// The textual form of a run of content: its pieces separated by `|`, in
/// square brackets.
pub open spec fn contents_repr(cs: Seq<Content>) -> Seq<char> {
    seq!['['] + contents_items(cs) + seq![']']
}

/// The textual form of paragraphs, separated by `|`, in square brackets.
pub open spec fn pars_repr(ps: Seq<Par>) -> Seq<char> {
    seq!['['] + pars_items(ps) + seq![']']
}

/// The textual form of a document.
pub open spec fn file_repr(f: File) -> Seq<char> {
    "File"@ + pars_repr(f.pars@)
}

fn push_attrs(out: &mut String, a: &Attrs)
    ensures
        final(out)@ == old(out)@ + attrs_repr(Some(*a)),
{
    let ghost start = out@;
    push_char(out, '[');
    let mut i: usize = 0;
    proof {
        assert(attr_items(a.attrs@.take(0)) =~= Seq::<char>::empty());
    }
    while i < a.attrs.len()
        invariant
            i <= a.attrs@.len(),
            out@ == start + seq!['['] + attr_items(a.attrs@.take(i as int)),
        decreases a.attrs@.len() - i,
    {
        if i > 0 {
            push_char(out, '|');
        }
        let x = &a.attrs[i];
        push_char(out, '(');
        let name = x.name();
        push_str(out, repr_str(name.as_str()).as_str());
        match x.value() {
            Some(v) => {
                push_str(out, ")=(");
                push_str(out, repr_str(v.as_str()).as_str());
                push_char(out, ')');
            },
            None => {
                push_char(out, ')');
            },
        }
        proof {
            let t = a.attrs@.take(i + 1);
            assert(t.drop_last() =~= a.attrs@.take(i as int));
            assert(t.last() == a.attrs@[i as int]);
            if i == 0 {
                assert(t[0] == a.attrs@[0]);
            }
            assert(out@ =~= start + seq!['['] + attr_items(t));
        }
        i = i + 1;
    }
    push_char(out, ']');
    proof {
        assert(a.attrs@.take(a.attrs@.len() as int) =~= a.attrs@);
        assert(out@ =~= start + attrs_repr(Some(*a)));
    }
}

fn push_contents(out: &mut String, cs: &Vec<Content>)
    ensures
        final(out)@ == old(out)@ + contents_repr(cs@),
    decreases *cs, 1int,
{
    let ghost start = out@;
    push_char(out, '[');
    let mut i: usize = 0;
    proof {
        assert(contents_items(cs@.take(0)) =~= Seq::<char>::empty());
    }
    while i < cs.len()
        invariant
            i <= cs@.len(),
            out@ == start + seq!['['] + contents_items(cs@.take(i as int)),
        decreases cs@.len() - i,
    {
        if i > 0 {
            push_char(out, '|');
        }
        push_content(out, &cs[i]);
        proof {
            let t = cs@.take(i + 1);
            assert(t.drop_last() =~= cs@.take(i as int));
            assert(t.last() == cs@[i as int]);
            if i == 0 {
                assert(t[0] == cs@[0]);
            }
            assert(out@ =~= start + seq!['['] + contents_items(t));
        }
        i = i + 1;
    }
    push_char(out, ']');
    proof {
        assert(cs@.take(cs@.len() as int) =~= cs@);
        assert(out@ =~= start + contents_repr(cs@));
    }
}

fn push_pars(out: &mut String, ps: &Vec<Par>)
    ensures
        final(out)@ == old(out)@ + pars_repr(ps@),
    decreases *ps, 1int,
{
    let ghost start = out@;
    push_char(out, '[');
    let mut i: usize = 0;
    proof {
        assert(pars_items(ps@.take(0)) =~= Seq::<char>::empty());
    }
    while i < ps.len()
        invariant
            i <= ps@.len(),
            out@ == start + seq!['['] + pars_items(ps@.take(i as int)),
        decreases ps@.len() - i,
    {
        if i > 0 {
            push_char(out, '|');
        }
        push_par(out, &ps[i]);
        proof {
            let t = ps@.take(i + 1);
            assert(t.drop_last() =~= ps@.take(i as int));
            assert(t.last() == ps@[i as int]);
            if i == 0 {
                assert(t[0] == ps@[0]);
            }
            assert(out@ =~= start + seq!['['] + pars_items(t));
        }
        i = i + 1;
    }
    push_char(out, ']');
    proof {
        assert(ps@.take(ps@.len() as int) =~= ps@);
        assert(out@ =~= start + pars_repr(ps@));
    }
}

fn push_par(out: &mut String, p: &Par)
    ensures
        final(out)@ == old(out)@ + par_repr(*p),
    decreases *p, 1int,
{
    let ghost start = out@;
    push_str(out, "Par");
    push_char(out, '[');
    let mut i: usize = 0;
    proof {
        assert(parts_items(p.parts@.take(0)) =~= Seq::<char>::empty());
    }
    while i < p.parts.len()
        invariant
            i <= p.parts@.len(),
            out@ == start + "Par"@ + seq!['['] + parts_items(p.parts@.take(i as int)),
        decreases p.parts@.len() - i,
    {
        if i > 0 {
            push_char(out, '|');
        }
        match &p.parts[i] {
            ParPart::Command(c) => {
                push_content(out, c);
                assert(part_repr(p.parts@[i as int]) == content_repr(*c));
            },
            ParPart::Line(cs) => {
                push_contents(out, cs);
                assert(part_repr(p.parts@[i as int]) == contents_repr(cs@));
            },
        }
        proof {
            let t = p.parts@.take(i + 1);
            assert(t.drop_last() =~= p.parts@.take(i as int));
            assert(t.last() == p.parts@[i as int]);
            if i == 0 {
                assert(t[0] == p.parts@[0]);
            }
            assert(out@ =~= start + "Par"@ + seq!['['] + parts_items(t));
        }
        i = i + 1;
    }
    push_char(out, ']');
    proof {
        assert(p.parts@.take(p.parts@.len() as int) =~= p.parts@);
        assert(out@ =~= start + par_repr(*p));
    }
}

fn push_sugar(out: &mut String, s: &Sugar)
    ensures
        final(out)@ == old(out)@ + sugar_repr(*s),
    decreases *s, 1int,
{
    let ghost start = out@;
    match s {
        Sugar::Italic { delimiter, arg, .. } => {
            push_str(out, "$it(");
            push_str(out, repr_str(delimiter.as_str()).as_str());
            push_str(out, "){");
            push_contents(out, arg);
            push_char(out, '}');
        },
        Sugar::Bold { delimiter, arg, .. } => {
            push_str(out, "$bf(");
            push_str(out, repr_str(delimiter.as_str()).as_str());
            push_str(out, "){");
            push_contents(out, arg);
            push_char(out, '}');
        },
        Sugar::Monospace { arg, .. } => {
            push_str(out, "$tt{");
            push_contents(out, arg);
            push_char(out, '}');
        },
        Sugar::Smallcaps { arg, .. } => {
            push_str(out, "$sc{");
            push_contents(out, arg);
            push_char(out, '}');
        },
        Sugar::AlternateFace { arg, .. } => {
            push_str(out, "$af{");
            push_contents(out, arg);
            push_char(out, '}');
        },
        Sugar::Heading { level, pluses, arg, .. } => {
            push_str(out, "$h");
            push_decimal(out, *level);
            push_pluses(out, *pluses);
            push_char(out, '{');
            push_contents(out, arg);
            push_char(out, '}');
        },
        Sugar::Mark { mark, .. } => {
            push_str(out, "$mark[");
            push_str(out, repr_str(mark.as_str()).as_str());
            push_char(out, ']');
        },
        Sugar::Reference { reference, .. } => {
            push_str(out, "$ref[");
            push_str(out, repr_str(reference.as_str()).as_str());
            push_char(out, ']');
        },
    }
    proof {
        assert(out@ =~= start + sugar_repr(*s));
    }
}

fn push_content(out: &mut String, c: &Content)
    ensures
        final(out)@ == old(out)@ + content_repr(*c),
    decreases *c, 1int,
{
    let ghost start = out@;
    match c {
        Content::Shebang { text, .. } => {
            push_str(out, "Shebang(");
            push_str(out, repr_str(text.as_str()).as_str());
            push_char(out, ')');
        },
        Content::Command { .. } => push_command(out, c),
        Content::Sugar(s) => push_sugar(out, s),
        Content::Word { word, .. } => {
            push_str(out, "Word(");
            push_str(out, repr_str(word.as_str()).as_str());
            push_char(out, ')');
        },
        Content::Whitespace { whitespace, .. } => {
            push_char(out, '<');
            push_str(out, repr_str(whitespace.as_str()).as_str());
            push_char(out, '>');
        },
        Content::Dash { dash, .. } => push_str(out, dash.as_str()),
        Content::Glue { glue, .. } => push_str(out, glue.as_str()),
        Content::SpiltGlue { raw, .. } => {
            push_str(out, "SpiltGlue(");
            push_str(out, repr_str(raw.as_str()).as_str());
            push_char(out, ')');
        },
        Content::Verbatim { verbatim, .. } => {
            push_char(out, '!');
            push_str(out, repr_str(verbatim.as_str()).as_str());
            push_char(out, '!');
        },
        Content::Comment { comment, .. } => {
            push_str(out, "//");
            push_str(out, repr_str(comment.as_str()).as_str());
        },
        Content::MultiLineComment { content, .. } => {
            push_str(out, "/*");
            push_mlc(out, content);
            push_str(out, "*/");
        },
    }
    proof {
        assert(out@ =~= start + content_repr(*c));
    }
}


fn push_args(out: &mut String, args: &Vec<Vec<Content>>)
    ensures
        final(out)@ == old(out)@ + inline_args_repr(args@),
    decreases *args, 1int,
{
    let ghost before_args = out@;
    let mut i: usize = 0;
    proof {
        assert(inline_args_repr(args@.take(0)) =~= Seq::<char>::empty());
    }
    while i < args.len()
        invariant
            i <= args@.len(),
            out@ == before_args + inline_args_repr(args@.take(i as int)),
        decreases args@.len() - i,
    {
        push_char(out, '{');
        push_contents(out, &args[i]);
        push_char(out, '}');
        proof {
            let t = args@.take(i + 1);
            assert(t.drop_last() =~= args@.take(i as int));
            assert(t.last() == args@[i as int]);
            assert(out@ =~= before_args + inline_args_repr(t));
        }
        i = i + 1;
    }
    proof {
        assert(args@.take(args@.len() as int) =~= args@);
    }
}

fn push_trailers(out: &mut String, ts: &Vec<Vec<Par>>)
    ensures
        final(out)@ == old(out)@ + trailers_repr(ts@),
    decreases *ts, 1int,
{
    let ghost before = out@;
    let mut j: usize = 0;
    proof {
        assert(trailers_repr(ts@.take(0)) =~= Seq::<char>::empty());
    }
    while j < ts.len()
        invariant
            j <= ts@.len(),
            out@ == before + trailers_repr(ts@.take(j as int)),
        decreases ts@.len() - j,
    {
        push_str(out, "::");
        push_pars(out, &ts[j]);
        proof {
            let t = ts@.take(j + 1);
            assert(t.drop_last() =~= ts@.take(j as int));
            assert(t.last() == ts@[j as int]);
            assert(out@ =~= before + trailers_repr(t));
        }
        j = j + 1;
    }
    proof {
        assert(ts@.take(ts@.len() as int) =~= ts@);
    }
}

#[verifier::spinoff_prover]
#[verifier::rlimit(60)]
fn push_command(out: &mut String, c: &Content)
    requires
        c is Command,
    ensures
        final(out)@ == old(out)@ + content_repr(*c),
    decreases *c, 0int,
{
    let ghost start = out@;
    match c {
        Content::Command { qualifier, name, pluses, attrs, inline_args, remainder_arg, trailer_args, .. } => {
            push_char(out, '.');
            match qualifier {
                Some(q) => {
                    push_char(out, '(');
                    push_str(out, repr_str(q.as_str()).as_str());
                    push_str(out, ").");
                },
                None => {},
            }
            let ghost qp = match qualifier {
                Some(q) => seq!['('] + str_repr(q@) + ")."@,
                None => Seq::<char>::empty(),
            };
            proof {
                assert(out@ =~= start + seq!['.'] + qp);
            }
            let ghost s1 = out@;
            push_str(out, repr_str(name.as_str()).as_str());
            push_pluses(out, *pluses);
            match attrs {
                Some(a) => push_attrs(out, a),
                None => {},
            }
            let ghost s2 = out@;
            proof {
                assert(s2 =~= s1 + str_repr(name@) + pluses_repr(*pluses as nat) + attrs_repr(*attrs));
            }
            push_args(out, inline_args);
            let ghost s3 = out@;
            match remainder_arg {
                Some(r) => {
                    push_char(out, ':');
                    push_contents(out, r);
                },
                None => {},
            }
            let ghost rp = match remainder_arg {
                Some(r) => seq![':'] + contents_repr(r@),
                None => Seq::<char>::empty(),
            };
            proof {
                assert(out@ =~= s3 + rp);
            }
            let ghost s4 = out@;
            push_trailers(out, trailer_args);
            proof {
                let whole = seq!['.'] + qp + str_repr(name@) + pluses_repr(*pluses as nat) + attrs_repr(*attrs)
                    + inline_args_repr(inline_args@) + rp + trailers_repr(trailer_args@);
                assert(content_repr(*c) == whole);
                assert(out@ =~= start + whole);
            }
        },
        _ => {},
    }
}

/// The textual form of a document.
pub fn file_repr_string(f: &File) -> (s: String)
    ensures
        s@ == file_repr(*f),
{
    let mut s = string_of("File");
    push_pars(&mut s, &f.pars);
    s
}

/// Values with a compact textual form.
pub trait AstDebug {
    /// The textual form.
    spec fn repr_spec(&self) -> Seq<char>;

    /// The textual form.
    fn repr(&self) -> (s: String)
        ensures
            s@ == self.repr_spec(),
    ;
}

impl AstDebug for File {
    open spec fn repr_spec(&self) -> Seq<char> {
        file_repr(*self)
    }

    fn repr(&self) -> (s: String) {
        file_repr_string(self)
    }
}

impl AstDebug for &str {
    open spec fn repr_spec(&self) -> Seq<char> {
        str_repr(self@)
    }

    fn repr(&self) -> (s: String) {
        repr_str(*self)
    }
}

impl AstDebug for String {
    open spec fn repr_spec(&self) -> Seq<char> {
        str_repr(self@)
    }

    fn repr(&self) -> (s: String) {
        repr_str(self.as_str())
    }
}

impl<T: AstDebug> AstDebug for Box<T> {
    open spec fn repr_spec(&self) -> Seq<char> {
        (**self).repr_spec()
    }

    fn repr(&self) -> (s: String) {
        (**self).repr()
    }
}

impl<T: AstDebug> AstDebug for Vec<T> {
    open spec fn repr_spec(&self) -> Seq<char> {
        bracketed(self@.map_values(|x: T| x.repr_spec()))
    }

    fn repr(&self) -> (s: String) {
        let mut s = String::new();
        push_char(&mut s, '[');
        let ghost items = self@.map_values(|x: T| x.repr_spec());
        let mut i: usize = 0;
        proof {
            assert(joined(items.take(0)) =~= Seq::<char>::empty());
            assert(s@ =~= seq!['['] + joined(items.take(0)));
        }
        while i < self.len()
            invariant
                i <= self@.len(),
                items == self@.map_values(|x: T| x.repr_spec()),
                s@ == seq!['['] + joined(items.take(i as int)),
            decreases self@.len() - i,
        {
            if i > 0 {
                push_char(&mut s, '|');
            }
            let r = self[i].repr();
            push_str(&mut s, r.as_str());
            proof {
                let t = items.take(i + 1);
                assert(t.drop_last() =~= items.take(i as int));
                assert(t.last() == items[i as int]);
                if i == 0 {
                    assert(t[0] == items[0]);
                }
                assert(s@ =~= seq!['['] + joined(t));
            }
            i = i + 1;
        }
        push_char(&mut s, ']');
        proof {
            assert(items.take(self@.len() as int) =~= items);
        }
        s
    }
}
} // verus!
