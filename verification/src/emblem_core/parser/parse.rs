//! The parser of Emblem documents: from tokens to a syntax tree.
use vstd::prelude::*;
use crate::ast::parsed::{Attr, Attrs, Content, MultiLineComment, MultiLineCommentPart, Sugar};
use crate::ast::{Dash, File, Glue, Par, ParPart};
use crate::emblem_core::parser::grammar::{
    attr_list_toks, attr_ok, attr_piece, attr_tok, attr_tok_ok, attrs_ok, attrs_toks, close_of, cmd_ok,
    content_end, content_toks, contents_toks, emph_arg, end_or, ends_run, file_ok, file_toks, has_remainder,
    has_trailers, heading_ok, heading_toks, inline_args_toks, inline_ok, lemma_args_at, lemma_attrs_at,
    lemma_command_reads, lemma_content_kind, lemma_contents_at, lemma_contents_single, lemma_mlc_at, lemma_run_first,
    lemma_par_first, lemma_part_kind, lemma_parts_at, lemma_pars_at, lemma_reads_first, lemma_reads_split,
    lemma_toks_v_empty, lemma_toks_v_one, lemma_toks_v_split, lemma_toks_v_sub, lemma_trailers_at, mlc_parts_toks,
    mlc_piece, mlc_toks, opens_emph, opens_inline, opens_part, opt_view, par_end, par_ok, par_sep, par_toks,
    pars_end, pars_ok, pars_toks, part_ok, part_toks, parts_toks, reads, reads_as, run_ok, sugar_toks,
    toks_v, trailer_piece, trailers_toks,
};
use crate::emblem_core::parser::lexer::SpannedTok;
use crate::emblem_core::parser::located::{
    args_located, attr_list_located, attr_located, attrs_located, content_located, contents_located, file_located,
    lemma_args_located_push, lemma_attr_list_located_push, lemma_contents_located_push, lemma_pars_located_push,
    lemma_parts_located_push, lemma_trailers_located_push, par_located, pars_located, part_located, parts_located,
    trailers_located,
};
use crate::emblem_core::parser::location::Location;
use crate::emblem_core::parser::token::{find_char, tv, Tok, TokV};
use crate::text::str_chars;

verus! {

/// Tokens that start a piece of content.
pub open spec fn starts_inline(t: Tok) -> bool {
    opens_inline(tv(t))
}

/// Tokens that start a part of a paragraph.
pub open spec fn starts_part(t: Tok) -> bool {
    opens_part(tv(t))
}

fn is_inline_start(t: &Tok) -> (r: bool)
    ensures
        r == starts_inline(*t),
{
    match t {
        Tok::Word(_) | Tok::Whitespace(_) | Tok::Dash(_) | Tok::Glue(_) | Tok::SpiltGlue(_)
        | Tok::Verbatim(_) | Tok::Comment(_) | Tok::NestedCommentOpen | Tok::Mark(_)
        | Tok::Reference(_) | Tok::Shebang(_) | Tok::ItalicOpen(_) | Tok::BoldOpen(_)
        | Tok::MonospaceOpen | Tok::SmallcapsOpen | Tok::AlternateFaceOpen | Tok::Command { .. } => true,
        _ => false,
    }
}

fn is_part_start(t: &Tok) -> (r: bool)
    ensures
        r == starts_part(*t),
{
    is_inline_start(t) || match t {
        Tok::Heading { .. } | Tok::Newline { .. } => true,
        _ => false,
    }
}

/// The kinds of token that carry no text.
#[derive(Copy, Clone, Debug, PartialEq, Eq, Structural)]
pub enum Bare {
    Indent,
    Dedent,
    Colon,
    DoubleColon,
    LBrace,
    RBrace,
    LBracket,
    RBracket,
    AttrComma,
    ParBreak,
    Newline,
    NestedCommentClose,
    ItalicClose,
    BoldClose,
    MonospaceClose,
    SmallcapsClose,
    AlternateFaceClose,
}

/// The token value of a kind without text.
pub open spec fn bare_v(k: Bare) -> TokV {
    match k {
        Bare::Indent => TokV::Indent,
        Bare::Dedent => TokV::Dedent,
        Bare::Colon => TokV::Colon,
        Bare::DoubleColon => TokV::DoubleColon,
        Bare::LBrace => TokV::LBrace,
        Bare::RBrace => TokV::RBrace,
        Bare::LBracket => TokV::LBracket,
        Bare::RBracket => TokV::RBracket,
        Bare::AttrComma => TokV::AttrComma,
        Bare::ParBreak => TokV::ParBreak,
        Bare::Newline => TokV::Newline,
        Bare::NestedCommentClose => TokV::NestedCommentClose,
        Bare::ItalicClose => TokV::ItalicClose,
        Bare::BoldClose => TokV::BoldClose,
        Bare::MonospaceClose => TokV::MonospaceClose,
        Bare::SmallcapsClose => TokV::SmallcapsClose,
        Bare::AlternateFaceClose => TokV::AlternateFaceClose,
    }
}

/// Whether token `p` of `toks` is of the kind `k`.
fn at_kind(toks: &Vec<SpannedTok>, p: usize, k: Bare) -> (r: bool)
    ensures
        r == (p < toks@.len() && tv(toks@[p as int].1) == bare_v(k)),
{
    if p >= toks.len() {
        return false;
    }
    let t = &toks[p].1;
    let r = match t {
        Tok::Indent => k == Bare::Indent,
        Tok::Dedent => k == Bare::Dedent,
        Tok::Colon => k == Bare::Colon,
        Tok::DoubleColon => k == Bare::DoubleColon,
        Tok::LBrace => k == Bare::LBrace,
        Tok::RBrace => k == Bare::RBrace,
        Tok::LBracket => k == Bare::LBracket,
        Tok::RBracket => k == Bare::RBracket,
        Tok::AttrComma => k == Bare::AttrComma,
        Tok::ParBreak => k == Bare::ParBreak,
        Tok::Newline { .. } => k == Bare::Newline,
        Tok::NestedCommentClose => k == Bare::NestedCommentClose,
        Tok::ItalicClose => k == Bare::ItalicClose,
        Tok::BoldClose => k == Bare::BoldClose,
        Tok::MonospaceClose => k == Bare::MonospaceClose,
        Tok::SmallcapsClose => k == Bare::SmallcapsClose,
        Tok::AlternateFaceClose => k == Bare::AlternateFaceClose,
        _ => false,
    };
    r
}

/// The span from the start of token `a` to the end of token `b - 1`.
fn span_of(toks: &Vec<SpannedTok>, a: usize, b: usize) -> (l: Location)
    requires
        a < b <= toks@.len(),
    ensures
        l == Location::between(toks@[a as int].0, toks@[b - 1].2),
{
    Location::new(&toks[a].0, &toks[b - 1].2)
}

proof fn lemma_contents_push(cs: Seq<Content>, c: Content)
    ensures
        contents_toks(cs.push(c)) == contents_toks(cs) + content_toks(c),
{
    assert(cs.push(c).drop_last() =~= cs);
}

proof fn lemma_parts_push(ps: Seq<ParPart>, p: ParPart)
    ensures
        parts_toks(ps.push(p)) == parts_toks(ps) + part_toks(p),
{
    assert(ps.push(p).drop_last() =~= ps);
}

/// Multi-line comments: `/*` then text, newlines and nested comments, then
/// `*/`. Where the tokens read as a comment `hint`, it succeeds, and ends
/// where they do.
fn parse_mlc(toks: &Vec<SpannedTok>, p: usize, Ghost(hint): Ghost<Option<MultiLineComment>>) -> (r: Result<
    (MultiLineComment, usize),
    usize,
>)
    requires
        p < toks@.len(),
        toks@[p as int].1 is NestedCommentOpen,
        hint matches Some(m) ==> reads(toks@, p as int, mlc_toks(m)),
    ensures
        match r {
            Ok((m, q)) => p < q <= toks@.len() && toks_v(toks@, p as int, q as int) == mlc_toks(m),
            Err(at) => at <= toks@.len(),
        },
        hint matches Some(m) ==> (r matches Ok((_, q)) && q == p + mlc_toks(m).len()),
    decreases toks@.len() - p,
{
    let n = toks.len();
    let mut parts: Vec<MultiLineCommentPart> = Vec::new();
    let mut q = p + 1;
    let ghost mut k: int = 0;
    proof {
        lemma_toks_v_one(toks@, p as int);
        assert(mlc_parts_toks(parts@) =~= Seq::<TokV>::empty());
        assert(toks_v(toks@, p as int, q as int) =~= seq![TokV::NestedCommentOpen] + mlc_parts_toks(parts@));
        if let Some(m) = hint {
            lemma_reads_split(
                toks@,
                p as int,
                seq![TokV::NestedCommentOpen] + mlc_parts_toks(m.parts@),
                seq![TokV::NestedCommentClose],
            );
            lemma_reads_split(toks@, p as int, seq![TokV::NestedCommentOpen], mlc_parts_toks(m.parts@));
            assert(m.parts@.take(0) =~= Seq::<MultiLineCommentPart>::empty());
            assert(mlc_parts_toks(m.parts@.take(0)) =~= Seq::<TokV>::empty());
        }
    }
    loop
        invariant
            p < q <= toks@.len(),
            toks_v(toks@, p as int, q as int) == seq![TokV::NestedCommentOpen] + mlc_parts_toks(parts@),
            hint matches Some(m) ==> {
                &&& 0 <= k <= m.parts@.len()
                &&& q == p + 1 + mlc_parts_toks(m.parts@.take(k)).len()
                &&& reads(toks@, p + 1, mlc_parts_toks(m.parts@))
                &&& reads(toks@, p + 1 + mlc_parts_toks(m.parts@).len(), seq![TokV::NestedCommentClose])
            },
        decreases toks@.len() - q,
    {
        proof {
            if let Some(m) = hint {
                if k < m.parts@.len() {
                    lemma_mlc_at(toks@, p + 1, m.parts@, k);
                    let piece = mlc_piece(m.parts@[k]);
                    if let MultiLineCommentPart::Nested(m2) = m.parts@[k] {
                        assert(mlc_toks(m2)[0] == TokV::NestedCommentOpen);
                    }
                    lemma_reads_first(toks@, q as int, piece);
                } else {
                    assert(m.parts@.take(k) =~= m.parts@);
                    lemma_reads_first(toks@, q as int, seq![TokV::NestedCommentClose]);
                }
            }
        }
        if q >= toks.len() {
            return Err(q);
        }
        let ghost before = parts@;
        let ghost sub: Option<MultiLineComment> = match hint {
            Some(m) => if k < m.parts@.len() {
                match m.parts@[k] {
                    MultiLineCommentPart::Nested(m2) => Some(m2),
                    _ => None,
                }
            } else {
                None
            },
            None => None,
        };
        match &toks[q].1 {
            Tok::NestedCommentClose => {
                proof {
                    lemma_toks_v_one(toks@, q as int);
                    lemma_toks_v_split(toks@, p as int, q as int, q + 1);
                }
                let m = MultiLineComment { parts };
                return Ok((m, q + 1));
            },
            Tok::Comment(s) => {
                parts.push(MultiLineCommentPart::Comment(s.clone()));
                proof {
                    lemma_toks_v_one(toks@, q as int);
                    lemma_toks_v_split(toks@, p as int, q as int, q + 1);
                    assert(parts@.drop_last() =~= before);
                    k = k + 1;
                }
                q = q + 1;
            },
            Tok::Newline { .. } => {
                parts.push(MultiLineCommentPart::Newline);
                proof {
                    lemma_toks_v_one(toks@, q as int);
                    lemma_toks_v_split(toks@, p as int, q as int, q + 1);
                    assert(parts@.drop_last() =~= before);
                    k = k + 1;
                }
                q = q + 1;
            },
            Tok::NestedCommentOpen => {
                let (m, q2) = parse_mlc(toks, q, Ghost(sub))?;
                parts.push(MultiLineCommentPart::Nested(m));
                proof {
                    lemma_toks_v_split(toks@, p as int, q as int, q2 as int);
                    assert(parts@.drop_last() =~= before);
                    k = k + 1;
                }
                q = q2;
            },
            _ => {
                return Err(q);
            },
        }
    }
}

/// Attribute lists: `[`, then attributes separated by commas, then `]`.
/// Where the tokens read as a list `hint` whose attributes the parser
/// reads, it succeeds, and ends where they do.
fn parse_attrs(toks: &Vec<SpannedTok>, p: usize, Ghost(hint): Ghost<Option<Attrs>>) -> (r: Result<(Attrs, usize), usize>)
    requires
        p < toks@.len(),
        toks@[p as int].1 is LBracket,
        hint matches Some(a) ==> attrs_ok(Some(a)) && reads(toks@, p as int, attrs_toks(Some(a))),
    ensures
        match r {
            Ok((a, q)) => p < q <= toks@.len() && toks_v(toks@, p as int, q as int) == attrs_toks(Some(a)),
            Err(at) => at <= toks@.len(),
        },
        hint matches Some(a) ==> (r matches Ok((_, q)) && q == p + attrs_toks(Some(a)).len()),
        r matches Ok((a, _)) ==> attrs_ok(Some(a)),
        r matches Ok((a, _)) ==> attrs_located(Some(a), toks@, p as int),
{
    let n = toks.len();
    let mut attrs: Vec<Attr> = Vec::new();
    let mut q = p + 1;
    proof {
        lemma_toks_v_one(toks@, p as int);
        assert(attr_list_toks(attrs@) =~= Seq::<TokV>::empty());
        assert(toks_v(toks@, p as int, q as int) =~= seq![TokV::LBracket] + attr_list_toks(attrs@));
        if let Some(a) = hint {
            lemma_reads_split(
                toks@,
                p as int,
                seq![TokV::LBracket] + attr_list_toks(a.attrs@),
                seq![TokV::RBracket],
            );
            lemma_reads_split(toks@, p as int, seq![TokV::LBracket], attr_list_toks(a.attrs@));
            assert(a.attrs@.take(0) =~= Seq::<Attr>::empty());
            assert(attr_list_toks(a.attrs@.take(0)) =~= Seq::<TokV>::empty());
        }
    }
    loop
        invariant
            p < q <= toks@.len(),
            n == toks@.len(),
            toks_v(toks@, p as int, q as int) == seq![TokV::LBracket] + attr_list_toks(attrs@),
            forall|i: int| 0 <= i < attrs@.len() ==> attr_ok(#[trigger] attrs@[i]),
            attr_list_located(attrs@, toks@, p + 1),
            hint matches Some(a) ==> {
                &&& attrs_ok(Some(a))
                &&& attrs@.len() <= a.attrs@.len()
                &&& q == p + 1 + attr_list_toks(a.attrs@.take(attrs@.len() as int)).len()
                &&& reads(toks@, p + 1, attr_list_toks(a.attrs@))
                &&& reads(toks@, p + 1 + attr_list_toks(a.attrs@).len(), seq![TokV::RBracket])
            },
        decreases toks@.len() - q,
    {
        proof {
            if let Some(a) = hint {
                let xs = a.attrs@;
                let k = attrs@.len() as int;
                if k < xs.len() {
                    lemma_attrs_at(toks@, p + 1, xs, k);
                    lemma_reads_first(toks@, q as int, attr_piece(k, xs[k]));
                    if k > 0 {
                        lemma_toks_v_sub(toks@, q as int, attr_piece(k, xs[k]), 1, 2);
                    }
                    assert(attr_ok(xs[k]));
                } else {
                    assert(xs.take(k) =~= xs);
                    lemma_reads_first(toks@, q as int, seq![TokV::RBracket]);
                }
            }
        }
        if q >= toks.len() {
            return Err(q);
        }
        let ghost before = attrs@;
        if attrs.len() > 0 {
            // After an attribute: a comma and another, or the end.
            match &toks[q].1 {
                Tok::RBracket => {
                    proof {
                        lemma_toks_v_one(toks@, q as int);
                        lemma_toks_v_split(toks@, p as int, q as int, q + 1);
                    }
                    let loc = span_of(toks, p, q + 1);
                    return Ok((Attrs::located(attrs, loc), q + 1));
                },
                Tok::AttrComma => {
                    if q + 1 >= toks.len() {
                        return Err(q + 1);
                    }
                    let a = match parse_attr(toks, q + 1) {
                        Some(a) => a,
                        None => { return Err(q + 1); },
                    };
                    proof {
                        lemma_attr_list_located_push(attrs@, a, toks@, p + 1);
                    }
                    attrs.push(a);
                    proof {
                        lemma_toks_v_one(toks@, q as int);
                        lemma_toks_v_one(toks@, q + 1);
                        lemma_toks_v_split(toks@, p as int, q as int, q + 1);
                        lemma_toks_v_split(toks@, p as int, q + 1, q + 2);
                        assert(attrs@.drop_last() =~= before);
                        assert(attr_list_toks(attrs@) == attr_list_toks(before) + seq![TokV::AttrComma, attr_tok(attrs@.last())]);
                    }
                    q = q + 2;
                },
                _ => { return Err(q); },
            }
        } else {
            match &toks[q].1 {
                Tok::RBracket => {
                    proof {
                        lemma_toks_v_one(toks@, q as int);
                        lemma_toks_v_split(toks@, p as int, q as int, q + 1);
                    }
                    let loc = span_of(toks, p, q + 1);
                    return Ok((Attrs::located(attrs, loc), q + 1));
                },
                _ => {
                    let a = match parse_attr(toks, q) {
                        Some(a) => a,
                        None => { return Err(q); },
                    };
                    proof {
                        assert(attr_list_toks(attrs@) =~= Seq::<TokV>::empty());
                        lemma_attr_list_located_push(attrs@, a, toks@, p + 1);
                    }
                    attrs.push(a);
                    proof {
                        lemma_toks_v_one(toks@, q as int);
                        lemma_toks_v_split(toks@, p as int, q as int, q + 1);
                        assert(attrs@ =~= seq![a]);
                    }
                    q = q + 1;
                },
            }
        }
    }
}

/// The attribute that token `q` holds, if it holds one, written where the
/// token is: there is one just where the token is an attribute that the
/// parser reads.
fn parse_attr(toks: &Vec<SpannedTok>, q: usize) -> (r: Option<Attr>)
    requires
        q < toks@.len(),
    ensures
        r matches Some(a) ==> tv(toks@[q as int].1) == attr_tok(a) && attr_ok(a),
        attr_tok_ok(tv(toks@[q as int].1)) ==> r is Some,
        r matches Some(a) ==> attr_located(a, toks@, q as int),
{
    let n = toks.len();
    let loc = span_of(toks, q, q + 1);
    match &toks[q].1 {
        Tok::NamedAttr(s) => {
            let cs = str_chars(s.as_str());
            match find_char(cs.as_slice(), '=') {
                Some(_) => Some(Attr::named(s.as_str()).located(loc)),
                None => None,
            }
        },
        Tok::UnnamedAttr(s) => Some(Attr::unnamed(s.as_str()).located(loc)),
        _ => None,
    }
}


proof fn lemma_args_push(args: Seq<Vec<Content>>, a: Vec<Content>)
    ensures
        inline_args_toks(args.push(a)) == inline_args_toks(args) + seq![TokV::LBrace] + contents_toks(a@)
            + seq![TokV::RBrace],
{
    assert(args.push(a).drop_last() =~= args);
}

proof fn lemma_trailers_push(ts: Seq<Vec<Par>>, t: Vec<Par>)
    ensures
        trailers_toks(ts.push(t)) == trailers_toks(ts) + seq![
            if ts.len() == 0 { TokV::Colon } else { TokV::DoubleColon },
            TokV::Newline,
            TokV::Indent,
        ] + pars_toks(t@) + seq![TokV::Dedent],
{
    assert(ts.push(t).drop_last() =~= ts);
}

proof fn lemma_pars_push(ps: Seq<Par>, p: Par)
    ensures
        ps.len() == 0 ==> pars_toks(ps.push(p)) == par_toks(p),
        ps.len() > 0 ==> pars_toks(ps.push(p)) == pars_toks(ps) + seq![TokV::ParBreak] + par_toks(p),
{
    assert(ps.push(p).drop_last() =~= ps);
    if ps.len() == 0 {
        assert(ps.push(p)[0] == p);
    }
}

proof fn lemma_contents_one(c: Content)
    ensures
        contents_toks(seq![c]) == content_toks(c),
{
    assert(seq![c].drop_last() =~= Seq::<Content>::empty());
    assert(contents_toks(Seq::<Content>::empty()) =~= Seq::<TokV>::empty());
    assert(Seq::<TokV>::empty() + content_toks(c) =~= content_toks(c));
}

/// The arguments below a command: a newline, an indent, paragraphs, and a
/// dedent. Where the tokens read so, with paragraphs `hint` that the
/// parser reads, it succeeds, and ends where they do.
fn parse_trailer_arg(toks: &Vec<SpannedTok>, q: usize, Ghost(hint): Ghost<Option<Seq<Par>>>) -> (r: Result<
    (Vec<Par>, usize),
    usize,
>)
    requires
        q < toks@.len(),
        toks@[q as int].1 is Newline,
        hint matches Some(ps) ==> pars_ok(ps) && reads(
            toks@,
            q as int,
            seq![TokV::Newline, TokV::Indent] + pars_toks(ps) + seq![TokV::Dedent],
        ),
    ensures
        match r {
            Ok((ps, e)) => q < e <= toks@.len() && toks_v(toks@, q as int, e as int) == seq![
                TokV::Newline,
                TokV::Indent,
            ] + pars_toks(ps@) + seq![TokV::Dedent],
            Err(at) => at <= toks@.len(),
        },
        hint matches Some(ps) ==> (r matches Ok((_, e)) && e == q + 3 + pars_toks(ps).len()),
        r matches Ok((ps, _)) ==> pars_ok(ps@),
        r matches Ok((ps, _)) ==> pars_located(ps@, toks@, q + 2),
    decreases toks@.len() - q, 0int,
{
    let n = toks.len();
    proof {
        if let Some(ps) = hint {
            lemma_reads_split(toks@, q as int, seq![TokV::Newline, TokV::Indent] + pars_toks(ps), seq![TokV::Dedent]);
            lemma_reads_split(toks@, q as int, seq![TokV::Newline, TokV::Indent], pars_toks(ps));
            lemma_toks_v_sub(toks@, q as int, seq![TokV::Newline, TokV::Indent], 1, 2);
            lemma_reads_first(toks@, q + 2 + pars_toks(ps).len(), seq![TokV::Dedent]);
        }
    }
    if !at_kind(toks, q + 1, Bare::Indent) {
        return Err(q + 1);
    }
    let (ps, e) = parse_pars(toks, q + 2, Ghost(hint))?;
    if !at_kind(toks, e, Bare::Dedent) {
        return Err(e);
    }
    proof {
        lemma_toks_v_one(toks@, q as int);
        lemma_toks_v_one(toks@, q + 1);
        lemma_toks_v_one(toks@, e as int);
        lemma_toks_v_split(toks@, q as int, q + 1, q + 2);
        lemma_toks_v_split(toks@, q as int, q + 2, e as int);
        lemma_toks_v_split(toks@, q as int, e as int, e + 1);
        assert(toks_v(toks@, q as int, e + 1) =~= seq![TokV::Newline, TokV::Indent] + pars_toks(ps@) + seq![
            TokV::Dedent,
        ]);
    }
    Ok((ps, e + 1))
}

/// Inline arguments: each a run of content in braces. Where the tokens
/// read as arguments `hint` whose content the parser reads, and no brace
/// follows, it succeeds, and ends where they do.
fn parse_args(toks: &Vec<SpannedTok>, p: usize, Ghost(hint): Ghost<Option<Seq<Vec<Content>>>>) -> (r: Result<
    (Vec<Vec<Content>>, usize),
    usize,
>)
    requires
        p <= toks@.len(),
        hint matches Some(args) ==> {
            &&& forall|i: int| 0 <= i < args.len() ==> run_ok(#[trigger] args[i]@)
            &&& reads(toks@, p as int, inline_args_toks(args))
            &&& end_or(toks@, p + inline_args_toks(args).len(), |v: TokV| !(v is LBrace))
        },
    ensures
        match r {
            Ok((args, q)) => p <= q <= toks@.len() && toks_v(toks@, p as int, q as int) == inline_args_toks(args@),
            Err(at) => at <= toks@.len(),
        },
        hint matches Some(args) ==> (r matches Ok((_, q)) && q == p + inline_args_toks(args).len()),
        r matches Ok((args, _)) ==> forall|i: int| 0 <= i < args@.len() ==> run_ok(#[trigger] args@[i]@),
        r matches Ok((args, _)) ==> args_located(args@, toks@, p as int),
    decreases toks@.len() - p, 0int,
{
    let n = toks.len();
    let mut args: Vec<Vec<Content>> = Vec::new();
    let mut q = p;
    proof {
        lemma_toks_v_empty(toks@, p as int);
        assert(inline_args_toks(args@) =~= Seq::<TokV>::empty());
        if let Some(h) = hint {
            assert(h.take(0) =~= Seq::<Vec<Content>>::empty());
            assert(inline_args_toks(h.take(0)) =~= Seq::<TokV>::empty());
            assert(h.take(h.len() as int) =~= h);
        }
    }
    while at_kind(toks, q, Bare::LBrace)
        invariant
            p <= q <= toks@.len(),
            n == toks@.len(),
            toks_v(toks@, p as int, q as int) == inline_args_toks(args@),
            forall|i: int| 0 <= i < args@.len() ==> run_ok(#[trigger] args@[i]@),
            args_located(args@, toks@, p as int),
            hint matches Some(h) ==> {
                &&& forall|i: int| 0 <= i < h.len() ==> run_ok(#[trigger] h[i]@)
                &&& reads(toks@, p as int, inline_args_toks(h))
                &&& end_or(toks@, p + inline_args_toks(h).len(), |v: TokV| !(v is LBrace))
                &&& args@.len() <= h.len()
                &&& q == p + inline_args_toks(h.take(args@.len() as int)).len()
                &&& h.take(h.len() as int) == h
            },
        decreases toks@.len() - q,
    {
        let ghost k = args@.len() as int;
        proof {
            if let Some(h) = hint {
                if k < h.len() {
                    lemma_args_at(toks@, p as int, h, k);
                    let piece = seq![TokV::LBrace] + contents_toks(h[k]@) + seq![TokV::RBrace];
                    lemma_reads_split(toks@, q as int, seq![TokV::LBrace] + contents_toks(h[k]@), seq![TokV::RBrace]);
                    lemma_reads_split(toks@, q as int, seq![TokV::LBrace], contents_toks(h[k]@));
                    lemma_reads_first(toks@, q + 1 + contents_toks(h[k]@).len(), seq![TokV::RBrace]);
                }
            }
        }
        let ghost sub: Option<Seq<Content>> = match hint {
            Some(h) => if k < h.len() { Some(h[k]@) } else { None },
            None => None,
        };
        let (arg, q2) = parse_inlines(toks, q + 1, Ghost(sub))?;
        if !at_kind(toks, q2, Bare::RBrace) {
            return Err(q2);
        }
        proof {
            lemma_toks_v_one(toks@, q as int);
            lemma_toks_v_one(toks@, q2 as int);
            lemma_toks_v_split(toks@, p as int, q as int, q + 1);
            lemma_toks_v_split(toks@, p as int, q + 1, q2 as int);
            lemma_toks_v_split(toks@, p as int, q2 as int, q2 + 1);
            lemma_args_push(args@, arg);
            lemma_args_located_push(args@, arg, toks@, p as int);
        }
        args.push(arg);
        q = q2 + 1;
    }
    proof {
        if let Some(h) = hint {
            let k = args@.len() as int;
            if k < h.len() {
                lemma_args_at(toks@, p as int, h, k);
                lemma_reads_first(toks@, q as int, seq![TokV::LBrace] + contents_toks(h[k]@) + seq![TokV::RBrace]);
            }
        }
    }
    Ok((args, q))
}

/// Trailer arguments: the first after a colon, the others after a double
/// colon, each on the indented lines below. Where the tokens read as
/// arguments `hint` that the parser reads, and no double colon follows, it
/// succeeds, and ends where they do.
fn parse_trailers(toks: &Vec<SpannedTok>, p: usize, Ghost(hint): Ghost<Option<Seq<Vec<Par>>>>) -> (r: Result<
    (Vec<Vec<Par>>, usize),
    usize,
>)
    requires
        p + 1 < toks@.len(),
        toks@[p as int].1 is Colon,
        toks@[p + 1].1 is Newline,
        hint matches Some(ts) ==> {
            &&& ts.len() > 0
            &&& forall|i: int| 0 <= i < ts.len() ==> pars_ok(#[trigger] ts[i]@)
            &&& reads(toks@, p as int, trailers_toks(ts))
            &&& end_or(toks@, p + trailers_toks(ts).len(), |v: TokV| !(v is DoubleColon))
        },
    ensures
        match r {
            Ok((ts, q)) => p < q <= toks@.len() && toks_v(toks@, p as int, q as int) == trailers_toks(ts@),
            Err(at) => at <= toks@.len(),
        },
        hint matches Some(ts) ==> (r matches Ok((_, q)) && q == p + trailers_toks(ts).len()),
        r matches Ok((ts, _)) ==> ts@.len() > 0 && forall|i: int| 0 <= i < ts@.len() ==> pars_ok(#[trigger] ts@[i]@),
        r matches Ok((ts, _)) ==> trailers_located(ts@, toks@, p as int),
    decreases toks@.len() - p, 0int,
{
    let n = toks.len();
    let mut ts: Vec<Vec<Par>> = Vec::new();
    proof {
        if let Some(h) = hint {
            lemma_trailers_at(toks@, p as int, h, 0);
            assert(h.take(0) =~= Seq::<Vec<Par>>::empty());
            assert(trailers_toks(h.take(0)) =~= Seq::<TokV>::empty());
            let rest = seq![TokV::Newline, TokV::Indent] + pars_toks(h[0]@) + seq![TokV::Dedent];
            assert(trailer_piece(0, h[0]@) =~= seq![TokV::Colon] + rest);
            lemma_reads_split(toks@, p as int, seq![TokV::Colon], rest);
            assert(h.take(h.len() as int) =~= h);
        }
    }
    let ghost sub0: Option<Seq<Par>> = match hint {
        Some(h) => Some(h[0]@),
        None => None,
    };
    let (ps, q0) = parse_trailer_arg(toks, p + 1, Ghost(sub0))?;
    proof {
        lemma_toks_v_one(toks@, p as int);
        lemma_toks_v_split(toks@, p as int, p + 1, q0 as int);
        lemma_trailers_push(ts@, ps);
        assert(trailers_toks(Seq::<Vec<Par>>::empty()) =~= Seq::<TokV>::empty());
        lemma_trailers_located_push(ts@, ps, toks@, p as int);
    }
    ts.push(ps);
    proof {
        assert(toks_v(toks@, p as int, q0 as int) =~= trailers_toks(ts@));
    }
    let mut q = q0;
    while at_kind(toks, q, Bare::DoubleColon) && at_kind(toks, q + 1, Bare::Newline)
        invariant
            p < q <= toks@.len(),
            n == toks@.len(),
            ts@.len() > 0,
            toks_v(toks@, p as int, q as int) == trailers_toks(ts@),
            forall|i: int| 0 <= i < ts@.len() ==> pars_ok(#[trigger] ts@[i]@),
            trailers_located(ts@, toks@, p as int),
            hint matches Some(h) ==> {
                &&& forall|i: int| 0 <= i < h.len() ==> pars_ok(#[trigger] h[i]@)
                &&& reads(toks@, p as int, trailers_toks(h))
                &&& end_or(toks@, p + trailers_toks(h).len(), |v: TokV| !(v is DoubleColon))
                &&& ts@.len() <= h.len()
                &&& q == p + trailers_toks(h.take(ts@.len() as int)).len()
                &&& h.take(h.len() as int) == h
            },
        decreases toks@.len() - q,
    {
        let ghost k = ts@.len() as int;
        proof {
            if let Some(h) = hint {
                if k < h.len() {
                    lemma_trailers_at(toks@, p as int, h, k);
                    let rest = seq![TokV::Newline, TokV::Indent] + pars_toks(h[k]@) + seq![TokV::Dedent];
                    assert(trailer_piece(k, h[k]@) =~= seq![TokV::DoubleColon] + rest);
                    lemma_reads_split(toks@, q as int, seq![TokV::DoubleColon], rest);
                }
            }
        }
        let ghost sub: Option<Seq<Par>> = match hint {
            Some(h) => if k < h.len() { Some(h[k]@) } else { None },
            None => None,
        };
        let (ps, q2) = parse_trailer_arg(toks, q + 1, Ghost(sub))?;
        proof {
            lemma_toks_v_one(toks@, q as int);
            lemma_toks_v_split(toks@, p as int, q as int, q + 1);
            lemma_toks_v_split(toks@, p as int, q + 1, q2 as int);
            lemma_trailers_push(ts@, ps);
            lemma_trailers_located_push(ts@, ps, toks@, p as int);
        }
        ts.push(ps);
        proof {
            assert(toks_v(toks@, p as int, q2 as int) =~= trailers_toks(ts@));
        }
        q = q2;
    }
    proof {
        if let Some(h) = hint {
            let k = ts@.len() as int;
            if k < h.len() {
                lemma_trailers_at(toks@, p as int, h, k);
                lemma_toks_v_sub(toks@, q as int, trailer_piece(k, h[k]@), 0, 2);
                lemma_toks_v_sub(toks@, q as int, trailer_piece(k, h[k]@), 1, 2);
            }
        }
    }
    Ok((ts, q))
}

/// A command: its name, attributes and inline arguments, then a remainder
/// argument after a colon, or, at the start of a line where a newline
/// follows the colon, trailer arguments below it. Where the tokens read as
/// a command `hint` that the parser reads there, followed by what may
/// follow it, it succeeds, ends where they do, and has trailer arguments
/// just where `hint` has.
#[verifier::spinoff_prover]
#[verifier::rlimit(50)]
fn parse_command(toks: &Vec<SpannedTok>, p: usize, at_line_start: bool, Ghost(hint): Ghost<Option<Content>>) -> (r:
    Result<(Content, usize), usize>)
    requires
        p < toks@.len(),
        toks@[p as int].1 is Command,
        hint matches Some(c) ==> {
            &&& cmd_ok(c, at_line_start)
            &&& reads(toks@, p as int, content_toks(c))
            &&& content_end(c, toks@, p + content_toks(c).len())
        },
    ensures
        match r {
            Ok((c, q)) => p < q <= toks@.len() && toks_v(toks@, p as int, q as int) == content_toks(c)
                && c is Command,
            Err(at) => at <= toks@.len(),
        },
        hint matches Some(c) ==> (r matches Ok((out, q)) && q == p + content_toks(c).len() && has_trailers(out)
            == has_trailers(c)),
        r matches Ok((c, q)) ==> cmd_ok(c, at_line_start) && (has_remainder(c) ==> (q == toks@.len()
            || !starts_inline(toks@[q as int].1))),
        r matches Ok((c, _)) ==> content_located(c, toks@, p as int),
    decreases toks@.len() - p, 1int,
{
    let n = toks.len();
    let (qualifier, name, pluses) = match &toks[p].1 {
        Tok::Command { qualifier, name, pluses } => (
            match qualifier {
                Some(q) => Some(q.clone()),
                None => None,
            },
            name.clone(),
            *pluses,
        ),
        _ => { return Err(p); },
    };
    let ghost head = seq![TokV::Command { qualifier: opt_view(qualifier), name: name@, pluses: pluses as nat }];
    proof {
        lemma_toks_v_one(toks@, p as int);
        if let Some(c) = hint {
            lemma_command_reads(toks@, p as int, c, at_line_start);
        }
    }
    let ghost h_attrs: Option<Attrs> = match hint {
        Some(Content::Command { attrs, .. }) => attrs,
        _ => None,
    };
    let ghost h_args: Option<Seq<Vec<Content>>> = match hint {
        Some(Content::Command { inline_args, .. }) => Some(inline_args@),
        _ => None,
    };
    let ghost h_rem: Option<Seq<Content>> = match hint {
        Some(Content::Command { remainder_arg: Some(r), .. }) => Some(r@),
        _ => None,
    };
    let ghost h_trailers: Option<Seq<Vec<Par>>> = match hint {
        Some(Content::Command { trailer_args, .. }) => if trailer_args@.len() > 0 {
            Some(trailer_args@)
        } else {
            None
        },
        _ => None,
    };
    let mut q = p + 1;
    let attrs = if at_kind(toks, q, Bare::LBracket) {
        let (a, q2) = parse_attrs(toks, q, Ghost(h_attrs))?;
        proof {
            lemma_toks_v_split(toks@, p as int, q as int, q2 as int);
        }
        q = q2;
        Some(a)
    } else {
        None
    };
    proof {
        assert(toks_v(toks@, p as int, q as int) =~= head + attrs_toks(attrs));
    }
    let (inline_args, q1) = parse_args(toks, q, Ghost(h_args))?;
    proof {
        lemma_toks_v_split(toks@, p as int, q as int, q1 as int);
    }
    let ghost with_args = head + attrs_toks(attrs) + inline_args_toks(inline_args@);
    q = q1;
    let mut remainder_arg: Option<Vec<Content>> = None;
    let mut trailer_args: Vec<Vec<Par>> = Vec::new();
    if at_kind(toks, q, Bare::Colon) {
        if at_line_start && at_kind(toks, q + 1, Bare::Newline) {
            let (ts, q2) = parse_trailers(toks, q, Ghost(h_trailers))?;
            proof {
                lemma_toks_v_split(toks@, p as int, q as int, q2 as int);
                assert(toks_v(toks@, p as int, q2 as int) =~= with_args + Seq::<TokV>::empty() + trailers_toks(ts@));
                if ts@.len() == 0 {
                    assert(trailers_toks(ts@) =~= Seq::<TokV>::empty());
                }
            }
            trailer_args = ts;
            q = q2;
        } else {
            let (arg, q2) = parse_inlines(toks, q + 1, Ghost(h_rem))?;
            proof {
                if arg@.len() == 0 {
                    assert(contents_toks(arg@) =~= Seq::<TokV>::empty());
                }
            }
            if arg.len() == 0 {
                return Err(q2);
            }
            proof {
                lemma_toks_v_one(toks@, q as int);
                lemma_toks_v_split(toks@, p as int, q as int, q + 1);
                lemma_toks_v_split(toks@, p as int, q + 1, q2 as int);
                assert(trailers_toks(trailer_args@) =~= Seq::<TokV>::empty());
                assert(toks_v(toks@, p as int, q2 as int) =~= with_args + (seq![TokV::Colon] + contents_toks(arg@))
                    + trailers_toks(trailer_args@));
            }
            remainder_arg = Some(arg);
            q = q2;
        }
    } else {
        proof {
            assert(trailers_toks(trailer_args@) =~= Seq::<TokV>::empty());
            assert(toks_v(toks@, p as int, q as int) =~= with_args + Seq::<TokV>::empty() + trailers_toks(trailer_args@));
        }
    }
    let loc = span_of(toks, p, q);
    let invocation_loc = span_of(toks, p, p + 1);
    let c = Content::Command {
        qualifier,
        name,
        pluses,
        attrs,
        inline_args,
        remainder_arg,
        trailer_args,
        loc,
        invocation_loc,
    };
    Ok((c, q))
}

/// A run of content, as long as the tokens start content. Where the tokens
/// read as a run `hint` that the parser reads, followed by the end of the
/// run, it succeeds, and ends where they do.
fn parse_inlines(toks: &Vec<SpannedTok>, p: usize, Ghost(hint): Ghost<Option<Seq<Content>>>) -> (r: Result<
    (Vec<Content>, usize),
    usize,
>)
    requires
        p <= toks@.len(),
        hint matches Some(cs) ==> {
            &&& run_ok(cs)
            &&& reads(toks@, p as int, contents_toks(cs))
            &&& end_or(toks@, p + contents_toks(cs).len(), |v: TokV| ends_run(v))
        },
    ensures
        match r {
            Ok((cs, q)) => p <= q <= toks@.len() && toks_v(toks@, p as int, q as int) == contents_toks(cs@)
                && (q == toks@.len() || !starts_inline(toks@[q as int].1)),
            Err(at) => at <= toks@.len(),
        },
        hint matches Some(cs) ==> (r matches Ok((_, q)) && q == p + contents_toks(cs).len()),
        r matches Ok((cs, _)) ==> run_ok(cs@),
        r matches Ok((cs, _)) ==> contents_located(cs@, toks@, p as int),
    decreases toks@.len() - p, 3int,
{
    let n = toks.len();
    let mut cs: Vec<Content> = Vec::new();
    let mut q = p;
    let ghost mut k: int = 0;
    proof {
        lemma_toks_v_empty(toks@, p as int);
        assert(contents_toks(cs@) =~= Seq::<TokV>::empty());
        if let Some(h) = hint {
            assert(h.take(0) =~= Seq::<Content>::empty());
            assert(contents_toks(h.take(0)) =~= Seq::<TokV>::empty());
            assert(h.take(h.len() as int) =~= h);
        }
    }
    while q < n && is_inline_start(&toks[q].1)
        invariant
            p <= q <= toks@.len(),
            n == toks@.len(),
            toks_v(toks@, p as int, q as int) == contents_toks(cs@),
            run_ok(cs@),
            contents_located(cs@, toks@, p as int),
            cs@.len() > 0 && has_remainder(cs@.last()) ==> (q == toks@.len() || !starts_inline(toks@[q as int].1)),
            hint matches Some(h) ==> {
                &&& run_ok(h)
                &&& reads(toks@, p as int, contents_toks(h))
                &&& end_or(toks@, p + contents_toks(h).len(), |v: TokV| ends_run(v))
                &&& 0 <= k <= h.len()
                &&& q == p + contents_toks(h.take(k)).len()
                &&& h.take(h.len() as int) == h
            },
        decreases toks@.len() - q,
    {
        proof {
            if let Some(h) = hint {
                if k < h.len() {
                    lemma_run_piece(toks@, p as int, h, k);
                }
            }
        }
        let ghost sub: Option<Content> = match hint {
            Some(h) => if k < h.len() { Some(h[k]) } else { None },
            None => None,
        };
        let (c, q2) = parse_inline(toks, q, Ghost(sub))?;
        proof {
            lemma_toks_v_split(toks@, p as int, q as int, q2 as int);
            lemma_contents_push(cs@, c);
            lemma_run_push(cs@, c);
            lemma_contents_located_push(cs@, c, toks@, p as int);
            k = k + 1;
        }
        cs.push(c);
        q = q2;
    }
    proof {
        if let Some(h) = hint {
            if k < h.len() {
                lemma_run_piece(toks@, p as int, h, k);
            }
        }
    }
    Ok((cs, q))
}

/// A run that the parser reads stays one with a piece more, where the
/// last before it has no remainder argument.
proof fn lemma_run_push(cs: Seq<Content>, c: Content)
    requires
        run_ok(cs),
        inline_ok(c),
        cs.len() > 0 ==> !has_remainder(cs.last()),
    ensures
        run_ok(cs.push(c)),
{
    assert forall|i: int| 0 <= i < cs.push(c).len() implies inline_ok(#[trigger] cs.push(c)[i]) && (i + 1 < cs.push(
        c,
    ).len() ==> !has_remainder(cs.push(c)[i])) by {
        if i < cs.len() {
            assert(cs.push(c)[i] == cs[i]);
        }
    }
}

/// Piece `k` of a run that the tokens read as: it reads where the pieces
/// before it end, and what follows it may follow it.
proof fn lemma_run_piece(ts: Seq<SpannedTok>, p: int, h: Seq<Content>, k: int)
    requires
        run_ok(h),
        reads(ts, p, contents_toks(h)),
        end_or(ts, p + contents_toks(h).len(), |v: TokV| ends_run(v)),
        0 <= k < h.len(),
        h.take(h.len() as int) == h,
    ensures
        reads(ts, p + contents_toks(h.take(k)).len(), content_toks(h[k])),
        contents_toks(h.take(k + 1)).len() == contents_toks(h.take(k)).len() + content_toks(h[k]).len(),
        inline_ok(h[k]),
        content_end(h[k], ts, p + contents_toks(h.take(k + 1)).len()),
        p + contents_toks(h.take(k)).len() < ts.len(),
        opens_inline(tv(ts[p + contents_toks(h.take(k)).len()].1)),
{
    lemma_contents_at(ts, p, h, k);
    lemma_content_kind(h[k]);
    lemma_reads_first(ts, p + contents_toks(h.take(k)).len(), content_toks(h[k]));
    let e = p + contents_toks(h.take(k + 1)).len();
    if k + 1 < h.len() {
        lemma_contents_at(ts, p, h, k + 1);
        lemma_content_kind(h[k + 1]);
        lemma_reads_first(ts, e, content_toks(h[k + 1]));
        assert(!has_remainder(h[k]));
    } else {
        assert(h.take(k + 1) == h);
    }
}

/// One piece of content. Where the tokens read as a piece `hint` that the
/// parser reads, followed by what may follow it, it succeeds, and ends
/// where they do.
fn parse_inline(toks: &Vec<SpannedTok>, p: usize, Ghost(hint): Ghost<Option<Content>>) -> (r: Result<(Content, usize), usize>)
    requires
        p < toks@.len(),
        starts_inline(toks@[p as int].1),
        hint matches Some(c) ==> {
            &&& inline_ok(c)
            &&& reads(toks@, p as int, content_toks(c))
            &&& content_end(c, toks@, p + content_toks(c).len())
        },
    ensures
        match r {
            Ok((c, q)) => p < q <= toks@.len() && toks_v(toks@, p as int, q as int) == content_toks(c),
            Err(at) => at <= toks@.len(),
        },
        hint matches Some(c) ==> (r matches Ok((_, q)) && q == p + content_toks(c).len()),
        r matches Ok((c, q)) ==> inline_ok(c) && (has_remainder(c) ==> (q == toks@.len() || !starts_inline(
            toks@[q as int].1,
        ))),
        r matches Ok((c, _)) ==> content_located(c, toks@, p as int),
    decreases toks@.len() - p, 2int,
{
    let n = toks.len();
    proof {
        lemma_toks_v_one(toks@, p as int);
        if let Some(c) = hint {
            lemma_content_kind(c);
            lemma_reads_first(toks@, p as int, content_toks(c));
        }
    }
    let ghost sub_mlc: Option<MultiLineComment> = match hint {
        Some(Content::MultiLineComment { content, .. }) => Some(content),
        _ => None,
    };
    let one = p + 1;
    match &toks[p].1 {
        Tok::Command { .. } => parse_command(toks, p, false, Ghost(hint)),
        Tok::NestedCommentOpen => {
            let (m, q) = parse_mlc(toks, p, Ghost(sub_mlc))?;
            let loc = span_of(toks, p, q);
            Ok((Content::MultiLineComment { content: m, loc }, q))
        },
        Tok::ItalicOpen(_) | Tok::BoldOpen(_) | Tok::MonospaceOpen | Tok::SmallcapsOpen | Tok::AlternateFaceOpen => {
            parse_emph(toks, p, Ghost(hint))
        },
        _ => {
            let loc = span_of(toks, p, one);
            let c = match &toks[p].1 {
                Tok::Word(s) => Content::Word { word: s.clone(), loc },
                Tok::Whitespace(s) => Content::Whitespace { whitespace: s.clone(), loc },
                Tok::SpiltGlue(s) => Content::SpiltGlue { raw: s.clone(), loc },
                Tok::Verbatim(s) => Content::Verbatim { verbatim: s.clone(), loc },
                Tok::Comment(s) => Content::Comment { comment: s.clone(), loc },
                Tok::Shebang(s) => Content::Shebang { text: s.clone(), loc },
                Tok::Mark(s) => Content::Sugar(Sugar::Mark { mark: s.clone(), loc }),
                Tok::Reference(s) => Content::Sugar(Sugar::Reference { reference: s.clone(), loc }),
                Tok::Dash(s) => match Dash::from_text(s.as_str()) {
                    Some(dash) => Content::Dash { dash, loc },
                    None => { return Err(p); },
                },
                Tok::Glue(s) => match Glue::from_text(s.as_str()) {
                    Some(glue) => Content::Glue { glue, loc },
                    None => { return Err(p); },
                },
                _ => { return Err(p); },
            };
            Ok((c, one))
        },
    }
}

/// Emphasis: an opening delimiter, content, and the matching closing one.
/// Where the tokens read as emphasis `hint` that the parser reads, it
/// succeeds, and ends where they do.
#[verifier::spinoff_prover]
#[verifier::rlimit(60)]
fn parse_emph(toks: &Vec<SpannedTok>, p: usize, Ghost(hint): Ghost<Option<Content>>) -> (r: Result<(Content, usize), usize>)
    requires
        p < toks@.len(),
        starts_inline(toks@[p as int].1),
        opens_emph(tv(toks@[p as int].1)),
        hint matches Some(c) ==> inline_ok(c) && reads(toks@, p as int, content_toks(c)),
    ensures
        match r {
            Ok((c, q)) => p < q <= toks@.len() && toks_v(toks@, p as int, q as int) == content_toks(c),
            Err(at) => at <= toks@.len(),
        },
        hint matches Some(c) ==> (r matches Ok((_, q)) && q == p + content_toks(c).len()),
        r matches Ok((c, _)) ==> inline_ok(c) && !has_remainder(c),
        r matches Ok((c, _)) ==> content_located(c, toks@, p as int),
    decreases toks@.len() - p, 0int,
{
    let n = toks.len();
    proof {
        if let Some(c) = hint {
            lemma_content_kind(c);
            lemma_reads_first(toks@, p as int, content_toks(c));
            let t0 = content_toks(c)[0];
            let arg = emph_arg(c);
            lemma_reads_split(toks@, p as int, seq![t0] + contents_toks(arg), seq![close_of(t0)]);
            lemma_reads_split(toks@, p as int, seq![t0], contents_toks(arg));
            lemma_reads_first(toks@, p + 1 + contents_toks(arg).len(), seq![close_of(t0)]);
        }
    }
    let ghost sub: Option<Seq<Content>> = match hint {
        Some(c) => Some(emph_arg(c)),
        None => None,
    };
    let close = match &toks[p].1 {
        Tok::ItalicOpen(_) => Bare::ItalicClose,
        Tok::BoldOpen(_) => Bare::BoldClose,
        Tok::MonospaceOpen => Bare::MonospaceClose,
        Tok::SmallcapsOpen => Bare::SmallcapsClose,
        Tok::AlternateFaceOpen => Bare::AlternateFaceClose,
        _ => { return Err(p); },
    };
    let (arg, q) = parse_inlines(toks, p + 1, Ghost(sub))?;
    if !at_kind(toks, q, close) {
        return Err(q);
    }
    let loc = span_of(toks, p, q + 1);
    proof {
        lemma_toks_v_one(toks@, p as int);
        lemma_toks_v_one(toks@, q as int);
        lemma_toks_v_split(toks@, p as int, p + 1, q as int);
        lemma_toks_v_split(toks@, p as int, q as int, q + 1);
    }
    let s = match &toks[p].1 {
        Tok::ItalicOpen(d) => Sugar::Italic { delimiter: d.clone(), arg, loc },
        Tok::BoldOpen(d) => Sugar::Bold { delimiter: d.clone(), arg, loc },
        Tok::MonospaceOpen => Sugar::Monospace { arg, loc },
        Tok::SmallcapsOpen => Sugar::Smallcaps { arg, loc },
        _ => Sugar::AlternateFace { arg, loc },
    };
    proof {
        assert(toks_v(toks@, p as int, q + 1) =~= sugar_toks(s));
    }
    Ok((Content::Sugar(s), q + 1))
}

/// The rest of a line from `start` on, after the content `cs`: more
/// content, then a newline. Where the tokens from `p` read as a run `hint`
/// whose first piece `cs` came from and whose other pieces the parser
/// reads, then a newline, it succeeds, and ends where they do.
#[verifier::spinoff_prover]
fn finish_line(toks: &Vec<SpannedTok>, p: usize, start: usize, cs: Vec<Content>, Ghost(hint): Ghost<Option<Seq<Content>>>) -> (r: Result<(ParPart, usize), usize>)
    requires
        p < start <= toks@.len(),
        toks_v(toks@, p as int, start as int) == contents_toks(cs@),
        contents_located(cs@, toks@, p as int),
        (cs@.len() == 1 && heading_ok(cs@[0]) && (start == toks@.len() || !starts_inline(toks@[start as int].1)))
            || (run_ok(cs@) && (cs@.len() > 0 && has_remainder(cs@.last()) ==> (start == toks@.len()
            || !starts_inline(toks@[start as int].1)))),
        hint matches Some(full) ==> {
            &&& full.len() >= 1
            &&& start == p + contents_toks(full.take(1)).len()
            &&& reads(toks@, p as int, contents_toks(full) + seq![TokV::Newline])
            &&& forall|i: int| 1 <= i < full.len() ==> inline_ok(#[trigger] full[i]) && (i + 1 < full.len() ==> !has_remainder(full[i]))
        },
    ensures
        match r {
            Ok((pp, e)) => p < e <= toks@.len() && toks_v(toks@, p as int, e as int) == part_toks(pp),
            Err(at) => at <= toks@.len(),
        },
        hint matches Some(full) ==> (r matches Ok((_, e)) && e == p + contents_toks(full).len() + 1),
        r matches Ok((pp, _)) ==> part_ok(pp),
        r matches Ok((pp, _)) ==> part_located(pp, toks@, p as int),
    decreases toks@.len() - start, 4int,
{
    let n = toks.len();
    let mut cs = cs;
    let mut q = start;
    let ghost mut k: int = 1;
    proof {
        if let Some(h) = hint {
            lemma_reads_split(toks@, p as int, contents_toks(h), seq![TokV::Newline]);
            assert(h.take(h.len() as int) =~= h);
        }
    }
    while q < n && is_inline_start(&toks[q].1)
        invariant
            p < q <= toks@.len(),
            start <= q,
            n == toks@.len(),
            toks_v(toks@, p as int, q as int) == contents_toks(cs@),
            contents_located(cs@, toks@, p as int),
            (cs@.len() == 1 && heading_ok(cs@[0]) && (q == toks@.len() || !starts_inline(toks@[q as int].1)))
                || (run_ok(cs@) && (cs@.len() > 0 && has_remainder(cs@.last()) ==> (q == toks@.len()
                || !starts_inline(toks@[q as int].1)))),
            hint matches Some(h) ==> {
                &&& forall|i: int| 1 <= i < h.len() ==> inline_ok(#[trigger] h[i]) && (i + 1 < h.len() ==> !has_remainder(h[i]))
                &&& reads(toks@, p as int, contents_toks(h))
                &&& reads(toks@, p + contents_toks(h).len(), seq![TokV::Newline])
                &&& 1 <= k <= h.len()
                &&& q == p + contents_toks(h.take(k)).len()
                &&& h.take(h.len() as int) == h
            },
        decreases toks@.len() - q,
    {
        proof {
            if let Some(h) = hint {
                if k < h.len() {
                    lemma_line_piece(toks@, p as int, h, k);
                } else {
                    lemma_reads_first(toks@, q as int, seq![TokV::Newline]);
                }
            }
        }
        let ghost sub: Option<Content> = match hint {
            Some(h) => if k < h.len() { Some(h[k]) } else { None },
            None => None,
        };
        let (c, q2) = parse_inline(toks, q, Ghost(sub))?;
        proof {
            lemma_toks_v_split(toks@, p as int, q as int, q2 as int);
            lemma_contents_push(cs@, c);
            lemma_run_push(cs@, c);
            lemma_contents_located_push(cs@, c, toks@, p as int);
            k = k + 1;
        }
        cs.push(c);
        q = q2;
    }
    proof {
        if let Some(h) = hint {
            if k < h.len() {
                lemma_line_piece(toks@, p as int, h, k);
            } else {
                lemma_reads_first(toks@, q as int, seq![TokV::Newline]);
            }
        }
    }
    if !at_kind(toks, q, Bare::Newline) {
        return Err(q);
    }
    proof {
        lemma_toks_v_one(toks@, q as int);
        lemma_toks_v_split(toks@, p as int, q as int, q + 1);
    }
    Ok((ParPart::Line(cs), q + 1))
}

/// Piece `k`, not the first, of a run that ends a line: it reads where the
/// pieces before it end, and what follows it may follow it.
#[verifier::spinoff_prover]
proof fn lemma_line_piece(ts: Seq<SpannedTok>, p: int, h: Seq<Content>, k: int)
    requires
        forall|i: int| 1 <= i < h.len() ==> inline_ok(#[trigger] h[i]) && (i + 1 < h.len() ==> !has_remainder(h[i])),
        reads(ts, p, contents_toks(h)),
        reads(ts, p + contents_toks(h).len(), seq![TokV::Newline]),
        1 <= k < h.len(),
        h.take(h.len() as int) == h,
    ensures
        reads(ts, p + contents_toks(h.take(k)).len(), content_toks(h[k])),
        contents_toks(h.take(k + 1)).len() == contents_toks(h.take(k)).len() + content_toks(h[k]).len(),
        inline_ok(h[k]),
        content_end(h[k], ts, p + contents_toks(h.take(k + 1)).len()),
        p + contents_toks(h.take(k)).len() < ts.len(),
        opens_inline(tv(ts[p + contents_toks(h.take(k)).len()].1)),
{
    lemma_contents_at(ts, p, h, k);
    lemma_content_kind(h[k]);
    lemma_reads_first(ts, p + contents_toks(h.take(k)).len(), content_toks(h[k]));
    let e = p + contents_toks(h.take(k + 1)).len();
    if k + 1 < h.len() {
        lemma_contents_at(ts, p, h, k + 1);
        lemma_content_kind(h[k + 1]);
        lemma_reads_first(ts, e, content_toks(h[k + 1]));
        assert(!has_remainder(h[k]));
    } else {
        assert(h.take(k + 1) == h);
        lemma_reads_first(ts, e, seq![TokV::Newline]);
    }
}

/// A part of a paragraph: a heading line, a command with trailer
/// arguments, or a line of content ending in a newline. Where the tokens
/// read as a part `hint` that the parser reads, and no double colon
/// follows, it succeeds, and ends where they do.
#[verifier::spinoff_prover]
#[verifier::rlimit(60)]
fn parse_part(toks: &Vec<SpannedTok>, p: usize, Ghost(hint): Ghost<Option<ParPart>>) -> (r: Result<(ParPart, usize), usize>)
    requires
        p < toks@.len(),
        starts_part(toks@[p as int].1),
        hint matches Some(pp) ==> {
            &&& part_ok(pp)
            &&& reads(toks@, p as int, part_toks(pp))
            &&& end_or(toks@, p + part_toks(pp).len(), |v: TokV| !(v is DoubleColon))
        },
    ensures
        match r {
            Ok((pp, q)) => p < q <= toks@.len() && toks_v(toks@, p as int, q as int) == part_toks(pp),
            Err(at) => at <= toks@.len(),
        },
        hint matches Some(pp) ==> (r matches Ok((_, q)) && q == p + part_toks(pp).len()),
        r matches Ok((pp, _)) ==> part_ok(pp),
        r matches Ok((pp, _)) ==> part_located(pp, toks@, p as int),
    decreases toks@.len() - p, 5int,
{
    let n = toks.len();
    proof {
        if let Some(pp) = hint {
            lemma_part_kind(pp);
            lemma_reads_first(toks@, p as int, part_toks(pp));
        }
    }
    match &toks[p].1 {
        Tok::Heading { level, pluses } => {
            let ghost h_line: Seq<Content> = match hint {
                Some(ParPart::Line(cs)) => cs@,
                _ => seq![],
            };
            let ghost h_arg: Option<Seq<Content>> = match hint {
                Some(ParPart::Line(cs)) => match cs@[0] {
                    Content::Sugar(Sugar::Heading { arg, .. }) => Some(arg@),
                    _ => None,
                },
                _ => None,
            };
            proof {
                if let Some(pp) = hint {
                    lemma_heading_reads(toks@, p as int, h_line[0]);
                }
            }
            let gap = match (if p + 1 < n { Some(&toks[p + 1].1) } else { None }) {
                Some(Tok::Whitespace(g)) => g.clone(),
                _ => { return Err(p + 1); },
            };
            let (arg, q) = parse_inlines(toks, p + 2, Ghost(h_arg))?;
            proof {
                if arg@.len() == 0 {
                    assert(contents_toks(arg@) =~= Seq::<TokV>::empty());
                }
            }
            if arg.len() == 0 {
                return Err(q);
            }
            let loc = span_of(toks, p, q);
            let invocation_loc = span_of(toks, p, p + 1);
            let h = Content::Sugar(Sugar::Heading { level: *level, pluses: *pluses, gap, arg, loc, invocation_loc });
            proof {
                lemma_toks_v_one(toks@, p as int);
                lemma_toks_v_one(toks@, p + 1);
                lemma_toks_v_split(toks@, p as int, p + 1, p + 2);
                lemma_toks_v_split(toks@, p as int, p + 2, q as int);
                lemma_contents_one(h);
                assert(toks_v(toks@, p as int, q as int) =~= content_toks(h));
            }
            let mut cs: Vec<Content> = Vec::new();
            proof {
                assert(contents_toks(cs@) =~= Seq::<TokV>::empty());
                lemma_contents_located_push(cs@, h, toks@, p as int);
            }
            cs.push(h);
            proof {
                assert(cs@ =~= seq![h]);
                if let Some(pp) = hint {
                    assert(h_line.take(1) =~= h_line);
                    assert(h_line =~= seq![h_line[0]]);
                    lemma_contents_single(h_line[0]);
                }
            }
            let ghost sub: Option<Seq<Content>> = match hint {
                Some(_) => Some(h_line),
                None => None,
            };
            finish_line(toks, p, q, cs, Ghost(sub))
        },
        Tok::Command { .. } => {
            let ghost sub: Option<Content> = match hint {
                Some(ParPart::Command(c)) => Some(c),
                Some(ParPart::Line(cs)) => Some(cs@[0]),
                None => None,
            };
            proof {
                if let Some(ParPart::Line(cs)) = hint {
                    lemma_line_first(toks@, p as int, cs@);
                }
            }
            let (c, q) = parse_command(toks, p, true, Ghost(sub))?;
            let trailing = match &c {
                Content::Command { trailer_args, .. } => trailer_args.len() > 0,
                _ => false,
            };
            if trailing {
                return Ok((ParPart::Command(c), q));
            }
            proof {
                lemma_contents_one(c);
            }
            let mut cs: Vec<Content> = Vec::new();
            proof {
                assert(contents_toks(cs@) =~= Seq::<TokV>::empty());
                lemma_contents_located_push(cs@, c, toks@, p as int);
            }
            cs.push(c);
            proof {
                assert(cs@ =~= seq![c]);
            }
            let ghost sub_line: Option<Seq<Content>> = match hint {
                Some(ParPart::Line(hc)) => Some(hc@),
                _ => None,
            };
            finish_line(toks, p, q, cs, Ghost(sub_line))
        },
        _ => {
            let ghost sub: Option<Seq<Content>> = match hint {
                Some(ParPart::Line(cs)) => Some(cs@),
                _ => None,
            };
            proof {
                if let Some(ParPart::Line(cs)) = hint {
                    lemma_reads_split(toks@, p as int, contents_toks(cs@), seq![TokV::Newline]);
                    lemma_reads_first(toks@, p + contents_toks(cs@).len(), seq![TokV::Newline]);
                }
            }
            let (cs, q) = parse_inlines(toks, p, Ghost(sub))?;
            if !at_kind(toks, q, Bare::Newline) {
                return Err(q);
            }
            proof {
                lemma_toks_v_one(toks@, q as int);
                lemma_toks_v_split(toks@, p as int, q as int, q + 1);
            }
            Ok((ParPart::Line(cs), q + 1))
        },
    }
}

/// A heading line that the tokens read as: its gap token, then its
/// content, then a newline.
proof fn lemma_heading_reads(ts: Seq<SpannedTok>, p: int, h: Content)
    requires
        heading_ok(h),
        reads(ts, p, heading_toks(h) + seq![TokV::Newline]),
    ensures
        h matches Content::Sugar(Sugar::Heading { arg, .. }) && {
            &&& p + 1 < ts.len()
            &&& tv(ts[p + 1].1) is Whitespace
            &&& reads(ts, p + 2, contents_toks(arg@))
            &&& end_or(ts, p + 2 + contents_toks(arg@).len(), |v: TokV| ends_run(v))
            &&& contents_toks(arg@).len() > 0
            &&& content_toks(h) == heading_toks(h)
            &&& heading_toks(h).len() == 2 + contents_toks(arg@).len()
        },
{
    if let Content::Sugar(Sugar::Heading { level, pluses, gap, arg, .. }) = h {
        let two = seq![TokV::Heading { level: level as nat, pluses: pluses as nat }, TokV::Whitespace(gap@)];
        lemma_reads_split(ts, p, heading_toks(h), seq![TokV::Newline]);
        lemma_reads_split(ts, p, two, contents_toks(arg@));
        lemma_toks_v_sub(ts, p, two, 1, 2);
        lemma_reads_first(ts, p + 2 + contents_toks(arg@).len(), seq![TokV::Newline]);
        lemma_run_first(arg@);
    }
}

/// A line that starts with a command: the command reads first, and what
/// follows it may follow it.
proof fn lemma_line_first(ts: Seq<SpannedTok>, p: int, cs: Seq<Content>)
    requires
        run_ok(cs),
        cs.len() > 0,
        reads(ts, p, contents_toks(cs) + seq![TokV::Newline]),
    ensures
        cmd_ok(cs[0], true) || !(cs[0] is Command),
        reads(ts, p, content_toks(cs[0])),
        content_end(cs[0], ts, p + content_toks(cs[0]).len()),
        contents_toks(cs.take(1)).len() == content_toks(cs[0]).len(),
        reads(ts, p, contents_toks(cs) + seq![TokV::Newline]),
        forall|i: int| 1 <= i < cs.len() ==> inline_ok(#[trigger] cs[i]) && (i + 1 < cs.len() ==> !has_remainder(cs[i])),
{
    lemma_reads_split(ts, p, contents_toks(cs), seq![TokV::Newline]);
    assert(cs.take(0) =~= Seq::<Content>::empty());
    assert(contents_toks(cs.take(0)) =~= Seq::<TokV>::empty());
    assert(cs.take(cs.len() as int) =~= cs);
    lemma_contents_at(ts, p, cs, 0);
    if cs.len() > 1 {
        lemma_contents_at(ts, p, cs, 1);
        lemma_content_kind(cs[1]);
        lemma_reads_first(ts, p + content_toks(cs[0]).len(), content_toks(cs[1]));
        assert(!has_remainder(cs[0]));
    } else {
        lemma_reads_first(ts, p + contents_toks(cs).len(), seq![TokV::Newline]);
    }
    assert(inline_ok(cs[0]));
}

/// A paragraph: one or more parts. Where the tokens read as a paragraph
/// `hint` that the parser reads, and neither another part nor a double
/// colon follows, it succeeds, and ends where they do.
fn parse_par(toks: &Vec<SpannedTok>, p: usize, Ghost(hint): Ghost<Option<Par>>) -> (r: Result<(Par, usize), usize>)
    requires
        p <= toks@.len(),
        hint matches Some(par) ==> {
            &&& par_ok(par)
            &&& reads(toks@, p as int, par_toks(par))
            &&& par_end(toks@, p + par_toks(par).len())
        },
    ensures
        match r {
            Ok((par, q)) => p < q <= toks@.len() && toks_v(toks@, p as int, q as int) == par_toks(par),
            Err(at) => at <= toks@.len(),
        },
        hint matches Some(par) ==> (r matches Ok((_, q)) && q == p + par_toks(par).len()),
        r matches Ok((par, _)) ==> par_ok(par),
        r matches Ok((par, _)) ==> par_located(par, toks@, p as int),
    decreases toks@.len() - p, 6int,
{
    let n = toks.len();
    proof {
        if let Some(par) = hint {
            assert(par.parts@.take(0) =~= Seq::<ParPart>::empty());
            assert(parts_toks(par.parts@.take(0)) =~= Seq::<TokV>::empty());
            assert(par.parts@.take(par.parts@.len() as int) =~= par.parts@);
            lemma_par_piece(toks@, p as int, par.parts@, 0);
        }
    }
    if p >= n || !is_part_start(&toks[p].1) {
        return Err(p);
    }
    let ghost sub0: Option<ParPart> = match hint {
        Some(par) => Some(par.parts@[0]),
        None => None,
    };
    let (first, q0) = parse_part(toks, p, Ghost(sub0))?;
    let mut parts: Vec<ParPart> = Vec::new();
    proof {
        lemma_parts_push(parts@, first);
        assert(parts_toks(Seq::<ParPart>::empty()) =~= Seq::<TokV>::empty());
        lemma_parts_located_push(parts@, first, toks@, p as int);
    }
    parts.push(first);
    proof {
        assert(toks_v(toks@, p as int, q0 as int) =~= parts_toks(parts@));
    }
    let mut q = q0;
    while q < n && is_part_start(&toks[q].1)
        invariant
            p < q <= toks@.len(),
            n == toks@.len(),
            parts@.len() > 0,
            toks_v(toks@, p as int, q as int) == parts_toks(parts@),
            forall|i: int| 0 <= i < parts@.len() ==> part_ok(#[trigger] parts@[i]),
            parts_located(parts@, toks@, p as int),
            hint matches Some(par) ==> {
                &&& par_ok(par)
                &&& reads(toks@, p as int, parts_toks(par.parts@))
                &&& par_end(toks@, p + parts_toks(par.parts@).len())
                &&& parts@.len() <= par.parts@.len()
                &&& q == p + parts_toks(par.parts@.take(parts@.len() as int)).len()
                &&& par.parts@.take(par.parts@.len() as int) == par.parts@
            },
        decreases toks@.len() - q,
    {
        let ghost k = parts@.len() as int;
        proof {
            if let Some(par) = hint {
                if k < par.parts@.len() {
                    lemma_par_piece(toks@, p as int, par.parts@, k);
                }
            }
        }
        let ghost sub: Option<ParPart> = match hint {
            Some(par) => if k < par.parts@.len() { Some(par.parts@[k]) } else { None },
            None => None,
        };
        let (pp, q2) = parse_part(toks, q, Ghost(sub))?;
        proof {
            lemma_toks_v_split(toks@, p as int, q as int, q2 as int);
            lemma_parts_push(parts@, pp);
            lemma_parts_located_push(parts@, pp, toks@, p as int);
        }
        parts.push(pp);
        q = q2;
    }
    proof {
        if let Some(par) = hint {
            let k = parts@.len() as int;
            if k < par.parts@.len() {
                lemma_par_piece(toks@, p as int, par.parts@, k);
            }
        }
    }
    Ok((Par::from_parts(parts), q))
}

/// Part `k` of a paragraph that the tokens read as: it reads where the
/// parts before it end, and what follows it may follow it.
proof fn lemma_par_piece(ts: Seq<SpannedTok>, p: int, ps: Seq<ParPart>, k: int)
    requires
        ps.len() > 0,
        forall|i: int| 0 <= i < ps.len() ==> part_ok(#[trigger] ps[i]),
        reads(ts, p, parts_toks(ps)),
        par_end(ts, p + parts_toks(ps).len()),
        0 <= k < ps.len(),
        ps.take(ps.len() as int) == ps,
    ensures
        reads(ts, p + parts_toks(ps.take(k)).len(), part_toks(ps[k])),
        parts_toks(ps.take(k + 1)).len() == parts_toks(ps.take(k)).len() + part_toks(ps[k]).len(),
        part_ok(ps[k]),
        end_or(ts, p + parts_toks(ps.take(k + 1)).len(), |v: TokV| !(v is DoubleColon)),
        p + parts_toks(ps.take(k)).len() < ts.len(),
        opens_part(tv(ts[p + parts_toks(ps.take(k)).len()].1)),
{
    lemma_parts_at(ts, p, ps, k);
    lemma_part_kind(ps[k]);
    lemma_reads_first(ts, p + parts_toks(ps.take(k)).len(), part_toks(ps[k]));
    let e = p + parts_toks(ps.take(k + 1)).len();
    if k + 1 < ps.len() {
        lemma_parts_at(ts, p, ps, k + 1);
        lemma_part_kind(ps[k + 1]);
        lemma_reads_first(ts, e, part_toks(ps[k + 1]));
    } else {
        assert(ps.take(k + 1) == ps);
    }
}

/// Paragraphs separated by paragraph breaks. Where the tokens read as
/// paragraphs `hint` that the parser reads, and no paragraph, part of one,
/// break or double colon follows, it succeeds, and ends where they do.
fn parse_pars(toks: &Vec<SpannedTok>, p: usize, Ghost(hint): Ghost<Option<Seq<Par>>>) -> (r: Result<(Vec<Par>, usize), usize>)
    requires
        p <= toks@.len(),
        hint matches Some(ps) ==> {
            &&& pars_ok(ps)
            &&& reads(toks@, p as int, pars_toks(ps))
            &&& pars_end(toks@, p + pars_toks(ps).len())
        },
    ensures
        match r {
            Ok((ps, q)) => p < q <= toks@.len() && toks_v(toks@, p as int, q as int) == pars_toks(ps@),
            Err(at) => at <= toks@.len(),
        },
        hint matches Some(ps) ==> (r matches Ok((_, q)) && q == p + pars_toks(ps).len()),
        r matches Ok((ps, _)) ==> pars_ok(ps@),
        r matches Ok((ps, _)) ==> pars_located(ps@, toks@, p as int),
    decreases toks@.len() - p, 7int,
{
    let n = toks.len();
    proof {
        if let Some(h) = hint {
            assert(h.take(0) =~= Seq::<Par>::empty());
            assert(pars_toks(h.take(0)) =~= Seq::<TokV>::empty());
            assert(h.take(h.len() as int) =~= h);
            lemma_pars_piece(toks@, p as int, h, 0);
        }
    }
    let ghost sub0: Option<Par> = match hint {
        Some(h) => Some(h[0]),
        None => None,
    };
    let (first, q0) = parse_par(toks, p, Ghost(sub0))?;
    let mut pars: Vec<Par> = Vec::new();
    proof {
        lemma_pars_push(pars@, first);
        lemma_pars_located_push(pars@, first, toks@, p as int);
    }
    pars.push(first);
    let mut q = q0;
    while at_kind(toks, q, Bare::ParBreak)
        invariant
            p < q <= toks@.len(),
            n == toks@.len(),
            pars@.len() > 0,
            toks_v(toks@, p as int, q as int) == pars_toks(pars@),
            forall|i: int| 0 <= i < pars@.len() ==> par_ok(#[trigger] pars@[i]),
            pars_located(pars@, toks@, p as int),
            hint matches Some(h) ==> {
                &&& pars_ok(h)
                &&& reads(toks@, p as int, pars_toks(h))
                &&& pars_end(toks@, p + pars_toks(h).len())
                &&& pars@.len() <= h.len()
                &&& q == p + pars_toks(h.take(pars@.len() as int)).len()
                &&& h.take(h.len() as int) == h
            },
        decreases toks@.len() - q,
    {
        let ghost k = pars@.len() as int;
        proof {
            if let Some(h) = hint {
                if k < h.len() {
                    lemma_pars_piece(toks@, p as int, h, k);
                } else {
                    lemma_reads_first(toks@, q as int, seq![TokV::ParBreak]);
                }
            }
        }
        let ghost sub: Option<Par> = match hint {
            Some(h) => if k < h.len() { Some(h[k]) } else { None },
            None => None,
        };
        let (par, q2) = parse_par(toks, q + 1, Ghost(sub))?;
        proof {
            lemma_toks_v_one(toks@, q as int);
            lemma_toks_v_split(toks@, p as int, q as int, q + 1);
            lemma_toks_v_split(toks@, p as int, q + 1, q2 as int);
            lemma_pars_push(pars@, par);
            lemma_pars_located_push(pars@, par, toks@, p as int);
        }
        pars.push(par);
        q = q2;
    }
    proof {
        if let Some(h) = hint {
            let k = pars@.len() as int;
            if k < h.len() {
                lemma_pars_piece(toks@, p as int, h, k);
            }
        }
    }
    Ok((pars, q))
}

/// Paragraph `k` of paragraphs that the tokens read as: it reads after the
/// break before it, and what follows it may follow a paragraph.
proof fn lemma_pars_piece(ts: Seq<SpannedTok>, p: int, ps: Seq<Par>, k: int)
    requires
        pars_ok(ps),
        reads(ts, p, pars_toks(ps)),
        end_or(ts, p + pars_toks(ps).len(), |v: TokV| !opens_part(v) && !(v is DoubleColon)),
        0 <= k < ps.len(),
        ps.take(ps.len() as int) == ps,
    ensures
        k > 0 ==> p + pars_toks(ps.take(k)).len() < ts.len() && tv(ts[p + pars_toks(ps.take(k)).len()].1) is ParBreak,
        reads(ts, p + pars_toks(ps.take(k)).len() + par_sep(k).len(), par_toks(ps[k])),
        pars_toks(ps.take(k + 1)).len() == pars_toks(ps.take(k)).len() + par_sep(k).len() + par_toks(ps[k]).len(),
        par_ok(ps[k]),
        par_end(ts, p + pars_toks(ps.take(k + 1)).len()),
        k + 1 < ps.len() ==> p + pars_toks(ps.take(k + 1)).len() < ts.len() && tv(ts[p + pars_toks(ps.take(k + 1)).len()].1) is ParBreak,
{
    lemma_pars_at(ts, p, ps, k);
    if k > 0 {
        lemma_reads_first(ts, p + pars_toks(ps.take(k)).len(), par_sep(k));
    }
    let e = p + pars_toks(ps.take(k + 1)).len();
    if k + 1 < ps.len() {
        lemma_pars_at(ts, p, ps, k + 1);
        lemma_reads_first(ts, e, par_sep(k + 1));
    } else {
        assert(ps.take(k + 1) == ps);
    }
}

/// A document: paragraphs separated by paragraph breaks, with perhaps one
/// more break at the end, and nothing after. On failure, the index of the
/// token where the tokens stop fitting the grammar (the number of tokens
/// where they end too early). Where the tokens read as a document that
/// the parser reads, it succeeds.
pub fn parse_tokens(toks: &Vec<SpannedTok>) -> (r: Result<File, usize>)
    ensures
        match r {
            Ok(f) => toks_v(toks@, 0, toks@.len() as int) == file_toks(f)
                || toks_v(toks@, 0, toks@.len() as int) == file_toks(f).push(TokV::ParBreak),
            Err(at) => at <= toks@.len(),
        },
        r matches Ok(f) ==> file_ok(f),
        r is Ok <==> exists|f: File| file_ok(f) && reads_as(toks@, f),
        r matches Ok(f) ==> file_located(f, toks@),
{
    let n = toks.len();
    let ghost hint: Option<Seq<Par>> = if exists|f: File| file_ok(f) && reads_as(toks@, f) {
        Some((choose|f: File| file_ok(f) && reads_as(toks@, f)).pars@)
    } else {
        None
    };
    let ghost trail: bool = match hint {
        Some(h) => toks_v(toks@, 0, toks@.len() as int) != pars_toks(h),
        None => false,
    };
    proof {
        if let Some(h) = hint {
            let x = pars_toks(h);
            if trail {
                assert(x.push(TokV::ParBreak) =~= x + seq![TokV::ParBreak]);
                lemma_reads_split(toks@, 0, x, seq![TokV::ParBreak]);
                lemma_reads_first(toks@, x.len() as int, seq![TokV::ParBreak]);
            }
            assert(h.take(0) =~= Seq::<Par>::empty());
            assert(pars_toks(h.take(0)) =~= Seq::<TokV>::empty());
            assert(h.take(h.len() as int) =~= h);
            lemma_pars_piece(toks@, 0, h, 0);
        }
    }
    let ghost sub0: Option<Par> = match hint {
        Some(h) => Some(h[0]),
        None => None,
    };
    let (first, q0) = parse_par(toks, 0, Ghost(sub0))?;
    let mut pars: Vec<Par> = Vec::new();
    proof {
        lemma_pars_push(pars@, first);
        lemma_pars_located_push(pars@, first, toks@, 0);
    }
    pars.push(first);
    let mut q = q0;
    let mut trailing_break = false;
    while at_kind(toks, q, Bare::ParBreak) && !trailing_break
        invariant
            0 < q <= toks@.len(),
            n == toks@.len(),
            pars@.len() > 0,
            forall|i: int| 0 <= i < pars@.len() ==> par_ok(#[trigger] pars@[i]),
            pars_located(pars@, toks@, 0),
            !trailing_break ==> toks_v(toks@, 0, q as int) == pars_toks(pars@),
            trailing_break ==> q == n && toks_v(toks@, 0, q as int) == pars_toks(pars@).push(TokV::ParBreak),
            hint is None ==> !(exists|f: File| file_ok(f) && reads_as(toks@, f)),
            hint matches Some(h) ==> {
                &&& pars_ok(h)
                &&& reads(toks@, 0, pars_toks(h))
                &&& end_or(toks@, pars_toks(h).len() as int, |v: TokV| !opens_part(v) && !(v is DoubleColon))
                &&& trail ==> n == pars_toks(h).len() + 1 && tv(toks@[pars_toks(h).len() as int].1) is ParBreak
                &&& !trail ==> n == pars_toks(h).len()
                &&& pars@.len() <= h.len()
                &&& !trailing_break ==> q == pars_toks(h.take(pars@.len() as int)).len()
                &&& trailing_break ==> pars@.len() == h.len()
                &&& h.take(h.len() as int) == h
            },
        decreases toks@.len() - q, if trailing_break { 0int } else { 1int },
    {
        let ghost k = pars@.len() as int;
        proof {
            lemma_toks_v_one(toks@, q as int);
            lemma_toks_v_split(toks@, 0, q as int, q + 1);
            if let Some(h) = hint {
                if k < h.len() {
                    lemma_pars_piece(toks@, 0, h, k);
                    lemma_par_first(h[k]);
                } else {
                    assert(h.take(k) == h);
                }
            }
        }
        if q + 1 == n {
            trailing_break = true;
            q = q + 1;
        } else {
            let ghost sub: Option<Par> = match hint {
                Some(h) => if k < h.len() { Some(h[k]) } else { None },
                None => None,
            };
            let (par, q2) = parse_par(toks, q + 1, Ghost(sub))?;
            proof {
                lemma_toks_v_split(toks@, 0, q + 1, q2 as int);
                lemma_pars_push(pars@, par);
                lemma_pars_located_push(pars@, par, toks@, 0);
            }
            pars.push(par);
            q = q2;
        }
    }
    proof {
        if let Some(h) = hint {
            let k = pars@.len() as int;
            if !trailing_break && k < h.len() {
                lemma_pars_piece(toks@, 0, h, k);
            }
        }
    }
    if q != n {
        return Err(q);
    }
    let f = File { pars };
    proof {
        assert(file_ok(f) && reads_as(toks@, f));
    }
    Ok(f)
}
} // verus!
