//! Where each part of a syntax tree was written: the span of exactly the
//! tokens it was read from, from the start of its first token to the end of
//! its last.
use vstd::prelude::*;
use crate::ast::parsed::{Attr, Attrs, Content, Sugar};
use crate::ast::{File, Par, ParPart};
use crate::emblem_core::parser::grammar::{
    attr_list_toks, attr_piece, attr_tok, attrs_toks, content_toks, lemma_attrs_at, contents_toks, inline_args_toks, lemma_contents_at, lemma_parts_at,
    lemma_pars_at, mlc_toks, par_sep, part_toks, pars_toks, parts_toks, reads, reads_as, sugar_toks, toks_v,
    trailers_toks,
};
use crate::emblem_core::parser::token::{tv, TokV};
use crate::emblem_core::parser::lexer::SpannedTok;
use crate::emblem_core::parser::location::Location;

verus! {

/// The span of the tokens of `ts` from `a` up to `b`: from the start of
/// token `a` to the end of token `b - 1`.
pub open spec fn tok_span(ts: Seq<SpannedTok>, a: int, b: int) -> Location {
    Location::between(ts[a].0, ts[b - 1].2)
}

/// An attribute written by the token `a` of `ts` carries that token's span.
pub open spec fn attr_located(x: Attr, ts: Seq<SpannedTok>, a: int) -> bool {
    match x {
        Attr::Named { loc, .. } => loc == Some(tok_span(ts, a, a + 1)),
        Attr::Unnamed { loc, .. } => loc == Some(tok_span(ts, a, a + 1)),
    }
}

/// Attributes separated by commas, written from token `a` on, each carry
/// the span of its own token.
pub open spec fn attr_list_located(xs: Seq<Attr>, ts: Seq<SpannedTok>, a: int) -> bool
    decreases xs.len(),
{
    if xs.len() == 0 {
        true
    } else if xs.len() == 1 {
        attr_located(xs[0], ts, a)
    } else {
        attr_list_located(xs.drop_last(), ts, a) && attr_located(
            xs.last(),
            ts,
            a + attr_list_toks(xs.drop_last()).len() + 1,
        )
    }
}

/// An attribute list written from token `a` on carries the span from its
/// `[` to its `]`, and each attribute in it the span of its own token.
pub open spec fn attrs_located(x: Option<Attrs>, ts: Seq<SpannedTok>, a: int) -> bool {
    match x {
        Some(l) => l.loc == Some(tok_span(ts, a, a + attrs_toks(x).len())) && attr_list_located(l.attrs@, ts, a + 1),
        None => true,
    }
}

/// A piece of content written from token `a` of `ts` on carries the span of
/// exactly its tokens, and so do the pieces within it; a command's name
/// carries the span of its first token.
pub open spec fn content_located(c: Content, ts: Seq<SpannedTok>, a: int) -> bool
    decreases c,
{
    match c {
        Content::Shebang { loc, .. } => loc == tok_span(ts, a, a + 1),
        Content::Command { attrs, inline_args, remainder_arg, trailer_args, loc, invocation_loc, .. } => {
            let after_attrs = a + 1 + attrs_toks(attrs).len();
            let after_args = after_attrs + inline_args_toks(inline_args@).len();
            &&& loc == tok_span(ts, a, a + content_toks(c).len())
            &&& invocation_loc == tok_span(ts, a, a + 1)
            &&& attrs_located(attrs, ts, a + 1)
            &&& args_located(inline_args@, ts, after_attrs)
            &&& match remainder_arg {
                Some(r) => contents_located(r@, ts, after_args + 1) && trailers_located(
                    trailer_args@,
                    ts,
                    after_args + 1 + contents_toks(r@).len(),
                ),
                None => trailers_located(trailer_args@, ts, after_args),
            }
        },
        Content::Sugar(s) => sugar_located(s, ts, a),
        Content::Word { loc, .. } => loc == tok_span(ts, a, a + 1),
        Content::Whitespace { loc, .. } => loc == tok_span(ts, a, a + 1),
        Content::Dash { loc, .. } => loc == tok_span(ts, a, a + 1),
        Content::Glue { loc, .. } => loc == tok_span(ts, a, a + 1),
        Content::SpiltGlue { loc, .. } => loc == tok_span(ts, a, a + 1),
        Content::Verbatim { loc, .. } => loc == tok_span(ts, a, a + 1),
        Content::Comment { loc, .. } => loc == tok_span(ts, a, a + 1),
        Content::MultiLineComment { content, loc } => loc == tok_span(ts, a, a + mlc_toks(content).len()),
    }
}

/// Sugar written from token `a` on carries the span of exactly its tokens,
/// from its opening delimiter (or heading mark) to its last token, and so
/// do the pieces within it; a heading's mark carries the span of its
/// first token.
pub open spec fn sugar_located(s: Sugar, ts: Seq<SpannedTok>, a: int) -> bool
    decreases s,
{
    let whole = tok_span(ts, a, a + sugar_toks(s).len());
    match s {
        Sugar::Italic { arg, loc, .. } => loc == whole && contents_located(arg@, ts, a + 1),
        Sugar::Bold { arg, loc, .. } => loc == whole && contents_located(arg@, ts, a + 1),
        Sugar::Monospace { arg, loc } => loc == whole && contents_located(arg@, ts, a + 1),
        Sugar::Smallcaps { arg, loc } => loc == whole && contents_located(arg@, ts, a + 1),
        Sugar::AlternateFace { arg, loc } => loc == whole && contents_located(arg@, ts, a + 1),
        Sugar::Heading { arg, loc, invocation_loc, .. } => loc == whole && invocation_loc == tok_span(ts, a, a + 1)
            && contents_located(arg@, ts, a + 2),
        Sugar::Mark { loc, .. } => loc == tok_span(ts, a, a + 1),
        Sugar::Reference { loc, .. } => loc == tok_span(ts, a, a + 1),
    }
}

/// A run of content written from token `a` on: each piece located where
/// the pieces before it end.
pub open spec fn contents_located(cs: Seq<Content>, ts: Seq<SpannedTok>, a: int) -> bool
    decreases cs,
{
    if cs.len() == 0 {
        true
    } else {
        contents_located(cs.drop_last(), ts, a) && content_located(
            cs.last(),
            ts,
            a + contents_toks(cs.drop_last()).len(),
        )
    }
}

/// Inline arguments written from token `a` on: the content of each
/// located just inside its braces.
pub open spec fn args_located(args: Seq<Vec<Content>>, ts: Seq<SpannedTok>, a: int) -> bool
    decreases args,
{
    if args.len() == 0 {
        true
    } else {
        args_located(args.drop_last(), ts, a) && contents_located(
            args.last()@,
            ts,
            a + inline_args_toks(args.drop_last()).len() + 1,
        )
    }
}

/// Trailer arguments written from token `a` on: the paragraphs of each
/// located after its colon, newline and indent.
pub open spec fn trailers_located(tr: Seq<Vec<Par>>, ts: Seq<SpannedTok>, a: int) -> bool
    decreases tr,
{
    if tr.len() == 0 {
        true
    } else {
        trailers_located(tr.drop_last(), ts, a) && pars_located(
            tr.last()@,
            ts,
            a + trailers_toks(tr.drop_last()).len() + 3,
        )
    }
}

/// Paragraphs written from token `a` on: each located after the break
/// before it.
pub open spec fn pars_located(ps: Seq<Par>, ts: Seq<SpannedTok>, a: int) -> bool
    decreases ps,
{
    if ps.len() == 0 {
        true
    } else if ps.len() == 1 {
        par_located(ps[0], ts, a)
    } else {
        pars_located(ps.drop_last(), ts, a) && par_located(ps.last(), ts, a + pars_toks(ps.drop_last()).len() + 1)
    }
}

/// A paragraph written from token `a` on: its parts located in turn.
pub open spec fn par_located(p: Par, ts: Seq<SpannedTok>, a: int) -> bool
    decreases p,
{
    parts_located(p.parts@, ts, a)
}

/// Parts of a paragraph written from token `a` on: each located where the
/// parts before it end.
pub open spec fn parts_located(ps: Seq<ParPart>, ts: Seq<SpannedTok>, a: int) -> bool
    decreases ps,
{
    if ps.len() == 0 {
        true
    } else {
        parts_located(ps.drop_last(), ts, a) && part_located(ps.last(), ts, a + parts_toks(ps.drop_last()).len())
    }
}

/// A part of a paragraph written from token `a` on.
pub open spec fn part_located(p: ParPart, ts: Seq<SpannedTok>, a: int) -> bool
    decreases p,
{
    match p {
        ParPart::Command(c) => content_located(c, ts, a),
        ParPart::Line(cs) => contents_located(cs@, ts, a),
    }
}

/// Every part of the document `f` read from the tokens `ts` carries the
/// span of exactly the tokens it was read from.
pub open spec fn file_located(f: File, ts: Seq<SpannedTok>) -> bool {
    pars_located(f.pars@, ts, 0)
}

pub proof fn lemma_attr_list_located_push(xs: Seq<Attr>, x: Attr, ts: Seq<SpannedTok>, a: int)
    requires
        attr_list_located(xs, ts, a),
        attr_located(x, ts, a + attr_list_toks(xs).len() + if xs.len() > 0 { 1int } else { 0int }),
    ensures
        attr_list_located(xs.push(x), ts, a),
{
    assert(xs.push(x).drop_last() =~= xs);
    if xs.len() == 0 {
        assert(xs.push(x)[0] == x);
        assert(attr_list_toks(xs) =~= Seq::empty());
    }
}

pub proof fn lemma_contents_located_push(cs: Seq<Content>, c: Content, ts: Seq<SpannedTok>, a: int)
    requires
        contents_located(cs, ts, a),
        content_located(c, ts, a + contents_toks(cs).len()),
    ensures
        contents_located(cs.push(c), ts, a),
{
    assert(cs.push(c).drop_last() =~= cs);
}

pub proof fn lemma_args_located_push(args: Seq<Vec<Content>>, x: Vec<Content>, ts: Seq<SpannedTok>, a: int)
    requires
        args_located(args, ts, a),
        contents_located(x@, ts, a + inline_args_toks(args).len() + 1),
    ensures
        args_located(args.push(x), ts, a),
{
    assert(args.push(x).drop_last() =~= args);
}

pub proof fn lemma_trailers_located_push(tr: Seq<Vec<Par>>, t: Vec<Par>, ts: Seq<SpannedTok>, a: int)
    requires
        trailers_located(tr, ts, a),
        pars_located(t@, ts, a + trailers_toks(tr).len() + 3),
    ensures
        trailers_located(tr.push(t), ts, a),
{
    assert(tr.push(t).drop_last() =~= tr);
}

pub proof fn lemma_pars_located_push(ps: Seq<Par>, p: Par, ts: Seq<SpannedTok>, a: int)
    requires
        pars_located(ps, ts, a),
        ps.len() == 0 ==> par_located(p, ts, a),
        ps.len() > 0 ==> par_located(p, ts, a + pars_toks(ps).len() + 1),
    ensures
        pars_located(ps.push(p), ts, a),
{
    assert(ps.push(p).drop_last() =~= ps);
    if ps.len() == 0 {
        assert(ps.push(p)[0] == p);
    }
}

pub proof fn lemma_parts_located_push(ps: Seq<ParPart>, p: ParPart, ts: Seq<SpannedTok>, a: int)
    requires
        parts_located(ps, ts, a),
        part_located(p, ts, a + parts_toks(ps).len()),
    ensures
        parts_located(ps.push(p), ts, a),
{
    assert(ps.push(p).drop_last() =~= ps);
}

/// A piece of content that one token writes, read at token `a` of `ts`,
/// carries the span of that very token, the one that holds its text.
pub proof fn lemma_piece_spans_its_token(c: Content, ts: Seq<SpannedTok>, a: int)
    requires
        content_located(c, ts, a),
        0 <= a,
        a + content_toks(c).len() <= ts.len(),
        toks_v(ts, a, a + content_toks(c).len()) == content_toks(c),
    ensures
        c matches Content::Word { word, loc } ==> tv(ts[a].1) == TokV::Word(word@) && loc == Location::between(
            ts[a].0,
            ts[a].2,
        ),
        c matches Content::Whitespace { whitespace, loc } ==> tv(ts[a].1) == TokV::Whitespace(whitespace@) && loc
            == Location::between(ts[a].0, ts[a].2),
        c matches Content::Verbatim { verbatim, loc } ==> tv(ts[a].1) == TokV::Verbatim(verbatim@) && loc
            == Location::between(ts[a].0, ts[a].2),
        c matches Content::Comment { comment, loc } ==> tv(ts[a].1) == TokV::Comment(comment@) && loc
            == Location::between(ts[a].0, ts[a].2),
        c matches Content::SpiltGlue { raw, loc } ==> tv(ts[a].1) == TokV::SpiltGlue(raw@) && loc
            == Location::between(ts[a].0, ts[a].2),
        c matches Content::Shebang { text, loc } ==> tv(ts[a].1) == TokV::Shebang(text@) && loc
            == Location::between(ts[a].0, ts[a].2),
        c matches Content::Dash { loc, .. } ==> tv(ts[a].1) is Dash && loc == Location::between(ts[a].0, ts[a].2),
        c matches Content::Glue { loc, .. } ==> tv(ts[a].1) is Glue && loc == Location::between(ts[a].0, ts[a].2),
        c matches Content::Sugar(Sugar::Mark { mark, loc }) ==> tv(ts[a].1) == TokV::Mark(mark@) && loc
            == Location::between(ts[a].0, ts[a].2),
        c matches Content::Sugar(Sugar::Reference { reference, loc }) ==> tv(ts[a].1) == TokV::Reference(
            reference@,
        ) && loc == Location::between(ts[a].0, ts[a].2),
{
    if content_toks(c).len() > 0 {
        assert(toks_v(ts, a, a + content_toks(c).len())[0] == tv(ts[a].1));
    }
}

/// Emphasis read from token `a` of `ts` on carries the span from the start
/// of its opening delimiter to the end of its closing one, and the tokens
/// between the two are those of its content.
pub proof fn lemma_emph_spans_delimiters(s: Sugar, ts: Seq<SpannedTok>, a: int)
    requires
        sugar_located(s, ts, a),
        0 <= a,
        a + sugar_toks(s).len() <= ts.len(),
        toks_v(ts, a, a + sugar_toks(s).len()) == sugar_toks(s),
    ensures
        ({
            let k = a + sugar_toks(s).len() - 1;
            &&& s matches Sugar::Italic { delimiter, arg, loc } ==> tv(ts[a].1) == TokV::ItalicOpen(delimiter@) && tv(
                ts[k].1,
            ) == TokV::ItalicClose && toks_v(ts, a + 1, k) == contents_toks(arg@) && loc == Location::between(
                ts[a].0,
                ts[k].2,
            )
            &&& s matches Sugar::Bold { delimiter, arg, loc } ==> tv(ts[a].1) == TokV::BoldOpen(delimiter@) && tv(
                ts[k].1,
            ) == TokV::BoldClose && toks_v(ts, a + 1, k) == contents_toks(arg@) && loc == Location::between(
                ts[a].0,
                ts[k].2,
            )
            &&& s matches Sugar::Monospace { arg, loc } ==> tv(ts[a].1) == TokV::MonospaceOpen && tv(ts[k].1)
                == TokV::MonospaceClose && toks_v(ts, a + 1, k) == contents_toks(arg@) && loc == Location::between(
                ts[a].0,
                ts[k].2,
            )
            &&& s matches Sugar::Smallcaps { arg, loc } ==> tv(ts[a].1) == TokV::SmallcapsOpen && tv(ts[k].1)
                == TokV::SmallcapsClose && toks_v(ts, a + 1, k) == contents_toks(arg@) && loc == Location::between(
                ts[a].0,
                ts[k].2,
            )
            &&& s matches Sugar::AlternateFace { arg, loc } ==> tv(ts[a].1) == TokV::AlternateFaceOpen && tv(ts[k].1)
                == TokV::AlternateFaceClose && toks_v(ts, a + 1, k) == contents_toks(arg@) && loc
                == Location::between(ts[a].0, ts[k].2)
        }),
{
    let n = sugar_toks(s).len();
    let v = toks_v(ts, a, a + n);
    match s {
        Sugar::Italic { arg, .. } | Sugar::Bold { arg, .. } | Sugar::Monospace { arg, .. } | Sugar::Smallcaps {
            arg,
            ..
        } | Sugar::AlternateFace { arg, .. } => {
            let m = contents_toks(arg@).len();
            assert(n == m + 2);
            assert(v[0] == tv(ts[a].1));
            assert(v[n - 1] == tv(ts[a + n - 1].1));
            assert(toks_v(ts, a + 1, a + n - 1) =~= v.subrange(1, n - 1));
            assert(sugar_toks(s).subrange(1, n - 1) =~= contents_toks(arg@));
        },
        _ => {},
    }
}

/// An attribute list read from token `a` of `ts` on carries the span from
/// the start of its `[` token to the end of its `]` token, the tokens
/// between the two being its attributes and commas.
pub proof fn lemma_attrs_span_brackets(l: Attrs, ts: Seq<SpannedTok>, a: int)
    requires
        attrs_located(Some(l), ts, a),
        0 <= a,
        a + attrs_toks(Some(l)).len() <= ts.len(),
        toks_v(ts, a, a + attrs_toks(Some(l)).len()) == attrs_toks(Some(l)),
    ensures
        ({
            let k = a + attrs_toks(Some(l)).len() - 1;
            &&& a < k
            &&& tv(ts[a].1) == TokV::LBracket
            &&& tv(ts[k].1) == TokV::RBracket
            &&& toks_v(ts, a + 1, k) == attr_list_toks(l.attrs@)
            &&& l.loc == Some(Location::between(ts[a].0, ts[k].2))
        }),
{
    let n = attrs_toks(Some(l)).len();
    let v = toks_v(ts, a, a + n);
    let m = attr_list_toks(l.attrs@).len();
    assert(n == m + 2);
    assert(v[0] == tv(ts[a].1));
    assert(v[n - 1] == tv(ts[a + n - 1].1));
    assert(toks_v(ts, a + 1, a + n - 1) =~= v.subrange(1, n - 1));
    assert(attrs_toks(Some(l)).subrange(1, n - 1) =~= attr_list_toks(l.attrs@));
}

/// Piece `k` of a located run is located where the pieces before it end.
pub proof fn lemma_contents_located_at(cs: Seq<Content>, ts: Seq<SpannedTok>, a: int, k: int)
    requires
        contents_located(cs, ts, a),
        0 <= k < cs.len(),
    ensures
        content_located(cs[k], ts, a + contents_toks(cs.take(k)).len()),
    decreases cs.len(),
{
    if k == cs.len() - 1 {
        assert(cs.take(k) =~= cs.drop_last());
    } else {
        lemma_contents_located_at(cs.drop_last(), ts, a, k);
        assert(cs.drop_last().take(k) =~= cs.take(k));
        assert(cs.drop_last()[k] == cs[k]);
    }
}

/// Part `k` of located parts is located where the parts before it end.
pub proof fn lemma_parts_located_at(ps: Seq<ParPart>, ts: Seq<SpannedTok>, a: int, k: int)
    requires
        parts_located(ps, ts, a),
        0 <= k < ps.len(),
    ensures
        part_located(ps[k], ts, a + parts_toks(ps.take(k)).len()),
    decreases ps.len(),
{
    if k == ps.len() - 1 {
        assert(ps.take(k) =~= ps.drop_last());
    } else {
        lemma_parts_located_at(ps.drop_last(), ts, a, k);
        assert(ps.drop_last().take(k) =~= ps.take(k));
        assert(ps.drop_last()[k] == ps[k]);
    }
}

/// Paragraph `k` of located paragraphs is located after the break before
/// it.
pub proof fn lemma_pars_located_at(ps: Seq<Par>, ts: Seq<SpannedTok>, a: int, k: int)
    requires
        pars_located(ps, ts, a),
        0 <= k < ps.len(),
    ensures
        par_located(ps[k], ts, a + pars_toks(ps.take(k)).len() + par_sep(k).len()),
    decreases ps.len(),
{
    if k == 0 {
        assert(pars_toks(ps.take(0)) =~= Seq::<TokV>::empty());
    }
    if ps.len() == 1 {
    } else if k == ps.len() - 1 {
        assert(ps.take(k) =~= ps.drop_last());
    } else {
        lemma_pars_located_at(ps.drop_last(), ts, a, k);
        assert(ps.drop_last().take(k) =~= ps.take(k));
        assert(ps.drop_last()[k] == ps[k]);
    }
}

/// Piece `i` of the line that is part `m` of paragraph `k` of a document
/// read from `ts`, with each part carrying the span of its tokens: it is
/// read from tokens of `ts` from some `j` on, where it is located.
pub proof fn lemma_document_piece(f: File, ts: Seq<SpannedTok>, k: int, m: int, cs: Vec<Content>, i: int) -> (j: int)
    requires
        file_located(f, ts),
        reads_as(ts, f),
        0 <= k < f.pars@.len(),
        0 <= m < f.pars@[k].parts@.len(),
        f.pars@[k].parts@[m] == ParPart::Line(cs),
        0 <= i < cs@.len(),
    ensures
        reads(ts, j, content_toks(cs@[i])),
        content_located(cs@[i], ts, j),
{
    let ps = f.pars@;
    let x = pars_toks(ps);
    assert(reads(ts, 0, x)) by {
        let n = ts.len() as int;
        let w = toks_v(ts, 0, n);
        assert(w.len() == n);
        if w == x {
            assert(toks_v(ts, 0, x.len() as int) =~= w);
        } else {
            assert(w == x.push(TokV::ParBreak));
            assert(toks_v(ts, 0, x.len() as int) =~= w.subrange(0, x.len() as int));
            assert(w.subrange(0, x.len() as int) =~= x);
        }
    }
    lemma_pars_at(ts, 0, ps, k);
    let a: int = (pars_toks(ps.take(k)).len() + par_sep(k).len()) as int;
    lemma_pars_located_at(ps, ts, 0, k);
    let parts = ps[k].parts@;
    lemma_parts_at(ts, a, parts, m);
    lemma_parts_located_at(parts, ts, a, m);
    let b: int = a + parts_toks(parts.take(m)).len();
    assert(part_toks(parts[m]) == contents_toks(cs@) + seq![TokV::Newline]);
    assert(reads(ts, b, contents_toks(cs@))) by {
        let lc: int = contents_toks(cs@).len() as int;
        let lp: int = part_toks(parts[m]).len() as int;
        assert(toks_v(ts, b, b + lc) =~= toks_v(ts, b, b + lp).subrange(0, lc));
        assert(part_toks(parts[m]).subrange(0, lc) =~= contents_toks(cs@));
    }
    lemma_contents_at(ts, b, cs@, i);
    lemma_contents_located_at(cs@, ts, b, i);
    b + contents_toks(cs@.take(i)).len() as int
}

/// In a document read from `ts` with each part carrying the span of its
/// tokens, a word in a line carries the span of the one token that holds
/// it; emphasis, the span from its opening delimiter to its closing one;
/// a command's attribute list, the span from its `[` to its `]`; and each
/// attribute in it, the span of its own token.
pub proof fn lemma_document_spans(f: File, ts: Seq<SpannedTok>, k: int, m: int, cs: Vec<Content>, i: int)
    requires
        file_located(f, ts),
        reads_as(ts, f),
        0 <= k < f.pars@.len(),
        0 <= m < f.pars@[k].parts@.len(),
        f.pars@[k].parts@[m] == ParPart::Line(cs),
        0 <= i < cs@.len(),
    ensures
        cs@[i] matches Content::Word { word, loc } ==> exists|j: int|
            0 <= j < ts.len() && tv(ts[j].1) == TokV::Word(word@) && loc == Location::between(ts[j].0, ts[j].2),
        cs@[i] matches Content::Sugar(Sugar::Italic { delimiter, loc, .. }) ==> exists|j: int, e: int|
            0 <= j < e < ts.len() && tv(ts[j].1) == TokV::ItalicOpen(delimiter@) && tv(ts[e].1) == TokV::ItalicClose
                && loc == Location::between(ts[j].0, ts[e].2),
        cs@[i] matches Content::Sugar(Sugar::Bold { delimiter, loc, .. }) ==> exists|j: int, e: int|
            0 <= j < e < ts.len() && tv(ts[j].1) == TokV::BoldOpen(delimiter@) && tv(ts[e].1) == TokV::BoldClose
                && loc == Location::between(ts[j].0, ts[e].2),
        cs@[i] matches Content::Command { attrs: Some(l), .. } ==> exists|j: int, e: int|
            0 <= j < e < ts.len() && tv(ts[j].1) == TokV::LBracket && tv(ts[e].1) == TokV::RBracket && l.loc == Some(
                Location::between(ts[j].0, ts[e].2),
            ),
        cs@[i] matches Content::Command { attrs: Some(l), .. } ==> forall|x: int| 0 <= x < l.attrs@.len() ==> exists|j: int|
            0 <= j < ts.len() && tv(ts[j].1) == attr_tok(#[trigger] l.attrs@[x]) && match l.attrs@[x] {
                Attr::Named { loc, .. } => loc == Some(Location::between(ts[j].0, ts[j].2)),
                Attr::Unnamed { loc, .. } => loc == Some(Location::between(ts[j].0, ts[j].2)),
            },
{
    let j = lemma_document_piece(f, ts, k, m, cs, i);
    let c = cs@[i];
    lemma_piece_spans_its_token(c, ts, j);
    match c {
        Content::Sugar(s) => {
            lemma_emph_spans_delimiters(s, ts, j);
            let e = j + sugar_toks(s).len() - 1;
            if let Sugar::Italic { .. } = s {
                assert(0 <= j < e < ts.len());
            }
            if let Sugar::Bold { .. } = s {
                assert(0 <= j < e < ts.len());
            }
        },
        Content::Command { attrs: Some(l), .. } => {
            let n: int = attrs_toks(Some(l)).len() as int;
            assert(content_toks(c).subrange(1, 1 + n) =~= attrs_toks(Some(l)));
            assert(toks_v(ts, j + 1, j + 1 + n) =~= toks_v(ts, j, j + content_toks(c).len()).subrange(1, 1 + n));
            lemma_attrs_span_brackets(l, ts, j + 1);
            assert(0 <= j + 1 < j + n < ts.len());
            assert forall|x: int| 0 <= x < l.attrs@.len() implies exists|jj: int|
                0 <= jj < ts.len() && tv(ts[jj].1) == attr_tok(#[trigger] l.attrs@[x]) && match l.attrs@[x] {
                    Attr::Named { loc, .. } => loc == Some(Location::between(ts[jj].0, ts[jj].2)),
                    Attr::Unnamed { loc, .. } => loc == Some(Location::between(ts[jj].0, ts[jj].2)),
                } by {
                lemma_attr_spans_its_token(l, ts, j + 1, x);
            }
        },
        _ => {},
    }
}

/// Attribute `k` of a located list is located at its own token, after the
/// comma before it if it is not the first.
pub proof fn lemma_attr_list_located_at(xs: Seq<Attr>, ts: Seq<SpannedTok>, a: int, k: int)
    requires
        attr_list_located(xs, ts, a),
        0 <= k < xs.len(),
    ensures
        attr_located(xs[k], ts, a + attr_list_toks(xs.take(k)).len() + if k > 0 { 1int } else { 0int }),
    decreases xs.len(),
{
    if k == 0 {
        assert(attr_list_toks(xs.take(0)) =~= Seq::<TokV>::empty());
    }
    if xs.len() == 1 {
    } else if k == xs.len() - 1 {
        assert(xs.take(k) =~= xs.drop_last());
    } else {
        lemma_attr_list_located_at(xs.drop_last(), ts, a, k);
        assert(xs.drop_last().take(k) =~= xs.take(k));
        assert(xs.drop_last()[k] == xs[k]);
    }
}

/// Each attribute of an attribute list read from token `a` of `ts` on
/// carries the span of the one token that writes it.
pub proof fn lemma_attr_spans_its_token(l: Attrs, ts: Seq<SpannedTok>, a: int, k: int)
    requires
        attrs_located(Some(l), ts, a),
        reads(ts, a, attrs_toks(Some(l))),
        0 <= k < l.attrs@.len(),
    ensures
        exists|j: int|
            0 <= j < ts.len() && tv(ts[j].1) == attr_tok(l.attrs@[k]) && match l.attrs@[k] {
                Attr::Named { loc, .. } => loc == Some(Location::between(ts[j].0, ts[j].2)),
                Attr::Unnamed { loc, .. } => loc == Some(Location::between(ts[j].0, ts[j].2)),
            },
{
    let xs = l.attrs@;
    let n: int = attrs_toks(Some(l)).len() as int;
    let m: int = attr_list_toks(xs).len() as int;
    assert(reads(ts, a + 1, attr_list_toks(xs))) by {
        assert(toks_v(ts, a + 1, a + 1 + m) =~= toks_v(ts, a, a + n).subrange(1, 1 + m));
        assert(attrs_toks(Some(l)).subrange(1, 1 + m) =~= attr_list_toks(xs));
    }
    lemma_attrs_at(ts, a + 1, xs, k);
    lemma_attr_list_located_at(xs, ts, a + 1, k);
    let b = a + 1 + attr_list_toks(xs.take(k)).len();
    let j = b + if k > 0 { 1int } else { 0int };
    let piece = attr_piece(k, xs[k]);
    assert(toks_v(ts, b, b + piece.len())[j - b] == tv(ts[j].1));
    assert(piece[j - b] == attr_tok(xs[k]));
}

} // verus!
