//! The grammar of Emblem documents, read as the tokens that each part of a
//! syntax tree is written with.
use vstd::prelude::*;
use crate::ast::parsed::{Attr, Attrs, Content, MultiLineComment, MultiLineCommentPart, Sugar};
use crate::ast::{dash_text, glue_text, Dash, File, Glue, Par, ParPart};
use crate::emblem_core::parser::lexer::SpannedTok;
use crate::emblem_core::parser::token::{first_index_of, tv, TokV};

verus! {

/// The tokens from `a` up to `b` of `ts`, as values.
pub open spec fn toks_v(ts: Seq<SpannedTok>, a: int, b: int) -> Seq<TokV> {
    ts.subrange(a, b).map_values(|t: SpannedTok| tv(t.1))
}

pub proof fn lemma_toks_v_split(ts: Seq<SpannedTok>, a: int, b: int, c: int)
    requires
        0 <= a <= b <= c <= ts.len(),
    ensures
        toks_v(ts, a, c) == toks_v(ts, a, b) + toks_v(ts, b, c),
{
    assert(toks_v(ts, a, c) =~= toks_v(ts, a, b) + toks_v(ts, b, c));
}

pub proof fn lemma_toks_v_one(ts: Seq<SpannedTok>, a: int)
    requires
        0 <= a < ts.len(),
    ensures
        toks_v(ts, a, a + 1) == seq![tv(ts[a].1)],
{
    assert(toks_v(ts, a, a + 1) =~= seq![tv(ts[a].1)]);
}

pub proof fn lemma_toks_v_empty(ts: Seq<SpannedTok>, a: int)
    requires
        0 <= a <= ts.len(),
    ensures
        toks_v(ts, a, a) == Seq::<TokV>::empty(),
{
    assert(toks_v(ts, a, a) =~= Seq::<TokV>::empty());
}

/// The value of an optional text.
pub open spec fn opt_view(o: Option<String>) -> Option<Seq<char>> {
    match o {
        Some(s) => Some(s@),
        None => None,
    }
}

/// The token of an attribute.
pub open spec fn attr_tok(a: Attr) -> TokV {
    match a {
        Attr::Named { raw, .. } => TokV::NamedAttr(raw@),
        Attr::Unnamed { raw, .. } => TokV::UnnamedAttr(raw@),
    }
}

/// The tokens of attributes separated by commas.
pub open spec fn attr_list_toks(xs: Seq<Attr>) -> Seq<TokV>
    decreases xs.len(),
{
    if xs.len() == 0 {
        seq![]
    } else if xs.len() == 1 {
        seq![attr_tok(xs[0])]
    } else {
        attr_list_toks(xs.drop_last()) + seq![TokV::AttrComma, attr_tok(xs.last())]
    }
}

/// The tokens of an attribute list, where there is one.
pub open spec fn attrs_toks(a: Option<Attrs>) -> Seq<TokV> {
    match a {
        Some(a) => seq![TokV::LBracket] + attr_list_toks(a.attrs@) + seq![TokV::RBracket],
        None => seq![],
    }
}

/// The tokens of a multi-line comment.
pub open spec fn mlc_toks(m: MultiLineComment) -> Seq<TokV>
    decreases m,
{
    seq![TokV::NestedCommentOpen] + mlc_parts_toks(m.parts@) + seq![TokV::NestedCommentClose]
}

/// The tokens of the parts of a multi-line comment.
pub open spec fn mlc_parts_toks(ps: Seq<MultiLineCommentPart>) -> Seq<TokV>
    decreases ps,
{
    if ps.len() == 0 {
        seq![]
    } else {
        mlc_parts_toks(ps.drop_last()) + match ps.last() {
            MultiLineCommentPart::Newline => seq![TokV::Newline],
            MultiLineCommentPart::Comment(s) => seq![TokV::Comment(s@)],
            MultiLineCommentPart::Nested(m) => mlc_toks(m),
        }
    }
}

/// The tokens of a piece of content.
pub open spec fn content_toks(c: Content) -> Seq<TokV>
    decreases c,
{
    match c {
        Content::Shebang { text, .. } => seq![TokV::Shebang(text@)],
        Content::Command { qualifier, name, pluses, attrs, inline_args, remainder_arg, trailer_args, .. } => {
            seq![TokV::Command { qualifier: opt_view(qualifier), name: name@, pluses: pluses as nat }]
                + attrs_toks(attrs) + inline_args_toks(inline_args@) + match remainder_arg {
                Some(r) => seq![TokV::Colon] + contents_toks(r@),
                None => seq![],
            } + trailers_toks(trailer_args@)
        },
        Content::Sugar(s) => sugar_toks(s),
        Content::Word { word, .. } => seq![TokV::Word(word@)],
        Content::Whitespace { whitespace, .. } => seq![TokV::Whitespace(whitespace@)],
        Content::Dash { dash, .. } => seq![TokV::Dash(dash_text(dash))],
        Content::Glue { glue, .. } => seq![TokV::Glue(glue_text(glue))],
        Content::SpiltGlue { raw, .. } => seq![TokV::SpiltGlue(raw@)],
        Content::Verbatim { verbatim, .. } => seq![TokV::Verbatim(verbatim@)],
        Content::Comment { comment, .. } => seq![TokV::Comment(comment@)],
        Content::MultiLineComment { content, .. } => mlc_toks(content),
    }
}

/// The tokens of syntactic sugar.
pub open spec fn sugar_toks(s: Sugar) -> Seq<TokV>
    decreases s,
{
    match s {
        Sugar::Italic { delimiter, arg, .. } => seq![TokV::ItalicOpen(delimiter@)] + contents_toks(arg@)
            + seq![TokV::ItalicClose],
        Sugar::Bold { delimiter, arg, .. } => seq![TokV::BoldOpen(delimiter@)] + contents_toks(arg@)
            + seq![TokV::BoldClose],
        Sugar::Monospace { arg, .. } => seq![TokV::MonospaceOpen] + contents_toks(arg@) + seq![
            TokV::MonospaceClose,
        ],
        Sugar::Smallcaps { arg, .. } => seq![TokV::SmallcapsOpen] + contents_toks(arg@) + seq![
            TokV::SmallcapsClose,
        ],
        Sugar::AlternateFace { arg, .. } => seq![TokV::AlternateFaceOpen] + contents_toks(arg@) + seq![
            TokV::AlternateFaceClose,
        ],
        Sugar::Heading { level, pluses, gap, arg, .. } => seq![
            TokV::Heading { level: level as nat, pluses: pluses as nat },
            TokV::Whitespace(gap@),
        ] + contents_toks(arg@),
        Sugar::Mark { mark, .. } => seq![TokV::Mark(mark@)],
        Sugar::Reference { reference, .. } => seq![TokV::Reference(reference@)],
    }
}

/// The tokens of a run of content.
pub open spec fn contents_toks(cs: Seq<Content>) -> Seq<TokV>
    decreases cs,
{
    if cs.len() == 0 {
        seq![]
    } else {
        contents_toks(cs.drop_last()) + content_toks(cs.last())
    }
}

/// The tokens of inline arguments: each in braces.
pub open spec fn inline_args_toks(args: Seq<Vec<Content>>) -> Seq<TokV>
    decreases args,
{
    if args.len() == 0 {
        seq![]
    } else {
        inline_args_toks(args.drop_last()) + seq![TokV::LBrace] + contents_toks(args.last()@) + seq![
            TokV::RBrace,
        ]
    }
}

/// The tokens of trailer arguments: the first opened by a colon, the others
/// by a double colon, each on indented lines below.
pub open spec fn trailers_toks(ts: Seq<Vec<Par>>) -> Seq<TokV>
    decreases ts,
{
    if ts.len() == 0 {
        seq![]
    } else {
        trailers_toks(ts.drop_last()) + seq![
            if ts.len() == 1 { TokV::Colon } else { TokV::DoubleColon },
            TokV::Newline,
            TokV::Indent,
        ] + pars_toks(ts.last()@) + seq![TokV::Dedent]
    }
}

/// The tokens of paragraphs, separated by paragraph breaks.
pub open spec fn pars_toks(ps: Seq<Par>) -> Seq<TokV>
    decreases ps,
{
    if ps.len() == 0 {
        seq![]
    } else if ps.len() == 1 {
        par_toks(ps[0])
    } else {
        pars_toks(ps.drop_last()) + seq![TokV::ParBreak] + par_toks(ps.last())
    }
}

/// The tokens of a paragraph.
pub open spec fn par_toks(p: Par) -> Seq<TokV>
    decreases p,
{
    parts_toks(p.parts@)
}

/// The tokens of the parts of a paragraph.
pub open spec fn parts_toks(ps: Seq<ParPart>) -> Seq<TokV>
    decreases ps,
{
    if ps.len() == 0 {
        seq![]
    } else {
        parts_toks(ps.drop_last()) + part_toks(ps.last())
    }
}

/// The tokens of a part of a paragraph: a line ends in a newline.
pub open spec fn part_toks(p: ParPart) -> Seq<TokV>
    decreases p,
{
    match p {
        ParPart::Command(c) => content_toks(c),
        ParPart::Line(cs) => contents_toks(cs@) + seq![TokV::Newline],
    }
}

/// The tokens of a document.
pub open spec fn file_toks(f: File) -> Seq<TokV> {
    pars_toks(f.pars@)
}

/// Whether a piece of content is a command with a remainder argument.
pub open spec fn has_remainder(c: Content) -> bool {
    c matches Content::Command { remainder_arg: Some(_), .. }
}

/// A piece of content that stands within a line and that the parser reads
/// back from its tokens.
pub open spec fn inline_ok(c: Content) -> bool
    decreases c,
{
    match c {
        Content::Command { attrs, inline_args, remainder_arg, trailer_args, .. } => {
            &&& attrs_ok(attrs)
            &&& forall|i: int| 0 <= i < inline_args@.len() ==> run_ok(#[trigger] inline_args@[i]@)
            &&& trailer_args@.len() == 0
            &&& match remainder_arg {
                Some(r) => r@.len() > 0 && run_ok(r@),
                None => true,
            }
        },
        Content::Sugar(s) => match s {
            Sugar::Italic { arg, .. } => run_ok(arg@),
            Sugar::Bold { arg, .. } => run_ok(arg@),
            Sugar::Monospace { arg, .. } => run_ok(arg@),
            Sugar::Smallcaps { arg, .. } => run_ok(arg@),
            Sugar::AlternateFace { arg, .. } => run_ok(arg@),
            Sugar::Heading { .. } => false,
            _ => true,
        },
        _ => true,
    }
}

/// A run of content that the parser reads back: each piece does, and only
/// the last may have a remainder argument, which takes the rest of the run.
pub open spec fn run_ok(cs: Seq<Content>) -> bool
    decreases cs,
{
    forall|i: int| 0 <= i < cs.len() ==> inline_ok(#[trigger] cs[i]) && (i + 1 < cs.len() ==> !has_remainder(cs[i]))
}

/// An attribute that the parser reads back: a named one holds an `=`, and
/// splits at its first one.
pub open spec fn attr_ok(a: Attr) -> bool {
    match a {
        Attr::Named { raw, eq_idx, .. } => first_index_of(raw@, '=') == Some(eq_idx as nat),
        Attr::Unnamed { .. } => true,
    }
}

/// An attribute list, where there is one, that the parser reads back.
pub open spec fn attrs_ok(a: Option<Attrs>) -> bool {
    match a {
        Some(a) => forall|i: int| 0 <= i < a.attrs@.len() ==> attr_ok(#[trigger] a.attrs@[i]),
        None => true,
    }
}

/// A heading that the parser reads back: its gap, then some content.
pub open spec fn heading_ok(c: Content) -> bool {
    c matches Content::Sugar(Sugar::Heading { arg, .. }) && arg@.len() > 0 && run_ok(arg@)
}

/// A part of a paragraph that the parser reads back: a line holding a
/// heading alone or a run of content, or a command with trailer arguments
/// and no remainder argument.
pub open spec fn part_ok(p: ParPart) -> bool
    decreases p,
{
    match p {
        ParPart::Line(cs) => (cs@.len() == 1 && heading_ok(cs@[0])) || run_ok(cs@),
        ParPart::Command(c) => match c {
            Content::Command { attrs, inline_args, remainder_arg, trailer_args, .. } => {
                &&& attrs_ok(attrs)
                &&& forall|i: int| 0 <= i < inline_args@.len() ==> run_ok(#[trigger] inline_args@[i]@)
                &&& remainder_arg is None
                &&& trailer_args@.len() > 0
                &&& forall|i: int| 0 <= i < trailer_args@.len() ==> pars_ok(#[trigger] trailer_args@[i]@)
            },
            _ => false,
        },
    }
}

/// A paragraph that the parser reads back: one or more parts that it does.
pub open spec fn par_ok(p: Par) -> bool
    decreases p,
{
    p.parts@.len() > 0 && forall|i: int| 0 <= i < p.parts@.len() ==> part_ok(#[trigger] p.parts@[i])
}

/// Paragraphs that the parser reads back: one or more that it does.
pub open spec fn pars_ok(ps: Seq<Par>) -> bool
    decreases ps,
{
    ps.len() > 0 && forall|i: int| 0 <= i < ps.len() ==> par_ok(#[trigger] ps[i])
}

/// A document that the parser reads back.
pub open spec fn file_ok(f: File) -> bool {
    pars_ok(f.pars@)
}

/// `f` is what the tokens `ts` read as: they write it, perhaps with one
/// more paragraph break at the end.
pub open spec fn reads_as(ts: Seq<SpannedTok>, f: File) -> bool {
    ||| toks_v(ts, 0, ts.len() as int) == file_toks(f)
    ||| toks_v(ts, 0, ts.len() as int) == file_toks(f).push(TokV::ParBreak)
}

/// Tokens that start a piece of content.
pub open spec fn opens_inline(v: TokV) -> bool {
    ||| v is Word
    ||| v is Whitespace
    ||| v is Dash
    ||| v is Glue
    ||| v is SpiltGlue
    ||| v is Verbatim
    ||| v is Comment
    ||| v is NestedCommentOpen
    ||| v is Mark
    ||| v is Reference
    ||| v is Shebang
    ||| v is ItalicOpen
    ||| v is BoldOpen
    ||| v is MonospaceOpen
    ||| v is SmallcapsOpen
    ||| v is AlternateFaceOpen
    ||| v is Command
}

/// Tokens that start a part of a paragraph.
pub open spec fn opens_part(v: TokV) -> bool {
    opens_inline(v) || v is Heading || v is Newline
}

/// A token that can follow a piece of content without being read as more
/// of it: no attribute list, inline argument or colon.
pub open spec fn may_follow(v: TokV) -> bool {
    !(v is LBracket) && !(v is LBrace) && !(v is Colon)
}

/// A token that ends a run of content.
pub open spec fn ends_run(v: TokV) -> bool {
    !opens_inline(v) && may_follow(v)
}

/// The tokens of `ts` from `a` on begin with `x`.
pub open spec fn reads(ts: Seq<SpannedTok>, a: int, x: Seq<TokV>) -> bool {
    0 <= a && a + x.len() <= ts.len() && toks_v(ts, a, a + x.len()) == x
}

/// The tokens stop at `e`, or the token there satisfies `ok`.
pub open spec fn end_or(ts: Seq<SpannedTok>, e: int, ok: spec_fn(TokV) -> bool) -> bool {
    e == ts.len() || (0 <= e < ts.len() && ok(tv(ts[e].1)))
}

/// What may follow a piece of content at `e`: where it has a remainder
/// argument, the end of the run; where it has trailer arguments, anything
/// but a double colon; otherwise anything that does not continue it.
pub open spec fn content_end(c: Content, ts: Seq<SpannedTok>, e: int) -> bool {
    if has_remainder(c) {
        end_or(ts, e, |v: TokV| ends_run(v))
    } else if c matches Content::Command { trailer_args, .. } && trailer_args@.len() > 0 {
        end_or(ts, e, |v: TokV| !(v is DoubleColon))
    } else {
        end_or(ts, e, |v: TokV| may_follow(v))
    }
}

/// What may follow a paragraph: no part of a paragraph, no double colon.
pub open spec fn par_end(ts: Seq<SpannedTok>, e: int) -> bool {
    end_or(ts, e, |v: TokV| !opens_part(v) && !(v is DoubleColon))
}

/// What may follow paragraphs: as a paragraph, and no paragraph break.
pub open spec fn pars_end(ts: Seq<SpannedTok>, e: int) -> bool {
    end_or(ts, e, |v: TokV| !opens_part(v) && !(v is DoubleColon) && !(v is ParBreak))
}

/// A part of tokens that read as `x` reads as that part of `x`.
pub proof fn lemma_toks_v_sub(ts: Seq<SpannedTok>, a: int, x: Seq<TokV>, i: int, j: int)
    requires
        reads(ts, a, x),
        0 <= i <= j <= x.len(),
    ensures
        reads(ts, a + i, x.subrange(i, j)),
        i < x.len() ==> tv(ts[a + i].1) == x[i],
{
    assert forall|m: int| 0 <= m < j - i implies #[trigger] toks_v(ts, a + i, a + j)[m] == x.subrange(i, j)[m] by {
        assert(toks_v(ts, a, a + x.len())[i + m] == x[i + m]);
    }
    assert(toks_v(ts, a + i, a + j) =~= x.subrange(i, j));
    if i < x.len() {
        assert(toks_v(ts, a, a + x.len())[i] == x[i]);
    }
}

/// Tokens that read as `x + y` read as `x`, then as `y`.
pub proof fn lemma_reads_split(ts: Seq<SpannedTok>, a: int, x: Seq<TokV>, y: Seq<TokV>)
    requires
        reads(ts, a, x + y),
    ensures
        reads(ts, a, x),
        reads(ts, a + x.len(), y),
{
    lemma_toks_v_sub(ts, a, x + y, 0, x.len() as int);
    lemma_toks_v_sub(ts, a, x + y, x.len() as int, (x + y).len() as int);
    assert((x + y).subrange(0, x.len() as int) =~= x);
    assert((x + y).subrange(x.len() as int, (x + y).len() as int) =~= y);
}

/// Tokens that read as `x` read as each beginning of it.
pub proof fn lemma_reads_prefix(ts: Seq<SpannedTok>, a: int, x: Seq<TokV>, y: Seq<TokV>)
    requires
        reads(ts, a, x),
        y.is_prefix_of(x),
    ensures
        reads(ts, a, y),
{
    lemma_toks_v_sub(ts, a, x, 0, y.len() as int);
    assert(x.subrange(0, y.len() as int) =~= y);
}

/// Where `before + piece` begins `x`, tokens that read as `x` read as
/// `piece` where `before` ends.
pub proof fn lemma_reads_piece(ts: Seq<SpannedTok>, a: int, x: Seq<TokV>, before: Seq<TokV>, piece: Seq<TokV>)
    requires
        reads(ts, a, x),
        (before + piece).is_prefix_of(x),
    ensures
        reads(ts, a, before),
        reads(ts, a + before.len(), piece),
{
    lemma_reads_prefix(ts, a, x, before + piece);
    lemma_reads_split(ts, a, before, piece);
}

/// The first token that tokens read as.
pub proof fn lemma_reads_first(ts: Seq<SpannedTok>, a: int, x: Seq<TokV>)
    requires
        reads(ts, a, x),
        x.len() > 0,
    ensures
        a < ts.len(),
        tv(ts[a].1) == x[0],
{
    lemma_toks_v_sub(ts, a, x, 0, 0);
}

pub proof fn lemma_contents_step(cs: Seq<Content>, k: int)
    requires
        0 <= k < cs.len(),
    ensures
        contents_toks(cs.take(k + 1)) == contents_toks(cs.take(k)) + content_toks(cs[k]),
{
    assert(cs.take(k + 1).drop_last() =~= cs.take(k));
}

pub proof fn lemma_contents_prefix(cs: Seq<Content>, k: int)
    requires
        0 <= k <= cs.len(),
    ensures
        contents_toks(cs.take(k)).is_prefix_of(contents_toks(cs)),
    decreases cs.len() - k,
{
    if k < cs.len() {
        lemma_contents_prefix(cs, k + 1);
        lemma_contents_step(cs, k);
        contents_toks(cs).lemma_prefix_concat(contents_toks(cs.take(k)), content_toks(cs[k]));
    } else {
        assert(cs.take(k) =~= cs);
        assert(contents_toks(cs).is_prefix_of(contents_toks(cs)));
    }
}

/// Within tokens that read as a run of content, piece `k` reads where
/// the pieces before it end.
pub proof fn lemma_contents_at(ts: Seq<SpannedTok>, a: int, cs: Seq<Content>, k: int)
    requires
        reads(ts, a, contents_toks(cs)),
        0 <= k < cs.len(),
    ensures
        reads(ts, a + contents_toks(cs.take(k)).len(), content_toks(cs[k])),
        contents_toks(cs.take(k + 1)).len() == contents_toks(cs.take(k)).len() + content_toks(cs[k]).len(),
{
    lemma_contents_prefix(cs, k + 1);
    lemma_contents_step(cs, k);
    lemma_reads_piece(ts, a, contents_toks(cs), contents_toks(cs.take(k)), content_toks(cs[k]));
}

pub proof fn lemma_parts_step(ps: Seq<ParPart>, k: int)
    requires
        0 <= k < ps.len(),
    ensures
        parts_toks(ps.take(k + 1)) == parts_toks(ps.take(k)) + part_toks(ps[k]),
{
    assert(ps.take(k + 1).drop_last() =~= ps.take(k));
}

pub proof fn lemma_parts_prefix(ps: Seq<ParPart>, k: int)
    requires
        0 <= k <= ps.len(),
    ensures
        parts_toks(ps.take(k)).is_prefix_of(parts_toks(ps)),
    decreases ps.len() - k,
{
    if k < ps.len() {
        lemma_parts_prefix(ps, k + 1);
        lemma_parts_step(ps, k);
        parts_toks(ps).lemma_prefix_concat(parts_toks(ps.take(k)), part_toks(ps[k]));
    } else {
        assert(ps.take(k) =~= ps);
        assert(parts_toks(ps).is_prefix_of(parts_toks(ps)));
    }
}

/// Within tokens that read as the parts of a paragraph, part `k` reads
/// where the parts before it end.
pub proof fn lemma_parts_at(ts: Seq<SpannedTok>, a: int, ps: Seq<ParPart>, k: int)
    requires
        reads(ts, a, parts_toks(ps)),
        0 <= k < ps.len(),
    ensures
        reads(ts, a + parts_toks(ps.take(k)).len(), part_toks(ps[k])),
        parts_toks(ps.take(k + 1)).len() == parts_toks(ps.take(k)).len() + part_toks(ps[k]).len(),
{
    lemma_parts_prefix(ps, k + 1);
    lemma_parts_step(ps, k);
    lemma_reads_piece(ts, a, parts_toks(ps), parts_toks(ps.take(k)), part_toks(ps[k]));
}

/// The paragraph break before paragraph `k`, if it is not the first.
pub open spec fn par_sep(k: int) -> Seq<TokV> {
    if k == 0 {
        seq![]
    } else {
        seq![TokV::ParBreak]
    }
}

pub proof fn lemma_pars_step(ps: Seq<Par>, k: int)
    requires
        0 <= k < ps.len(),
    ensures
        pars_toks(ps.take(k + 1)) == pars_toks(ps.take(k)) + par_sep(k) + par_toks(ps[k]),
{
    assert(ps.take(k + 1).drop_last() =~= ps.take(k));
    if k == 0 {
        assert(pars_toks(ps.take(0)) =~= Seq::<TokV>::empty());
        assert(Seq::<TokV>::empty() + seq![] + par_toks(ps[0]) =~= par_toks(ps[0]));
    }
}

pub proof fn lemma_pars_prefix(ps: Seq<Par>, k: int)
    requires
        0 <= k <= ps.len(),
    ensures
        pars_toks(ps.take(k)).is_prefix_of(pars_toks(ps)),
    decreases ps.len() - k,
{
    if k < ps.len() {
        lemma_pars_prefix(ps, k + 1);
        lemma_pars_step(ps, k);
        pars_toks(ps).lemma_prefix_concat(pars_toks(ps.take(k)) + par_sep(k), par_toks(ps[k]));
        pars_toks(ps).lemma_prefix_concat(pars_toks(ps.take(k)), par_sep(k));
    } else {
        assert(ps.take(k) =~= ps);
        assert(pars_toks(ps).is_prefix_of(pars_toks(ps)));
    }
}

/// Within tokens that read as paragraphs, paragraph `k` reads after the
/// break that follows the paragraphs before it.
pub proof fn lemma_pars_at(ts: Seq<SpannedTok>, a: int, ps: Seq<Par>, k: int)
    requires
        reads(ts, a, pars_toks(ps)),
        0 <= k < ps.len(),
    ensures
        reads(ts, a + pars_toks(ps.take(k)).len(), par_sep(k)),
        reads(ts, a + pars_toks(ps.take(k)).len() + par_sep(k).len(), par_toks(ps[k])),
        pars_toks(ps.take(k + 1)).len() == pars_toks(ps.take(k)).len() + par_sep(k).len() + par_toks(ps[k]).len(),
{
    lemma_pars_prefix(ps, k + 1);
    lemma_pars_step(ps, k);
    lemma_reads_piece(ts, a, pars_toks(ps), pars_toks(ps.take(k)) + par_sep(k), par_toks(ps[k]));
    lemma_reads_split(ts, a, pars_toks(ps.take(k)), par_sep(k));
}

pub proof fn lemma_args_step(args: Seq<Vec<Content>>, k: int)
    requires
        0 <= k < args.len(),
    ensures
        inline_args_toks(args.take(k + 1)) == inline_args_toks(args.take(k)) + (seq![TokV::LBrace]
            + contents_toks(args[k]@) + seq![TokV::RBrace]),
{
    assert(args.take(k + 1).drop_last() =~= args.take(k));
    assert(inline_args_toks(args.take(k + 1)) =~= inline_args_toks(args.take(k)) + (seq![TokV::LBrace]
        + contents_toks(args[k]@) + seq![TokV::RBrace]));
}

pub proof fn lemma_args_prefix(args: Seq<Vec<Content>>, k: int)
    requires
        0 <= k <= args.len(),
    ensures
        inline_args_toks(args.take(k)).is_prefix_of(inline_args_toks(args)),
    decreases args.len() - k,
{
    if k < args.len() {
        lemma_args_prefix(args, k + 1);
        lemma_args_step(args, k);
        inline_args_toks(args).lemma_prefix_concat(
            inline_args_toks(args.take(k)),
            seq![TokV::LBrace] + contents_toks(args[k]@) + seq![TokV::RBrace],
        );
    } else {
        assert(args.take(k) =~= args);
        assert(inline_args_toks(args).is_prefix_of(inline_args_toks(args)));
    }
}

/// Within tokens that read as inline arguments, argument `k` reads, in
/// braces, where the arguments before it end.
pub proof fn lemma_args_at(ts: Seq<SpannedTok>, a: int, args: Seq<Vec<Content>>, k: int)
    requires
        reads(ts, a, inline_args_toks(args)),
        0 <= k < args.len(),
    ensures
        reads(ts, a + inline_args_toks(args.take(k)).len(), seq![TokV::LBrace] + contents_toks(args[k]@)
            + seq![TokV::RBrace]),
        inline_args_toks(args.take(k + 1)).len() == inline_args_toks(args.take(k)).len() + contents_toks(
            args[k]@,
        ).len() + 2,
{
    lemma_args_prefix(args, k + 1);
    lemma_args_step(args, k);
    lemma_reads_piece(
        ts,
        a,
        inline_args_toks(args),
        inline_args_toks(args.take(k)),
        seq![TokV::LBrace] + contents_toks(args[k]@) + seq![TokV::RBrace],
    );
}

/// The tokens of trailer argument `k`: a colon for the first, a double
/// colon for the others, then its paragraphs on indented lines.
pub open spec fn trailer_piece(k: int, ps: Seq<Par>) -> Seq<TokV> {
    seq![if k == 0 { TokV::Colon } else { TokV::DoubleColon }, TokV::Newline, TokV::Indent] + pars_toks(ps)
        + seq![TokV::Dedent]
}

pub proof fn lemma_trailers_step(ts: Seq<Vec<Par>>, k: int)
    requires
        0 <= k < ts.len(),
    ensures
        trailers_toks(ts.take(k + 1)) == trailers_toks(ts.take(k)) + trailer_piece(k, ts[k]@),
{
    assert(ts.take(k + 1).drop_last() =~= ts.take(k));
    assert(trailers_toks(ts.take(k + 1)) =~= trailers_toks(ts.take(k)) + trailer_piece(k, ts[k]@));
}

pub proof fn lemma_trailers_prefix(ts: Seq<Vec<Par>>, k: int)
    requires
        0 <= k <= ts.len(),
    ensures
        trailers_toks(ts.take(k)).is_prefix_of(trailers_toks(ts)),
    decreases ts.len() - k,
{
    if k < ts.len() {
        lemma_trailers_prefix(ts, k + 1);
        lemma_trailers_step(ts, k);
        trailers_toks(ts).lemma_prefix_concat(trailers_toks(ts.take(k)), trailer_piece(k, ts[k]@));
    } else {
        assert(ts.take(k) =~= ts);
        assert(trailers_toks(ts).is_prefix_of(trailers_toks(ts)));
    }
}

/// Within tokens that read as trailer arguments, argument `k` reads where
/// the arguments before it end.
pub proof fn lemma_trailers_at(toks: Seq<SpannedTok>, a: int, ts: Seq<Vec<Par>>, k: int)
    requires
        reads(toks, a, trailers_toks(ts)),
        0 <= k < ts.len(),
    ensures
        reads(toks, a + trailers_toks(ts.take(k)).len(), trailer_piece(k, ts[k]@)),
        trailers_toks(ts.take(k + 1)).len() == trailers_toks(ts.take(k)).len() + trailer_piece(k, ts[k]@).len(),
{
    lemma_trailers_prefix(ts, k + 1);
    lemma_trailers_step(ts, k);
    lemma_reads_piece(toks, a, trailers_toks(ts), trailers_toks(ts.take(k)), trailer_piece(k, ts[k]@));
}

/// The tokens of attribute `k` of a list: after a comma unless it is the
/// first.
pub open spec fn attr_piece(k: int, a: Attr) -> Seq<TokV> {
    if k == 0 {
        seq![attr_tok(a)]
    } else {
        seq![TokV::AttrComma, attr_tok(a)]
    }
}

pub proof fn lemma_attrs_step(xs: Seq<Attr>, k: int)
    requires
        0 <= k < xs.len(),
    ensures
        attr_list_toks(xs.take(k + 1)) == attr_list_toks(xs.take(k)) + attr_piece(k, xs[k]),
{
    assert(xs.take(k + 1).drop_last() =~= xs.take(k));
    if k == 0 {
        assert(attr_list_toks(xs.take(0)) =~= Seq::<TokV>::empty());
        assert(attr_list_toks(xs.take(1)) =~= Seq::<TokV>::empty() + attr_piece(0, xs[0]));
    } else {
        assert(attr_list_toks(xs.take(k + 1)) =~= attr_list_toks(xs.take(k)) + attr_piece(k, xs[k]));
    }
}

pub proof fn lemma_attrs_prefix(xs: Seq<Attr>, k: int)
    requires
        0 <= k <= xs.len(),
    ensures
        attr_list_toks(xs.take(k)).is_prefix_of(attr_list_toks(xs)),
    decreases xs.len() - k,
{
    if k < xs.len() {
        lemma_attrs_prefix(xs, k + 1);
        lemma_attrs_step(xs, k);
        attr_list_toks(xs).lemma_prefix_concat(attr_list_toks(xs.take(k)), attr_piece(k, xs[k]));
    } else {
        assert(xs.take(k) =~= xs);
        assert(attr_list_toks(xs).is_prefix_of(attr_list_toks(xs)));
    }
}

/// Within tokens that read as attributes, attribute `k` reads where the
/// attributes before it end.
pub proof fn lemma_attrs_at(ts: Seq<SpannedTok>, a: int, xs: Seq<Attr>, k: int)
    requires
        reads(ts, a, attr_list_toks(xs)),
        0 <= k < xs.len(),
    ensures
        reads(ts, a + attr_list_toks(xs.take(k)).len(), attr_piece(k, xs[k])),
        attr_list_toks(xs.take(k + 1)).len() == attr_list_toks(xs.take(k)).len() + attr_piece(k, xs[k]).len(),
{
    lemma_attrs_prefix(xs, k + 1);
    lemma_attrs_step(xs, k);
    lemma_reads_piece(ts, a, attr_list_toks(xs), attr_list_toks(xs.take(k)), attr_piece(k, xs[k]));
}

/// The tokens of a part of a multi-line comment.
pub open spec fn mlc_piece(p: MultiLineCommentPart) -> Seq<TokV> {
    match p {
        MultiLineCommentPart::Newline => seq![TokV::Newline],
        MultiLineCommentPart::Comment(s) => seq![TokV::Comment(s@)],
        MultiLineCommentPart::Nested(m) => mlc_toks(m),
    }
}

pub proof fn lemma_mlc_step(ps: Seq<MultiLineCommentPart>, k: int)
    requires
        0 <= k < ps.len(),
    ensures
        mlc_parts_toks(ps.take(k + 1)) == mlc_parts_toks(ps.take(k)) + mlc_piece(ps[k]),
{
    assert(ps.take(k + 1).drop_last() =~= ps.take(k));
}

pub proof fn lemma_mlc_prefix(ps: Seq<MultiLineCommentPart>, k: int)
    requires
        0 <= k <= ps.len(),
    ensures
        mlc_parts_toks(ps.take(k)).is_prefix_of(mlc_parts_toks(ps)),
    decreases ps.len() - k,
{
    if k < ps.len() {
        lemma_mlc_prefix(ps, k + 1);
        lemma_mlc_step(ps, k);
        mlc_parts_toks(ps).lemma_prefix_concat(mlc_parts_toks(ps.take(k)), mlc_piece(ps[k]));
    } else {
        assert(ps.take(k) =~= ps);
        assert(mlc_parts_toks(ps).is_prefix_of(mlc_parts_toks(ps)));
    }
}

/// Within tokens that read as the parts of a multi-line comment, part `k`
/// reads where the parts before it end.
pub proof fn lemma_mlc_at(ts: Seq<SpannedTok>, a: int, ps: Seq<MultiLineCommentPart>, k: int)
    requires
        reads(ts, a, mlc_parts_toks(ps)),
        0 <= k < ps.len(),
    ensures
        reads(ts, a + mlc_parts_toks(ps.take(k)).len(), mlc_piece(ps[k])),
        mlc_parts_toks(ps.take(k + 1)).len() == mlc_parts_toks(ps.take(k)).len() + mlc_piece(ps[k]).len(),
{
    lemma_mlc_prefix(ps, k + 1);
    lemma_mlc_step(ps, k);
    lemma_reads_piece(ts, a, mlc_parts_toks(ps), mlc_parts_toks(ps.take(k)), mlc_piece(ps[k]));
}

/// A piece of content that stands within a line starts with a token that
/// starts content.
pub proof fn lemma_content_first(c: Content)
    requires
        inline_ok(c),
    ensures
        content_toks(c).len() > 0,
        opens_inline(content_toks(c)[0]),
{
    match c {
        Content::Sugar(s) => {
            assert(sugar_toks(s).len() > 0 && opens_inline(sugar_toks(s)[0]));
        },
        Content::MultiLineComment { content, .. } => {
            assert(mlc_toks(content)[0] == TokV::NestedCommentOpen);
        },
        Content::Command { qualifier, name, pluses, attrs, inline_args, remainder_arg, trailer_args, .. } => {
            let head = seq![TokV::Command { qualifier: opt_view(qualifier), name: name@, pluses: pluses as nat }];
            let rest = attrs_toks(attrs) + inline_args_toks(inline_args@) + match remainder_arg {
                Some(r) => seq![TokV::Colon] + contents_toks(r@),
                None => seq![],
            } + trailers_toks(trailer_args@);
            assert(content_toks(c) =~= head + rest);
            assert((head + rest)[0] == head[0]);
        },
        _ => {},
    }
}

/// A run of content with a first piece starts as that piece does.
pub proof fn lemma_run_first(cs: Seq<Content>)
    requires
        cs.len() > 0,
        inline_ok(cs[0]),
    ensures
        contents_toks(cs).len() > 0,
        opens_inline(contents_toks(cs)[0]),
{
    lemma_content_first(cs[0]);
    lemma_contents_prefix(cs, 1);
    lemma_contents_step(cs, 0);
    assert(cs.take(0) =~= Seq::<Content>::empty());
    assert(contents_toks(cs.take(0)) =~= Seq::<TokV>::empty());
    assert(contents_toks(cs.take(1)) =~= content_toks(cs[0]));
    assert(contents_toks(cs).subrange(0, contents_toks(cs.take(1)).len() as int)[0] == contents_toks(cs)[0]);
}

/// Whether a piece of content is a command with trailer arguments.
pub open spec fn has_trailers(c: Content) -> bool {
    c matches Content::Command { trailer_args, .. } && trailer_args@.len() > 0
}

/// A command that the parser reads back, at the start of a line or not:
/// only there may it have trailer arguments, and then no remainder.
pub open spec fn cmd_ok(c: Content, line_start: bool) -> bool {
    match c {
        Content::Command { attrs, inline_args, remainder_arg, trailer_args, .. } => {
            &&& attrs_ok(attrs)
            &&& forall|i: int| 0 <= i < inline_args@.len() ==> run_ok(#[trigger] inline_args@[i]@)
            &&& match remainder_arg {
                Some(r) => r@.len() > 0 && run_ok(r@),
                None => true,
            }
            &&& trailer_args@.len() > 0 ==> {
                &&& line_start
                &&& remainder_arg is None
                &&& forall|i: int| 0 <= i < trailer_args@.len() ==> pars_ok(#[trigger] trailer_args@[i]@)
            }
        },
        _ => false,
    }
}

/// An attribute token that the parser reads: a named one holds an `=`.
pub open spec fn attr_tok_ok(v: TokV) -> bool {
    match v {
        TokV::NamedAttr(s) => first_index_of(s, '=') is Some,
        TokV::UnnamedAttr(_) => true,
        _ => false,
    }
}

/// The closing token of the emphasis that `v` opens.
pub open spec fn close_of(v: TokV) -> TokV {
    match v {
        TokV::ItalicOpen(_) => TokV::ItalicClose,
        TokV::BoldOpen(_) => TokV::BoldClose,
        TokV::MonospaceOpen => TokV::MonospaceClose,
        TokV::SmallcapsOpen => TokV::SmallcapsClose,
        _ => TokV::AlternateFaceClose,
    }
}

/// Whether `v` opens emphasis.
pub open spec fn opens_emph(v: TokV) -> bool {
    v is ItalicOpen || v is BoldOpen || v is MonospaceOpen || v is SmallcapsOpen || v is AlternateFaceOpen
}

/// The content of emphasis.
pub open spec fn emph_arg(c: Content) -> Seq<Content> {
    match c {
        Content::Sugar(Sugar::Italic { arg, .. }) => arg@,
        Content::Sugar(Sugar::Bold { arg, .. }) => arg@,
        Content::Sugar(Sugar::Monospace { arg, .. }) => arg@,
        Content::Sugar(Sugar::Smallcaps { arg, .. }) => arg@,
        Content::Sugar(Sugar::AlternateFace { arg, .. }) => arg@,
        _ => seq![],
    }
}

/// The first token of a command is the command's.
pub proof fn lemma_command_first(c: Content)
    requires
        c is Command,
    ensures
        content_toks(c).len() > 0,
        content_toks(c)[0] is Command,
{
    match c {
        Content::Command { qualifier, name, pluses, attrs, inline_args, remainder_arg, trailer_args, .. } => {
            let head = seq![TokV::Command { qualifier: opt_view(qualifier), name: name@, pluses: pluses as nat }];
            let rest = attrs_toks(attrs) + inline_args_toks(inline_args@) + match remainder_arg {
                Some(r) => seq![TokV::Colon] + contents_toks(r@),
                None => seq![],
            } + trailers_toks(trailer_args@);
            assert(content_toks(c) =~= head + rest);
            assert((head + rest)[0] == head[0]);
        },
        _ => {},
    }
}

/// What the first token of a piece of content within a line tells of it.
pub proof fn lemma_content_kind(c: Content)
    requires
        inline_ok(c),
    ensures
        content_toks(c).len() > 0,
        opens_inline(content_toks(c)[0]),
        content_toks(c)[0] is Command <==> c is Command,
        content_toks(c)[0] is NestedCommentOpen <==> c is MultiLineComment,
        opens_emph(content_toks(c)[0]) ==> {
            &&& run_ok(emph_arg(c))
            &&& content_toks(c) == seq![content_toks(c)[0]] + contents_toks(emph_arg(c)) + seq![
                close_of(content_toks(c)[0]),
            ]
        },
        !(content_toks(c)[0] is Command) && !(content_toks(c)[0] is NestedCommentOpen) && !opens_emph(
            content_toks(c)[0],
        ) ==> content_toks(c).len() == 1,
        content_toks(c)[0] matches TokV::Dash(x) ==> (exists|d: Dash| dash_text(d) == x),
        content_toks(c)[0] matches TokV::Glue(x) ==> (exists|g: Glue| glue_text(g) == x),
{
    match c {
        Content::Command { .. } => {
            lemma_command_first(c);
        },
        Content::Sugar(s) => {
            match s {
                Sugar::Italic { delimiter, arg, .. } => {
                    assert(content_toks(c) =~= seq![content_toks(c)[0]] + contents_toks(emph_arg(c)) + seq![
                        close_of(content_toks(c)[0]),
                    ]);
                },
                Sugar::Bold { delimiter, arg, .. } => {
                    assert(content_toks(c) =~= seq![content_toks(c)[0]] + contents_toks(emph_arg(c)) + seq![
                        close_of(content_toks(c)[0]),
                    ]);
                },
                Sugar::Monospace { arg, .. } => {
                    assert(content_toks(c) =~= seq![content_toks(c)[0]] + contents_toks(emph_arg(c)) + seq![
                        close_of(content_toks(c)[0]),
                    ]);
                },
                Sugar::Smallcaps { arg, .. } => {
                    assert(content_toks(c) =~= seq![content_toks(c)[0]] + contents_toks(emph_arg(c)) + seq![
                        close_of(content_toks(c)[0]),
                    ]);
                },
                Sugar::AlternateFace { arg, .. } => {
                    assert(content_toks(c) =~= seq![content_toks(c)[0]] + contents_toks(emph_arg(c)) + seq![
                        close_of(content_toks(c)[0]),
                    ]);
                },
                _ => {},
            }
        },
        Content::MultiLineComment { content, .. } => {
            assert(mlc_toks(content)[0] == TokV::NestedCommentOpen);
        },
        _ => {},
    }
}

/// The tokens of a run of one piece are that piece's.
pub proof fn lemma_contents_single(c: Content)
    ensures
        contents_toks(seq![c]) == content_toks(c),
{
    assert(seq![c].drop_last() =~= Seq::<Content>::empty());
    assert(contents_toks(Seq::<Content>::empty()) =~= Seq::<TokV>::empty());
    assert(Seq::<TokV>::empty() + content_toks(c) =~= content_toks(c));
}

/// The tokens of a heading: its token, its gap, its content.
pub open spec fn heading_toks(c: Content) -> Seq<TokV> {
    match c {
        Content::Sugar(Sugar::Heading { level, pluses, gap, arg, .. }) => seq![
            TokV::Heading { level: level as nat, pluses: pluses as nat },
            TokV::Whitespace(gap@),
        ] + contents_toks(arg@),
        _ => seq![],
    }
}

/// What the first token of a part of a paragraph tells of it.
pub proof fn lemma_part_kind(pp: ParPart)
    requires
        part_ok(pp),
    ensures
        part_toks(pp).len() > 0,
        opens_part(part_toks(pp)[0]),
        part_toks(pp)[0] is Heading ==> (pp matches ParPart::Line(cs) && cs@.len() == 1 && heading_ok(cs@[0])
            && part_toks(pp) == heading_toks(cs@[0]) + seq![TokV::Newline]),
        part_toks(pp)[0] is Command ==> ((pp matches ParPart::Command(c) && cmd_ok(c, true) && has_trailers(c)
            && part_toks(pp) == content_toks(c)) || (pp matches ParPart::Line(cs) && run_ok(cs@) && cs@.len()
            > 0 && cs@[0] is Command)),
        !(part_toks(pp)[0] is Heading) && !(part_toks(pp)[0] is Command) ==> (pp matches ParPart::Line(cs)
            && run_ok(cs@) && (cs@.len() == 0 || !(cs@[0] is Command))),
{
    match pp {
        ParPart::Line(cs) => {
            if cs@.len() == 1 && heading_ok(cs@[0]) {
                lemma_contents_single(cs@[0]);
                assert(cs@ =~= seq![cs@[0]]);
                assert(content_toks(cs@[0]) == heading_toks(cs@[0]));
                assert(part_toks(pp) == heading_toks(cs@[0]) + seq![TokV::Newline]);
                assert(part_toks(pp)[0] == heading_toks(cs@[0])[0]);
            } else if cs@.len() > 0 {
                lemma_run_first(cs@);
                lemma_contents_prefix(cs@, 1);
                lemma_contents_step(cs@, 0);
                assert(contents_toks(cs@.take(0)) =~= Seq::<TokV>::empty());
                assert(contents_toks(cs@.take(1)) =~= content_toks(cs@[0]));
                lemma_content_kind(cs@[0]);
                assert(contents_toks(cs@)[0] == contents_toks(cs@).subrange(0, contents_toks(cs@.take(1)).len() as int)[0]);
                assert(part_toks(pp)[0] == contents_toks(cs@)[0]);
                if cs@[0] matches Content::Sugar(Sugar::Heading { .. }) {
                    assert(!inline_ok(cs@[0]));
                }
            } else {
                assert(cs@ =~= Seq::<Content>::empty());
                assert(contents_toks(cs@) =~= Seq::<TokV>::empty());
                assert(part_toks(pp) =~= seq![TokV::Newline]);
            }
        },
        ParPart::Command(c) => {
            lemma_command_first(c);
        },
    }
}

/// A paragraph starts with a token that starts a part.
pub proof fn lemma_par_first(par: Par)
    requires
        par_ok(par),
    ensures
        par_toks(par).len() > 0,
        opens_part(par_toks(par)[0]),
{
    let ps = par.parts@;
    lemma_part_kind(ps[0]);
    lemma_parts_prefix(ps, 1);
    lemma_parts_step(ps, 0);
    assert(parts_toks(ps.take(0)) =~= Seq::<TokV>::empty());
    assert(parts_toks(ps.take(1)) =~= part_toks(ps[0]));
    assert(parts_toks(ps)[0] == parts_toks(ps).subrange(0, parts_toks(ps.take(1)).len() as int)[0]);
}

/// The tokens of a remainder argument, where there is one: a colon, then
/// its content.
pub open spec fn rem_toks(r: Option<Vec<Content>>) -> Seq<TokV> {
    match r {
        Some(r) => seq![TokV::Colon] + contents_toks(r@),
        None => seq![],
    }
}

/// Where a command reads, each of its parts reads in turn, and the token
/// after each tells which part comes next.
pub proof fn lemma_command_reads(ts: Seq<SpannedTok>, p: int, c: Content, line_start: bool)
    requires
        cmd_ok(c, line_start),
        reads(ts, p, content_toks(c)),
        content_end(c, ts, p + content_toks(c).len()),
    ensures
        match c {
            Content::Command { attrs, inline_args, remainder_arg, trailer_args, .. } => {
                let a2 = p + 1 + attrs_toks(attrs).len();
                let a3 = a2 + inline_args_toks(inline_args@).len();
                let a4 = a3 + rem_toks(remainder_arg).len();
                &&& a4 + trailers_toks(trailer_args@).len() == p + content_toks(c).len()
                &&& attrs is Some ==> reads(ts, p + 1, attrs_toks(attrs)) && p + 1 < ts.len() && tv(
                    ts[p + 1].1,
                ) is LBracket
                &&& attrs is None ==> end_or(ts, p + 1, |v: TokV| !(v is LBracket))
                &&& reads(ts, a2, inline_args_toks(inline_args@))
                &&& end_or(ts, a3, |v: TokV| !(v is LBrace))
                &&& remainder_arg matches Some(r) ==> {
                    &&& a3 + 1 < ts.len()
                    &&& tv(ts[a3].1) is Colon
                    &&& opens_inline(tv(ts[a3 + 1].1))
                    &&& reads(ts, a3 + 1, contents_toks(r@))
                    &&& a4 == a3 + 1 + contents_toks(r@).len()
                    &&& trailer_args@.len() == 0
                    &&& end_or(ts, a4, |v: TokV| ends_run(v))
                }
                &&& trailer_args@.len() > 0 ==> {
                    &&& a3 + 1 < ts.len()
                    &&& tv(ts[a3].1) is Colon
                    &&& tv(ts[a3 + 1].1) is Newline
                    &&& line_start
                    &&& a4 == a3
                    &&& reads(ts, a3, trailers_toks(trailer_args@))
                    &&& end_or(ts, a4 + trailers_toks(trailer_args@).len(), |v: TokV| !(v is DoubleColon))
                }
                &&& remainder_arg is None && trailer_args@.len() == 0 ==> a3 == p + content_toks(c).len()
                    && end_or(ts, a3, |v: TokV| !(v is Colon) && !(v is LBrace) && !(v is LBracket))
            },
            _ => false,
        },
{
    match c {
        Content::Command { qualifier, name, pluses, attrs, inline_args, remainder_arg, trailer_args, .. } => {
            let head = seq![TokV::Command { qualifier: opt_view(qualifier), name: name@, pluses: pluses as nat }];
            let b = attrs_toks(attrs);
            let cc = inline_args_toks(inline_args@);
            let d = rem_toks(remainder_arg);
            let e = trailers_toks(trailer_args@);
            assert(content_toks(c) == head + b + cc + d + e);
            lemma_reads_split(ts, p, head + b + cc + d, e);
            lemma_reads_split(ts, p, head + b + cc, d);
            lemma_reads_split(ts, p, head + b, cc);
            lemma_reads_split(ts, p, head, b);
            let a2 = p + 1 + b.len();
            let a3 = a2 + cc.len();
            let a4 = a3 + d.len();
            let fin = p + content_toks(c).len();
            if attrs is Some {
                lemma_reads_first(ts, p + 1, b);
            }
            // The first token of the inline arguments, where there are some.
            if inline_args@.len() > 0 {
                lemma_args_at(ts, a2, inline_args@, 0);
                assert(inline_args@.take(0) =~= Seq::<Vec<Content>>::empty());
                assert(inline_args_toks(inline_args@.take(0)) =~= Seq::<TokV>::empty());
                lemma_reads_first(ts, a2, seq![TokV::LBrace] + contents_toks(inline_args@[0]@) + seq![TokV::RBrace]);
            } else {
                assert(cc =~= Seq::<TokV>::empty());
            }
            // The first tokens of the remainder argument or the trailers.
            match remainder_arg {
                Some(r) => {
                    lemma_reads_split(ts, a3, seq![TokV::Colon], contents_toks(r@));
                    lemma_reads_first(ts, a3, seq![TokV::Colon]);
                    lemma_run_first(r@);
                    lemma_reads_first(ts, a3 + 1, contents_toks(r@));
                    assert(e =~= Seq::<TokV>::empty());
                },
                None => {
                    assert(d =~= Seq::<TokV>::empty());
                },
            }
            if trailer_args@.len() > 0 {
                lemma_trailers_at(ts, a4, trailer_args@, 0);
                assert(trailer_args@.take(0) =~= Seq::<Vec<Par>>::empty());
                assert(trailers_toks(trailer_args@.take(0)) =~= Seq::<TokV>::empty());
                let piece = trailer_piece(0, trailer_args@[0]@);
                lemma_toks_v_sub(ts, a4, piece, 0, 2);
                lemma_toks_v_sub(ts, a4, piece, 1, 2);
            } else {
                assert(e =~= Seq::<TokV>::empty());
            }
        },
        _ => {},
    }
}

} // verus!
