//! Lints: checks of a parsed document that point out likely mistakes.
pub mod names;
pub mod tables;
pub mod lints;
pub mod problem;

use vstd::prelude::*;
use crate::ast::parsed::{Content, Sugar};
use crate::ast::{File, Par, ParPart};
use crate::lint::lints::{
    AttrOrdering, CommandNaming, DuplicateAttrs, EmptyAttrs, ExcessiveArgs, NumArgs, NumAttrs, NumPluses,
    SpiltGlue, SugarUsage,
};
use crate::lint::lints::{
    attr_ordering_reports, command_naming_fires, command_naming_reports, duplicate_attrs_reports, duplicates,
    empty_attrs_reports, excessive_args_fires, excessive_args_reports, misplaced, num_args_fires,
    num_args_reports, num_attrs_fires, num_attrs_reports, num_pluses_reports, plus_count, spilt_glue_reports,
    sugar_usage_fires, sugar_usage_reports,
};
use crate::log::Log;

verus! {

/// A lint of those this library runs.
pub enum Lint {
    AttrOrdering(AttrOrdering),
    CommandNaming(CommandNaming),
    DuplicateAttrs(DuplicateAttrs),
    EmptyAttrs(EmptyAttrs),
    ExcessiveArgs(ExcessiveArgs),
    NumArgs(NumArgs),
    NumAttrs(NumAttrs),
    NumPluses(NumPluses),
    SpiltGlue(SpiltGlue),
    SugarUsage(SugarUsage),
}

/// The identifier of a lint.
pub open spec fn lint_id(l: &Lint) -> &'static str {
    match *l {
        Lint::AttrOrdering(_) => "attr-ordering",
        Lint::CommandNaming(_) => "command-naming",
        Lint::DuplicateAttrs(_) => "duplicate-attrs",
        Lint::EmptyAttrs(_) => "empty-attrs",
        Lint::ExcessiveArgs(_) => "too-many-args",
        Lint::NumArgs(_) => "num-args",
        Lint::NumAttrs(_) => "num-attrs",
        Lint::NumPluses(_) => "num-pluses",
        Lint::SpiltGlue(_) => "spilt-glue",
        Lint::SugarUsage(_) => "sugar-usage",
    }
}

/// Every message carries the identifier of one of the lints `ls`.
pub open spec fn tagged_by(logs: Seq<Log>, ls: Seq<Lint>) -> bool {
    forall|i: int| 0 <= i < logs.len() ==> #[trigger] tagged_with(logs[i], ls)
}

/// The message carries the identifier of one of the lints `ls`.
pub open spec fn tagged_with(log: Log, ls: Seq<Lint>) -> bool {
    exists|j: int| #![trigger ls[j]] 0 <= j < ls.len() && (log.id matches Some(id) && id@ == lint_id(&ls[j])@)
}

/// What the lint `l` reports on the content `c` itself.
pub open spec fn lint_reports(l: Lint, c: Content, r: Seq<Log>) -> bool {
    match l {
        Lint::AttrOrdering(_) => attr_ordering_reports(c, r),
        Lint::CommandNaming(_) => command_naming_reports(c, r),
        Lint::DuplicateAttrs(_) => duplicate_attrs_reports(c, r),
        Lint::EmptyAttrs(_) => empty_attrs_reports(c, r),
        Lint::ExcessiveArgs(_) => excessive_args_reports(c, r),
        Lint::NumArgs(_) => num_args_reports(c, r),
        Lint::NumAttrs(_) => num_attrs_reports(c, r),
        Lint::NumPluses(_) => num_pluses_reports(c, r),
        Lint::SpiltGlue(_) => spilt_glue_reports(c, r),
        Lint::SugarUsage(_) => sugar_usage_reports(c, r),
    }
}

/// How many problems the lint `l` finds in the content `c` itself.
pub open spec fn found(l: Lint, c: Content) -> nat {
    match l {
        Lint::AttrOrdering(_) => match c {
            Content::Command { attrs: Some(a), .. } => misplaced(a.attrs@),
            _ => 0,
        },
        Lint::CommandNaming(_) => if command_naming_fires(c) { 1 } else { 0 },
        Lint::DuplicateAttrs(_) => match c {
            Content::Command { attrs: Some(a), .. } => duplicates(a.attrs@),
            _ => 0,
        },
        Lint::EmptyAttrs(_) => if c matches Content::Command { attrs: Some(a), .. } && a.attrs@.len() == 0 {
            1
        } else {
            0
        },
        Lint::ExcessiveArgs(_) => if excessive_args_fires(c) { 1 } else { 0 },
        Lint::NumArgs(_) => if num_args_fires(c) { 1 } else { 0 },
        Lint::NumAttrs(_) => if num_attrs_fires(c) { 1 } else { 0 },
        Lint::NumPluses(_) => if plus_count(c) matches Some(p) && p >= 2 { 1 } else { 0 },
        Lint::SpiltGlue(_) => if c is SpiltGlue { 1 } else { 0 },
        Lint::SugarUsage(_) => if sugar_usage_fires(c) { 1 } else { 0 },
    }
}

/// How many problems the lints `ls` find in the content `c` itself.
pub open spec fn found_all(ls: Seq<Lint>, c: Content) -> nat
    decreases ls.len(),
{
    if ls.len() == 0 {
        0
    } else {
        found_all(ls.drop_last(), c) + found(ls.last(), c)
    }
}

/// How many problems the lints `ls` find in `c` and in everything nested in
/// it.
pub open spec fn content_total(c: Content, ls: Seq<Lint>) -> nat
    decreases c,
{
    found_all(ls, c) + match c {
        Content::Command { inline_args, remainder_arg, trailer_args, .. } => args_total(inline_args@, ls)
            + match remainder_arg {
            Some(r) => contents_total(r@, ls),
            None => 0,
        } + trailers_total(trailer_args@, ls),
        Content::Sugar(s) => sugar_total(s, ls),
        _ => 0,
    }
}

/// How many problems the lints `ls` find inside the sugar `s`.
pub open spec fn sugar_total(s: Sugar, ls: Seq<Lint>) -> nat
    decreases s,
{
    match s {
        Sugar::Italic { arg, .. } => contents_total(arg@, ls),
        Sugar::Bold { arg, .. } => contents_total(arg@, ls),
        Sugar::Monospace { arg, .. } => contents_total(arg@, ls),
        Sugar::Smallcaps { arg, .. } => contents_total(arg@, ls),
        Sugar::AlternateFace { arg, .. } => contents_total(arg@, ls),
        Sugar::Heading { arg, .. } => contents_total(arg@, ls),
        _ => 0,
    }
}

/// How many problems the lints `ls` find in a run of content.
pub open spec fn contents_total(cs: Seq<Content>, ls: Seq<Lint>) -> nat
    decreases cs,
{
    if cs.len() == 0 {
        0
    } else {
        contents_total(cs.drop_last(), ls) + content_total(cs.last(), ls)
    }
}

/// How many problems the lints `ls` find in inline arguments.
pub open spec fn args_total(args: Seq<Vec<Content>>, ls: Seq<Lint>) -> nat
    decreases args,
{
    if args.len() == 0 {
        0
    } else {
        args_total(args.drop_last(), ls) + contents_total(args.last()@, ls)
    }
}

/// How many problems the lints `ls` find in trailer arguments.
pub open spec fn trailers_total(ts: Seq<Vec<Par>>, ls: Seq<Lint>) -> nat
    decreases ts,
{
    if ts.len() == 0 {
        0
    } else {
        trailers_total(ts.drop_last(), ls) + pars_total(ts.last()@, ls)
    }
}

/// How many problems the lints `ls` find in paragraphs.
pub open spec fn pars_total(ps: Seq<Par>, ls: Seq<Lint>) -> nat
    decreases ps,
{
    if ps.len() == 0 {
        0
    } else {
        pars_total(ps.drop_last(), ls) + par_total(ps.last(), ls)
    }
}

/// How many problems the lints `ls` find in a paragraph.
pub open spec fn par_total(p: Par, ls: Seq<Lint>) -> nat
    decreases p,
{
    parts_total(p.parts@, ls)
}

/// How many problems the lints `ls` find in the parts of a paragraph.
pub open spec fn parts_total(ps: Seq<ParPart>, ls: Seq<Lint>) -> nat
    decreases ps,
{
    if ps.len() == 0 {
        0
    } else {
        parts_total(ps.drop_last(), ls) + part_total(ps.last(), ls)
    }
}

/// How many problems the lints `ls` find in a part of a paragraph.
pub open spec fn part_total(p: ParPart, ls: Seq<Lint>) -> nat
    decreases p,
{
    match p {
        ParPart::Command(c) => content_total(c, ls),
        ParPart::Line(cs) => contents_total(cs@, ls),
    }
}

/// `t` is the problem `b` tagged with the identifier of the lint `l`.
pub open spec fn tagged_copy(t: Log, b: Log, l: Lint) -> bool {
    &&& t == (Log { id: t.id, ..b })
    &&& t.id matches Some(x) && x@ == lint_id(&l)@
}

/// `r` is what the lint `l` reports on `c` itself, each problem tagged with
/// the lint's identifier.
pub open spec fn tagged_reports(l: Lint, c: Content, r: Seq<Log>) -> bool {
    exists|b: Seq<Log>|
        #[trigger] lint_reports(l, c, b) && r.len() == b.len() && forall|i: int|
            0 <= i < r.len() ==> tagged_copy(#[trigger] r[i], b[i], l)
}

/// `out` is what the lints `ls` report on `c` itself, lint after lint.
pub open spec fn own_reports(ls: Seq<Lint>, c: Content, out: Seq<Log>) -> bool
    decreases ls.len(),
{
    if ls.len() == 0 {
        out.len() == 0
    } else {
        let a = found_all(ls.drop_last(), c) as int;
        &&& out.len() == found_all(ls, c)
        &&& own_reports(ls.drop_last(), c, out.take(a))
        &&& tagged_reports(ls.last(), c, out.skip(a))
    }
}

/// `out` is what the lints `ls` report on `c` and everything nested in it:
/// first on `c` itself, then on its inline arguments, its remainder
/// argument and its trailer arguments, or on the content of sugar.
pub open spec fn content_reports(c: Content, ls: Seq<Lint>, out: Seq<Log>) -> bool
    decreases c,
{
    let k = found_all(ls, c) as int;
    &&& out.len() == content_total(c, ls)
    &&& own_reports(ls, c, out.take(k))
    &&& match c {
        Content::Command { inline_args, remainder_arg, trailer_args, .. } => {
            let a = k + args_total(inline_args@, ls);
            let b = a + match remainder_arg {
                Some(r) => contents_total(r@, ls),
                None => 0,
            };
            &&& args_reports(inline_args@, ls, out.subrange(k, a))
            &&& match remainder_arg {
                Some(r) => contents_reports(r@, ls, out.subrange(a, b)),
                None => true,
            }
            &&& trailers_reports(trailer_args@, ls, out.subrange(b, out.len() as int))
        },
        Content::Sugar(s) => sugar_reports(s, ls, out.subrange(k, out.len() as int)),
        _ => true,
    }
}

/// `out` is what the lints `ls` report inside the sugar `s`.
pub open spec fn sugar_reports(s: Sugar, ls: Seq<Lint>, out: Seq<Log>) -> bool
    decreases s,
{
    match s {
        Sugar::Italic { arg, .. } => contents_reports(arg@, ls, out),
        Sugar::Bold { arg, .. } => contents_reports(arg@, ls, out),
        Sugar::Monospace { arg, .. } => contents_reports(arg@, ls, out),
        Sugar::Smallcaps { arg, .. } => contents_reports(arg@, ls, out),
        Sugar::AlternateFace { arg, .. } => contents_reports(arg@, ls, out),
        Sugar::Heading { arg, .. } => contents_reports(arg@, ls, out),
        _ => out.len() == 0,
    }
}

/// `out` is what the lints `ls` report on a run of content, piece after
/// piece.
pub open spec fn contents_reports(cs: Seq<Content>, ls: Seq<Lint>, out: Seq<Log>) -> bool
    decreases cs,
{
    if cs.len() == 0 {
        out.len() == 0
    } else {
        let a = contents_total(cs.drop_last(), ls) as int;
        &&& out.len() == contents_total(cs, ls)
        &&& contents_reports(cs.drop_last(), ls, out.take(a))
        &&& content_reports(cs.last(), ls, out.skip(a))
    }
}

/// `out` is what the lints `ls` report on inline arguments, one after
/// another.
pub open spec fn args_reports(args: Seq<Vec<Content>>, ls: Seq<Lint>, out: Seq<Log>) -> bool
    decreases args,
{
    if args.len() == 0 {
        out.len() == 0
    } else {
        let a = args_total(args.drop_last(), ls) as int;
        &&& out.len() == args_total(args, ls)
        &&& args_reports(args.drop_last(), ls, out.take(a))
        &&& contents_reports(args.last()@, ls, out.skip(a))
    }
}

/// `out` is what the lints `ls` report on trailer arguments, one after
/// another.
pub open spec fn trailers_reports(ts: Seq<Vec<Par>>, ls: Seq<Lint>, out: Seq<Log>) -> bool
    decreases ts,
{
    if ts.len() == 0 {
        out.len() == 0
    } else {
        let a = trailers_total(ts.drop_last(), ls) as int;
        &&& out.len() == trailers_total(ts, ls)
        &&& trailers_reports(ts.drop_last(), ls, out.take(a))
        &&& pars_reports(ts.last()@, ls, out.skip(a))
    }
}

/// `out` is what the lints `ls` report on paragraphs, one after another.
pub open spec fn pars_reports(ps: Seq<Par>, ls: Seq<Lint>, out: Seq<Log>) -> bool
    decreases ps,
{
    if ps.len() == 0 {
        out.len() == 0
    } else {
        let a = pars_total(ps.drop_last(), ls) as int;
        &&& out.len() == pars_total(ps, ls)
        &&& pars_reports(ps.drop_last(), ls, out.take(a))
        &&& par_reports(ps.last(), ls, out.skip(a))
    }
}

/// `out` is what the lints `ls` report on a paragraph.
pub open spec fn par_reports(p: Par, ls: Seq<Lint>, out: Seq<Log>) -> bool
    decreases p,
{
    parts_reports(p.parts@, ls, out)
}

/// `out` is what the lints `ls` report on the parts of a paragraph, one
/// after another.
pub open spec fn parts_reports(ps: Seq<ParPart>, ls: Seq<Lint>, out: Seq<Log>) -> bool
    decreases ps,
{
    if ps.len() == 0 {
        out.len() == 0
    } else {
        let a = parts_total(ps.drop_last(), ls) as int;
        &&& out.len() == parts_total(ps, ls)
        &&& parts_reports(ps.drop_last(), ls, out.take(a))
        &&& part_reports(ps.last(), ls, out.skip(a))
    }
}

/// `out` is what the lints `ls` report on a part of a paragraph.
pub open spec fn part_reports(p: ParPart, ls: Seq<Lint>, out: Seq<Log>) -> bool
    decreases p,
{
    match p {
        ParPart::Command(c) => content_reports(c, ls, out),
        ParPart::Line(cs) => contents_reports(cs@, ls, out),
    }
}

/// Where `b` extends `a` and `c` extends `b`, what `c` adds to `a` is what
/// `b` adds, then what `c` adds to `b`.
proof fn lemma_extend(a: Seq<Log>, b: Seq<Log>, c: Seq<Log>)
    requires
        a.len() <= b.len() <= c.len(),
        b.subrange(0, a.len() as int) == a,
        c.subrange(0, b.len() as int) == b,
    ensures
        c.subrange(0, a.len() as int) == a,
        c.skip(a.len() as int) == b.skip(a.len() as int) + c.skip(b.len() as int),
{
    assert(c.subrange(0, a.len() as int) =~= a) by {
        assert forall|i: int| 0 <= i < a.len() implies c.subrange(0, a.len() as int)[i] == a[i] by {
            assert(c[i] == b[i]);
        }
    }
    assert(c.skip(a.len() as int) =~= b.skip(a.len() as int) + c.skip(b.len() as int)) by {
        assert forall|i: int| 0 <= i < c.len() - a.len() implies #[trigger] c.skip(a.len() as int)[i] == (b.skip(
            a.len() as int,
        ) + c.skip(b.len() as int))[i] by {
            if a.len() + i < b.len() {
                assert(c[a.len() + i] == b[a.len() + i]);
            }
        }
    }
}

/// Splitting `x + y` where `x` ends gives back `x` and `y`.
proof fn lemma_halves(x: Seq<Log>, y: Seq<Log>)
    ensures
        (x + y).take(x.len() as int) == x,
        (x + y).skip(x.len() as int) == y,
{
    assert((x + y).take(x.len() as int) =~= x);
    assert((x + y).skip(x.len() as int) =~= y);
}

impl Lint {
    /// The identifier of the lint.
    pub fn id(&self) -> (s: &'static str)
        ensures
            s == lint_id(self),
    {
        match self {
            Lint::AttrOrdering(_) => "attr-ordering",
            Lint::CommandNaming(_) => "command-naming",
            Lint::DuplicateAttrs(_) => "duplicate-attrs",
            Lint::EmptyAttrs(_) => "empty-attrs",
            Lint::ExcessiveArgs(_) => "too-many-args",
            Lint::NumArgs(_) => "num-args",
            Lint::NumAttrs(_) => "num-attrs",
            Lint::NumPluses(_) => "num-pluses",
            Lint::SpiltGlue(_) => "spilt-glue",
            Lint::SugarUsage(_) => "sugar-usage",
        }
    }

    /// The problems that the lint finds in one piece of content.
    pub fn analyse(&self, content: &Content) -> (r: Vec<Log>)
        ensures
            lint_reports(*self, *content, r@),
            r@.len() == found(*self, *content),
    {
        match self {
            Lint::AttrOrdering(l) => l.analyse(content),
            Lint::CommandNaming(l) => l.analyse(content),
            Lint::DuplicateAttrs(l) => l.analyse(content),
            Lint::EmptyAttrs(l) => l.analyse(content),
            Lint::ExcessiveArgs(l) => l.analyse(content),
            Lint::NumArgs(l) => l.analyse(content),
            Lint::NumAttrs(l) => l.analyse(content),
            Lint::NumPluses(l) => l.analyse(content),
            Lint::SpiltGlue(l) => l.analyse(content),
            Lint::SugarUsage(l) => l.analyse(content),
        }
    }
}

/// The lints run by default.
pub fn default_lints() -> (ls: Vec<Lint>)
    ensures
        ls@.len() == 4,
        lint_id(&ls@[0])@ == "command-naming"@,
        lint_id(&ls@[1])@ == "empty-attrs"@,
        lint_id(&ls@[2])@ == "num-args"@,
        lint_id(&ls@[3])@ == "num-attrs"@,
{
    let mut ls: Vec<Lint> = Vec::new();
    ls.push(Lint::CommandNaming(CommandNaming::new()));
    ls.push(Lint::EmptyAttrs(EmptyAttrs::new()));
    ls.push(Lint::NumArgs(NumArgs::new()));
    ls.push(Lint::NumAttrs(NumAttrs::new()));
    ls
}

proof fn lemma_own_grow(ls: Seq<Lint>, k: int, c: Content, p: Seq<Log>, t: Seq<Log>)
    requires
        0 <= k < ls.len(),
        own_reports(ls.take(k), c, p),
        tagged_reports(ls[k], c, t),
        t.len() == found(ls[k], c),
    ensures
        own_reports(ls.take(k + 1), c, p + t),
{
    let w = ls.take(k + 1);
    assert(w.drop_last() =~= ls.take(k));
    assert(w.last() == ls[k]);
    if k == 0 {
        assert(ls.take(k).len() == 0);
    }
    assert(p.len() == found_all(ls.take(k), c));
    assert(found_all(w, c) == found_all(w.drop_last(), c) + found(w.last(), c));
    lemma_halves(p, t);
}

proof fn lemma_contents_grow(cs: Seq<Content>, i: int, ls: Seq<Lint>, p: Seq<Log>, s: Seq<Log>)
    requires
        0 <= i < cs.len(),
        contents_reports(cs.take(i), ls, p),
        content_reports(cs[i], ls, s),
    ensures
        contents_reports(cs.take(i + 1), ls, p + s),
{
    let w = cs.take(i + 1);
    assert(w.drop_last() =~= cs.take(i));
    assert(w.last() == cs[i]);
    if i == 0 {
        assert(cs.take(i).len() == 0);
    }
    assert(p.len() == contents_total(cs.take(i), ls));
    assert(contents_total(w, ls) == contents_total(w.drop_last(), ls) + content_total(w.last(), ls));
    lemma_halves(p, s);
}

proof fn lemma_args_grow(args: Seq<Vec<Content>>, i: int, ls: Seq<Lint>, p: Seq<Log>, s: Seq<Log>)
    requires
        0 <= i < args.len(),
        args_reports(args.take(i), ls, p),
        contents_reports(args[i]@, ls, s),
    ensures
        args_reports(args.take(i + 1), ls, p + s),
{
    let w = args.take(i + 1);
    assert(w.drop_last() =~= args.take(i));
    assert(w.last() == args[i]);
    if i == 0 {
        assert(args.take(i).len() == 0);
    }
    assert(p.len() == args_total(args.take(i), ls));
    assert(s.len() == contents_total(args[i]@, ls)) by {
        if args[i]@.len() == 0 {
        }
    }
    assert(args_total(w, ls) == args_total(w.drop_last(), ls) + contents_total(w.last()@, ls));
    lemma_halves(p, s);
}

proof fn lemma_trailers_grow(ts: Seq<Vec<Par>>, i: int, ls: Seq<Lint>, p: Seq<Log>, s: Seq<Log>)
    requires
        0 <= i < ts.len(),
        trailers_reports(ts.take(i), ls, p),
        pars_reports(ts[i]@, ls, s),
    ensures
        trailers_reports(ts.take(i + 1), ls, p + s),
{
    let w = ts.take(i + 1);
    assert(w.drop_last() =~= ts.take(i));
    assert(w.last() == ts[i]);
    if i == 0 {
        assert(ts.take(i).len() == 0);
    }
    assert(p.len() == trailers_total(ts.take(i), ls));
    assert(s.len() == pars_total(ts[i]@, ls)) by {
        if ts[i]@.len() == 0 {
        }
    }
    assert(trailers_total(w, ls) == trailers_total(w.drop_last(), ls) + pars_total(w.last()@, ls));
    lemma_halves(p, s);
}

proof fn lemma_pars_grow(ps: Seq<Par>, i: int, ls: Seq<Lint>, p: Seq<Log>, s: Seq<Log>)
    requires
        0 <= i < ps.len(),
        pars_reports(ps.take(i), ls, p),
        par_reports(ps[i], ls, s),
    ensures
        pars_reports(ps.take(i + 1), ls, p + s),
{
    let w = ps.take(i + 1);
    assert(w.drop_last() =~= ps.take(i));
    assert(w.last() == ps[i]);
    if i == 0 {
        assert(ps.take(i).len() == 0);
    }
    assert(p.len() == pars_total(ps.take(i), ls));
    assert(s.len() == par_total(ps[i], ls)) by {
        if ps[i].parts@.len() == 0 {
        }
    }
    assert(pars_total(w, ls) == pars_total(w.drop_last(), ls) + par_total(w.last(), ls));
    lemma_halves(p, s);
}

proof fn lemma_parts_grow(ps: Seq<ParPart>, i: int, ls: Seq<Lint>, p: Seq<Log>, s: Seq<Log>)
    requires
        0 <= i < ps.len(),
        parts_reports(ps.take(i), ls, p),
        part_reports(ps[i], ls, s),
    ensures
        parts_reports(ps.take(i + 1), ls, p + s),
{
    let w = ps.take(i + 1);
    assert(w.drop_last() =~= ps.take(i));
    assert(w.last() == ps[i]);
    if i == 0 {
        assert(ps.take(i).len() == 0);
    }
    assert(p.len() == parts_total(ps.take(i), ls));
    assert(s.len() == part_total(ps[i], ls)) by {
        match ps[i] {
            ParPart::Command(c) => {},
            ParPart::Line(cs) => {
                if cs@.len() == 0 {
                }
            },
        }
    }
    assert(parts_total(w, ls) == parts_total(w.drop_last(), ls) + part_total(w.last(), ls));
    lemma_halves(p, s);
}

/// Runs every lint of `lints` on `content`, recording each problem under
/// the lint's identifier, then on the content's arguments.
fn lint_content(content: &Content, lints: &Vec<Lint>, problems: &mut Vec<Log>)
    requires
        tagged_by(old(problems)@, lints@),
    ensures
        tagged_by(final(problems)@, lints@),
        final(problems)@.len() == old(problems)@.len() + content_total(*content, lints@),
        final(problems)@.subrange(0, old(problems)@.len() as int) == old(problems)@,
        content_reports(*content, lints@, final(problems)@.skip(old(problems)@.len() as int)),
    decreases *content, 2int,
{
    let ghost base = problems@;
    let mut k: usize = 0;
    proof {
        assert(lints@.take(0) =~= Seq::<Lint>::empty());
        assert(problems@.skip(base.len() as int) =~= Seq::<Log>::empty());
        assert(problems@.subrange(0, base.len() as int) =~= base);
    }
    while k < lints.len()
        invariant
            k <= lints@.len(),
            tagged_by(problems@, lints@),
            problems@.len() == base.len() + found_all(lints@.take(k as int), *content),
            problems@.subrange(0, base.len() as int) == base,
            own_reports(lints@.take(k as int), *content, problems@.skip(base.len() as int)),
        decreases lints@.len() - k,
    {
        let mut fresh = lints[k].analyse(content);
        let id = lints[k].id();
        let ghost start = problems@;
        let ghost all = fresh@;
        proof {
            assert(lints@.take(k + 1).drop_last() =~= lints@.take(k as int));
            assert(problems@.subrange(0, start.len() as int) =~= start);
            assert(all.skip(0) =~= all);
        }
        while fresh.len() > 0
            invariant
                k < lints@.len(),
                id == lint_id(&lints@[k as int]),
                tagged_by(problems@, lints@),
                problems@.len() + fresh@.len() == start.len() + found(lints@[k as int], *content),
                all.len() == found(lints@[k as int], *content),
                problems@.len() >= start.len(),
                problems@.subrange(0, start.len() as int) == start,
                fresh@ == all.skip(problems@.len() - start.len()),
                forall|i: int|
                    0 <= i < problems@.len() - start.len() ==> tagged_copy(
                        #[trigger] problems@[start.len() + i],
                        all[i],
                        lints@[k as int],
                    ),
            decreases fresh@.len(),
        {
            let ghost before = problems@;
            let ghost m = problems@.len() - start.len();
            let x = fresh.remove(0);
            let p = x.id(id);
            problems.push(p);
            proof {
                assert(x == all[m]);
                assert(fresh@ =~= all.skip(m + 1));
                assert(problems@.subrange(0, start.len() as int) =~= start) by {
                    assert forall|i: int| 0 <= i < start.len() implies problems@[i] == start[i] by {
                        assert(problems@[i] == before[i]);
                        assert(before.subrange(0, start.len() as int)[i] == start[i]);
                    }
                }
                assert forall|i: int| 0 <= i < problems@.len() - start.len() implies tagged_copy(
                    #[trigger] problems@[start.len() + i],
                    all[i],
                    lints@[k as int],
                ) by {
                    if i < m {
                        assert(problems@[start.len() + i] == before[start.len() + i]);
                    }
                }
                assert forall|x: int| 0 <= x < problems@.len() implies #[trigger] tagged_with(problems@[x], lints@) by {
                    if x < before.len() {
                        assert(problems@[x] == before[x]);
                    } else {
                        assert(problems@[x].id matches Some(d) && d@ == lint_id(&lints@[k as int])@);
                    }
                }
            }
        }
        proof {
            let t = problems@.skip(start.len() as int);
            assert forall|i: int| 0 <= i < t.len() implies tagged_copy(#[trigger] t[i], all[i], lints@[k as int]) by {
                assert(t[i] == problems@[start.len() + i]);
            }
            assert(lint_reports(lints@[k as int], *content, all));
            assert(tagged_reports(lints@[k as int], *content, t));
            lemma_extend(base, start, problems@);
            lemma_own_grow(lints@, k as int, *content, start.skip(base.len() as int), t);
        }
        k = k + 1;
    }
    proof {
        assert(lints@.take(lints@.len() as int) =~= lints@);
    }
    let ghost own = problems@;
    match content {
        Content::Command { inline_args, remainder_arg, trailer_args, .. } => {
            lint_args(inline_args, lints, problems);
            let ghost after_args = problems@;
            match remainder_arg {
                Some(r) => lint_contents(r, lints, problems),
                None => {},
            }
            let ghost after_rem = problems@;
            proof {
                assert(after_rem.subrange(0, after_args.len() as int) =~= after_args);
            }
            lint_trailers(trailer_args, lints, problems);
            proof {
                lemma_extend(base, own, after_args);
                lemma_extend(base, after_args, after_rem);
                lemma_extend(base, after_rem, problems@);
                let out = problems@.skip(base.len() as int);
                let o = own.skip(base.len() as int);
                let a = after_args.skip(own.len() as int);
                let m = after_rem.skip(after_args.len() as int);
                let t = problems@.skip(after_rem.len() as int);
                lemma_extend(own, after_args, after_rem);
                lemma_extend(own, after_rem, problems@);
                assert(out =~= o + a + m + t);
                let k0 = found_all(lints@, *content) as int;
                assert(out.take(k0) =~= o);
                assert(out.subrange(k0, k0 + a.len()) =~= a);
                assert(out.subrange(k0 + a.len(), k0 + a.len() + m.len()) =~= m);
                assert(out.subrange(k0 + a.len() + m.len(), out.len() as int) =~= t);
                if remainder_arg is None {
                    assert(m.len() == 0);
                }
            }
        },
        Content::Sugar(s) => {
            match s {
                Sugar::Italic { arg, .. } | Sugar::Bold { arg, .. } | Sugar::Monospace { arg, .. }
                | Sugar::Smallcaps { arg, .. } | Sugar::AlternateFace { arg, .. } | Sugar::Heading { arg, .. } => {
                    lint_contents(arg, lints, problems);
                },
                _ => {},
            }
            proof {
                assert(problems@.subrange(0, own.len() as int) =~= own);
                lemma_extend(base, own, problems@);
                let out = problems@.skip(base.len() as int);
                let o = own.skip(base.len() as int);
                let a = problems@.skip(own.len() as int);
                assert(out =~= o + a);
                let k0 = found_all(lints@, *content) as int;
                assert(out.take(k0) =~= o);
                assert(out.subrange(k0, out.len() as int) =~= a);
            }
        },
        _ => {
            proof {
                assert(problems@.skip(base.len() as int).take(found_all(lints@, *content) as int) =~= problems@.skip(
                    base.len() as int,
                ));
            }
        },
    }
}

fn lint_contents(cs: &Vec<Content>, lints: &Vec<Lint>, problems: &mut Vec<Log>)
    requires
        tagged_by(old(problems)@, lints@),
    ensures
        tagged_by(final(problems)@, lints@),
        final(problems)@.len() == old(problems)@.len() + contents_total(cs@, lints@),
        final(problems)@.subrange(0, old(problems)@.len() as int) == old(problems)@,
        contents_reports(cs@, lints@, final(problems)@.skip(old(problems)@.len() as int)),
    decreases *cs, 3int,
{
    let ghost base = problems@;
    let mut i: usize = 0;
    proof {
        assert(cs@.take(0) =~= Seq::<Content>::empty());
        assert(problems@.skip(base.len() as int) =~= Seq::<Log>::empty());
        assert(problems@.subrange(0, base.len() as int) =~= base);
    }
    while i < cs.len()
        invariant
            i <= cs@.len(),
            tagged_by(problems@, lints@),
            problems@.len() == base.len() + contents_total(cs@.take(i as int), lints@),
            problems@.subrange(0, base.len() as int) == base,
            contents_reports(cs@.take(i as int), lints@, problems@.skip(base.len() as int)),
        decreases cs@.len() - i,
    {
        proof {
            assert(cs@.take(i + 1).drop_last() =~= cs@.take(i as int));
        }
        let ghost before = problems@;
        lint_content(&cs[i], lints, problems);
        proof {
            lemma_extend(base, before, problems@);
            lemma_contents_grow(cs@, i as int, lints@, before.skip(base.len() as int), problems@.skip(before.len() as int));
        }
        i = i + 1;
    }
    proof {
        assert(cs@.take(cs@.len() as int) =~= cs@);
    }
}

fn lint_args(args: &Vec<Vec<Content>>, lints: &Vec<Lint>, problems: &mut Vec<Log>)
    requires
        tagged_by(old(problems)@, lints@),
    ensures
        tagged_by(final(problems)@, lints@),
        final(problems)@.len() == old(problems)@.len() + args_total(args@, lints@),
        final(problems)@.subrange(0, old(problems)@.len() as int) == old(problems)@,
        args_reports(args@, lints@, final(problems)@.skip(old(problems)@.len() as int)),
    decreases *args, 3int,
{
    let ghost base = problems@;
    let mut i: usize = 0;
    proof {
        assert(args@.take(0) =~= Seq::<Vec<Content>>::empty());
        assert(problems@.skip(base.len() as int) =~= Seq::<Log>::empty());
        assert(problems@.subrange(0, base.len() as int) =~= base);
    }
    while i < args.len()
        invariant
            i <= args@.len(),
            tagged_by(problems@, lints@),
            problems@.len() == base.len() + args_total(args@.take(i as int), lints@),
            problems@.subrange(0, base.len() as int) == base,
            args_reports(args@.take(i as int), lints@, problems@.skip(base.len() as int)),
        decreases args@.len() - i,
    {
        proof {
            assert(args@.take(i + 1).drop_last() =~= args@.take(i as int));
        }
        let ghost before = problems@;
        lint_contents(&args[i], lints, problems);
        proof {
            lemma_extend(base, before, problems@);
            lemma_args_grow(args@, i as int, lints@, before.skip(base.len() as int), problems@.skip(before.len() as int));
        }
        i = i + 1;
    }
    proof {
        assert(args@.take(args@.len() as int) =~= args@);
    }
}

fn lint_trailers(ts: &Vec<Vec<Par>>, lints: &Vec<Lint>, problems: &mut Vec<Log>)
    requires
        tagged_by(old(problems)@, lints@),
    ensures
        tagged_by(final(problems)@, lints@),
        final(problems)@.len() == old(problems)@.len() + trailers_total(ts@, lints@),
        final(problems)@.subrange(0, old(problems)@.len() as int) == old(problems)@,
        trailers_reports(ts@, lints@, final(problems)@.skip(old(problems)@.len() as int)),
    decreases *ts, 3int,
{
    let ghost base = problems@;
    let mut i: usize = 0;
    proof {
        assert(ts@.take(0) =~= Seq::<Vec<Par>>::empty());
        assert(problems@.skip(base.len() as int) =~= Seq::<Log>::empty());
        assert(problems@.subrange(0, base.len() as int) =~= base);
    }
    while i < ts.len()
        invariant
            i <= ts@.len(),
            tagged_by(problems@, lints@),
            problems@.len() == base.len() + trailers_total(ts@.take(i as int), lints@),
            problems@.subrange(0, base.len() as int) == base,
            trailers_reports(ts@.take(i as int), lints@, problems@.skip(base.len() as int)),
        decreases ts@.len() - i,
    {
        proof {
            assert(ts@.take(i + 1).drop_last() =~= ts@.take(i as int));
        }
        let ghost before = problems@;
        lint_pars(&ts[i], lints, problems);
        proof {
            lemma_extend(base, before, problems@);
            lemma_trailers_grow(ts@, i as int, lints@, before.skip(base.len() as int), problems@.skip(before.len() as int));
        }
        i = i + 1;
    }
    proof {
        assert(ts@.take(ts@.len() as int) =~= ts@);
    }
}

fn lint_pars(ps: &Vec<Par>, lints: &Vec<Lint>, problems: &mut Vec<Log>)
    requires
        tagged_by(old(problems)@, lints@),
    ensures
        tagged_by(final(problems)@, lints@),
        final(problems)@.len() == old(problems)@.len() + pars_total(ps@, lints@),
        final(problems)@.subrange(0, old(problems)@.len() as int) == old(problems)@,
        pars_reports(ps@, lints@, final(problems)@.skip(old(problems)@.len() as int)),
    decreases *ps, 3int,
{
    let ghost base = problems@;
    let mut i: usize = 0;
    proof {
        assert(ps@.take(0) =~= Seq::<Par>::empty());
        assert(problems@.skip(base.len() as int) =~= Seq::<Log>::empty());
        assert(problems@.subrange(0, base.len() as int) =~= base);
    }
    while i < ps.len()
        invariant
            i <= ps@.len(),
            tagged_by(problems@, lints@),
            problems@.len() == base.len() + pars_total(ps@.take(i as int), lints@),
            problems@.subrange(0, base.len() as int) == base,
            pars_reports(ps@.take(i as int), lints@, problems@.skip(base.len() as int)),
        decreases ps@.len() - i,
    {
        proof {
            assert(ps@.take(i + 1).drop_last() =~= ps@.take(i as int));
        }
        let ghost before = problems@;
        lint_par(&ps[i], lints, problems);
        proof {
            lemma_extend(base, before, problems@);
            lemma_pars_grow(ps@, i as int, lints@, before.skip(base.len() as int), problems@.skip(before.len() as int));
        }
        i = i + 1;
    }
    proof {
        assert(ps@.take(ps@.len() as int) =~= ps@);
    }
}

fn lint_par(p: &Par, lints: &Vec<Lint>, problems: &mut Vec<Log>)
    requires
        tagged_by(old(problems)@, lints@),
    ensures
        tagged_by(final(problems)@, lints@),
        final(problems)@.len() == old(problems)@.len() + par_total(*p, lints@),
        final(problems)@.subrange(0, old(problems)@.len() as int) == old(problems)@,
        par_reports(*p, lints@, final(problems)@.skip(old(problems)@.len() as int)),
    decreases *p, 3int,
{
    let ghost base = problems@;
    let mut k: usize = 0;
    proof {
        assert(p.parts@.take(0) =~= Seq::<ParPart>::empty());
        assert(problems@.skip(base.len() as int) =~= Seq::<Log>::empty());
        assert(problems@.subrange(0, base.len() as int) =~= base);
    }
    while k < p.parts.len()
        invariant
            k <= p.parts@.len(),
            tagged_by(problems@, lints@),
            problems@.len() == base.len() + parts_total(p.parts@.take(k as int), lints@),
            problems@.subrange(0, base.len() as int) == base,
            parts_reports(p.parts@.take(k as int), lints@, problems@.skip(base.len() as int)),
        decreases p.parts@.len() - k,
    {
        proof {
            assert(p.parts@.take(k + 1).drop_last() =~= p.parts@.take(k as int));
        }
        let ghost before = problems@;
        lint_part(&p.parts[k], lints, problems);
        proof {
            lemma_extend(base, before, problems@);
            lemma_parts_grow(p.parts@, k as int, lints@, before.skip(base.len() as int), problems@.skip(before.len() as int));
        }
        k = k + 1;
    }
    proof {
        assert(p.parts@.take(p.parts@.len() as int) =~= p.parts@);
    }
}

fn lint_part(pp: &ParPart, lints: &Vec<Lint>, problems: &mut Vec<Log>)
    requires
        tagged_by(old(problems)@, lints@),
    ensures
        tagged_by(final(problems)@, lints@),
        final(problems)@.len() == old(problems)@.len() + part_total(*pp, lints@),
        final(problems)@.subrange(0, old(problems)@.len() as int) == old(problems)@,
        part_reports(*pp, lints@, final(problems)@.skip(old(problems)@.len() as int)),
    decreases *pp, 3int,
{
    match pp {
        ParPart::Command(c) => lint_content(c, lints, problems),
        ParPart::Line(cs) => lint_contents(cs, lints, problems),
    }
}

/// The problems that `lints` find in `file`: each lint looks at every piece
/// of content, outermost first and in order, and each problem carries the
/// identifier of the lint that found it.
pub fn lint_file(file: &File, lints: &Vec<Lint>) -> (problems: Vec<Log>)
    ensures
        tagged_by(problems@, lints@),
        problems@.len() == pars_total(file.pars@, lints@),
        pars_reports(file.pars@, lints@, problems@),
{
    let mut problems: Vec<Log> = Vec::new();
    proof {
        assert(tagged_by(problems@, lints@));
    }
    lint_pars(&file.pars, lints, &mut problems);
    proof {
        assert(problems@.skip(0) =~= problems@);
    }
    problems
}

} // verus!
