//! The content of a verbatim block: lines, possibly grouped.
use vstd::prelude::*;
use crate::emblem_core::parser::location::FileContentSlice;

verus! {

/// A line of a verbatim block, or a group of such content.
pub enum VerbatimBlockContent {
    Line(FileContentSlice),
    Lines(Vec<VerbatimBlockContent>),
}

/// The lines of `v`, groups opened, in order.
pub open spec fn lines_of(v: VerbatimBlockContent) -> Seq<FileContentSlice>
    decreases v,
{
    match v {
        VerbatimBlockContent::Line(l) => seq![l],
        VerbatimBlockContent::Lines(ls) => lines_of_all(ls@),
    }
}

/// The lines of each of `vs` in turn.
pub open spec fn lines_of_all(vs: Seq<VerbatimBlockContent>) -> Seq<FileContentSlice>
    decreases vs,
{
    if vs.len() == 0 {
        seq![]
    } else {
        lines_of_all(vs.drop_last()) + lines_of(vs.last())
    }
}

/// A copy of a piece of content.
fn copy_slice(s: &FileContentSlice) -> (r: FileContentSlice)
    ensures
        r == *s,
{
    FileContentSlice { raw: s.raw.clone(), start: s.start, end: s.end }
}

impl VerbatimBlockContent {
    /// The lines, groups opened, in order.
    pub fn flatten(&self) -> (r: Vec<FileContentSlice>)
        ensures
            r@ == lines_of(*self),
    {
        let mut content: Vec<FileContentSlice> = Vec::new();
        self.flatten_into(&mut content);
        assert(content@ =~= lines_of(*self));
        content
    }

    /// Appends the lines, groups opened, to `content`.
    pub fn flatten_into(&self, content: &mut Vec<FileContentSlice>)
        ensures
            final(content)@ == old(content)@ + lines_of(*self),
        decreases *self, 0int,
    {
        match self {
            VerbatimBlockContent::Line(line) => {
                content.push(copy_slice(line));
            },
            VerbatimBlockContent::Lines(lines) => {
                flatten_all(lines, content);
            },
        }
    }
}

/// Appends the lines of each of `vs` in turn to `content`.
fn flatten_all(vs: &Vec<VerbatimBlockContent>, content: &mut Vec<FileContentSlice>)
    ensures
        final(content)@ == old(content)@ + lines_of_all(vs@),
    decreases *vs, 1int,
{
    let ghost start = content@;
    let mut i: usize = 0;
    assert(vs@.take(0) =~= Seq::<VerbatimBlockContent>::empty());
    while i < vs.len()
        invariant
            i <= vs@.len(),
            content@ == start + lines_of_all(vs@.take(i as int)),
        decreases vs@.len() - i,
    {
        proof {
            assert(vs@.take(i + 1).drop_last() =~= vs@.take(i as int));
        }
        vs[i].flatten_into(content);
        proof {
            assert(content@ =~= start + lines_of_all(vs@.take(i + 1)));
        }
        i = i + 1;
    }
    assert(vs@.take(vs@.len() as int) =~= vs@);
}

} // verus!
