//! What a message looks like when it is shown: its title, the slices of
//! source it points into with their remarks, and its footer; and the tally
//! of errors and warnings shown, with the summary given at the end.
use vstd::prelude::*;
use crate::emblem_core::parser::location::{FileContentSlice, Location};
use crate::lines::{ends_line_of, starts_line_of};
use crate::log::{Level, Log, Note, Src};
use crate::text::{byte_offset, decimal, push_decimal, push_str, string_of, utf8_len};

verus! {

/// The byte index where the line holding byte `i` of `s` starts.
pub open spec fn line_start(s: Seq<char>, i: nat) -> nat {
    choose|a: nat| starts_line_of(s, i, a)
}

/// Only one byte index starts the line that holds a given byte.
pub proof fn lemma_line_start_unique(s: Seq<char>, i: nat, a: nat, b: nat)
    requires
        starts_line_of(s, i, a),
        starts_line_of(s, i, b),
    ensures
        a == b,
{
    if a < b {
        let k = choose|k: int| 0 <= k < s.len() && crate::lines::is_line_break(#[trigger] s[k]) && byte_offset(s, k) + 1 == b;
        assert(a <= byte_offset(s, k) < i);
    } else if b < a {
        let k = choose|k: int| 0 <= k < s.len() && crate::lines::is_line_break(#[trigger] s[k]) && byte_offset(s, k) + 1 == a;
        assert(b <= byte_offset(s, k) < i);
    }
}

/// The span can be shown with its whole lines: its source is small enough
/// to be measured, and its bytes lie in it in order.
pub open spec fn showable_span(l: Location) -> bool {
    &&& 4 * l.src@.len() <= usize::MAX
    &&& l.indices.0 <= l.indices.1 <= utf8_len(l.src@)
}

/// Every remark on the span lies at or after the start of the span's first
/// line, so that its bytes can be counted from there.
pub open spec fn showable_src(s: Src) -> bool {
    &&& showable_span(s.loc)
    &&& forall|j: int| 0 <= j < s.annotations@.len() ==> {
        let a = #[trigger] s.annotations@[j];
        line_start(s.loc.src@, s.loc.indices.0 as nat) <= a.loc.indices.0 && line_start(
            s.loc.src@,
            s.loc.indices.0 as nat,
        ) <= a.loc.indices.1
    }
}

/// A remark placed in a slice of source.
#[derive(Debug)]
pub struct AnnotationView {
    pub level: Level,
    pub label: String,
    /// Byte range, counted from the start of the slice.
    pub range: (usize, usize),
}

/// The whole lines of source that a span covers, with the remarks on them.
#[derive(Debug)]
pub struct SliceView {
    pub source: String,
    /// The number of the slice's first line.
    pub line_start: usize,
    /// The name of the file.
    pub origin: String,
    pub annotations: Vec<AnnotationView>,
}

/// A message laid out for showing.
#[derive(Debug)]
pub struct Rendering {
    pub id: Option<String>,
    pub title: String,
    pub level: Level,
    pub slices: Vec<SliceView>,
    /// Help, then the note, each where there is one.
    pub footer: Vec<(Level, String)>,
    /// The line that points to the longer explanation, for a message that
    /// has one.
    pub explain_hint: Option<String>,
}

/// The line that points to the longer explanation of the message `id`.
pub open spec fn explain_hint_text(id: Seq<char>) -> Seq<char> {
    "For more information about this error, try `em explain "@ + id
}

/// The slice shows the whole lines of `s`'s span, from the start of its
/// first line to the end of its last, with each remark on it in turn, its
/// bytes counted from the start of the first line.
pub open spec fn slice_of(v: SliceView, s: Src) -> bool {
    let start = line_start(s.loc.src@, s.loc.indices.0 as nat);
    &&& v.line_start == s.loc.lines.0
    &&& v.origin@ == s.loc.file_name@
    &&& (exists|ka: int, kb: int|
        0 <= ka <= kb <= s.loc.src@.len() && byte_offset(s.loc.src@, ka) == start && ends_line_of(
            s.loc.src@,
            s.loc.indices.1 as nat,
            byte_offset(s.loc.src@, kb),
        ) && v.source@ == s.loc.src@.subrange(ka, kb))
    &&& v.annotations@.len() == s.annotations@.len()
    &&& forall|j: int| 0 <= j < v.annotations@.len() ==> {
        let a = #[trigger] v.annotations@[j];
        let n = s.annotations@[j];
        &&& a.level == n.msg_type
        &&& a.label@ == n.msg@
        &&& a.range == ((n.loc.indices.0 - start) as usize, (n.loc.indices.1 - start) as usize)
    }
}

impl Log {
    /// Every span of the message can be shown.
    pub open spec fn showable(self) -> bool {
        &&& forall|i: int| 0 <= i < self.srcs@.len() ==> showable_src(#[trigger] self.srcs@[i])
        &&& self.explainable ==> self.id is Some
    }

    /// Whether every span of the message can be shown.
    pub fn can_show(&self) -> (r: bool)
        ensures
            r == self.showable(),
    {
        if self.explainable && self.id.is_none() {
            return false;
        }
        let mut i: usize = 0;
        while i < self.srcs.len()
            invariant
                i <= self.srcs@.len(),
                forall|k: int| 0 <= k < i ==> showable_src(#[trigger] self.srcs@[k]),
            decreases self.srcs@.len() - i,
        {
            if !src_showable(&self.srcs[i]) {
                return false;
            }
            i = i + 1;
        }
        true
    }

    /// The message laid out for showing: its level raised to an error where
    /// warnings are fatal, a slice for each span, help and note below, and a
    /// pointer to the explanation where it has one.
    pub fn render(&self, warnings_as_errors: bool) -> (r: Rendering)
        requires
            self.showable(),
        ensures
            r.title@ == self.msg@,
            r.level == (if warnings_as_errors && self.msg_type == Level::Warning {
                Level::Error
            } else {
                self.msg_type
            }),
            match (r.id, self.id) {
                (Some(a), Some(b)) => a@ == b@,
                (None, None) => true,
                _ => false,
            },
            r.slices@.len() == self.srcs@.len(),
            forall|i: int| 0 <= i < r.slices@.len() ==> slice_of(#[trigger] r.slices@[i], self.srcs@[i]),
            r.footer@.len() == (if self.help is Some { 1int } else { 0int }) + (if self.note is Some {
                1int
            } else {
                0int
            }),
            self.help matches Some(h) ==> r.footer@[0].0 == Level::Help && r.footer@[0].1@ == h@,
            self.note matches Some(n) ==> r.footer@.last().0 == Level::Note && r.footer@.last().1@ == n@,
            self.explainable ==> (r.explain_hint matches Some(t) && self.id matches Some(i) && t@
                == explain_hint_text(i@)),
            !self.explainable ==> r.explain_hint is None,
    {
        let mut slices: Vec<SliceView> = Vec::new();
        let mut i: usize = 0;
        while i < self.srcs.len()
            invariant
                i <= self.srcs@.len(),
                self.showable(),
                slices@.len() == i,
                forall|k: int| 0 <= k < i ==> slice_of(#[trigger] slices@[k], self.srcs@[k]),
            decreases self.srcs@.len() - i,
        {
            proof {
                assert(showable_src(self.srcs@[i as int]));
            }
            let v = slice_view(&self.srcs[i]);
            slices.push(v);
            i = i + 1;
        }
        let mut footer: Vec<(Level, String)> = Vec::new();
        match &self.help {
            Some(h) => footer.push((Level::Help, h.clone())),
            None => {},
        }
        match &self.note {
            Some(n) => footer.push((Level::Note, n.clone())),
            None => {},
        }
        let explain_hint = if self.explainable {
            match &self.id {
                Some(id) => {
                    let mut t = string_of("For more information about this error, try `em explain ");
                    push_str(&mut t, id.as_str());
                    Some(t)
                },
                None => None,
            }
        } else {
            None
        };
        let id = match &self.id {
            Some(s) => Some(s.clone()),
            None => None,
        };
        Rendering {
            id,
            title: self.msg.clone(),
            level: self.shown_level(warnings_as_errors),
            slices,
            footer,
            explain_hint,
        }
    }
}

/// Whether the span and the remarks of `s` can be shown.
fn src_showable(s: &Src) -> (r: bool)
    ensures
        r == showable_src(*s),
{
    if s.loc.indices.0 > s.loc.indices.1 {
        return false;
    }
    let n = s.loc.src.as_str().unicode_len();
    if n > usize::MAX / 4 {
        return false;
    }
    let bytes = crate::lines::utf8_length(crate::text::str_chars(s.loc.src.as_str()).as_slice());
    if s.loc.indices.1 > bytes {
        return false;
    }
    let c = s.loc.context();
    proof {
        let start = line_start(s.loc.src@, s.loc.indices.0 as nat);
        assert(starts_line_of(s.loc.src@, s.loc.indices.0 as nat, start));
        lemma_line_start_unique(s.loc.src@, s.loc.indices.0 as nat, start, c.start as nat);
    }
    let mut j: usize = 0;
    while j < s.annotations.len()
        invariant
            j <= s.annotations@.len(),
            showable_span(s.loc),
            c.start == line_start(s.loc.src@, s.loc.indices.0 as nat),
            forall|k: int| 0 <= k < j ==> {
                let a = #[trigger] s.annotations@[k];
                c.start <= a.loc.indices.0 && c.start <= a.loc.indices.1
            },
        decreases s.annotations@.len() - j,
    {
        let a = &s.annotations[j];
        if a.loc.indices.0 < c.start || a.loc.indices.1 < c.start {
            return false;
        }
        j = j + 1;
    }
    true
}

/// The slice of source that `s` shows.
fn slice_view(s: &Src) -> (v: SliceView)
    requires
        showable_src(*s),
    ensures
        slice_of(v, *s),
{
    let c = s.loc.context();
    proof {
        let start = line_start(s.loc.src@, s.loc.indices.0 as nat);
        assert(starts_line_of(s.loc.src@, s.loc.indices.0 as nat, start));
        lemma_line_start_unique(s.loc.src@, s.loc.indices.0 as nat, start, c.start as nat);
    }
    let mut annotations: Vec<AnnotationView> = Vec::new();
    let mut j: usize = 0;
    while j < s.annotations.len()
        invariant
            j <= s.annotations@.len(),
            showable_src(*s),
            c.start == line_start(s.loc.src@, s.loc.indices.0 as nat),
            annotations@.len() == j,
            forall|k: int| 0 <= k < j ==> {
                let a = #[trigger] annotations@[k];
                let n = s.annotations@[k];
                &&& a.level == n.msg_type
                &&& a.label@ == n.msg@
                &&& a.range == ((n.loc.indices.0 - c.start) as usize, (n.loc.indices.1 - c.start) as usize)
            },
        decreases s.annotations@.len() - j,
    {
        let n = &s.annotations[j];
        proof {
            assert(showable_src(*s));
            let a = s.annotations@[j as int];
            assert(line_start(s.loc.src@, s.loc.indices.0 as nat) <= a.loc.indices.0);
        }
        let range = n.loc.indices_in(&c);
        annotations.push(AnnotationView { level: n.msg_type, label: n.msg.clone(), range });
        j = j + 1;
    }
    SliceView { source: c.raw, line_start: s.loc.lines.0, origin: s.loc.file_name.clone(), annotations }
}

/// How many errors and warnings have been shown.
#[derive(Copy, Clone, Debug, PartialEq, Eq, Structural)]
pub struct Tally {
    pub errors: usize,
    pub warnings: usize,
}

/// The summary of a run: the warning count, the failure, and whether the
/// run failed.
#[derive(Debug)]
pub struct Summary {
    pub warnings: Option<Log>,
    pub failure: Option<Log>,
    pub failed: bool,
}

/// The plural ending for a count of `n`.
pub open spec fn plural_ending(n: nat) -> Seq<char> {
    if n > 1 {
        "s"@
    } else {
        ""@
    }
}

impl Tally {
    /// Nothing shown yet.
    pub fn new() -> (t: Tally)
        ensures
            t.errors == 0 && t.warnings == 0,
    {
        Tally { errors: 0, warnings: 0 }
    }

    /// Counts a message shown at `level`: errors and warnings are counted.
    pub fn record(&mut self, level: Level)
        requires
            old(self).errors < usize::MAX,
            old(self).warnings < usize::MAX,
        ensures
            final(self).errors == old(self).errors + (if level == Level::Error { 1int } else { 0int }),
            final(self).warnings == old(self).warnings + (if level == Level::Warning { 1int } else { 0int }),
    {
        match level {
            Level::Error => {
                self.errors = self.errors + 1;
            },
            Level::Warning => {
                self.warnings = self.warnings + 1;
            },
            _ => {},
        }
    }

    /// The summary at the end of a run of the program named `exe`: a
    /// warning that counts the warnings where there were any, an error that
    /// counts the errors where there were any, and failure exactly where
    /// there were errors.
    pub fn summary(&self, exe: &str) -> (s: Summary)
        ensures
            s.failed == (self.errors > 0),
            self.warnings == 0 <==> s.warnings is None,
            s.warnings matches Some(w) ==> w.msg@ == "generated "@ + decimal(self.warnings as nat) + " warning"@
                + plural_ending(self.warnings as nat)
                && w.msg_type == Level::Warning,
            self.errors == 0 <==> s.failure is None,
            s.failure matches Some(f) ==> f.msg@ == "`"@ + exe@ + "` failed due to "@ + decimal(self.errors as nat) + " error"@
                + plural_ending(self.errors as nat) && f.msg_type == Level::Error,
    {
        let warnings = if self.warnings > 0 {
            let mut m = string_of("generated ");
            push_decimal(&mut m, self.warnings);
            push_str(&mut m, " warning");
            push_str(&mut m, if self.warnings > 1 { "s" } else { "" });
            proof {
                assert(m@ =~= "generated "@ + decimal(self.warnings as nat) + " warning"@ + plural_ending(
                    self.warnings as nat,
                ));
            }
            Some(Log::warn(m.as_str()))
        } else {
            None
        };
        let failure = if self.errors > 0 {
            let mut m = string_of("`");
            push_str(&mut m, exe);
            push_str(&mut m, "` failed due to ");
            push_decimal(&mut m, self.errors);
            push_str(&mut m, " error");
            push_str(&mut m, if self.errors > 1 { "s" } else { "" });
            proof {
                assert(m@ =~= "`"@ + exe@ + "` failed due to "@ + decimal(self.errors as nat) + " error"@
                    + plural_ending(self.errors as nat));
            }
            Some(Log::error(m.as_str()))
        } else {
            None
        };
        Summary { warnings, failure, failed: self.errors > 0 }
    }
}

} // verus!
