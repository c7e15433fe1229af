//! Search paths: directories, written with colons between them.
use vstd::prelude::*;
use crate::text::{push_char, push_str, str_chars, string_of};

verus! {

/// A list of directories to look in, in order.
#[derive(Clone, Debug, PartialEq, Eq)]
pub struct SearchPath {
    pub path: Vec<String>,
}

/// The directory being read, if there is one, as a list.
pub open spec fn flush(cur: Seq<char>) -> Seq<Seq<char>> {
    if cur.len() > 0 {
        seq![cur]
    } else {
        seq![]
    }
}

/// The directories that the rest `s` of a colon-separated path writes,
/// after the characters `cur` of a directory were read: empty ones are
/// dropped.
pub open spec fn dirs_from(s: Seq<char>, cur: Seq<char>) -> Seq<Seq<char>>
    decreases s.len(),
{
    if s.len() == 0 {
        flush(cur)
    } else if s[0] == ':' {
        flush(cur) + dirs_from(s.drop_first(), seq![])
    } else {
        dirs_from(s.drop_first(), cur.push(s[0]))
    }
}

/// The directories that a colon-separated path writes.
pub open spec fn split_dirs(s: Seq<char>) -> Seq<Seq<char>> {
    dirs_from(s, seq![])
}

/// Directories joined with colons.
pub open spec fn join_dirs(ds: Seq<Seq<char>>) -> Seq<char>
    decreases ds.len(),
{
    if ds.len() == 0 {
        seq![]
    } else if ds.len() == 1 {
        ds[0]
    } else {
        join_dirs(ds.drop_last()) + seq![':'] + ds.last()
    }
}

/// A directory that a path can hold: not empty, and without a colon.
pub open spec fn plain_dir(d: Seq<char>) -> bool {
    d.len() > 0 && !d.contains(':')
}

impl SearchPath {
    /// The directories, each as text.
    pub open spec fn dirs(self) -> Seq<Seq<char>> {
        self.path@.map_values(|p: String| p@)
    }

    /// The directories that `raw` lists, separated by colons; empty ones are
    /// left out.
    pub fn from(raw: &str) -> (r: SearchPath)
        ensures
            r.dirs() == split_dirs(raw@),
    {
        let cs = str_chars(raw);
        let mut path: Vec<String> = Vec::new();
        let mut cur = String::new();
        let mut i: usize = 0;
        proof {
            assert(cs@.skip(0) =~= cs@);
            assert(cur@ =~= Seq::<char>::empty());
            assert(path@.map_values(|p: String| p@) =~= Seq::<Seq<char>>::empty());
        }
        while i < cs.len()
            invariant
                cs@ == raw@,
                i <= cs@.len(),
                path@.map_values(|p: String| p@) + dirs_from(cs@.skip(i as int), cur@) == split_dirs(raw@),
            decreases cs@.len() - i,
        {
            let ghost rest = cs@.skip(i as int);
            proof {
                assert(rest[0] == cs@[i as int]);
                assert(rest.drop_first() =~= cs@.skip(i + 1));
            }
            let c = cs[i];
            if c == ':' {
                let ghost before = path@.map_values(|p: String| p@);
                let ghost was = cur@;
                if cur.as_str().unicode_len() > 0 {
                    path.push(cur);
                    proof {
                        assert(path@.map_values(|p: String| p@) =~= before + flush(was));
                    }
                } else {
                    proof {
                        assert(path@.map_values(|p: String| p@) =~= before + flush(was));
                    }
                }
                cur = String::new();
                proof {
                    assert(cur@ =~= Seq::<char>::empty());
                    assert(before + (flush(was) + dirs_from(rest.drop_first(), seq![])) =~= (before + flush(was))
                        + dirs_from(rest.drop_first(), seq![]));
                }
            } else {
                push_char(&mut cur, c);
            }
            i = i + 1;
        }
        let ghost before = path@.map_values(|p: String| p@);
        let ghost was = cur@;
        proof {
            assert(cs@.skip(i as int) =~= Seq::<char>::empty());
        }
        if cur.as_str().unicode_len() > 0 {
            path.push(cur);
            proof {
                assert(path@.map_values(|p: String| p@) =~= before + flush(was));
            }
        } else {
            proof {
                assert(path@.map_values(|p: String| p@) =~= before + flush(was));
            }
        }
        SearchPath { path }
    }

    /// The directories `dirs`, in order.
    pub fn from_dirs(dirs: Vec<String>) -> (r: SearchPath)
        ensures
            r.path@ == dirs@,
    {
        SearchPath { path: dirs }
    }

    /// The directories joined with colons.
    pub fn to_string(&self) -> (s: String)
        ensures
            s@ == join_dirs(self.dirs()),
    {
        let mut s = String::new();
        let mut i: usize = 0;
        proof {
            assert(s@ =~= Seq::<char>::empty());
        }
        while i < self.path.len()
            invariant
                i <= self.path@.len(),
                s@ == join_dirs(self.dirs().take(i as int)),
            decreases self.path@.len() - i,
        {
            proof {
                assert(self.dirs().take(i + 1).drop_last() =~= self.dirs().take(i as int));
            }
            if i > 0 {
                push_char(&mut s, ':');
            } else {
                proof {
                    assert(s@ + self.path@[0]@ =~= self.path@[0]@);
                }
            }
            push_str(&mut s, self.path[i].as_str());
            i = i + 1;
        }
        proof {
            assert(self.dirs().take(self.path@.len() as int) =~= self.dirs());
        }
        s
    }
}

impl Default for SearchPath {
    /// No directories.
    fn default() -> (r: SearchPath)
        ensures
            r.path@.len() == 0,
    {
        SearchPath { path: Vec::new() }
    }
}

/// Splitting after a colon: what comes before and after it are split on
/// their own.
pub proof fn lemma_dirs_from_colon(x: Seq<char>, y: Seq<char>, cur: Seq<char>)
    ensures
        dirs_from(x + seq![':'] + y, cur) == dirs_from(x, cur) + dirs_from(y, seq![]),
    decreases x.len(),
{
    let s = x + seq![':'] + y;
    if x.len() == 0 {
        assert(s =~= seq![':'] + y);
        assert(s.drop_first() =~= y);
    } else {
        assert(s[0] == x[0]);
        assert(s.drop_first() =~= x.drop_first() + seq![':'] + y);
        if x[0] == ':' {
            lemma_dirs_from_colon(x.drop_first(), y, seq![]);
            assert(flush(cur) + (dirs_from(x.drop_first(), seq![]) + dirs_from(y, seq![])) =~= (flush(cur)
                + dirs_from(x.drop_first(), seq![])) + dirs_from(y, seq![]));
        } else {
            lemma_dirs_from_colon(x.drop_first(), y, cur.push(x[0]));
        }
    }
}

/// Text without colons adds to the directory being read.
pub proof fn lemma_dirs_from_plain(d: Seq<char>, cur: Seq<char>)
    requires
        !d.contains(':'),
    ensures
        dirs_from(d, cur) == flush(cur + d),
    decreases d.len(),
{
    if d.len() == 0 {
        assert(cur + d =~= cur);
    } else {
        assert(d[0] != ':') by {
            assert(d.contains(d[0]));
        }
        assert(!d.drop_first().contains(':')) by {
            if d.drop_first().contains(':') {
                let k = choose|k: int| 0 <= k < d.drop_first().len() && d.drop_first()[k] == ':';
                assert(d[k + 1] == ':');
            }
        }
        lemma_dirs_from_plain(d.drop_first(), cur.push(d[0]));
        assert(cur.push(d[0]) + d.drop_first() =~= cur + d);
    }
}

/// Written out and read back, directories that are not empty and hold no
/// colon come back as they were.
pub proof fn lemma_split_join(ds: Seq<Seq<char>>)
    requires
        forall|i: int| 0 <= i < ds.len() ==> plain_dir(#[trigger] ds[i]),
    ensures
        split_dirs(join_dirs(ds)) == ds,
    decreases ds.len(),
{
    if ds.len() == 0 {
        assert(split_dirs(join_dirs(ds)) =~= ds);
    } else if ds.len() == 1 {
        assert(plain_dir(ds[0]));
        lemma_dirs_from_plain(ds[0], seq![]);
        assert(Seq::<char>::empty() + ds[0] =~= ds[0]);
        assert(flush(ds[0]) =~= ds);
    } else {
        let init = ds.drop_last();
        assert forall|i: int| 0 <= i < init.len() implies plain_dir(#[trigger] init[i]) by {
            assert(init[i] == ds[i]);
        }
        lemma_split_join(init);
        lemma_dirs_from_colon(join_dirs(init), ds.last(), seq![]);
        assert(plain_dir(ds[ds.len() - 1]));
        lemma_dirs_from_plain(ds.last(), seq![]);
        assert(Seq::<char>::empty() + ds.last() =~= ds.last());
        assert(init + flush(ds.last()) =~= ds);
    }
}

/// A search path whose directories are not empty and hold no colon reads
/// back from its written form as itself.
pub proof fn lemma_search_path_round_trip(p: SearchPath)
    requires
        forall|i: int| 0 <= i < p.dirs().len() ==> plain_dir(#[trigger] p.dirs()[i]),
    ensures
        split_dirs(join_dirs(p.dirs())) == p.dirs(),
{
    lemma_split_join(p.dirs());
}

/// What looking for a file in one place found: whether the file there lies
/// inside the place looked in, and whether it is a regular file that could
/// be opened.
#[derive(Copy, Clone, Debug, PartialEq, Eq, Structural)]
pub struct Probe {
    pub inside: bool,
    pub is_file: bool,
}

/// The look found the file sought.
pub open spec fn probe_hits(p: Probe) -> bool {
    p.inside && p.is_file
}

/// The first place, in the order looked (next to the source, then each
/// directory of the search path in turn), where the file sought was found;
/// none where it was found nowhere.
pub fn pick_found(probes: &Vec<Probe>) -> (r: Option<usize>)
    ensures
        match r {
            Some(i) => i < probes@.len() && probe_hits(probes@[i as int]) && forall|j: int|
                0 <= j < i ==> !probe_hits(#[trigger] probes@[j]),
            None => forall|j: int| 0 <= j < probes@.len() ==> !probe_hits(#[trigger] probes@[j]),
        },
{
    let mut i: usize = 0;
    while i < probes.len()
        invariant
            i <= probes@.len(),
            forall|j: int| 0 <= j < i ==> !probe_hits(#[trigger] probes@[j]),
        decreases probes@.len() - i,
    {
        if probes[i].inside && probes[i].is_file {
            return Some(i);
        }
        i = i + 1;
    }
    None
}

/// The refusal of a target given as an absolute path, whose written form
/// is `target`.
pub fn absolute_refusal(target: &str) -> (s: String)
    ensures
        s@ == "Absolute paths are forbidden: got "@ + target@,
{
    let mut s = string_of("Absolute paths are forbidden: got ");
    push_str(&mut s, target);
    s
}

impl SearchPath {
    /// The report that the file whose written form is `target` is found
    /// nowhere along this path.
    pub fn not_found_text(&self, target: &str) -> (s: String)
        ensures
            s@ == "Could not find file "@ + target@ + " along path \""@ + join_dirs(self.dirs()) + "\""@,
    {
        let mut s = string_of("Could not find file ");
        push_str(&mut s, target);
        push_str(&mut s, " along path \"");
        let p = self.to_string();
        push_str(&mut s, p.as_str());
        push_str(&mut s, "\"");
        s
    }
}

} // verus!
