//! Messages for the user: their level, text, notes and the source they
//! point at. Printing them is left to the program.
pub mod messages;
pub mod render;

use vstd::prelude::*;
use crate::emblem_core::parser::location::Location;
use crate::text::{push_str, string_of};

verus! {

/// How serious a message is.
#[derive(Copy, Clone, Debug, PartialEq, Eq, Structural)]
pub enum Level {
    Error,
    Warning,
    Info,
    Note,
    Help,
}

/// A remark about a span of the source.
#[derive(Debug)]
pub struct Note {
    pub loc: Location,
    pub msg: String,
    pub msg_type: Level,
}

impl Note {
    fn new(msg_type: Level, loc: &Location, msg: &str) -> (n: Note)
        ensures
            n.loc == *loc,
            n.msg@ == msg@,
            n.msg_type == msg_type,
    {
        Note { loc: loc.duplicate(), msg: string_of(msg), msg_type }
    }

    /// An error about `loc`.
    pub fn error(loc: &Location, msg: &str) -> (n: Note)
        ensures
            n.loc == *loc && n.msg@ == msg@ && n.msg_type == Level::Error,
    {
        Note::new(Level::Error, loc, msg)
    }

    /// A warning about `loc`.
    pub fn warn(loc: &Location, msg: &str) -> (n: Note)
        ensures
            n.loc == *loc && n.msg@ == msg@ && n.msg_type == Level::Warning,
    {
        Note::new(Level::Warning, loc, msg)
    }

    /// Information about `loc`.
    pub fn info(loc: &Location, msg: &str) -> (n: Note)
        ensures
            n.loc == *loc && n.msg@ == msg@ && n.msg_type == Level::Info,
    {
        Note::new(Level::Info, loc, msg)
    }

    /// Help about `loc`.
    pub fn help(loc: &Location, msg: &str) -> (n: Note)
        ensures
            n.loc == *loc && n.msg@ == msg@ && n.msg_type == Level::Help,
    {
        Note::new(Level::Help, loc, msg)
    }
}

/// A span of source to show, with remarks about parts of it.
#[derive(Debug)]
pub struct Src {
    pub loc: Location,
    pub annotations: Vec<Note>,
}

impl Src {
    /// The span `loc`, without remarks.
    pub fn new(loc: &Location) -> (s: Src)
        ensures
            s.loc == *loc,
            s.annotations@ == Seq::<Note>::empty(),
    {
        Src { loc: loc.duplicate(), annotations: Vec::new() }
    }

    /// This span with one more remark.
    pub fn annotate(self, note: Note) -> (s: Src)
        ensures
            s.loc == self.loc,
            s.annotations@ == self.annotations@.push(note),
    {
        let mut s = self;
        s.annotations.push(note);
        s
    }
}

/// A message for the user.
#[derive(Debug)]
pub struct Log {
    pub msg: String,
    pub msg_type: Level,
    pub id: Option<String>,
    pub help: Option<String>,
    pub note: Option<String>,
    pub srcs: Vec<Src>,
    pub explainable: bool,
}

impl Log {
    fn new(msg_type: Level, msg: &str) -> (l: Log)
        ensures
            l.msg@ == msg@,
            l.msg_type == msg_type,
            l.id is None,
            l.help is None,
            l.note is None,
            l.srcs@ == Seq::<Src>::empty(),
            !l.explainable,
    {
        Log {
            msg: string_of(msg),
            msg_type,
            id: None,
            help: None,
            note: None,
            srcs: Vec::new(),
            explainable: false,
        }
    }

    /// An error.
    pub fn error(msg: &str) -> (l: Log)
        ensures
            l.msg@ == msg@ && l.msg_type == Level::Error && l.id is None && l.help is None && l.note is None,
            l.srcs@ == Seq::<Src>::empty() && !l.explainable,
    {
        Log::new(Level::Error, msg)
    }

    /// A warning.
    pub fn warn(msg: &str) -> (l: Log)
        ensures
            l.msg@ == msg@ && l.msg_type == Level::Warning && l.id is None && l.help is None && l.note is None,
            l.srcs@ == Seq::<Src>::empty() && !l.explainable,
    {
        Log::new(Level::Warning, msg)
    }

    /// A piece of information.
    pub fn info(msg: &str) -> (l: Log)
        ensures
            l.msg@ == msg@ && l.msg_type == Level::Info && l.id is None && l.help is None && l.note is None,
            l.srcs@ == Seq::<Src>::empty() && !l.explainable,
    {
        Log::new(Level::Info, msg)
    }

    /// This message with the identifier `id`.
    pub fn id(self, id: &str) -> (l: Log)
        ensures
            l == (Log { id: l.id, ..self }),
            l.id matches Some(i) && i@ == id@,
    {
        let mut l = self;
        l.id = Some(string_of(id));
        l
    }

    /// This message, marked as one with a longer explanation; it must have
    /// an identifier.
    pub fn explainable(self) -> (l: Log)
        requires
            self.id is Some,
        ensures
            l == (Log { explainable: true, ..self }),
    {
        let mut l = self;
        l.explainable = true;
        l
    }

    /// This message with the note `note`.
    pub fn note(self, note: &str) -> (l: Log)
        ensures
            l == (Log { note: l.note, ..self }),
            l.note matches Some(n) && n@ == note@,
    {
        let mut l = self;
        l.note = Some(string_of(note));
        l
    }

    /// This message with the help `help`; it may have only one.
    pub fn help(self, help: &str) -> (l: Log)
        requires
            self.help is None,
        ensures
            l == (Log { help: l.help, ..self }),
            l.help matches Some(h) && h@ == help@,
    {
        let mut l = self;
        l.help = Some(string_of(help));
        l
    }

    /// This message pointing at one more span of source.
    pub fn src(self, src: Src) -> (l: Log)
        ensures
            l == (Log { srcs: l.srcs, ..self }),
            l.srcs@ == self.srcs@.push(src),
    {
        let mut l = self;
        l.srcs.push(src);
        l
    }

    /// This message with a note listing what was expected: `expected a`,
    /// or `expected one of a, b or c`.
    pub fn expect_one_of(self, expected: &Vec<String>) -> (l: Log)
        ensures
            l == (Log { note: l.note, ..self }),
            l.note matches Some(n) && n@ == expected_text(expected@.map_values(|e: String| e@)),
    {
        let mut text = String::new();
        let ghost items = expected@.map_values(|e: String| e@);
        if expected.len() == 1 {
            push_str(&mut text, "expected ");
            push_str(&mut text, expected[0].as_str());
            proof {
                assert(text@ == "expected "@ + items[0]);
            }
        } else {
            push_str(&mut text, "expected one of ");
            let mut i: usize = 0;
            proof {
                assert(listed(items.take(0), items.len()) =~= Seq::<char>::empty());
            }
            while i < expected.len()
                invariant
                    i <= expected@.len(),
                    items == expected@.map_values(|e: String| e@),
                    expected@.len() != 1,
                    text@ == "expected one of "@ + listed(items.take(i as int), items.len()),
                decreases expected@.len() - i,
            {
                if i > 0 {
                    if i < expected.len() - 1 {
                        push_str(&mut text, ", ");
                    } else {
                        push_str(&mut text, " or ");
                    }
                }
                push_str(&mut text, expected[i].as_str());
                proof {
                    let t = items.take(i + 1);
                    assert(t.drop_last() =~= items.take(i as int));
                    assert(t.last() == items[i as int]);
                    assert(text@ =~= "expected one of "@ + listed(t, items.len()));
                }
                i = i + 1;
            }
            proof {
                assert(items.take(items.len() as int) =~= items);
            }
        }
        self.note(text.as_str())
    }

    /// The level at which the message is shown: warnings count as errors
    /// where they are made fatal.
    pub fn shown_level(&self, warnings_as_errors: bool) -> (l: Level)
        ensures
            l == (if warnings_as_errors && self.msg_type == Level::Warning { Level::Error } else { self.msg_type }),
    {
        if warnings_as_errors && self.msg_type == Level::Warning {
            Level::Error
        } else {
            self.msg_type
        }
    }

    /// The identifier, if any.
    pub fn get_id(&self) -> (r: Option<&str>)
        ensures
            match (r, self.id) {
                (Some(a), Some(b)) => a@ == b@,
                (None, None) => true,
                _ => false,
            },
    {
        match &self.id {
            Some(i) => Some(i.as_str()),
            None => None,
        }
    }

    /// Whether the message has a longer explanation.
    pub fn is_explainable(&self) -> (r: bool)
        ensures
            r == self.explainable,
    {
        self.explainable
    }

    /// The texts of the message: its own, those of the remarks on each
    /// span in turn, and its help.
    pub fn get_text(&self) -> (r: Vec<String>)
        ensures
            r@.len() == 1 + notes_of(self.srcs@).len() + (if self.help is Some { 1int } else { 0int }),
            r@[0]@ == self.msg@,
            forall|i: int| 0 <= i < notes_of(self.srcs@).len() ==> (#[trigger] r@[i + 1])@
                == notes_of(self.srcs@)[i].msg@,
            self.help matches Some(h) ==> r@.last()@ == h@,
    {
        let mut r: Vec<String> = Vec::new();
        r.push(self.msg.clone());
        let mut i: usize = 0;
        while i < self.srcs.len()
            invariant
                i <= self.srcs@.len(),
                r@.len() == 1 + notes_of(self.srcs@.take(i as int)).len(),
                r@[0]@ == self.msg@,
                forall|k: int| 0 <= k < notes_of(self.srcs@.take(i as int)).len() ==> (#[trigger] r@[k + 1])@
                    == notes_of(self.srcs@.take(i as int))[k].msg@,
            decreases self.srcs@.len() - i,
        {
            let ghost done = notes_of(self.srcs@.take(i as int));
            proof {
                lemma_notes_of_step(self.srcs@, i as int);
            }
            let src = &self.srcs[i];
            let mut j: usize = 0;
            while j < src.annotations.len()
                invariant
                    i < self.srcs@.len(),
                    *src == self.srcs@[i as int],
                    j <= src.annotations@.len(),
                    r@.len() == 1 + done.len() + j,
                    r@[0]@ == self.msg@,
                    forall|k: int| 0 <= k < done.len() ==> (#[trigger] r@[k + 1])@ == done[k].msg@,
                    forall|k: int| 0 <= k < j ==> (#[trigger] r@[done.len() + k + 1])@
                        == src.annotations@[k].msg@,
                decreases src.annotations@.len() - j,
            {
                r.push(src.annotations[j].msg.clone());
                j = j + 1;
            }
            proof {
                let now = notes_of(self.srcs@.take(i + 1));
                assert forall|k: int| 0 <= k < now.len() implies (#[trigger] r@[k + 1])@ == now[k].msg@ by {
                    if k >= done.len() {
                        assert(r@[done.len() + (k - done.len()) + 1] == r@[k + 1]);
                    }
                }
            }
            i = i + 1;
        }
        proof {
            assert(self.srcs@.take(self.srcs@.len() as int) =~= self.srcs@);
        }
        match &self.help {
            Some(h) => r.push(h.clone()),
            None => {},
        }
        r
    }

    /// The texts of the message: its own, then each remark on each span in
    /// turn, written as its location, a colon and its text.
    pub fn get_annotation_text(&self) -> (r: Vec<String>)
        ensures
            r@.len() == 1 + notes_of(self.srcs@).len(),
            r@[0]@ == self.msg@,
            forall|i: int| 0 <= i < notes_of(self.srcs@).len() ==> (#[trigger] r@[i + 1])@
                == annotation_text(notes_of(self.srcs@)[i]),
    {
        let mut r: Vec<String> = Vec::new();
        r.push(self.msg.clone());
        let mut i: usize = 0;
        while i < self.srcs.len()
            invariant
                i <= self.srcs@.len(),
                r@.len() == 1 + notes_of(self.srcs@.take(i as int)).len(),
                r@[0]@ == self.msg@,
                forall|k: int| 0 <= k < notes_of(self.srcs@.take(i as int)).len() ==> (#[trigger] r@[k + 1])@
                    == annotation_text(notes_of(self.srcs@.take(i as int))[k]),
            decreases self.srcs@.len() - i,
        {
            let ghost done = notes_of(self.srcs@.take(i as int));
            proof {
                lemma_notes_of_step(self.srcs@, i as int);
            }
            let src = &self.srcs[i];
            let mut j: usize = 0;
            while j < src.annotations.len()
                invariant
                    i < self.srcs@.len(),
                    *src == self.srcs@[i as int],
                    j <= src.annotations@.len(),
                    r@.len() == 1 + done.len() + j,
                    r@[0]@ == self.msg@,
                    forall|k: int| 0 <= k < done.len() ==> (#[trigger] r@[k + 1])@ == annotation_text(done[k]),
                    forall|k: int| 0 <= k < j ==> (#[trigger] r@[done.len() + k + 1])@
                        == annotation_text(src.annotations@[k]),
                decreases src.annotations@.len() - j,
            {
                let note = &src.annotations[j];
                let mut t = note.loc.to_string();
                push_str(&mut t, ": ");
                push_str(&mut t, note.msg.as_str());
                r.push(t);
                j = j + 1;
            }
            proof {
                let now = notes_of(self.srcs@.take(i + 1));
                assert forall|k: int| 0 <= k < now.len() implies (#[trigger] r@[k + 1])@ == annotation_text(now[k]) by {
                    if k >= done.len() {
                        assert(r@[done.len() + (k - done.len()) + 1] == r@[k + 1]);
                    }
                }
            }
            i = i + 1;
        }
        proof {
            assert(self.srcs@.take(self.srcs@.len() as int) =~= self.srcs@);
        }
        r
    }

    /// The levels of the message and of each remark on each span in turn.
    pub fn get_log_levels(&self) -> (r: Vec<Level>)
        ensures
            r@.len() == 1 + notes_of(self.srcs@).len(),
            r@[0] == self.msg_type,
            forall|i: int| 0 <= i < notes_of(self.srcs@).len() ==> #[trigger] r@[i + 1]
                == notes_of(self.srcs@)[i].msg_type,
    {
        let mut r: Vec<Level> = Vec::new();
        r.push(self.msg_type);
        let mut i: usize = 0;
        while i < self.srcs.len()
            invariant
                i <= self.srcs@.len(),
                r@.len() == 1 + notes_of(self.srcs@.take(i as int)).len(),
                r@[0] == self.msg_type,
                forall|k: int| 0 <= k < notes_of(self.srcs@.take(i as int)).len() ==> #[trigger] r@[k + 1]
                    == notes_of(self.srcs@.take(i as int))[k].msg_type,
            decreases self.srcs@.len() - i,
        {
            let ghost done = notes_of(self.srcs@.take(i as int));
            proof {
                lemma_notes_of_step(self.srcs@, i as int);
            }
            let src = &self.srcs[i];
            let mut j: usize = 0;
            while j < src.annotations.len()
                invariant
                    i < self.srcs@.len(),
                    *src == self.srcs@[i as int],
                    j <= src.annotations@.len(),
                    r@.len() == 1 + done.len() + j,
                    r@[0] == self.msg_type,
                    forall|k: int| 0 <= k < done.len() ==> #[trigger] r@[k + 1] == done[k].msg_type,
                    forall|k: int| 0 <= k < j ==> #[trigger] r@[done.len() + k + 1]
                        == src.annotations@[k].msg_type,
                decreases src.annotations@.len() - j,
            {
                r.push(src.annotations[j].msg_type);
                j = j + 1;
            }
            proof {
                let now = notes_of(self.srcs@.take(i + 1));
                assert forall|k: int| 0 <= k < now.len() implies #[trigger] r@[k + 1] == now[k].msg_type by {
                    if k >= done.len() {
                        assert(r@[done.len() + (k - done.len()) + 1] == r@[k + 1]);
                    }
                }
            }
            i = i + 1;
        }
        proof {
            assert(self.srcs@.take(self.srcs@.len() as int) =~= self.srcs@);
        }
        r
    }
}

/// The remarks on all of `srcs`, span after span.
pub open spec fn notes_of(srcs: Seq<Src>) -> Seq<Note>
    decreases srcs.len(),
{
    if srcs.len() == 0 {
        Seq::empty()
    } else {
        notes_of(srcs.drop_last()) + srcs.last().annotations@
    }
}

/// A remark written as its location, a colon and its text.
pub open spec fn annotation_text(n: Note) -> Seq<char> {
    n.loc.text_of() + ": "@ + n.msg@
}

/// The remarks on the first `i + 1` spans are those on the first `i`, then
/// those on span `i`.
pub proof fn lemma_notes_of_step(srcs: Seq<Src>, i: int)
    requires
        0 <= i < srcs.len(),
    ensures
        notes_of(srcs.take(i + 1)) == notes_of(srcs.take(i)) + srcs[i].annotations@,
{
    assert(srcs.take(i + 1).drop_last() =~= srcs.take(i));
}

/// The items listed with `, ` between them and ` or ` before the last of
/// `total`.
pub open spec fn listed(items: Seq<Seq<char>>, total: nat) -> Seq<char>
    decreases items.len(),
{
    if items.len() == 0 {
        seq![]
    } else {
        let sep = if items.len() == 1 {
            Seq::<char>::empty()
        } else if items.len() < total {
            ", "@
        } else {
            " or "@
        };
        listed(items.drop_last(), total) + sep + items.last()
    }
}

/// The note for what was expected.
pub open spec fn expected_text(items: Seq<Seq<char>>) -> Seq<char> {
    if items.len() == 1 {
        "expected "@ + items[0]
    } else {
        "expected one of "@ + listed(items, items.len())
    }
}

/// `singular` for one, `plural` otherwise.
pub fn plural(n: usize, one: &'static str, many: &'static str) -> (r: &'static str)
    ensures
        r == (if n == 1 { one } else { many }),
{
    if n == 1 {
        one
    } else {
        many
    }
}

} // verus!
