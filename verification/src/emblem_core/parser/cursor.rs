//! The read position of the lexer in the source text.
use vstd::prelude::*;
use crate::emblem_core::parser::location::{slice_range, Location};
use crate::emblem_core::parser::point::Point;
use crate::lines::{lemma_line_scan_bounds, line_scan};
use crate::pattern::{find_match_end, regex_match_end};
use crate::text::{lemma_utf8_len_bounds, lemma_utf8_len_concat, str_chars, string_from_chars, utf8_len};

verus! {

/// The most characters that a source text may hold: positions stay within
/// the range of `usize` however the text is shifted over.
pub open spec fn fits(len: nat) -> bool {
    4 * len + 16 <= usize::MAX
}

/// The bounds that a point reached after `n` characters keeps.
pub open spec fn point_within(p: Point, n: nat) -> bool {
    &&& 1 <= p.line <= 1 + n
    &&& 1 <= p.col <= 4 * n + 1
    &&& p.index <= 4 * n
}

/// Moving a point over `t` moves each of its parts by at most what `t` can
/// account for.
pub proof fn lemma_advanced_bounds(p: Point, t: Seq<char>)
    requires
        p.can_advance(t.len()),
        1 <= p.col,
    ensures
        p.advanced(t).line <= p.line + t.len(),
        p.line <= p.advanced(t).line,
        1 <= p.advanced(t).col <= p.col + 4 * t.len(),
        p.advanced(t).index == p.index + utf8_len(t),
        p.advanced(t).index <= p.index + 4 * t.len(),
        p.advanced(t).file_name == p.file_name,
        p.advanced(t).src == p.src,
{
    lemma_line_scan_bounds(t);
    lemma_utf8_len_bounds(t);
}

/// The text being lexed and how far the lexer has read it.
pub struct Cursor {
    pub chars: Vec<char>,
    pub pos: usize,
    pub prev_pos: usize,
    pub curr: Point,
    pub prev: Point,
}

impl Cursor {
    /// The cursor is consistent: positions lie within the text, and the byte
    /// index of each point is the length of the text read up to it.
    pub open spec fn wf(self) -> bool {
        &&& self.prev_pos <= self.pos <= self.chars@.len()
        &&& fits(self.chars@.len())
        &&& self.curr.index == utf8_len(self.chars@.take(self.pos as int))
        &&& self.prev.index == utf8_len(self.chars@.take(self.prev_pos as int))
        &&& point_within(self.curr, self.pos as nat)
        &&& point_within(self.prev, self.prev_pos as nat)
        &&& self.prev.file_name == self.curr.file_name
        &&& self.prev.src == self.curr.src
    }

    /// A cursor at the start of `src`.
    pub fn new(file_name: &str, src: &str) -> (c: Cursor)
        requires
            fits(src@.len()),
        ensures
            c.wf(),
            c.chars@ == src@,
            c.pos == 0,
            c.prev_pos == 0,
            c.curr == c.prev,
            c.curr.file_name@ == file_name@,
            c.curr.src@ == src@,
            c.curr.line == 1 && c.curr.col == 1 && c.curr.index == 0,
    {
        let chars = str_chars(src);
        let curr = Point::at_start_of(file_name, src);
        let prev = curr.duplicate();
        proof {
            assert(chars@.take(0) =~= Seq::<char>::empty());
        }
        Cursor { chars, pos: 0, prev_pos: 0, curr, prev }
    }

    /// Whether the whole text has been read.
    pub fn at_end(&self) -> (r: bool)
        requires
            self.wf(),
        ensures
            r == (self.pos == self.chars@.len()),
    {
        self.pos == self.chars.len()
    }

    /// The next character, if any.
    pub fn peek(&self) -> (r: Option<char>)
        requires
            self.wf(),
        ensures
            self.pos < self.chars@.len() ==> r == Some(self.chars@[self.pos as int]),
            self.pos == self.chars@.len() ==> r is None,
    {
        if self.pos < self.chars.len() {
            Some(self.chars[self.pos])
        } else {
            None
        }
    }

    /// The text from character `a` up to `b`.
    pub fn text(&self, a: usize, b: usize) -> (s: String)
        requires
            a <= b <= self.chars@.len(),
        ensures
            s@ == self.chars@.subrange(a as int, b as int),
    {
        string_from_chars(slice_range(self.chars.as_slice(), a, b))
    }

    /// Reads a match of `pattern` (anchored at the read position) if there
    /// is a non-empty one, and returns the range of characters it covers.
    /// The points move: the previous one to where the match starts and the
    /// current one to where it ends.
    pub fn try_consume(&mut self, pattern: &str) -> (r: Option<(usize, usize)>)
        requires
            old(self).wf(),
        ensures
            final(self).wf(),
            final(self).chars@ == old(self).chars@,
            match r {
                Some((a, b)) => {
                    &&& a == old(self).pos
                    &&& a < b
                    &&& b == final(self).pos
                    &&& regex_match_end(pattern@, old(self).chars@.skip(a as int)) == Some((b - a) as nat)
                    &&& final(self).prev_pos == a
                    &&& final(self).prev == old(self).curr
                    &&& final(self).curr == old(self).curr.advanced(old(self).chars@.subrange(a as int, b as int))
                },
                None => {
                    &&& *final(self) == *old(self)
                    &&& (regex_match_end(pattern@, old(self).chars@.skip(old(self).pos as int)) is None
                        || regex_match_end(pattern@, old(self).chars@.skip(old(self).pos as int)) == Some(0nat))
                },
            },
    {
        match find_match_end(pattern, self.chars.as_slice(), self.pos) {
            Some(n) => {
                if n == 0 {
                    return None;
                }
                let a = self.pos;
                let b = a + n;
                let piece = slice_range(self.chars.as_slice(), a, b);
                let ghost t = self.chars@.subrange(a as int, b as int);
                proof {
                    lemma_advanced_bounds(self.curr, t);
                    lemma_utf8_len_concat(self.chars@.take(a as int), t);
                    assert(self.chars@.take(a as int) + t =~= self.chars@.take(b as int));
                }
                let next = self.curr.duplicate().shift_chars(piece);
                let old_curr = self.curr.duplicate();
                self.prev = old_curr;
                self.prev_pos = a;
                self.curr = next;
                self.pos = b;
                Some((a, b))
            },
            None => None,
        }
    }

    /// The span from the previous point to the current one.
    pub fn location(&self) -> (l: Location)
        requires
            self.wf(),
        ensures
            l == Location::between(self.prev, self.curr),
    {
        Location::new(&self.prev, &self.curr)
    }
}

} // verus!
