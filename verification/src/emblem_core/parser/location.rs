//! A span of a source file.
use vstd::prelude::*;
use crate::emblem_core::parser::point::Point;
use crate::lines::{ends_line_of, line_bounds, starts_line_of};
use crate::text::{byte_offset, decimal, push_char, push_decimal, push_str, str_chars, string_from_chars, string_of, utf8_len};

verus! {

/// The larger of two numbers.
pub open spec fn max_of(a: int, b: int) -> int {
    if a >= b { a } else { b }
}

/// The smaller of two numbers.
pub open spec fn min_of(a: int, b: int) -> int {
    if a <= b { a } else { b }
}

/// A span of a source file: the file, its content, the first and last lines,
/// the first and last columns and the byte indices where it starts and ends.
#[derive(Debug, PartialEq, Eq)]
pub struct Location {
    pub file_name: String,
    pub src: String,
    pub lines: (usize, usize),
    pub cols: (usize, usize),
    pub indices: (usize, usize),
}

/// A piece of a file's content: its text and the byte range it covers.
#[derive(Clone, Debug, Default, PartialEq, Eq)]
pub struct FileContentSlice {
    pub raw: String,
    pub start: usize,
    pub end: usize,
}

impl Clone for Location {
    fn clone(&self) -> (l: Self)
        ensures
            l == *self,
    {
        self.duplicate()
    }
}

impl FileContentSlice {
    /// The text of the piece.
    pub fn raw(&self) -> (r: &str)
        ensures
            r@ == self.raw@,
    {
        self.raw.as_str()
    }

    /// The byte range that the piece covers.
    pub fn range(&self) -> (r: (usize, usize))
        ensures
            r == (self.start, self.end),
    {
        (self.start, self.end)
    }
}

impl Location {
    /// The span from `start` to `end`: lines, first column and indices as
    /// the points give them; the last column is the one before `end`, and at
    /// least one.
    pub open spec fn between(start: Point, end: Point) -> Location {
        Location {
            file_name: start.file_name,
            src: start.src,
            lines: (start.line, end.line),
            indices: (start.index, end.index),
            cols: (start.col, max_of(1, end.col - 1) as usize),
        }
    }

    /// The span from `start` to `end`. Its last column is the one before
    /// `end`, and at least one.
    pub fn new(start: &Point, end: &Point) -> (l: Location)
        ensures
            l == Location::between(*start, *end),
    {
        let last = if end.col > 1 { end.col - 1 } else { 1 };
        Location {
            file_name: start.file_name.clone(),
            src: start.src.clone(),
            lines: (start.line, end.line),
            indices: (start.index, end.index),
            cols: (start.col, last),
        }
    }

    /// A copy of this location.
    pub fn duplicate(&self) -> (l: Location)
        ensures
            l == *self,
    {
        Location {
            file_name: self.file_name.clone(),
            src: self.src.clone(),
            lines: self.lines,
            cols: self.cols,
            indices: self.indices,
        }
    }

    /// The name of the file.
    pub fn file_name(&self) -> (r: &str)
        ensures
            r@ == self.file_name@,
    {
        self.file_name.as_str()
    }

    /// The whole content of the file.
    pub fn src(&self) -> (r: &str)
        ensures
            r@ == self.src@,
    {
        self.src.as_str()
    }

    /// The first and last lines.
    pub fn lines(&self) -> (r: (usize, usize))
        ensures
            r == self.lines,
    {
        self.lines
    }

    /// The first and last columns.
    pub fn cols(&self) -> (r: (usize, usize))
        ensures
            r == self.cols,
    {
        self.cols
    }

    /// The byte indices of the span, counted from the start of `context`.
    pub fn indices_in(&self, context: &FileContentSlice) -> (r: (usize, usize))
        requires
            context.start <= self.indices.0,
            context.start <= self.indices.1,
        ensures
            r == ((self.indices.0 - context.start) as usize, (self.indices.1 - context.start) as usize),
    {
        (self.indices.0 - context.start, self.indices.1 - context.start)
    }

    /// The position where the span starts.
    pub fn start(&self) -> (p: Point)
        ensures
            p == (Point {
                file_name: self.file_name,
                src: self.src,
                line: self.lines.0,
                col: self.cols.0,
                index: self.indices.0,
            }),
    {
        Point {
            file_name: self.file_name.clone(),
            src: self.src.clone(),
            line: self.lines.0,
            col: self.cols.0,
            index: self.indices.0,
        }
    }

    /// The position where the span ends.
    pub fn end(&self) -> (p: Point)
        ensures
            p == (Point {
                file_name: self.file_name,
                src: self.src,
                line: self.lines.1,
                col: self.cols.1,
                index: self.indices.1,
            }),
    {
        Point {
            file_name: self.file_name.clone(),
            src: self.src.clone(),
            line: self.lines.1,
            col: self.cols.1,
            index: self.indices.1,
        }
    }

    /// The spans of `a` and `b` joined: the smallest starts and the largest
    /// ends of each.
    pub open spec fn spanned(a: Location, b: Location) -> Location {
        Location {
            file_name: b.file_name,
            src: a.src,
            lines: (min_of(a.lines.0 as int, b.lines.0 as int) as usize, max_of(a.lines.1 as int, b.lines.1 as int) as usize),
            indices: (min_of(a.indices.0 as int, b.indices.0 as int) as usize, max_of(a.indices.1 as int, b.indices.1 as int) as usize),
            cols: (min_of(a.cols.0 as int, b.cols.0 as int) as usize, max_of(a.cols.1 as int, b.cols.1 as int) as usize),
        }
    }

    /// The span that covers both this span and `other`, which must be in the
    /// same file.
    pub fn span_to(&self, other: &Self) -> (l: Location)
        requires
            self.file_name@ == other.file_name@,
        ensures
            l == Location::spanned(*self, *other),
    {
        Location {
            file_name: other.file_name.clone(),
            src: self.src.clone(),
            lines: (
                if self.lines.0 <= other.lines.0 { self.lines.0 } else { other.lines.0 },
                if self.lines.1 >= other.lines.1 { self.lines.1 } else { other.lines.1 },
            ),
            indices: (
                if self.indices.0 <= other.indices.0 { self.indices.0 } else { other.indices.0 },
                if self.indices.1 >= other.indices.1 { self.indices.1 } else { other.indices.1 },
            ),
            cols: (
                if self.cols.0 <= other.cols.0 { self.cols.0 } else { other.cols.0 },
                if self.cols.1 >= other.cols.1 { self.cols.1 } else { other.cols.1 },
            ),
        }
    }

    /// The whole lines of the file that hold the span.
    pub fn context(&self) -> (c: FileContentSlice)
        requires
            4 * self.src@.len() <= usize::MAX,
            self.indices.0 <= self.indices.1 <= utf8_len(self.src@),
        ensures
            starts_line_of(self.src@, self.indices.0 as nat, c.start as nat),
            ends_line_of(self.src@, self.indices.1 as nat, c.end as nat),
            exists|ka: int, kb: int|
                0 <= ka <= kb <= self.src@.len() && byte_offset(self.src@, ka) == c.start
                    && byte_offset(self.src@, kb) == c.end && c.raw@ == self.src@.subrange(ka, kb),
    {
        let cs = str_chars(self.src.as_str());
        let (a, b, ka, kb) = line_bounds(cs.as_slice(), self.indices.0, self.indices.1);
        let raw = string_from_chars(slice_range(cs.as_slice(), ka, kb));
        FileContentSlice { raw, start: a, end: b }
    }

    /// The span written as `file:line:col-col`, or
    /// `file:line:col-line:col` where it covers more than one line.
    pub open spec fn text_of(self) -> Seq<char> {
        self.file_name@ + seq![':'] + decimal(self.lines.0 as nat) + seq![':'] + decimal(self.cols.0 as nat)
            + seq!['-'] + (if self.lines.0 != self.lines.1 {
            decimal(self.lines.1 as nat) + seq![':']
        } else {
            Seq::empty()
        }) + decimal(self.cols.1 as nat)
    }

    /// The span written as `file:line:col-col`, or
    /// `file:line:col-line:col` where it covers more than one line.
    pub fn to_string(&self) -> (s: String)
        ensures
            s@ == self.text_of(),
    {
        let mut s = string_of(self.file_name.as_str());
        push_char(&mut s, ':');
        push_decimal(&mut s, self.lines.0);
        push_char(&mut s, ':');
        push_decimal(&mut s, self.cols.0);
        push_char(&mut s, '-');
        let ghost mid = s@;
        if self.lines.0 != self.lines.1 {
            push_decimal(&mut s, self.lines.1);
            push_char(&mut s, ':');
        } else {
            assert(mid + Seq::<char>::empty() =~= mid);
        }
        push_decimal(&mut s, self.cols.1);
        s
    }
}

/// The characters of `s` from `a` up to `b`.
pub fn slice_range(s: &[char], a: usize, b: usize) -> (r: &[char])
    requires
        a <= b <= s@.len(),
    ensures
        r@ == s@.subrange(a as int, b as int),
{
    vstd::slice::slice_subrange(s, a, b)
}

/// Joining two spans covers both, whichever comes first: the joined span
/// starts at the smallest of their indices and ends at the largest, and the
/// order in which they are joined changes neither its lines, its columns nor
/// its indices.
pub proof fn lemma_span_covers(a: Location, b: Location)
    requires
        a.indices.0 <= a.indices.1,
        b.indices.0 <= b.indices.1,
    ensures
        Location::spanned(a, b).indices.0 == min_of(min_of(a.indices.0 as int, a.indices.1 as int), min_of(
            b.indices.0 as int,
            b.indices.1 as int,
        )),
        Location::spanned(a, b).indices.1 == max_of(max_of(a.indices.0 as int, a.indices.1 as int), max_of(
            b.indices.0 as int,
            b.indices.1 as int,
        )),
        Location::spanned(a, b).indices == Location::spanned(b, a).indices,
        Location::spanned(a, b).lines == Location::spanned(b, a).lines,
        Location::spanned(a, b).cols == Location::spanned(b, a).cols,
{
}

} // verus!
