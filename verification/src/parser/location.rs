//! A span of a source file, with columns counted from zero.
use vstd::prelude::*;
use crate::emblem_core::parser::location::{max_of, min_of, slice_range};
use crate::lines::{ends_line_of, line_bounds, starts_line_of};
use crate::parser::point::Point;
use crate::text::{byte_offset, decimal, push_char, push_decimal, str_chars, string_from_chars, string_of, utf8_len};

verus! {

/// The whole lines of a file around a span: their text and the byte index
/// where they start.
pub struct LocationContext {
    pub src: String,
    pub starting_index: usize,
}

impl LocationContext {
    /// The lines `src`, which start at byte `starting_index` of their file.
    pub fn new(src: &str, starting_index: usize) -> (c: LocationContext)
        ensures
            c.src@ == src@,
            c.starting_index == starting_index,
    {
        LocationContext { src: string_of(src), starting_index }
    }

    /// The text of the lines.
    pub fn src(&self) -> (r: &str)
        ensures
            r@ == self.src@,
    {
        self.src.as_str()
    }

    /// The byte index where the lines start in their file.
    pub fn starting_index(&self) -> (r: usize)
        ensures
            r == self.starting_index,
    {
        self.starting_index
    }
}

/// A span of a source file: the file, its content, the first and last
/// lines, the first and last columns and the byte indices of its ends.
#[derive(Debug, PartialEq, Eq)]
pub struct Location {
    pub file_name: String,
    pub src: String,
    pub lines: (usize, usize),
    pub cols: (usize, usize),
    pub indices: (usize, usize),
}

impl Location {
    /// The span from `start` to `end`. Its last column is the one before
    /// `end`, and at least one.
    pub fn new(start: &Point, end: &Point) -> (l: Location)
        ensures
            l.file_name == start.file_name,
            l.src == start.src,
            l.lines == (start.line, end.line),
            l.indices == (start.index, end.index),
            l.cols == (start.col, max_of(1, end.col - 1) as usize),
    {
        let last = if end.col > 1 { end.col - 1 } else { 1 };
        Location {
            file_name: start.file_name.clone(),
            src: start.src.clone(),
            lines: (start.line, end.line),
            indices: (start.index, end.index),
            cols: (start.col, last),
        }
    }

    /// A copy of this span.
    pub fn duplicate(&self) -> (l: Location)
        ensures
            l == *self,
    {
        Location {
            file_name: self.file_name.clone(),
            src: self.src.clone(),
            lines: self.lines,
            cols: self.cols,
            indices: self.indices,
        }
    }

    /// The name of the file.
    pub fn file_name(&self) -> (r: &str)
        ensures
            r@ == self.file_name@,
    {
        self.file_name.as_str()
    }

    /// The whole content of the file.
    pub fn src(&self) -> (r: &str)
        ensures
            r@ == self.src@,
    {
        self.src.as_str()
    }

    /// The first and last lines.
    pub fn lines(&self) -> (r: (usize, usize))
        ensures
            r == self.lines,
    {
        self.lines
    }

    /// The first and last columns.
    pub fn cols(&self) -> (r: (usize, usize))
        ensures
            r == self.cols,
    {
        self.cols
    }

    /// The byte indices of the span, counted from the start of `context`.
    pub fn indices(&self, context: &LocationContext) -> (r: (usize, usize))
        requires
            context.starting_index <= self.indices.0,
            context.starting_index <= self.indices.1,
        ensures
            r == ((self.indices.0 - context.starting_index) as usize, (self.indices.1
                - context.starting_index) as usize),
    {
        (self.indices.0 - context.starting_index, self.indices.1 - context.starting_index)
    }

    /// The span that covers both this span and `other`, which must be in the
    /// same file: the smallest starts and the largest ends of each.
    pub fn span_to(&self, other: &Self) -> (l: Location)
        requires
            self.file_name@ == other.file_name@,
        ensures
            l.file_name == other.file_name,
            l.src == self.src,
            l.lines == (min_of(self.lines.0 as int, other.lines.0 as int) as usize, max_of(
                self.lines.1 as int,
                other.lines.1 as int,
            ) as usize),
            l.indices == (min_of(self.indices.0 as int, other.indices.0 as int) as usize, max_of(
                self.indices.1 as int,
                other.indices.1 as int,
            ) as usize),
            l.cols == (min_of(self.cols.0 as int, other.cols.0 as int) as usize, max_of(
                self.cols.1 as int,
                other.cols.1 as int,
            ) as usize),
    {
        Location {
            file_name: other.file_name.clone(),
            src: self.src.clone(),
            lines: (
                if self.lines.0 <= other.lines.0 { self.lines.0 } else { other.lines.0 },
                if self.lines.1 >= other.lines.1 { self.lines.1 } else { other.lines.1 },
            ),
            indices: (
                if self.indices.0 <= other.indices.0 { self.indices.0 } else { other.indices.0 },
                if self.indices.1 >= other.indices.1 { self.indices.1 } else { other.indices.1 },
            ),
            cols: (
                if self.cols.0 <= other.cols.0 { self.cols.0 } else { other.cols.0 },
                if self.cols.1 >= other.cols.1 { self.cols.1 } else { other.cols.1 },
            ),
        }
    }

    /// The whole lines of the file that hold the span.
    pub fn context(&self) -> (c: LocationContext)
        requires
            4 * self.src@.len() <= usize::MAX,
            self.indices.0 <= self.indices.1 <= utf8_len(self.src@),
        ensures
            starts_line_of(self.src@, self.indices.0 as nat, c.starting_index as nat),
            exists|ka: int, kb: int|
                0 <= ka <= kb <= self.src@.len() && byte_offset(self.src@, ka) == c.starting_index
                    && ends_line_of(self.src@, self.indices.1 as nat, byte_offset(self.src@, kb))
                    && c.src@ == self.src@.subrange(ka, kb),
    {
        let cs = str_chars(self.src.as_str());
        let (a, b, ka, kb) = line_bounds(cs.as_slice(), self.indices.0, self.indices.1);
        let src = string_from_chars(slice_range(cs.as_slice(), ka, kb));
        LocationContext { src, starting_index: a }
    }

    /// The span written as `file:line:col-line:col` where it covers more
    /// than one line, `file:line:col-col` where it covers more than one
    /// column, and `file:line:col` otherwise.
    pub open spec fn text_of(self) -> Seq<char> {
        if self.lines.0 != self.lines.1 {
            self.file_name@ + seq![':'] + decimal(self.lines.0 as nat) + seq![':'] + decimal(self.cols.0 as nat)
                + seq!['-'] + decimal(self.lines.1 as nat) + seq![':'] + decimal(self.cols.1 as nat)
        } else if self.cols.0 != self.cols.1 {
            self.file_name@ + seq![':'] + decimal(self.lines.0 as nat) + seq![':'] + decimal(self.cols.0 as nat)
                + seq!['-'] + decimal(self.cols.1 as nat)
        } else {
            self.file_name@ + seq![':'] + decimal(self.lines.0 as nat) + seq![':'] + decimal(self.cols.0 as nat)
        }
    }

    /// The span in writing; see `text_of`.
    pub fn to_string(&self) -> (s: String)
        ensures
            s@ == self.text_of(),
    {
        let mut s = string_of(self.file_name.as_str());
        push_char(&mut s, ':');
        push_decimal(&mut s, self.lines.0);
        push_char(&mut s, ':');
        push_decimal(&mut s, self.cols.0);
        if self.lines.0 != self.lines.1 {
            push_char(&mut s, '-');
            push_decimal(&mut s, self.lines.1);
            push_char(&mut s, ':');
            push_decimal(&mut s, self.cols.1);
        } else if self.cols.0 != self.cols.1 {
            push_char(&mut s, '-');
            push_decimal(&mut s, self.cols.1);
        }
        s
    }
}

impl Clone for Location {
    fn clone(&self) -> (l: Self)
        ensures
            l == *self,
    {
        self.duplicate()
    }
}

} // verus!
