//! A position in a source file.
use vstd::prelude::*;
use crate::lines::{lemma_line_scan_bounds, lemma_line_scan_concat, line_scan, scan_lines, utf8_length};
use crate::text::{decimal, decimal_string, lemma_utf8_len_bounds, lemma_utf8_len_concat, push_char, push_decimal, str_chars, string_of, utf8_len};

verus! {

/// A position in a source file: the file, its content, and the line, column
/// and byte index of the position. Lines and columns count from one; a tab
/// takes four columns.
#[derive(Clone, Debug, Default, PartialEq, Eq)]
pub struct Point {
    pub file_name: String,
    pub src: String,
    pub line: usize,
    pub col: usize,
    pub index: usize,
}

impl Point {
    /// A position with the given parts.
    pub fn new(file_name: &str, src: &str, line: usize, col: usize, index: usize) -> (p: Point)
        ensures
            p.file_name@ == file_name@,
            p.src@ == src@,
            p.line == line,
            p.col == col,
            p.index == index,
    {
        Point { file_name: string_of(file_name), src: string_of(src), line, col, index }
    }

    /// The position at the very start of `src`.
    pub fn at_start_of(file_name: &str, src: &str) -> (p: Point)
        ensures
            p.file_name@ == file_name@,
            p.src@ == src@,
            p.line == 1,
            p.col == 1,
            p.index == 0,
    {
        Point { file_name: string_of(file_name), src: string_of(src), line: 1, col: 1, index: 0 }
    }

    /// A copy of this position.
    pub fn duplicate(&self) -> (p: Point)
        ensures
            p == *self,
    {
        Point {
            file_name: self.file_name.clone(),
            src: self.src.clone(),
            line: self.line,
            col: self.col,
            index: self.index,
        }
    }

    /// Whether this position can move over `n` more characters without its
    /// line, column or index leaving the range of `usize`.
    pub open spec fn can_advance(self, n: nat) -> bool {
        &&& self.line + n <= usize::MAX
        &&& self.col + 4 * n + 1 <= usize::MAX
        &&& self.index + 4 * n <= usize::MAX
    }

    /// The position after `text`, where `text` starts at this position.
    pub open spec fn advanced(self, text: Seq<char>) -> Point {
        let (breaks, width) = line_scan(text);
        Point {
            line: (self.line + breaks) as usize,
            col: (if breaks > 0 { (width + 1) as int } else { self.col + width }) as usize,
            index: (self.index + utf8_len(text)) as usize,
            ..self
        }
    }

    /// The position after the characters `text`.
    pub fn shift_chars(self, text: &[char]) -> (p: Point)
        requires
            self.can_advance(text@.len()),
        ensures
            p == self.advanced(text@),
    {
        proof {
            lemma_line_scan_bounds(text@);
            lemma_utf8_len_bounds(text@);
        }
        let (breaks, width) = scan_lines(text);
        let bytes = utf8_length(text);
        let col = if breaks > 0 { width + 1 } else { self.col + width };
        Point { line: self.line + breaks, col, index: self.index + bytes, ..self }
    }

    /// The position after `text`, where `text` starts at this position.
    pub fn shift(self, text: &str) -> (p: Point)
        requires
            self.can_advance(text@.len()),
        ensures
            p == self.advanced(text@),
    {
        let cs = str_chars(text);
        self.shift_chars(cs.as_slice())
    }

    /// The name of the file.
    pub fn file_name(&self) -> (r: &str)
        ensures
            r@ == self.file_name@,
    {
        self.file_name.as_str()
    }

    /// The whole content of the file.
    pub fn src(&self) -> (r: &str)
        ensures
            r@ == self.src@,
    {
        self.src.as_str()
    }

    /// The byte index of the position.
    pub fn index(&self) -> (r: usize)
        ensures
            r == self.index,
    {
        self.index
    }

    /// Mutable access to the byte index.
    pub(crate) fn index_mut(&mut self) -> (r: &mut usize)
        ensures
            *r == old(self).index,
            *final(self) == (Point { index: *final(r), ..*old(self) }),
    {
        &mut self.index
    }

    /// The line, counted from one.
    pub fn line(&self) -> (r: usize)
        ensures
            r == self.line,
    {
        self.line
    }

    /// The column, counted from one.
    pub fn col(&self) -> (r: usize)
        ensures
            r == self.col,
    {
        self.col
    }

    /// The position written as `line:col`.
    pub open spec fn text_of(self) -> Seq<char> {
        decimal(self.line as nat) + seq![':'] + decimal(self.col as nat)
    }

    /// The position written as `line:col`.
    pub fn to_string(&self) -> (s: String)
        ensures
            s@ == self.text_of(),
    {
        let mut s = decimal_string(self.line);
        push_char(&mut s, ':');
        push_decimal(&mut s, self.col);
        s
    }
}

/// Moving over `a` and then over `b` ends where moving over `a + b` ends,
/// provided `a` does not end in the `\r` of a `\r\n` split across the two.
pub proof fn lemma_advance_compose(p: Point, a: Seq<char>, b: Seq<char>)
    requires
        a.len() == 0 || a.last() != '\r' || b.len() == 0 || b[0] != '\n',
        p.can_advance(a.len() + b.len()),
    ensures
        p.advanced(a).advanced(b) == p.advanced(a + b),
{
    lemma_line_scan_concat(a, b);
    lemma_utf8_len_concat(a, b);
    lemma_line_scan_bounds(a);
    lemma_line_scan_bounds(b);
    lemma_utf8_len_bounds(a);
    lemma_utf8_len_bounds(b);
}

} // verus!
