//! A position in a source file, with columns counted from zero.
use vstd::prelude::*;
use crate::lines::{lemma_line_scan_bounds, lemma_line_scan_concat, line_scan, scan_lines, utf8_length};
use crate::text::{byte_offset, byte_offsets, decimal, lemma_utf8_len_bounds, lemma_utf8_len_concat, push_char, push_decimal, push_str, str_chars, string_from_chars, string_of, utf8_len};
use crate::emblem_core::parser::location::slice_range;

verus! {

/// A position in a source file: the file, its content, and the line,
/// column and byte index of the position. Lines count from one and columns
/// from zero; a tab takes four columns.
#[derive(Clone, Debug, Default)]
pub struct Point {
    pub file_name: String,
    pub src: String,
    pub line: usize,
    pub col: usize,
    pub index: usize,
}

impl Point {
    /// The position at the very start of `src`.
    pub fn new(fname: &str, src: &str) -> (p: Point)
        ensures
            p.file_name@ == fname@,
            p.src@ == src@,
            p.line == 1,
            p.col == 0,
            p.index == 0,
    {
        Point { file_name: string_of(fname), src: string_of(src), line: 1, col: 0, index: 0 }
    }

    /// A copy of this position.
    pub fn duplicate(&self) -> (p: Point)
        ensures
            p == *self,
    {
        Point {
            file_name: self.file_name.clone(),
            src: self.src.clone(),
            line: self.line,
            col: self.col,
            index: self.index,
        }
    }

    /// Whether this position can move over `n` more characters without its
    /// line, column or index leaving the range of `usize`.
    pub open spec fn can_advance(self, n: nat) -> bool {
        &&& self.line + n <= usize::MAX
        &&& self.col + 4 * n <= usize::MAX
        &&& self.index + 4 * n <= usize::MAX
    }

    /// The position after `text`, where `text` starts at this position.
    pub open spec fn advanced(self, text: Seq<char>) -> Point {
        let (breaks, width) = line_scan(text);
        Point {
            line: (self.line + breaks) as usize,
            col: (if breaks > 0 { width as int } else { self.col + width }) as usize,
            index: (self.index + utf8_len(text)) as usize,
            ..self
        }
    }

    /// The position after `text`, where `text` starts at this position.
    pub fn shift(self, text: &str) -> (p: Point)
        requires
            self.can_advance(text@.len()),
        ensures
            p == self.advanced(text@),
    {
        let cs = str_chars(text);
        proof {
            lemma_line_scan_bounds(text@);
            lemma_utf8_len_bounds(text@);
        }
        let (breaks, width) = scan_lines(cs.as_slice());
        let bytes = utf8_length(cs.as_slice());
        let col = if breaks > 0 { width } else { self.col + width };
        Point { line: self.line + breaks, col, index: self.index + bytes, ..self }
    }

    /// The text from this position up to `other`, where both are in the
    /// same file; nothing where they are in different files.
    pub fn text_upto(&self, other: &Point) -> (r: Option<String>)
        requires
            4 * self.src@.len() <= usize::MAX,
            self.file_name@ == other.file_name@ ==> exists|a: int, b: int|
                0 <= a <= b <= self.src@.len() && byte_offset(self.src@, a) == self.index
                    && byte_offset(self.src@, b) == other.index,
        ensures
            self.file_name@ != other.file_name@ ==> r is None,
            self.file_name@ == other.file_name@ ==> exists|a: int, b: int|
                0 <= a <= b <= self.src@.len() && byte_offset(self.src@, a) == self.index
                    && byte_offset(self.src@, b) == other.index && (r matches Some(t) && t@ == self.src@.subrange(a, b)),
    {
        if self.file_name != other.file_name {
            return None;
        }
        let cs = str_chars(self.src.as_str());
        let offs = byte_offsets(cs.as_slice());
        let mut a: usize = 0;
        while a < cs.len() && offs[a] < self.index
            invariant
                a <= cs@.len(),
                offs@.len() == cs@.len() + 1,
                forall|k: int| 0 <= k <= cs@.len() ==> offs@[k] as nat == #[trigger] byte_offset(cs@, k),
                forall|k: int| 0 <= k < a ==> byte_offset(cs@, k) < self.index,
            decreases cs@.len() - a,
        {
            a = a + 1;
        }
        assert(a < cs@.len() ==> offs@[a as int] >= self.index);
        let mut b: usize = 0;
        while b < cs.len() && offs[b] < other.index
            invariant
                a <= cs@.len(),
                b <= cs@.len(),
                forall|k: int| 0 <= k < a ==> byte_offset(cs@, k) < self.index,
                a < cs@.len() ==> byte_offset(cs@, a as int) >= self.index,
                offs@.len() == cs@.len() + 1,
                forall|k: int| 0 <= k <= cs@.len() ==> offs@[k] as nat == #[trigger] byte_offset(cs@, k),
                forall|k: int| 0 <= k < b ==> byte_offset(cs@, k) < other.index,
            decreases cs@.len() - b,
        {
            b = b + 1;
        }
        proof {
            let (x, y) = choose|x: int, y: int|
                0 <= x <= y <= self.src@.len() && byte_offset(self.src@, x) == self.index
                    && byte_offset(self.src@, y) == other.index;
            crate::text::lemma_byte_offset_monotonic(cs@, 0, 0);
            if a < x {
                crate::text::lemma_byte_offset_monotonic(cs@, a as int, x);
            }
            if x < a {
                crate::text::lemma_byte_offset_monotonic(cs@, x, a as int);
            }
            if b < y {
                crate::text::lemma_byte_offset_monotonic(cs@, b as int, y);
            }
            if y < b {
                crate::text::lemma_byte_offset_monotonic(cs@, y, b as int);
            }
            assert(a == x && b == y);
        }
        Some(string_from_chars(slice_range(cs.as_slice(), a, b)))
    }

    /// The position written as `file:line:(index)`.
    pub open spec fn text_of(self) -> Seq<char> {
        self.file_name@ + seq![':'] + decimal(self.line as nat) + ":("@ + decimal(self.index as nat) + seq![')']
    }

    /// The position written as `file:line:(index)`.
    pub fn to_string(&self) -> (s: String)
        ensures
            s@ == self.text_of(),
    {
        let mut s = string_of(self.file_name.as_str());
        push_char(&mut s, ':');
        push_decimal(&mut s, self.line);
        push_str(&mut s, ":(");
        push_decimal(&mut s, self.index);
        push_char(&mut s, ')');
        s
    }
}

/// Shifting over `a` and then over `b` ends where shifting over `a + b`
/// ends, provided `a` does not end in the `\r` of a `\r\n` split across the
/// two: the index grows by the bytes, the line by the line breaks, and the
/// column starts again after the last break.
pub proof fn lemma_shift_compose(p: Point, a: Seq<char>, b: Seq<char>)
    requires
        a.len() == 0 || a.last() != '\r' || b.len() == 0 || b[0] != '\n',
        p.can_advance(a.len() + b.len()),
    ensures
        p.advanced(a).advanced(b) == p.advanced(a + b),
{
    lemma_line_scan_concat(a, b);
    lemma_utf8_len_concat(a, b);
    lemma_line_scan_bounds(a);
    lemma_line_scan_bounds(b);
    lemma_utf8_len_bounds(a);
    lemma_utf8_len_bounds(b);
}

} // verus!
