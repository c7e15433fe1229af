//! A region of a source file between two positions.
use vstd::prelude::*;
use crate::parser::point::Point;
use crate::text::{decimal, push_char, push_decimal, push_str, string_of};

verus! {

/// The part of a file from one position to another.
#[derive(Debug)]
pub struct Region {
    pub file_name: String,
    pub src: String,
    pub lines: (usize, usize),
    pub cols: (usize, usize),
    pub indices: (usize, usize),
}

impl Clone for Region {
    fn clone(&self) -> (r: Self)
        ensures
            r == *self,
    {
        Region {
            file_name: self.file_name.clone(),
            src: self.src.clone(),
            lines: self.lines,
            cols: self.cols,
            indices: self.indices,
        }
    }
}

impl Region {
    /// The region from `start` to `end`, in the file of `start`.
    pub fn new(start: &Point, end: &Point) -> (r: Region)
        ensures
            r.file_name@ == start.file_name@,
            r.src@ == start.src@,
            r.lines == (start.line, end.line),
            r.cols == (start.col, end.col),
            r.indices == (start.index, end.index),
    {
        Region {
            file_name: start.file_name.clone(),
            src: start.src.clone(),
            lines: (start.line, end.line),
            indices: (start.index, end.index),
            cols: (start.col, end.col),
        }
    }

    /// The region written out: `file:line-line:col-col` across lines,
    /// `file:line:col-col` within one, `file:line:col` at one column.
    pub open spec fn text_of(self) -> Seq<char> {
        if self.lines.0 != self.lines.1 {
            self.file_name@ + ":"@ + decimal(self.lines.0 as nat) + "-"@ + decimal(self.lines.1 as nat) + ":"@
                + decimal(self.cols.0 as nat) + "-"@ + decimal(self.cols.1 as nat)
        } else if self.cols.0 != self.cols.1 {
            self.file_name@ + ":"@ + decimal(self.lines.0 as nat) + ":"@ + decimal(self.cols.0 as nat) + "-"@
                + decimal(self.cols.1 as nat)
        } else {
            self.file_name@ + ":"@ + decimal(self.lines.0 as nat) + ":"@ + decimal(self.cols.0 as nat)
        }
    }

    /// The region written out.
    pub fn to_string(&self) -> (s: String)
        ensures
            s@ == self.text_of(),
    {
        proof {
            reveal_strlit(":");
            reveal_strlit("-");
        }
        let mut s = string_of(self.file_name.as_str());
        push_char(&mut s, ':');
        push_decimal(&mut s, self.lines.0);
        if self.lines.0 != self.lines.1 {
            push_char(&mut s, '-');
            push_decimal(&mut s, self.lines.1);
            push_char(&mut s, ':');
            push_decimal(&mut s, self.cols.0);
            push_char(&mut s, '-');
            push_decimal(&mut s, self.cols.1);
        } else if self.cols.0 != self.cols.1 {
            push_char(&mut s, ':');
            push_decimal(&mut s, self.cols.0);
            push_char(&mut s, '-');
            push_decimal(&mut s, self.cols.1);
        } else {
            push_char(&mut s, ':');
            push_decimal(&mut s, self.cols.0);
        }
        proof {
            assert(s@ =~= self.text_of());
        }
        s
    }
}

} // verus!
