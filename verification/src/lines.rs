//! How text advances a position: line breaks and display widths.
use vstd::prelude::*;
use crate::text::{byte_offset, byte_offsets, char_utf8_width, lemma_byte_offset_monotonic, lemma_byte_offset_step, lemma_utf8_len_bounds, utf8_len};

verus! {

/// A line break starts at `c` (`\n`, `\r`, or the `\r` of `\r\n`).
pub open spec fn is_line_break(c: char) -> bool {
    c == '\n' || c == '\r'
}

/// Columns that `c` takes up: four for a tab, one otherwise.
pub open spec fn display_width(c: char) -> nat {
    if c == '\t' {
        4
    } else {
        1
    }
}

/// The number of line breaks in `s` (`\n`, `\r\n` and a lone `\r` each count
/// once) and the display width of the text after the last of them.
pub open spec fn line_scan(s: Seq<char>) -> (nat, nat)
    decreases s.len(),
{
    if s.len() == 0 {
        (0, 0)
    } else {
        let rest = line_scan(s.skip(1));
        let c = s[0];
        if c == '\n' {
            (rest.0 + 1, rest.1)
        } else if c == '\r' {
            if s.len() > 1 && s[1] == '\n' {
                rest
            } else {
                (rest.0 + 1, rest.1)
            }
        } else if rest.0 == 0 {
            (0, rest.1 + display_width(c))
        } else {
            rest
        }
    }
}

pub proof fn lemma_line_scan_bounds(s: Seq<char>)
    ensures
        line_scan(s).0 <= s.len(),
        line_scan(s).1 <= 4 * s.len(),
    decreases s.len(),
{
    if s.len() > 0 {
        lemma_line_scan_bounds(s.skip(1));
    }
}

/// Text without line breaks moves along one line by its display width.
pub proof fn lemma_line_scan_no_breaks(s: Seq<char>)
    requires
        forall|i: int| 0 <= i < s.len() ==> !is_line_break(#[trigger] s[i]),
    ensures
        line_scan(s).0 == 0,
    decreases s.len(),
{
    if s.len() > 0 {
        assert forall|i: int| 0 <= i < s.skip(1).len() implies !is_line_break(#[trigger] s.skip(1)[i]) by {
            assert(s.skip(1)[i] == s[i + 1]);
        }
        lemma_line_scan_no_breaks(s.skip(1));
    }
}

/// Line breaks and width of the text after the last break, computed from the
/// end of `text` backwards.
pub fn scan_lines(text: &[char]) -> (r: (usize, usize))
    requires
        4 * text@.len() <= usize::MAX,
    ensures
        r.0 as nat == line_scan(text@).0,
        r.1 as nat == line_scan(text@).1,
{
    let n = text.len();
    let mut i = n;
    let mut breaks: usize = 0;
    let mut width: usize = 0;
    assert(text@.skip(n as int) =~= Seq::<char>::empty());
    while i > 0
        invariant
            n == text@.len(),
            4 * n <= usize::MAX,
            i <= n,
            breaks as nat == line_scan(text@.skip(i as int)).0,
            width as nat == line_scan(text@.skip(i as int)).1,
        decreases i,
    {
        let ghost tail = text@.skip(i as int);
        let ghost s = text@.skip(i - 1);
        assert(s.skip(1) =~= tail);
        assert(s[0] == text@[i - 1]);
        proof {
            lemma_line_scan_bounds(tail);
        }
        let c = text[i - 1];
        if c == '\n' {
            breaks = breaks + 1;
        } else if c == '\r' {
            if i < n && text[i] == '\n' {
                assert(s[1] == text@[i as int]);
            } else {
                breaks = breaks + 1;
            }
        } else if breaks == 0 {
            if c == '\t' {
                width = width + 4;
            } else {
                width = width + 1;
            }
        }
        i = i - 1;
    }
    assert(text@.skip(0) =~= text@);
    (breaks, width)
}

/// The number of UTF-8 bytes of `text`.
pub fn utf8_length(text: &[char]) -> (r: usize)
    requires
        4 * text@.len() <= usize::MAX,
    ensures
        r as nat == utf8_len(text@),
{
    let mut i: usize = 0;
    let mut total: usize = 0;
    assert(text@.take(0) =~= Seq::<char>::empty());
    while i < text.len()
        invariant
            i <= text@.len(),
            4 * text@.len() <= usize::MAX,
            total as nat == utf8_len(text@.take(i as int)),
        decreases text@.len() - i,
    {
        proof {
            lemma_utf8_len_bounds(text@.take(i as int));
            assert(text@.take(i + 1).drop_last() =~= text@.take(i as int));
        }
        total = total + char_utf8_width(text[i]);
        i = i + 1;
    }
    assert(text@.take(i as int) =~= text@);
    total
}

} // verus!

verus! {

/// Line breaks and widths of a concatenation, where no `\r\n` is split
/// between the two parts.
pub proof fn lemma_line_scan_concat(a: Seq<char>, b: Seq<char>)
    requires
        a.len() == 0 || a.last() != '\r' || b.len() == 0 || b[0] != '\n',
    ensures
        line_scan(a + b) == (if line_scan(b).0 > 0 {
            (line_scan(a).0 + line_scan(b).0, line_scan(b).1)
        } else {
            (line_scan(a).0, line_scan(a).1 + line_scan(b).1)
        }),
    decreases a.len(),
{
    if a.len() == 0 {
        assert(a + b =~= b);
    } else {
        let t = a.skip(1);
        assert((a + b).skip(1) =~= t + b);
        assert((a + b)[0] == a[0]);
        if t.len() > 0 {
            assert(t.last() == a.last());
        }
        lemma_line_scan_concat(t, b);
        if a.len() > 1 {
            assert((a + b)[1] == a[1]);
        } else if b.len() > 0 {
            assert((a + b)[1] == b[0]);
        }
        assert(t + b == (a + b).skip(1));
    }
}

} // verus!

verus! {

/// `a` is the byte index where the line that holds byte index `i` of `s`
/// starts: `i` itself or after the last line-break character before `i`.
pub open spec fn starts_line_of(s: Seq<char>, i: nat, a: nat) -> bool {
    &&& a <= i
    &&& (a == 0 || exists|k: int|
        0 <= k < s.len() && is_line_break(#[trigger] s[k]) && byte_offset(s, k) + 1 == a)
    &&& forall|k: int|
        0 <= k < s.len() && a <= byte_offset(s, k) < i ==> !is_line_break(#[trigger] s[k])
}

/// `b` is the byte index where the line that holds byte index `i` of `s`
/// ends: at the first line-break character from `i` on, or at the end.
pub open spec fn ends_line_of(s: Seq<char>, i: nat, b: nat) -> bool {
    &&& i <= b <= utf8_len(s)
    &&& (b == utf8_len(s) || exists|k: int|
        0 <= k < s.len() && is_line_break(#[trigger] s[k]) && byte_offset(s, k) == b)
    &&& forall|k: int|
        0 <= k < s.len() && i <= byte_offset(s, k) < b ==> !is_line_break(#[trigger] s[k])
}

fn is_break_char(c: char) -> (r: bool)
    ensures
        r == is_line_break(c),
{
    c == '\n' || c == '\r'
}

/// The byte range of the lines of `s` that hold the bytes from `i0` to `i1`,
/// with the character indices where it starts and ends.
#[verifier::spinoff_prover]
#[verifier::rlimit(40)]
pub fn line_bounds(s: &[char], i0: usize, i1: usize) -> (r: (usize, usize, usize, usize))
    requires
        4 * s@.len() <= usize::MAX,
        i0 <= i1 <= utf8_len(s@),
    ensures
        starts_line_of(s@, i0 as nat, r.0 as nat),
        ends_line_of(s@, i1 as nat, r.1 as nat),
        r.2 <= r.3 <= s@.len(),
        byte_offset(s@, r.2 as int) == r.0,
        byte_offset(s@, r.3 as int) == r.1,
{
    let n = s.len();
    let offs = byte_offsets(s);
    let mut a: usize = 0;
    let mut ka: usize = 0;
    let mut k: usize = 0;
    assert(s@.take(0) =~= Seq::<char>::empty());
    assert(offs@[0] as nat == byte_offset(s@, 0));
    while k < n
        invariant
            n == s@.len(),
            offs@.len() == n + 1,
            forall|j: int| 0 <= j <= n ==> offs@[j] as nat == #[trigger] byte_offset(s@, j),
            k <= n,
            ka <= k,
            a <= i0,
            byte_offset(s@, ka as int) == a,
            a == 0 || (ka >= 1 && is_line_break(s@[ka - 1]) && byte_offset(s@, ka - 1) + 1 == a),
            forall|j: int|
                0 <= j < k && a <= byte_offset(s@, j) < i0 ==> !is_line_break(#[trigger] s@[j]),
        decreases n - k,
    {
        let ghost old_a = a;
        let ghost old_ka = ka;
        if is_break_char(s[k]) && offs[k] < i0 {
            proof {
                lemma_byte_offset_step(s@, k as int);
                assert(byte_offset(s@, k as int) == offs@[k as int]);
                assert forall|j: int|
                    0 <= j < k + 1 && offs@[k as int] + 1 <= byte_offset(s@, j) < i0 implies !is_line_break(#[trigger] s@[j]) by {
                    if j <= k {
                        lemma_byte_offset_monotonic(s@, j, k as int);
                    }
                }
            }
            a = offs[k] + 1;
            ka = k + 1;
        } else {
            proof {
                assert(byte_offset(s@, k as int) == offs@[k as int]);
            }
        }
        k = k + 1;
    }
    let mut b: usize = offs[n];
    let mut kb: usize = n;
    let mut k2: usize = 0;
    let mut found = false;
    while k2 < n
        invariant
            n == s@.len(),
            offs@.len() == n + 1,
            forall|j: int| 0 <= j <= n ==> offs@[j] as nat == #[trigger] byte_offset(s@, j),
            k2 <= n,
            !found ==> kb == n && b == offs@[n as int],
            found ==> kb < n && is_line_break(s@[kb as int]) && b == offs@[kb as int] && i1 <= b,
            found ==> forall|j: int| 0 <= j < kb && i1 <= byte_offset(s@, j) ==> !is_line_break(#[trigger] s@[j]),
            !found ==> forall|j: int| 0 <= j < k2 && i1 <= byte_offset(s@, j) ==> !is_line_break(#[trigger] s@[j]),
        decreases n - k2,
    {
        if !found && is_break_char(s[k2]) && offs[k2] >= i1 {
            found = true;
            kb = k2;
            b = offs[k2];
        }
        k2 = k2 + 1;
    }
    proof {
        assert(s@.take(n as int) =~= s@);
        assert(offs@[n as int] as nat == byte_offset(s@, n as int));
        assert(offs@[n as int] == utf8_len(s@));
        if a != 0 {
            assert(is_line_break(s@[ka - 1]));
        }
        lemma_byte_offset_monotonic(s@, 0, n as int);
        if found {
            assert forall|j: int| 0 <= j < s@.len() && i1 <= byte_offset(s@, j) < b implies !is_line_break(#[trigger] s@[j]) by {
                if j >= kb {
                    lemma_byte_offset_monotonic(s@, kb as int, j);
                }
            }
            lemma_byte_offset_monotonic(s@, kb as int, n as int);
        } else {
            assert forall|j: int| 0 <= j < s@.len() && i1 <= byte_offset(s@, j) < b implies !is_line_break(#[trigger] s@[j]) by {
            }
        }
        assert forall|j: int| 0 <= j < s@.len() && a <= byte_offset(s@, j) < i0 implies !is_line_break(#[trigger] s@[j]) by {
        }
        if ka > kb {
            lemma_byte_offset_monotonic(s@, kb as int, ka as int);
        }
    }
    (a, b, ka, kb)
}

} // verus!
