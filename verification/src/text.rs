//! Character-level helpers shared by the front end.
use vstd::prelude::*;
use vstd::string::StrSliceExecFns;

verus! {

/// Number of bytes that the UTF-8 encoding of `c` takes.
pub open spec fn char_width(c: char) -> nat {
    if (c as u32) < 0x80 {
        1
    } else if (c as u32) < 0x800 {
        2
    } else if (c as u32) < 0x10000 {
        3
    } else {
        4
    }
}

/// Number of bytes that the UTF-8 encoding of `s` takes.
pub open spec fn utf8_len(s: Seq<char>) -> nat
    decreases s.len(),
{
    if s.len() == 0 {
        0
    } else {
        utf8_len(s.drop_last()) + char_width(s.last())
    }
}

pub proof fn lemma_utf8_len_bounds(s: Seq<char>)
    ensures
        s.len() <= utf8_len(s) <= 4 * s.len(),
    decreases s.len(),
{
    if s.len() > 0 {
        lemma_utf8_len_bounds(s.drop_last());
    }
}

/// The UTF-8 width of one character.
pub fn char_utf8_width(c: char) -> (w: usize)
    ensures
        w == char_width(c),
{
    let v = c as u32;
    if v < 0x80 {
        1
    } else if v < 0x800 {
        2
    } else if v < 0x10000 {
        3
    } else {
        4
    }
}

/// The characters of `s`, in order.
pub fn str_chars(s: &str) -> (v: Vec<char>)
    ensures
        v@ == s@,
{
    let n = s.unicode_len();
    let mut v: Vec<char> = Vec::new();
    let mut i: usize = 0;
    while i < n
        invariant
            n == s@.len(),
            i <= n,
            v@ == s@.subrange(0, i as int),
        decreases n - i,
    {
        v.push(s.get_char(i));
        i = i + 1;
        assert(v@ =~= s@.subrange(0, i as int));
    }
    assert(v@ =~= s@);
    v
}

/// Collects characters into a string.
#[verifier::external_body]
pub(crate) fn string_from_chars(cs: &[char]) -> (s: String)
    ensures
        s@ == cs@,
{
    cs.iter().collect()
}

/// Appends one character to a string (`String::push`).
#[verifier::external_body]
pub(crate) fn push_char(s: &mut String, c: char)
    ensures
        final(s)@ == old(s)@.push(c),
{
    s.push(c)
}

/// Appends a string slice to a string (`String::push_str`).
#[verifier::external_body]
pub(crate) fn push_str(s: &mut String, t: &str)
    ensures
        final(s)@ == old(s)@ + t@,
{
    s.push_str(t)
}

/// `s` in lower case, as `str::to_lowercase` maps it by the Unicode
/// lowercase mapping.
pub uninterp spec fn str_lowercase(s: Seq<char>) -> Seq<char>;

/// Calls `str::to_lowercase`; the contract claims only that the result is the
/// named lower-case form of `s`.
#[verifier::external_body]
pub(crate) fn lowercase(s: &str) -> (r: String)
    ensures
        r@ == str_lowercase(s@),
{
    s.to_lowercase()
}

/// Whether `c` is numeric in the sense of `char::is_numeric`: of one of the
/// Unicode general categories for numbers (Nd, Nl, No).
pub uninterp spec fn char_numeric(c: char) -> bool;

/// Calls `char::is_numeric`; the contract claims that the result is the
/// named property of `c`, true for the ASCII digits and false for the ASCII
/// letters, as the documentation's examples show.
#[verifier::external_body]
pub(crate) fn is_numeric(c: char) -> (r: bool)
    ensures
        r == char_numeric(c),
        '0' <= c <= '9' ==> r,
        ('a' <= c <= 'z') || ('A' <= c <= 'Z') ==> !r,
{
    c.is_numeric()
}

/// A string holding exactly the characters of `s`.
pub fn string_of(s: &str) -> (r: String)
    ensures
        r@ == s@,
{
    let mut r = String::new();
    push_str(&mut r, s);
    assert(r@ =~= s@);
    r
}

/// The decimal digit for `d < 10`.
pub open spec fn digit_char(d: nat) -> char {
    if d == 0 { '0' } else if d == 1 { '1' } else if d == 2 { '2' } else if d == 3 { '3' }
    else if d == 4 { '4' } else if d == 5 { '5' } else if d == 6 { '6' } else if d == 7 { '7' }
    else if d == 8 { '8' } else { '9' }
}

/// The decimal representation of `n`, without leading zeros.
pub open spec fn decimal(n: nat) -> Seq<char>
    decreases n,
{
    if n < 10 {
        seq![digit_char(n)]
    } else {
        decimal(n / 10).push(digit_char(n % 10))
    }
}

fn digit(d: usize) -> (c: char)
    requires
        d < 10,
    ensures
        c == digit_char(d as nat),
{
    if d == 0 { '0' } else if d == 1 { '1' } else if d == 2 { '2' } else if d == 3 { '3' }
    else if d == 4 { '4' } else if d == 5 { '5' } else if d == 6 { '6' } else if d == 7 { '7' }
    else if d == 8 { '8' } else { '9' }
}

/// Appends the decimal representation of `n` to `out`.
pub fn push_decimal(out: &mut String, n: usize)
    ensures
        final(out)@ == old(out)@ + decimal(n as nat),
    decreases n,
{
    if n < 10 {
        push_char(out, digit(n));
        assert(decimal(n as nat) =~= seq![digit_char(n as nat)]);
    } else {
        push_decimal(out, n / 10);
        push_char(out, digit(n % 10));
    }
}

/// The decimal representation of `n`.
pub fn decimal_string(n: usize) -> (s: String)
    ensures
        s@ == decimal(n as nat),
{
    let mut s = String::new();
    push_decimal(&mut s, n);
    assert(s@ =~= decimal(n as nat));
    s
}

} // verus!

verus! {

pub proof fn lemma_utf8_len_concat(a: Seq<char>, b: Seq<char>)
    ensures
        utf8_len(a + b) == utf8_len(a) + utf8_len(b),
    decreases b.len(),
{
    if b.len() == 0 {
        assert(a + b =~= a);
    } else {
        assert((a + b).drop_last() =~= a + b.drop_last());
        assert((a + b).last() == b.last());
        lemma_utf8_len_concat(a, b.drop_last());
    }
}

} // verus!

verus! {

/// The byte offset of character `k` of `s`.
pub open spec fn byte_offset(s: Seq<char>, k: int) -> nat {
    utf8_len(s.take(k))
}

/// Byte offsets grow with the character index.
pub proof fn lemma_byte_offset_monotonic(s: Seq<char>, j: int, k: int)
    requires
        0 <= j <= k <= s.len(),
    ensures
        byte_offset(s, j) + (k - j) <= byte_offset(s, k),
{
    lemma_utf8_len_concat(s.take(j), s.subrange(j, k));
    assert(s.take(j) + s.subrange(j, k) =~= s.take(k));
    lemma_utf8_len_bounds(s.subrange(j, k));
}

/// The byte offset after character `k` is that of `k` plus its width.
pub proof fn lemma_byte_offset_step(s: Seq<char>, k: int)
    requires
        0 <= k < s.len(),
    ensures
        byte_offset(s, k + 1) == byte_offset(s, k) + char_width(s[k]),
{
    assert(s.take(k + 1).drop_last() =~= s.take(k));
}

/// The byte offsets of the characters of `s` and of its end.
pub fn byte_offsets(s: &[char]) -> (offs: Vec<usize>)
    requires
        4 * s@.len() <= usize::MAX,
    ensures
        offs@.len() == s@.len() + 1,
        forall|k: int| 0 <= k <= s@.len() ==> offs@[k] as nat == #[trigger] byte_offset(s@, k),
{
    let mut offs: Vec<usize> = Vec::new();
    let mut total: usize = 0;
    let mut i: usize = 0;
    assert(s@.take(0) =~= Seq::<char>::empty());
    offs.push(0);
    while i < s.len()
        invariant
            i <= s@.len(),
            4 * s@.len() <= usize::MAX,
            offs@.len() == i + 1,
            total as nat == byte_offset(s@, i as int),
            forall|k: int| 0 <= k <= i ==> offs@[k] as nat == #[trigger] byte_offset(s@, k),
        decreases s@.len() - i,
    {
        proof {
            lemma_byte_offset_step(s@, i as int);
            lemma_utf8_len_bounds(s@.take(i as int));
            assert(s@.take(i as int).len() == i);
        }
        total = total + char_utf8_width(s[i]);
        offs.push(total);
        i = i + 1;
    }
    offs
}

} // verus!

verus! {

/// Whether `c` is white space as Unicode defines it (the property that
/// `char::is_whitespace` tests).
pub open spec fn is_white(c: char) -> bool {
    ||| ('\u{9}' <= c && c <= '\u{d}')
    ||| c == ' '
    ||| c == '\u{85}'
    ||| c == '\u{a0}'
    ||| c == '\u{1680}'
    ||| ('\u{2000}' <= c && c <= '\u{200a}')
    ||| c == '\u{2028}'
    ||| c == '\u{2029}'
    ||| c == '\u{202f}'
    ||| c == '\u{205f}'
    ||| c == '\u{3000}'
}

/// Whether `c` is white space.
pub fn char_is_white(c: char) -> (r: bool)
    ensures
        r == is_white(c),
{
    ('\u{9}' <= c && c <= '\u{d}') || c == ' ' || c == '\u{85}' || c == '\u{a0}' || c == '\u{1680}'
        || ('\u{2000}' <= c && c <= '\u{200a}') || c == '\u{2028}' || c == '\u{2029}' || c == '\u{202f}'
        || c == '\u{205f}' || c == '\u{3000}'
}

/// The range `(a, b)` of `s` left after white space is taken from both ends:
/// no white space is at its ends and all that was taken is white space.
pub open spec fn trimmed(s: Seq<char>, a: int, b: int) -> bool {
    &&& 0 <= a <= b <= s.len()
    &&& forall|i: int| 0 <= i < a ==> is_white(#[trigger] s[i])
    &&& forall|i: int| b <= i < s.len() ==> is_white(#[trigger] s[i])
    &&& a < b ==> !is_white(s[a]) && !is_white(s[b - 1])
    &&& a == b ==> a == 0 && b == 0 || forall|i: int| 0 <= i < s.len() ==> is_white(#[trigger] s[i])
}

/// The characters of `s` with white space taken from both ends.
pub fn trim_chars(s: &[char]) -> (r: (usize, usize))
    ensures
        trimmed(s@, r.0 as int, r.1 as int),
{
    let n = s.len();
    let mut a: usize = 0;
    while a < n && char_is_white(s[a])
        invariant
            n == s@.len(),
            a <= n,
            forall|i: int| 0 <= i < a ==> is_white(#[trigger] s@[i]),
        decreases n - a,
    {
        a = a + 1;
    }
    let mut b: usize = n;
    while b > a && char_is_white(s[b - 1])
        invariant
            n == s@.len(),
            a <= b <= n,
            forall|i: int| 0 <= i < a ==> is_white(#[trigger] s@[i]),
            forall|i: int| b <= i < n ==> is_white(#[trigger] s@[i]),
            a < n ==> !is_white(s@[a as int]),
        decreases b - a,
    {
        b = b - 1;
    }
    (a, b)
}

} // verus!

verus! {

/// `s` with white space taken from both ends.
pub open spec fn trim_seq(s: Seq<char>) -> Seq<char> {
    let p = choose|p: (int, int)| trimmed(s, p.0, p.1);
    s.subrange(p.0, p.1)
}

/// Taking white space from both ends gives one text, however the ends are
/// found.
pub proof fn lemma_trimmed_unique(s: Seq<char>, a: int, b: int)
    requires
        trimmed(s, a, b),
    ensures
        trim_seq(s) == s.subrange(a, b),
{
    let w = (a, b);
    assert(trimmed(s, w.0, w.1));
    let p = choose|p: (int, int)| trimmed(s, p.0, p.1);
    assert(trimmed(s, p.0, p.1));
    let (c, d) = p;
    if a < b {
        if c < a {
            assert(is_white(s[c]));
        }
        if a < c {
            assert(is_white(s[a]));
        }
        if d < b {
            assert(is_white(s[b - 1]));
        }
        if b < d {
            assert(is_white(s[d - 1]));
        }
        assert(c == a && d == b);
    } else if c < d {
        if a < c {
        }
        assert(!is_white(s[c]));
        assert(false);
    }
    assert(s.subrange(a, b) =~= s.subrange(c, d));
}

} // verus!
