//! How the standard library writes values for debugging.
use vstd::prelude::*;

verus! {

/// `c` as `{:?}` writes it: in single quotes, with special characters
/// escaped.
pub uninterp spec fn char_debug(c: char) -> Seq<char>;

/// `s` as `{:?}` writes it: in double quotes, with special characters
/// escaped.
pub uninterp spec fn str_debug(s: Seq<char>) -> Seq<char>;

/// Writes `c` with `format!("{:?}", c)`; the contract claims only that the
/// result is the named form.
#[verifier::external_body]
pub(crate) fn debug_char(c: char) -> (r: String)
    ensures
        r@ == char_debug(c),
{
    format!("{:?}", c)
}

/// Writes `s` with `format!("{:?}", s)`; the contract claims only that the
/// result is the named form.
#[verifier::external_body]
pub(crate) fn debug_str(s: &str) -> (r: String)
    ensures
        r@ == str_debug(s@),
{
    format!("{:?}", s)
}

} // verus!
