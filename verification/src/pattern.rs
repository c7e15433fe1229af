//! Pattern matching over text, done by the `regex` crate.
use vstd::prelude::*;
use uniquote::Quote;

verus! {

/// The number of characters of `text` before the end of the leftmost-first
/// match of the regular expression `pattern` in `text`, as the `regex` crate
/// finds it; `None` where the pattern does not compile or does not match.
pub uninterp spec fn regex_match_end(pattern: Seq<char>, text: Seq<char>) -> Option<nat>;

/// Whether the regular expression `pattern` matches somewhere in `text`, as
/// `regex::Regex::is_match` decides; `None` where the pattern does not compile.
pub uninterp spec fn regex_is_match(pattern: Seq<char>, text: Seq<char>) -> Option<bool>;

/// `text` with every match of `pattern` replaced by `replacement`, as
/// `regex::Regex::replace_all` produces it; `None` where the pattern does not
/// compile.
pub uninterp spec fn regex_replace_all(
    pattern: Seq<char>,
    text: Seq<char>,
    replacement: Seq<char>,
) -> Option<Seq<char>>;

/// Calls `regex::Regex::new(pattern)` and `Regex::find` on the characters of
/// `text` from `start` on. The contract claims only that the result is the
/// named end of the first match, counted in characters from `start`, and that
/// it lies within the text searched.
#[verifier::external_body]
pub(crate) fn find_match_end(pattern: &str, text: &[char], start: usize) -> (r: Option<usize>)
    requires
        start <= text@.len(),
    ensures
        match r {
            Some(n) => regex_match_end(pattern@, text@.skip(start as int)) == Some(n as nat)
                && n <= text@.len() - start,
            None => regex_match_end(pattern@, text@.skip(start as int)) is None,
        },
{
    let hay: String = text[start..].iter().collect();
    match regex::Regex::new(pattern) {
        Ok(re) => re.find(&hay).map(|m| hay[..m.end()].chars().count()),
        Err(_) => None,
    }
}

/// Calls `regex::Regex::new(pattern)` and `Regex::is_match(text)`; the
/// contract claims only that the result is the named outcome.
#[verifier::external_body]
pub(crate) fn is_match(pattern: &str, text: &str) -> (r: Option<bool>)
    ensures
        r == regex_is_match(pattern@, text@),
{
    match regex::Regex::new(pattern) {
        Ok(re) => Some(re.is_match(text)),
        Err(_) => None,
    }
}

/// Calls `regex::Regex::new(pattern)` and `Regex::replace_all(text,
/// replacement)`; the contract claims only that the result is the named
/// outcome.
#[verifier::external_body]
pub(crate) fn replace_all(pattern: &str, text: &str, replacement: &str) -> (r: Option<String>)
    ensures
        match r {
            Some(s) => regex_replace_all(pattern@, text@, replacement@) == Some(s@),
            None => regex_replace_all(pattern@, text@, replacement@) is None,
        },
{
    match regex::Regex::new(pattern) {
        Ok(re) => Some(re.replace_all(text, replacement).into_owned()),
        Err(_) => None,
    }
}

/// `s` in the quoted form that `uniquote::Quote::quote` gives it.
pub uninterp spec fn uniquote_quoted(s: Seq<char>) -> Seq<char>;

/// Calls `uniquote::Quote::quote` on `s` and renders the result; the contract
/// claims only that the result is the named quoted form.
#[verifier::external_body]
pub(crate) fn quote(s: &str) -> (r: String)
    ensures
        r@ == uniquote_quoted(s@),
{
    s.quote().to_string()
}

} // verus!
