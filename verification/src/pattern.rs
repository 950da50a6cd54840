//! Regular expressions, kept as their source text and matched by the
//! `regex` crate.

use vstd::prelude::*;

verus! {

/// Whether `regex::Regex::new` accepts `pattern`.
pub uninterp spec fn regex_compiles(pattern: Seq<char>) -> bool;

/// Whether the regular expression compiled from `pattern` matches somewhere
/// in `text`, as `regex::Regex::is_match` tells; it says nothing of a pattern
/// that does not compile.
pub uninterp spec fn regex_matches(pattern: Seq<char>, text: Seq<char>) -> bool;

/// What matching `text` against `pattern` gives: the answer, or nothing
/// where the pattern is no regular expression.
pub open spec fn matched(pattern: Seq<char>, text: Seq<char>) -> Option<bool> {
    if regex_compiles(pattern) {
        Some(regex_matches(pattern, text))
    } else {
        None
    }
}

/// Tries `regex::Regex::new` on `pattern` and says whether it returned `Ok`.
#[verifier::external_body]
pub(crate) fn is_valid_pattern(pattern: &str) -> (ok: bool)
    ensures
        ok == regex_compiles(pattern@),
{
    regex::Regex::new(pattern).is_ok()
}

/// Compiles `pattern` with `regex::Regex::new` and, where that succeeds,
/// searches `text` with `Regex::is_match`; gives nothing where it fails.
#[verifier::external_body]
pub(crate) fn is_match(pattern: &str, text: &str) -> (r: Option<bool>)
    ensures
        r == if regex_compiles(pattern@) {
            Some(regex_matches(pattern@, text@))
        } else {
            None
        },
{
    match regex::Regex::new(pattern) {
        Ok(re) => Some(re.is_match(text)),
        Err(_) => None,
    }
}

} // verus!
