//! The name-pattern predicate, backed by the regex crate.
use vstd::prelude::*;

verus! {

/// Whether a regular-expression pattern matches anywhere in a text. The
/// result is a function of the two strings alone; a pattern that does not
/// compile matches nothing.
pub uninterp spec fn regex_match(pattern: Seq<char>, text: Seq<char>) -> bool;

/// Relies on regex::Regex::new and regex::Regex::is_match: compiles the
/// pattern and tests whether it matches anywhere in the text; both are
/// functions of the two strings alone. A pattern that does not compile
/// matches nothing (configuration-time validation rejects such patterns
/// before a run).
#[verifier::external_body]
pub(crate) fn pattern_matches(pattern: &str, text: &str) -> (r: bool)
    ensures
        r == regex_match(pattern@, text@),
{
    match regex::Regex::new(pattern) {
        Ok(re) => re.is_match(text),
        Err(_) => false,
    }
}

} // verus!
