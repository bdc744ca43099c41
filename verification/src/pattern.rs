//! Regular expressions, as the `regex` crate matches them.

use vstd::prelude::*;

verus! {

/// Whether the regular expression `pattern` matches somewhere in `text`, as
/// the `regex` crate decides it; `None` where `pattern` is not a regular
/// expression that the crate accepts.
pub uninterp spec fn pattern_match(pattern: Seq<char>, text: Seq<char>) -> Option<bool>;

/// Compiles `pattern` with `regex::Regex::new` and asks `Regex::is_match`
/// whether it matches somewhere in `text`. Both depend on the two texts
/// alone. Nothing is said here of which texts a pattern matches.
#[verifier::external_body]
pub(crate) fn match_pattern(pattern: &str, text: &str) -> (r: Option<bool>)
    ensures
        r == pattern_match(pattern@, text@),
{
    match regex::Regex::new(pattern) {
        Ok(re) => Some(re.is_match(text)),
        Err(_) => None,
    }
}

} // verus!
