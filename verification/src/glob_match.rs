//! Glob patterns.

use vstd::prelude::*;

verus! {

/// Whether `glob::Pattern::new` accepts a text as a pattern.
pub uninterp spec fn is_glob(pattern: Seq<char>) -> bool;

/// Whether `glob::Pattern::matches_with` finds that the pattern matches the path, case counting.
/// With `by_segment`, `*` and `?` stop at a path separator. A text that is no pattern matches
/// nothing.
pub uninterp spec fn glob_matches(pattern: Seq<char>, path: Seq<char>, by_segment: bool) -> bool;

/// `glob::Pattern::new`: whether it accepts `pattern`, as `is_glob` names it.
#[verifier::external_body]
pub(crate) fn check_glob(pattern: &str) -> (r: bool)
    ensures
        r == is_glob(pattern@),
{
    glob::Pattern::new(pattern).is_ok()
}

/// `glob::Pattern::matches_with`: whether `pattern` matches `path`, as `glob_matches` names it.
#[verifier::external_body]
pub(crate) fn match_glob(pattern: &str, path: &str, by_segment: bool) -> (r: bool)
    ensures
        r == glob_matches(pattern@, path@, by_segment),
        r ==> is_glob(pattern@),
{
    let options = glob::MatchOptions {
        case_sensitive: true,
        require_literal_separator: by_segment,
        require_literal_leading_dot: false,
    };
    glob::Pattern::new(pattern).map(|p| p.matches_with(path, options)).unwrap_or(false)
}

} // verus!
