//! Regular expressions: what their groups capture.

use crate::text::Text;
use vstd::prelude::*;

verus! {

/// The groups of the first match that `regex::Regex::captures` finds of a pattern in a text: the
/// whole match and then each group, with the place in bytes and the text where it takes part. A text
/// that is no pattern matches nothing.
pub uninterp spec fn first_groups(pattern: Seq<char>, text: Seq<char>) -> Option<
    Seq<Option<(usize, Seq<char>)>>,
>;

/// The groups of every match that `regex::Regex::captures_iter` finds of a pattern in a text, from
/// left to right: the whole match and then each group, with the place in bytes and the text where it
/// takes part. A text that is no pattern matches nothing.
pub uninterp spec fn groups_of_all(pattern: Seq<char>, text: Seq<char>) -> Seq<
    Seq<Option<(usize, Seq<char>)>>,
>;

/// `regex::Regex::captures`: the groups of the first match, as `first_groups` names them.
#[verifier::external_body]
pub(crate) fn capture_first(pattern: &str, text: &str) -> (r: Option<Vec<Option<(usize, String)>>>)
    ensures
        r.deep_view() == first_groups(pattern@, text@),
{
    regex::Regex::new(pattern).ok()?.captures(text).map(|groups| {
        groups.iter().map(|g| g.map(|m| (m.start(), m.as_str().to_string()))).collect()
    })
}

/// `regex::Regex::captures_iter`: the groups of every match, as `groups_of_all` names them.
#[verifier::external_body]
pub(crate) fn capture_all(pattern: &str, text: &str) -> (r: Vec<Vec<Option<(usize, String)>>>)
    ensures
        r.deep_view() == groups_of_all(pattern@, text@),
{
    regex::Regex::new(pattern).map_or(Vec::new(), |regex| {
        regex
            .captures_iter(text)
            .map(|c| c.iter().map(|g| g.map(|m| (m.start(), m.as_str().to_string()))).collect())
            .collect()
    })
}

/// What the `k`-th group captures, with its place.
pub open spec fn group_at(groups: Seq<Option<(usize, Text)>>, k: int) -> Option<(usize, Text)> {
    if 0 <= k < groups.len() {
        groups[k]
    } else {
        None
    }
}

/// The text that the `k`-th group captures.
pub open spec fn group_text(groups: Seq<Option<(usize, Text)>>, k: int) -> Option<Text> {
    match group_at(groups, k) {
        Some((_, t)) => Some(t),
        None => None,
    }
}

/// What the `k`-th group captures, with its place.
pub fn copy_group(groups: &Vec<Option<(usize, String)>>, k: usize) -> (r: Option<(usize, String)>)
    ensures
        r.deep_view() == group_at(groups.deep_view(), k as int),
{
    if k < groups.len() {
        assert(groups.deep_view()[k as int] == groups@[k as int].deep_view());
        match &groups[k] {
            Some((at, t)) => Some((*at, t.clone())),
            None => None,
        }
    } else {
        None
    }
}

/// The text that the `k`-th group captures.
pub fn copy_group_text(groups: &Vec<Option<(usize, String)>>, k: usize) -> (r: Option<String>)
    ensures
        r.deep_view() == group_text(groups.deep_view(), k as int),
{
    match copy_group(groups, k) {
        Some((_, t)) => Some(t),
        None => None,
    }
}

} // verus!
