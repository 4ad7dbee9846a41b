//! The path aliases of a `tsconfig.json`, with those that it inherits.

use crate::paths;
use crate::paths::{normal, path_join};
use crate::text;
use crate::text::{contains_text, first, has_prefix, has_suffix, Text};
use vstd::prelude::*;

verus! {

/// Aliases: keys with at most one `*` that counts, and their targets.
pub type PatternsView = Seq<(Text, Seq<Text>)>;

/// The aliases of one configuration, with the directory that their targets are seen from.
#[derive(Debug, PartialEq, Eq)]
pub struct TsconfigPaths {
    pub base_dir: String,
    pub patterns: Vec<(String, Vec<String>)>,
    /// The `baseUrl`, from which a specifier is looked up after all aliases.
    pub base_url: Option<String>,
}

/// The view of [`TsconfigPaths`].
pub struct TsconfigPathsView {
    pub base_dir: Text,
    pub patterns: PatternsView,
    pub base_url: Option<Text>,
}

impl DeepView for TsconfigPaths {
    type V = TsconfigPathsView;

    open spec fn deep_view(&self) -> TsconfigPathsView {
        TsconfigPathsView {
            base_dir: self.base_dir@,
            patterns: self.patterns.deep_view(),
            base_url: self.base_url.deep_view(),
        }
    }
}

// ---------------------------------------------------------------------------
// Candidates
// ---------------------------------------------------------------------------

/// What the `*` of a key stands for, where the key fits the specifier.
pub open spec fn captured(key: Text, specifier: Text) -> Option<Text> {
    match first(key, "*"@) {
        None => None,
        Some(i) => {
            let prefix = key.take(i);
            let suffix = key.skip(i + 1);
            if has_prefix(specifier, prefix) && has_suffix(specifier.skip(i), suffix) {
                Some(specifier.skip(i).take(specifier.len() - i - suffix.len()))
            } else {
                None
            }
        },
    }
}

/// The length of a key before its `*`.
pub open spec fn prefix_len(key: Text) -> int {
    match first(key, "*"@) {
        Some(i) => i,
        None => 0,
    }
}

/// The position of the alias with a `*` that fits best: the longest before the `*`, and the first
/// of these.
pub open spec fn best_wildcard(patterns: PatternsView, specifier: Text) -> Option<int>
    decreases patterns.len(),
{
    if patterns.len() == 0 {
        None
    } else {
        let before = best_wildcard(patterns.drop_last(), specifier);
        let key = patterns.last().0;
        if captured(key, specifier) is None {
            before
        } else {
            match before {
                None => Some(patterns.len() - 1),
                Some(b) => if prefix_len(key) > prefix_len(patterns[b].0) {
                    Some(patterns.len() - 1)
                } else {
                    before
                },
            }
        }
    }
}

/// The position of the first alias without a `*` that is the specifier.
pub open spec fn exact_key(patterns: PatternsView, specifier: Text) -> Option<int>
    decreases patterns.len(),
{
    if patterns.len() == 0 {
        None
    } else {
        match exact_key(patterns.drop_last(), specifier) {
            Some(i) => Some(i),
            None => if !contains_text(patterns.last().0, "*"@) && patterns.last().0 == specifier {
                Some(patterns.len() - 1)
            } else {
                None
            },
        }
    }
}

/// A target with its first `*` replaced.
pub open spec fn filled(target: Text, with: Text) -> Text {
    match first(target, "*"@) {
        Some(i) => target.take(i) + with + target.skip(i + 1),
        None => target,
    }
}

/// Some targets, filled and seen from a directory.
pub open spec fn placed(targets: Seq<Text>, with: Text, base_dir: Text) -> Seq<Text> {
    Seq::new(targets.len(), |i: int| normal(path_join(base_dir, filled(targets[i], with))))
}

/// The paths that the best alias gives: an exact one, or else the best with a `*`.
pub open spec fn aliased(paths: TsconfigPathsView, specifier: Text) -> Seq<Text> {
    match exact_key(paths.patterns, specifier) {
        Some(i) => placed(paths.patterns[i].1, ""@, paths.base_dir),
        None => match best_wildcard(paths.patterns, specifier) {
            Some(i) => placed(
                paths.patterns[i].1,
                captured(paths.patterns[i].0, specifier)->0,
                paths.base_dir,
            ),
            None => Seq::empty(),
        },
    }
}

/// The paths that a specifier can stand for, in the order in which they are tried.
pub open spec fn candidates_of(paths: TsconfigPathsView, specifier: Text) -> Seq<Text> {
    match paths.base_url {
        Some(base) => aliased(paths, specifier).push(normal(path_join(base, specifier))),
        None => aliased(paths, specifier),
    }
}

/// The best alias with a `*` fits, none that fits is longer before its `*`, and none of those
/// before it is as long.
pub proof fn lemma_best_wildcard(patterns: PatternsView, specifier: Text)
    ensures
        match best_wildcard(patterns, specifier) {
            None => forall|i: int|
                0 <= i < patterns.len() ==> captured(#[trigger] patterns[i].0, specifier) is None,
            Some(b) => {
                &&& 0 <= b < patterns.len()
                &&& captured(patterns[b].0, specifier) is Some
                &&& forall|i: int|
                    0 <= i < patterns.len() && captured(#[trigger] patterns[i].0, specifier) is Some
                        ==> prefix_len(patterns[i].0) <= prefix_len(patterns[b].0) && (i < b
                        ==> prefix_len(patterns[i].0) < prefix_len(patterns[b].0))
            },
        },
    decreases patterns.len(),
{
    if patterns.len() > 0 {
        let init = patterns.drop_last();
        lemma_best_wildcard(init, specifier);
        assert forall|i: int| 0 <= i < init.len() implies init[i] == #[trigger] patterns[i] by {}
        assert(patterns[patterns.len() - 1] == patterns.last());
        let before = best_wildcard(init, specifier);
        if before is Some {
            let b = before->0;
            assert(init[b].0 == patterns[b].0);
            assert forall|i: int|
                0 <= i < init.len() && captured(#[trigger] patterns[i].0, specifier) is Some implies prefix_len(
                patterns[i].0,
            ) <= prefix_len(patterns[b].0) && (i < b ==> prefix_len(patterns[i].0) < prefix_len(
                patterns[b].0,
            )) by {
                assert(captured(init[i].0, specifier) is Some);
            }
        } else {
            assert forall|i: int| 0 <= i < init.len() implies captured(
                #[trigger] patterns[i].0,
                specifier,
            ) is None by {
                assert(captured(init[i].0, specifier) is None);
            }
        }
    }
}

/// What the `*` of a key stands for, where the key fits the specifier.
pub(crate) fn capture(key: &str, specifier: &str) -> (r: Option<String>)
    ensures
        r.deep_view() == captured(key@, specifier@),
{
    proof {
        reveal_strlit("*");
        text::lemma_first_from(key@, "*"@, 0);
    }
    match text::find(key, "*") {
        None => None,
        Some(i) => {
            let prefix = text::front(key, i);
            let suffix = text::rest(key, i + 1);
            match text::strip_prefix(specifier, prefix) {
                None => None,
                Some(tail) => match text::strip_suffix(tail, suffix) {
                    None => None,
                    Some(middle) => Some(middle.to_owned()),
                },
            }
        },
    }
}

/// The length of a key before its `*`.
pub(crate) fn key_prefix_len(key: &str) -> (r: usize)
    ensures
        r == prefix_len(key@),
{
    match text::find(key, "*") {
        Some(i) => i,
        None => 0,
    }
}

/// A target with its first `*` replaced.
fn fill(target: &str, with: &str) -> (r: String)
    ensures
        r@ == filled(target@, with@),
{
    proof {
        reveal_strlit("*");
        text::lemma_first_from(target@, "*"@, 0);
    }
    match text::find(target, "*") {
        Some(i) => text::cat3(text::front(target, i), with, text::rest(target, i + 1)),
        None => target.to_owned(),
    }
}

/// Appends some targets, filled and seen from a directory.
fn place(targets: &Vec<String>, with: &str, base_dir: &str) -> (r: Vec<String>)
    ensures
        r.deep_view() == placed(targets.deep_view(), with@, base_dir@),
{
    let ghost goal = placed(targets.deep_view(), with@, base_dir@);
    let mut out: Vec<String> = Vec::new();
    let mut i: usize = 0;
    assert(out.deep_view() =~= goal.take(0));
    while i < targets.len()
        invariant
            i <= targets.len(),
            goal == placed(targets.deep_view(), with@, base_dir@),
            out.deep_view() == goal.take(i as int),
        decreases targets.len() - i,
    {
        let ghost before = out.deep_view();
        assert(targets.deep_view()[i as int] == targets@[i as int]@);
        let target = fill(targets[i].as_str(), with);
        let path = paths::normalize(paths::join(base_dir, target.as_str()).as_str());
        let ghost view = path@;
        out.push(path);
        assert(out.deep_view() =~= before.push(view));
        assert(goal.take(i + 1) =~= goal.take(i as int).push(view));
        i += 1;
    }
    assert(goal.take(i as int) =~= goal);
    out
}

impl TsconfigPaths {
    /// The position of the first alias without a `*` that is the specifier.
    fn find_exact(&self, specifier: &str) -> (r: Option<usize>)
        ensures
            match r {
                Some(i) => i < self.patterns.len() && exact_key(
                    self.patterns.deep_view(),
                    specifier@,
                ) == Some(i as int),
                None => exact_key(self.patterns.deep_view(), specifier@) is None,
            },
    {
        let ghost all = self.patterns.deep_view();
        let mut i: usize = 0;
        assert(all.take(0) =~= Seq::<(Text, Seq<Text>)>::empty());
        while i < self.patterns.len()
            invariant
                i <= self.patterns.len(),
                all == self.patterns.deep_view(),
                exact_key(all.take(i as int), specifier@) is None,
            decreases self.patterns.len() - i,
        {
            let key = self.patterns[i].0.as_str();
            proof {
                assert(all.take(i + 1).drop_last() =~= all.take(i as int));
                assert(all.take(i + 1).last().0 == key@);
            }
            if !text::contains(key, "*") && text::same(key, specifier) {
                proof {
                    lemma_exact_stays(all, specifier@, i + 1);
                }
                return Some(i);
            }
            i += 1;
        }
        assert(all.take(i as int) =~= all);
        None
    }

    /// The position of the alias with a `*` that fits best.
    fn find_wildcard(&self, specifier: &str) -> (r: Option<usize>)
        ensures
            match r {
                Some(i) => i < self.patterns.len() && best_wildcard(
                    self.patterns.deep_view(),
                    specifier@,
                ) == Some(i as int),
                None => best_wildcard(self.patterns.deep_view(), specifier@) is None,
            },
    {
        let ghost all = self.patterns.deep_view();
        let mut best: Option<usize> = None;
        let mut i: usize = 0;
        assert(all.take(0) =~= Seq::<(Text, Seq<Text>)>::empty());
        while i < self.patterns.len()
            invariant
                i <= self.patterns.len(),
                all == self.patterns.deep_view(),
                match best {
                    Some(b) => b < i && best_wildcard(all.take(i as int), specifier@) == Some(
                        b as int,
                    ),
                    None => best_wildcard(all.take(i as int), specifier@) is None,
                },
            decreases self.patterns.len() - i,
        {
            let key = self.patterns[i].0.as_str();
            proof {
                assert(all.take(i + 1).drop_last() =~= all.take(i as int));
                assert(all.take(i + 1).last().0 == key@);
            }
            if capture(key, specifier).is_some() {
                match best {
                    None => {
                        best = Some(i);
                    },
                    Some(b) => {
                        let other = self.patterns[b].0.as_str();
                        assert(all.take(i + 1)[b as int].0 == other@);
                        if key_prefix_len(key) > key_prefix_len(other) {
                            best = Some(i);
                        }
                    },
                }
            }
            i += 1;
        }
        assert(all.take(i as int) =~= all);
        best
    }

    /// The paths that a specifier can stand for, in the order in which they are tried. Only the
    /// best alias counts: an exact one, or else that with the longest text before its `*`. Last
    /// comes the specifier as seen from the `baseUrl`.
    pub fn candidates(&self, specifier: &str) -> (r: Vec<String>)
        ensures
            r.deep_view() == candidates_of(self.deep_view(), specifier@),
    {
        let ghost all = self.patterns.deep_view();
        let mut out: Vec<String> = match self.find_exact(specifier) {
            Some(i) => {
                assert(all[i as int].1 == self.patterns@[i as int].1.deep_view());
                place(&self.patterns[i].1, "", self.base_dir.as_str())
            },
            None => match self.find_wildcard(specifier) {
                Some(i) => {
                    proof {
                        assert(all[i as int].1 == self.patterns@[i as int].1.deep_view());
                        assert(all[i as int].0 == self.patterns@[i as int].0@);
                        lemma_best_wildcard(all, specifier@);
                    }
                    match capture(self.patterns[i].0.as_str(), specifier) {
                        Some(with) => place(
                            &self.patterns[i].1,
                            with.as_str(),
                            self.base_dir.as_str(),
                        ),
                        None => Vec::new(),
                    }
                },
                None => {
                    let none: Vec<String> = Vec::new();
                    assert(none.deep_view() =~= Seq::<Text>::empty());
                    none
                },
            },
        };
        if let Some(base) = &self.base_url {
            let ghost before = out.deep_view();
            let path = paths::normalize(paths::join(base.as_str(), specifier).as_str());
            let ghost view = path@;
            out.push(path);
            assert(out.deep_view() =~= before.push(view));
        }
        out
    }
}

proof fn lemma_exact_stays(patterns: PatternsView, specifier: Text, k: int)
    requires
        0 <= k <= patterns.len(),
        exact_key(patterns.take(k), specifier) is Some,
    ensures
        exact_key(patterns, specifier) == exact_key(patterns.take(k), specifier),
    decreases patterns.len(),
{
    if k < patterns.len() {
        assert(patterns.drop_last().take(k) =~= patterns.take(k));
        lemma_exact_stays(patterns.drop_last(), specifier, k);
    } else {
        assert(patterns.take(k) =~= patterns);
    }
}

/// An exact alias comes before any with a `*`, and the `baseUrl` comes last.
pub proof fn lemma_candidates_order(paths: TsconfigPathsView, specifier: Text)
    ensures
        exact_key(paths.patterns, specifier) is Some ==> candidates_of(paths, specifier).take(
            paths.patterns[exact_key(paths.patterns, specifier)->0].1.len() as int,
        ) == placed(
            paths.patterns[exact_key(paths.patterns, specifier)->0].1,
            ""@,
            paths.base_dir,
        ),
        paths.base_url matches Some(base) ==> candidates_of(paths, specifier).last() == normal(
            path_join(base, specifier),
        ),
{
    if let Some(i) = exact_key(paths.patterns, specifier) {
        let found = placed(paths.patterns[i].1, ""@, paths.base_dir);
        assert(candidates_of(paths, specifier).take(found.len() as int) =~= found);
    }
}

} // verus!
