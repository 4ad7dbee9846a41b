//! What holds of the resolution of every specifier.

use crate::files::FileTree;
use crate::paths::{normal, path_join, path_under, path_within};
use crate::semantic::tsconfig_load::ancestor;
use crate::semantic::tsconfig_paths::{
    aliased, candidates_of, captured, exact_key, filled, placed, prefix_len, TsconfigPathsView,
};
use crate::semantic::tsconfig_paths;
use crate::semantic::package_laws;
use crate::semantic::workspace_resolver::{
    alias_prefix, first_present, first_within, in_workspace, is_relative, looked_up,
    endings, index_files, nearest_tsconfig, next_step, relative_candidates, remapped,
    ResolutionView,
};
use crate::text;
use crate::text::{contains_text, first, has_prefix, has_suffix, occurs_at, Text};
use crate::text_laws::is_without;
use crate::types::ProjectView;
use vstd::prelude::*;

verus! {

// ---------------------------------------------------------------------------
// Relative specifiers
// ---------------------------------------------------------------------------

/// The text is the one given, or it begins with it and a slash of either kind.
pub open spec fn is_or_below(s: Text, dots: Text) -> bool {
    s == dots || exists|rest: Text|
        s == #[trigger] (dots + seq!['/'] + rest) || s == dots + seq!['\\'] + rest
}

/// A specifier is relative where it is `.` or `..`, or begins with one of them and a slash.
pub proof fn lemma_relative(s: Text)
    ensures
        is_relative(s) <==> is_or_below(s, "."@) || is_or_below(s, ".."@),
{
    reveal_strlit(".");
    reveal_strlit("..");
    reveal_strlit("/");
    reveal_strlit("\\");
    let one = "."@;
    let two = ".."@;
    if is_or_below(s, two) {
        assert(s.subrange(0, 2) =~= two);
        let r = s.skip(2);
        if s != two {
            let rest = choose|rest: Text|
                s == #[trigger] (two + seq!['/'] + rest) || s == two + seq!['\\'] + rest;
            assert(r =~= seq!['/'] + rest || r =~= seq!['\\'] + rest);
            assert(r.subrange(0, 1) =~= "/"@ || r.subrange(0, 1) =~= "\\"@);
        }
    } else if is_or_below(s, one) {
        assert(s.subrange(0, 1) =~= one);
        if has_prefix(s, two) {
            assert(s.subrange(0, 2)[1] == '.');
        }
        let r = s.skip(1);
        if s != one {
            let rest = choose|rest: Text|
                s == #[trigger] (one + seq!['/'] + rest) || s == one + seq!['\\'] + rest;
            assert(r =~= seq!['/'] + rest || r =~= seq!['\\'] + rest);
            assert(r.subrange(0, 1) =~= "/"@ || r.subrange(0, 1) =~= "\\"@);
        }
    }
    if is_relative(s) {
        let (dots, r) = if has_prefix(s, two) {
            (two, s.skip(2))
        } else {
            (one, s.skip(1))
        };
        assert(s =~= dots + r);
        if r.len() == 0 {
            assert(s =~= dots);
        } else if has_prefix(r, "/"@) {
            assert(r.subrange(0, 1)[0] == '/');
            assert(s =~= dots + seq!['/'] + r.skip(1));
        } else {
            assert(r.subrange(0, 1)[0] == '\\');
            let rest = r.skip(1);
            assert(s =~= dots + seq!['\\'] + rest);
            let other = dots + seq!['/'] + rest;
            assert(is_or_below(s, dots));
        }
    }
}

/// The sources that a path without an ending can stand for: TypeScript before JavaScript, and files
/// before the index files of a directory.
pub open spec fn plain_candidates(base: Text) -> Seq<Text> {
    seq![
        base + ".ts"@,
        base + ".tsx"@,
        base + ".mts"@,
        base + ".cts"@,
        base + ".js"@,
        base + ".jsx"@,
        base + ".mjs"@,
        base + ".cjs"@,
        path_join(base, "index.ts"@),
        path_join(base, "index.tsx"@),
        path_join(base, "index.mts"@),
        path_join(base, "index.cts"@),
        path_join(base, "index.js"@),
        path_join(base, "index.jsx"@),
        path_join(base, "index.mjs"@),
        path_join(base, "index.cjs"@),
    ]
}

proof fn lemma_as_written(context: Text, specifier: Text)
    ensures
        relative_candidates(context, specifier) == remapped(context, specifier) + plain_candidates(
            path_join(context, specifier),
        ),
{
    let base = path_join(context, specifier);
    let files = Seq::new(endings().len(), |i: int| base + endings()[i]);
    let indexes = Seq::new(index_files().len(), |i: int| path_join(base, index_files()[i]));
    assert(files + indexes =~= plain_candidates(base));
    assert(remapped(context, specifier) + files + indexes =~= remapped(context, specifier) + (files
        + indexes));
}

/// A specifier without a JavaScript ending stands for the sources of that name, with each ending in
/// turn, and then for the index files of the directory of that name.
pub proof fn lemma_plain_specifier(context: Text, specifier: Text)
    requires
        !has_suffix(specifier, ".js"@),
        !has_suffix(specifier, ".jsx"@),
        !has_suffix(specifier, ".mjs"@),
        !has_suffix(specifier, ".cjs"@),
    ensures
        relative_candidates(context, specifier) == plain_candidates(path_join(context, specifier)),
{
    lemma_as_written(context, specifier);
    assert(remapped(context, specifier) =~= Seq::<Text>::empty());
    assert(Seq::<Text>::empty() + plain_candidates(path_join(context, specifier))
        =~= plain_candidates(path_join(context, specifier)));
}

/// A specifier that ends in `.js` stands for the TypeScript source of that name before all else; then
/// it is taken as it is written.
pub proof fn lemma_js_specifier(context: Text, stem: Text)
    ensures
        relative_candidates(context, stem + ".js"@) == seq![
            path_join(context, stem) + ".ts"@,
            path_join(context, stem) + ".tsx"@,
            path_join(context, stem) + ".js"@,
        ] + plain_candidates(path_join(context, stem + ".js"@)),
{
    reveal_strlit(".js");
    reveal_strlit(".mjs");
    reveal_strlit(".cjs");
    let s = stem + ".js"@;
    lemma_ending(stem, ".js"@);
    lemma_other_ending(s, ".mjs"@, 2, '.');
    lemma_other_ending(s, ".cjs"@, 2, '.');
    lemma_as_written(context, s);
    assert(remapped(context, s) =~= seq![
        path_join(context, stem) + ".ts"@,
        path_join(context, stem) + ".tsx"@,
        path_join(context, stem) + ".js"@,
    ]);
}

/// A specifier that ends in `.jsx` stands for the TypeScript source of that name before all else; then
/// it is taken as it is written.
pub proof fn lemma_jsx_specifier(context: Text, stem: Text)
    ensures
        relative_candidates(context, stem + ".jsx"@) == seq![
            path_join(context, stem) + ".tsx"@,
            path_join(context, stem) + ".jsx"@,
        ] + plain_candidates(path_join(context, stem + ".jsx"@)),
{
    reveal_strlit(".jsx");
    reveal_strlit(".mjs");
    reveal_strlit(".cjs");
    reveal_strlit(".js");
    let s = stem + ".jsx"@;
    lemma_ending(stem, ".jsx"@);
    lemma_other_ending(s, ".mjs"@, 0, 'x');
    lemma_other_ending(s, ".cjs"@, 0, 'x');
    lemma_other_ending(s, ".js"@, 0, 'x');
    lemma_as_written(context, s);
    assert(remapped(context, s) =~= seq![
        path_join(context, stem) + ".tsx"@,
        path_join(context, stem) + ".jsx"@,
    ]);
}

/// A specifier that ends in `.mjs` stands for the TypeScript source of that name before all else; then
/// it is taken as it is written.
pub proof fn lemma_mjs_specifier(context: Text, stem: Text)
    ensures
        relative_candidates(context, stem + ".mjs"@) == seq![
            path_join(context, stem) + ".mts"@,
            path_join(context, stem) + ".mjs"@,
        ] + plain_candidates(path_join(context, stem + ".mjs"@)),
{
    reveal_strlit(".mjs");
    let s = stem + ".mjs"@;
    lemma_ending(stem, ".mjs"@);
    lemma_as_written(context, s);
    assert(remapped(context, s) =~= seq![
        path_join(context, stem) + ".mts"@,
        path_join(context, stem) + ".mjs"@,
    ]);
}

/// A specifier that ends in `.cjs` stands for the TypeScript source of that name before all else; then
/// it is taken as it is written.
pub proof fn lemma_cjs_specifier(context: Text, stem: Text)
    ensures
        relative_candidates(context, stem + ".cjs"@) == seq![
            path_join(context, stem) + ".cts"@,
            path_join(context, stem) + ".cjs"@,
        ] + plain_candidates(path_join(context, stem + ".cjs"@)),
{
    reveal_strlit(".cjs");
    reveal_strlit(".mjs");
    let s = stem + ".cjs"@;
    lemma_ending(stem, ".cjs"@);
    lemma_other_ending(s, ".mjs"@, 2, 'c');
    lemma_as_written(context, s);
    assert(remapped(context, s) =~= seq![
        path_join(context, stem) + ".cts"@,
        path_join(context, stem) + ".cjs"@,
    ]);
}

proof fn lemma_ending(stem: Text, ending: Text)
    ensures
        has_suffix(stem + ending, ending),
        (stem + ending).take((stem + ending).len() - ending.len()) == stem,
{
    let s = stem + ending;
    assert(s.subrange(s.len() - ending.len(), s.len() as int) =~= ending);
    assert(s.take(s.len() - ending.len()) =~= stem);
}

/// A text whose character `back` from the end is another than that of the ending does not end so.
proof fn lemma_other_ending(s: Text, ending: Text, back: int, c: char)
    requires
        0 <= back < ending.len(),
        back < s.len(),
        s[s.len() - 1 - back] == c,
        ending[ending.len() - 1 - back] != c,
    ensures
        !has_suffix(s, ending),
{
    if has_suffix(s, ending) {
        let tail = s.subrange(s.len() - ending.len(), s.len() as int);
        assert(tail[ending.len() - 1 - back] == s[s.len() - 1 - back]);
    }
}

/// Of some paths the first that is there and lies in the workspace is taken.
pub proof fn lemma_first_present(tree: FileTree, cwd: Text, candidates: Seq<Text>, i: int)
    requires
        0 <= i < candidates.len(),
        tree.present(path_join(cwd, candidates[i])),
        path_within(candidates[i], cwd) is Some,
        forall|j: int|
            0 <= j < i ==> !tree.present(path_join(cwd, #[trigger] candidates[j])) || path_within(
                candidates[j],
                cwd,
            ) is None,
    ensures
        first_present(tree, cwd, candidates) == path_within(candidates[i], cwd),
    decreases i,
{
    if i > 0 {
        assert(!tree.present(path_join(cwd, candidates[0])) || path_within(
            candidates[0],
            cwd,
        ) is None);
        let rest = candidates.drop_first();
        assert(rest[i - 1] == candidates[i]);
        assert forall|j: int| 0 <= j < i - 1 implies !tree.present(
            path_join(cwd, #[trigger] rest[j]),
        ) || path_within(rest[j], cwd) is None by {
            assert(rest[j] == candidates[j + 1]);
        }
        lemma_first_present(tree, cwd, rest, i - 1);
    }
}

/// Where none of the paths is there and in the workspace, none is taken.
pub proof fn lemma_none_present(tree: FileTree, cwd: Text, candidates: Seq<Text>)
    requires
        forall|j: int|
            0 <= j < candidates.len() ==> !tree.present(path_join(cwd, #[trigger] candidates[j]))
                || path_within(candidates[j], cwd) is None,
    ensures
        first_present(tree, cwd, candidates) is None,
    decreases candidates.len(),
{
    if candidates.len() > 0 {
        assert(!tree.present(path_join(cwd, candidates[0])) || path_within(
            candidates[0],
            cwd,
        ) is None);
        let rest = candidates.drop_first();
        assert forall|j: int| 0 <= j < rest.len() implies !tree.present(
            path_join(cwd, #[trigger] rest[j]),
        ) || path_within(rest[j], cwd) is None by {
            assert(rest[j] == candidates[j + 1]);
        }
        lemma_none_present(tree, cwd, rest);
    }
}

// ---------------------------------------------------------------------------
// Which specifiers are followed
// ---------------------------------------------------------------------------

/// A specifier is followed where it begins with a dot, where it is the name of a project or a path
/// inside one, or where it begins as an alias does; no other is.
pub proof fn lemma_in_workspace(s: Text, projects: Seq<ProjectView>, prefixes: Seq<Text>)
    ensures
        in_workspace(s, projects, prefixes) <==> {
            ||| s.len() > 0 && s[0] == '.'
            ||| exists|i: int|
                0 <= i < projects.len() && package_laws::is_of_package(
                    s,
                    (#[trigger] projects[i]).name,
                )
            ||| exists|i: int|
                0 <= i < prefixes.len() && (#[trigger] prefixes[i]).len() <= s.len() && s.take(
                    prefixes[i].len() as int,
                ) == prefixes[i]
        },
{
    reveal_strlit(".");
    reveal_strlit("/");
    if has_prefix(s, "."@) {
        assert(s.subrange(0, 1)[0] == '.');
    }
    if s.len() > 0 && s[0] == '.' {
        assert(s.subrange(0, 1) =~= "."@);
    }
    assert forall|i: int| 0 <= i < projects.len() implies (
    crate::semantic::workspace_resolver::names_package(s, projects[i].name)
        <==> package_laws::is_of_package(s, (#[trigger] projects[i]).name)) by {
        let name = projects[i].name;
        let full = name + "/"@;
        assert(full =~= name + seq!['/']);
        if has_prefix(s, full) {
            assert(s.subrange(0, full.len() as int) =~= full);
            assert(s =~= name + seq!['/'] + s.skip(full.len() as int));
        }
        if exists|rest: Text| s == #[trigger] (name + seq!['/'] + rest) {
            assert(s.subrange(0, full.len() as int) =~= full);
        }
    }
    assert forall|i: int| 0 <= i < prefixes.len() implies (has_prefix(s, #[trigger] prefixes[i])
        <==> prefixes[i].len() <= s.len() && s.take(prefixes[i].len() as int) == prefixes[i]) by {
        let p = prefixes[i];
        if p.len() <= s.len() {
            assert(s.take(p.len() as int) =~= s.subrange(0, p.len() as int));
        }
    }
    if exists|i: int|
        0 <= i < projects.len() && crate::semantic::workspace_resolver::names_package(
            s,
            #[trigger] projects[i].name,
        ) {
        let i = choose|i: int|
            0 <= i < projects.len() && crate::semantic::workspace_resolver::names_package(
                s,
                #[trigger] projects[i].name,
            );
        assert(package_laws::is_of_package(s, projects[i].name));
    }
    if exists|i: int|
        0 <= i < projects.len() && package_laws::is_of_package(s, (#[trigger] projects[i]).name) {
        let i = choose|i: int|
            0 <= i < projects.len() && package_laws::is_of_package(s, (#[trigger] projects[i]).name);
        assert(crate::semantic::workspace_resolver::names_package(s, projects[i].name));
    }
}

/// The prefix of an alias is what stands before its first star.
pub proof fn lemma_alias_prefix(prefix: Text, rest: Text)
    requires
        is_without(prefix, '*'),
    ensures
        alias_prefix(prefix + seq!['*'] + rest) == prefix,
        alias_prefix(prefix) == prefix,
{
    package_laws::lemma_star_captures(prefix, rest, Seq::<char>::empty());
    reveal_strlit("*");
    let key = prefix + seq!['*'] + rest;
    text::lemma_first_from(key, "*"@, 0);
    assert(key.subrange(prefix.len() as int, prefix.len() as int + 1) =~= "*"@);
    assert(occurs_at(key, "*"@, prefix.len() as int));
    assert(key.take(prefix.len() as int) =~= prefix);
    text::lemma_first_from(prefix, "*"@, 0);
    if let Some(i) = first(prefix, "*"@) {
        assert(prefix.subrange(i, i + 1)[0] == '*');
    }
}

// ---------------------------------------------------------------------------
// The nearest configuration
// ---------------------------------------------------------------------------

/// The nearest `tsconfig.json` at or above a directory is taken, as long as the way up stays in the
/// workspace.
pub proof fn lemma_nearest_tsconfig(tree: FileTree, cwd: Text, dir: Text, k: nat, found: nat)
    requires
        found <= k,
        tree.has_file(path_join(ancestor(dir, found as int), "tsconfig.json"@)),
        forall|j: int| found < j <= k ==> !tree.has_file(path_join(#[trigger] ancestor(dir, j), "tsconfig.json"@)),
        forall|j: int| found <= j <= k ==> path_under(#[trigger] ancestor(dir, j), cwd),
    ensures
        nearest_tsconfig(tree, cwd, dir, k) == Some(
            path_join(ancestor(dir, found as int), "tsconfig.json"@),
        ),
    decreases k,
{
    assert(path_under(ancestor(dir, k as int), cwd));
    if found < k {
        assert(!tree.has_file(path_join(ancestor(dir, k as int), "tsconfig.json"@)));
        lemma_nearest_tsconfig(tree, cwd, dir, (k - 1) as nat, found);
    }
}

/// What lies outside the workspace is not looked at.
pub proof fn lemma_no_tsconfig_outside(tree: FileTree, cwd: Text, dir: Text, k: nat)
    requires
        forall|j: int|
            0 <= j <= k ==> path_under(#[trigger] ancestor(dir, j), cwd) ==> !tree.has_file(
                path_join(ancestor(dir, j), "tsconfig.json"@),
            ),
    ensures
        nearest_tsconfig(tree, cwd, dir, k) is None,
    decreases k,
{
    assert(path_under(ancestor(dir, k as int), cwd) ==> !tree.has_file(
        path_join(ancestor(dir, k as int), "tsconfig.json"@),
    ));
    if k > 0 {
        lemma_no_tsconfig_outside(tree, cwd, dir, (k - 1) as nat);
    }
}

// ---------------------------------------------------------------------------
// Questions and answers
// ---------------------------------------------------------------------------

/// The answer is a path in the workspace.
pub open spec fn is_inside_answer(reply: Option<Text>, cwd: Text) -> bool {
    reply matches Some(path) && path_within(path, cwd) is Some
}

proof fn lemma_first_within(replies: Seq<Option<Text>>, cwd: Text, i: int)
    requires
        0 <= i < replies.len(),
        is_inside_answer(replies[i], cwd),
        forall|j: int| 0 <= j < i ==> !is_inside_answer(#[trigger] replies[j], cwd),
    ensures
        first_within(replies, cwd) == path_within(replies[i]->0, cwd),
    decreases i,
{
    if i > 0 {
        assert(!is_inside_answer(replies[0], cwd));
        let rest = replies.drop_first();
        assert(rest[i - 1] == replies[i]);
        assert forall|j: int| 0 <= j < i - 1 implies !is_inside_answer(#[trigger] rest[j], cwd) by {
            assert(rest[j] == replies[j + 1]);
        }
        lemma_first_within(rest, cwd, i - 1);
    }
}

proof fn lemma_none_within(replies: Seq<Option<Text>>, cwd: Text)
    requires
        forall|j: int| 0 <= j < replies.len() ==> !is_inside_answer(#[trigger] replies[j], cwd),
    ensures
        first_within(replies, cwd) is None,
    decreases replies.len(),
{
    if replies.len() > 0 {
        assert(!is_inside_answer(replies[0], cwd));
        let rest = replies.drop_first();
        assert forall|j: int| 0 <= j < rest.len() implies !is_inside_answer(
            #[trigger] rest[j],
            cwd,
        ) by {
            assert(rest[j] == replies[j + 1]);
        }
        lemma_none_within(rest, cwd);
    }
}

/// The first path of an alias that resolves into the workspace is what the import stands for,
/// whether or not the specifier could stand for something in it otherwise.
pub proof fn lemma_alias_wins(
    tree: FileTree,
    cwd: Text,
    candidates: Seq<Text>,
    context: Text,
    specifier: Text,
    reachable: bool,
    replies: Seq<Option<Text>>,
    i: int,
)
    requires
        0 <= i < candidates.len(),
        i < replies.len(),
        is_inside_answer(replies[i], cwd),
        forall|j: int| 0 <= j < i ==> !is_inside_answer(#[trigger] replies[j], cwd),
    ensures
        next_step(tree, cwd, candidates, context, specifier, reachable, replies)
            == ResolutionView::Done(path_within(replies[i]->0, cwd)),
{
    lemma_first_within(replies, cwd, i);
    if replies.len() >= candidates.len() {
        let some = replies.take(candidates.len() as int);
        assert(some[i] == replies[i]);
        assert forall|j: int| 0 <= j < i implies !is_inside_answer(#[trigger] some[j], cwd) by {
            assert(some[j] == replies[j]);
        }
        lemma_first_within(some, cwd, i);
    }
}

/// The paths of aliases are asked for one after another, until one resolves into the workspace.
pub proof fn lemma_aliases_in_order(
    tree: FileTree,
    cwd: Text,
    candidates: Seq<Text>,
    context: Text,
    specifier: Text,
    reachable: bool,
    replies: Seq<Option<Text>>,
)
    requires
        replies.len() < candidates.len(),
        forall|j: int| 0 <= j < replies.len() ==> !is_inside_answer(#[trigger] replies[j], cwd),
    ensures
        next_step(tree, cwd, candidates, context, specifier, reachable, replies)
            == (ResolutionView::Ask { context, request: candidates[replies.len() as int] }),
{
    lemma_none_within(replies, cwd);
}

/// Where no alias leads into the workspace, a specifier that can stand for nothing in it is let go.
/// Any other is asked for itself; an answer counts where it lies in the workspace; and where the
/// resolver has none, the plain lookup of a relative path decides.
pub proof fn lemma_after_aliases(
    tree: FileTree,
    cwd: Text,
    candidates: Seq<Text>,
    context: Text,
    specifier: Text,
    replies: Seq<Option<Text>>,
)
    requires
        replies.len() >= candidates.len(),
        forall|j: int|
            0 <= j < candidates.len() ==> !is_inside_answer(#[trigger] replies[j], cwd),
    ensures
        next_step(tree, cwd, candidates, context, specifier, false, replies)
            == ResolutionView::Done(None),
        replies.len() == candidates.len() ==> next_step(
            tree,
            cwd,
            candidates,
            context,
            specifier,
            true,
            replies,
        ) == (ResolutionView::Ask { context, request: specifier }),
        replies.len() > candidates.len() ==> next_step(
            tree,
            cwd,
            candidates,
            context,
            specifier,
            true,
            replies,
        ) == ResolutionView::Done(
            match replies[candidates.len() as int] {
                Some(path) => path_within(path, cwd),
                None => if specifier.len() > 0 && specifier[0] == '.' {
                    first_present(tree, cwd, relative_candidates(context, specifier))
                } else {
                    None
                },
            },
        ),
{
    let some = replies.take(candidates.len() as int);
    assert forall|j: int| 0 <= j < some.len() implies !is_inside_answer(#[trigger] some[j], cwd) by {
        assert(some[j] == replies[j]);
    }
    lemma_none_within(some, cwd);
    reveal_strlit(".");
    if has_prefix(specifier, "."@) {
        assert(specifier.subrange(0, 1)[0] == '.');
    }
    if specifier.len() > 0 && specifier[0] == '.' {
        assert(specifier.subrange(0, 1) =~= "."@);
    }
}

// ---------------------------------------------------------------------------
// Aliases
// ---------------------------------------------------------------------------

/// A target is filled by putting what the star of the alias stands for in place of its own.
pub proof fn lemma_filled(prefix: Text, suffix: Text, with: Text)
    requires
        is_without(prefix, '*'),
    ensures
        filled(prefix + seq!['*'] + suffix, with) == prefix + with + suffix,
        filled(prefix, with) == prefix,
{
    reveal_strlit("*");
    let key = prefix + seq!['*'] + suffix;
    let n = prefix.len() as int;
    text::lemma_first_from(key, "*"@, 0);
    assert(key.subrange(n, n + 1) =~= "*"@);
    assert(occurs_at(key, "*"@, n));
    let i = first(key, "*"@)->0;
    if i < n {
        assert(key.subrange(i, i + 1)[0] == prefix[i]);
    }
    assert(key.take(n) =~= prefix);
    assert(key.skip(n + 1) =~= suffix);
    text::lemma_first_from(prefix, "*"@, 0);
    if let Some(j) = first(prefix, "*"@) {
        assert(prefix.subrange(j, j + 1)[0] == '*');
    }
}

/// An alias without a star that is the specifier comes before all others: its targets are tried, in
/// order, seen from the directory of the configuration.
pub proof fn lemma_exact_alias(paths: TsconfigPathsView, specifier: Text, i: int, t: int)
    requires
        0 <= i < paths.patterns.len(),
        paths.patterns[i].0 == specifier,
        is_without(specifier, '*'),
        forall|j: int| 0 <= j < i ==> (#[trigger] paths.patterns[j]).0 != specifier,
        0 <= t < paths.patterns[i].1.len(),
        is_without(paths.patterns[i].1[t], '*'),
    ensures
        candidates_of(paths, specifier).len() >= paths.patterns[i].1.len(),
        candidates_of(paths, specifier)[t] == normal(
            path_join(paths.base_dir, paths.patterns[i].1[t]),
        ),
{
    reveal_strlit("*");
    if contains_text(specifier, "*"@) {
        let at = choose|at: int| occurs_at(specifier, "*"@, at);
        assert(specifier.subrange(at, at + 1)[0] == specifier[at]);
    }
    lemma_exact_key(paths.patterns, specifier, i);
    lemma_filled(paths.patterns[i].1[t], Seq::<char>::empty(), ""@);
}

proof fn lemma_exact_key(patterns: Seq<(Text, Seq<Text>)>, specifier: Text, i: int)
    requires
        0 <= i < patterns.len(),
        patterns[i].0 == specifier,
        !contains_text(specifier, "*"@),
        forall|j: int| 0 <= j < i ==> (#[trigger] patterns[j]).0 != specifier,
    ensures
        exact_key(patterns, specifier) == Some(i),
    decreases patterns.len(),
{
    let init = patterns.drop_last();
    if i < init.len() {
        assert(init[i] == patterns[i]);
        assert forall|j: int| 0 <= j < i implies (#[trigger] init[j]).0 != specifier by {
            assert(init[j] == patterns[j]);
        }
        lemma_exact_key(init, specifier, i);
    } else {
        assert forall|j: int| 0 <= j < init.len() implies (#[trigger] init[j]).0 != specifier by {
            assert(init[j] == patterns[j]);
        }
        lemma_no_exact_key(init, specifier);
        assert(patterns.last() == patterns[i]);
    }
}

proof fn lemma_no_exact_key(patterns: Seq<(Text, Seq<Text>)>, specifier: Text)
    requires
        forall|j: int| 0 <= j < patterns.len() ==> (#[trigger] patterns[j]).0 != specifier,
    ensures
        exact_key(patterns, specifier) is None,
    decreases patterns.len(),
{
    if patterns.len() > 0 {
        let init = patterns.drop_last();
        assert forall|j: int| 0 <= j < init.len() implies (#[trigger] init[j]).0 != specifier by {
            assert(init[j] == patterns[j]);
        }
        lemma_no_exact_key(init, specifier);
        assert(patterns[patterns.len() - 1].0 != specifier);
    }
}

/// An alias with a star that fits the specifier, and is longer before its star than any other that
/// does, gives its targets with what its star stands for put in, in order.
pub proof fn lemma_starred_alias(
    paths: TsconfigPathsView,
    i: int,
    prefix: Text,
    suffix: Text,
    middle: Text,
    t: int,
    front: Text,
    back: Text,
)
    requires
        0 <= i < paths.patterns.len(),
        is_without(prefix, '*'),
        paths.patterns[i].0 == prefix + seq!['*'] + suffix,
        forall|j: int|
            0 <= j < paths.patterns.len() ==> (#[trigger] paths.patterns[j]).0 != prefix + middle
                + suffix,
        forall|j: int|
            0 <= j < paths.patterns.len() && j != i && captured(
                (#[trigger] paths.patterns[j]).0,
                prefix + middle + suffix,
            ) is Some ==> prefix_len(paths.patterns[j].0) < prefix.len(),
        0 <= t < paths.patterns[i].1.len(),
        is_without(front, '*'),
        paths.patterns[i].1[t] == front + seq!['*'] + back,
    ensures
        candidates_of(paths, prefix + middle + suffix).len() >= paths.patterns[i].1.len(),
        candidates_of(paths, prefix + middle + suffix)[t] == normal(
            path_join(paths.base_dir, front + middle + back),
        ),
{
    let specifier = prefix + middle + suffix;
    package_laws::lemma_star_captures(prefix, suffix, middle);
    lemma_no_exact_key(paths.patterns, specifier);
    tsconfig_paths::lemma_best_wildcard(paths.patterns, specifier);
    let b = tsconfig_paths::best_wildcard(paths.patterns, specifier)->0;
    assert(captured(paths.patterns[i].0, specifier) is Some);
    if b != i {
        assert(captured(paths.patterns[b].0, specifier) is Some);
        assert(prefix_len(paths.patterns[b].0) < prefix.len());
    }
    lemma_filled(front, back, middle);
}

/// A base directory for bare specifiers is tried after all aliases, and only where there is one.
pub proof fn lemma_base_url(paths: TsconfigPathsView, specifier: Text, base: Text)
    ensures
        paths.base_url == Some(base) ==> candidates_of(paths, specifier).len() > 0 && candidates_of(
            paths,
            specifier,
        ).last() == normal(path_join(base, specifier)),
        paths.base_url is None && (forall|j: int|
            0 <= j < paths.patterns.len() ==> (#[trigger] paths.patterns[j]).0 != specifier
                && captured(paths.patterns[j].0, specifier) is None) ==> candidates_of(
            paths,
            specifier,
        ).len() == 0,
{
    if forall|j: int|
        0 <= j < paths.patterns.len() ==> (#[trigger] paths.patterns[j]).0 != specifier && captured(
            paths.patterns[j].0,
            specifier,
        ) is None {
        assert forall|j: int| 0 <= j < paths.patterns.len() implies (
        #[trigger] paths.patterns[j]).0 != specifier by {}
        lemma_no_exact_key(paths.patterns, specifier);
        tsconfig_paths::lemma_best_wildcard(paths.patterns, specifier);
        if let Some(b) = tsconfig_paths::best_wildcard(paths.patterns, specifier) {
            assert(captured(paths.patterns[b].0, specifier) is None);
        }
    }
}

} // verus!
