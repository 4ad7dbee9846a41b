//! What holds of the projects of every workspace.

use crate::collections::lemma_push_contains;
use crate::error::ErrorView;
use crate::files::FileTree;
use crate::glob_match::{glob_matches, is_glob};
use crate::json::{json_document, texts_in, Json};
use crate::json_text::repeats;
use crate::paths::{path_join, path_name, path_parent, path_within, tidy};
use crate::text::{drop_suffixes, has_prefix, has_suffix, Text};
use crate::types::ProjectView;
use crate::workspace::discovery::{
    added, discovered, exclusions, has_name, has_root, is_added, keys_of, with_nx, with_nx_part,
};
use crate::workspace::turbo::{dependencies_in, turbo_file};
use crate::workspace::workspaces::{
    has_workspaces, is_member_manifest, list_under, manifest_globs, package_in, package_json,
    pnpm_packages_of, project_of_manifest, projects_among, scalar_text, scalar_texts,
    workspace_patterns, workspace_projects, ProjectsView,
};
use crate::yaml::Yaml;
use vstd::prelude::*;

verus! {

// ---------------------------------------------------------------------------
// Lists in documents
// ---------------------------------------------------------------------------

/// The texts among some values are taken in order, and nothing else is.
pub proof fn lemma_texts_in(items: Seq<Json>)
    ensures
        texts_in(items) == items.filter(|v: Json| v is Text).map_values(|v: Json| v->Text_0@),
    decreases items.len(),
{
    reveal(Seq::filter);
    let text = |v: Json| v is Text;
    let read = |v: Json| v->Text_0@;
    if items.len() == 0 {
        assert(texts_in(items) =~= items.filter(text).map_values(read));
    } else {
        let init = items.drop_last();
        let last = items.last();
        lemma_texts_in(init);
        if last is Text {
            assert(items.filter(text) =~= init.filter(text).push(last));
            assert(init.filter(text).push(last).map_values(read) =~= init.filter(text).map_values(
                read,
            ).push(last->Text_0@));
        } else {
            assert(items.filter(text) =~= init.filter(text));
        }
    }
}

/// A list of nothing but texts is read as these texts; a list with anything else is refused.
pub proof fn lemma_text_list(items: Vec<Json>)
    ensures
        (forall|i: int| 0 <= i < items@.len() ==> (#[trigger] items@[i]) is Text) ==> (Json::Array(
            items,
        ).text_list() matches Some(list) && list.len() == items@.len() && forall|i: int|
            0 <= i < list.len() ==> #[trigger] list[i] == items@[i]->Text_0@),
        (exists|i: int| 0 <= i < items@.len() && !((#[trigger] items@[i]) is Text)) ==> Json::Array(
            items,
        ).text_list() is None,
{
    lemma_all_texts(items@);
}

proof fn lemma_all_texts(items: Seq<Json>)
    ensures
        texts_in(items).len() <= items.len(),
        (forall|i: int| 0 <= i < items.len() ==> (#[trigger] items[i]) is Text) ==> texts_in(
            items,
        ).len() == items.len() && forall|i: int|
            0 <= i < items.len() ==> #[trigger] texts_in(items)[i] == items[i]->Text_0@,
        (exists|i: int| 0 <= i < items.len() && !((#[trigger] items[i]) is Text)) ==> texts_in(
            items,
        ).len() < items.len(),
    decreases items.len(),
{
    if items.len() > 0 {
        let init = items.drop_last();
        let n = items.len() - 1;
        lemma_all_texts(init);
        assert forall|i: int| 0 <= i < n implies init[i] == #[trigger] items[i] by {}
        assert(items[n] == items.last());
        if forall|i: int| 0 <= i < items.len() ==> (#[trigger] items[i]) is Text {
            assert forall|i: int| 0 <= i < init.len() implies (#[trigger] init[i]) is Text by {
                assert(items[i] is Text);
            }
            assert(items[n] is Text);
            assert forall|i: int| 0 <= i < items.len() implies #[trigger] texts_in(items)[i]
                == items[i]->Text_0@ by {
                if i < n {
                    assert(texts_in(items)[i] == texts_in(init)[i]);
                    assert(init[i] == items[i]);
                }
            }
        }
        if exists|i: int| 0 <= i < items.len() && !((#[trigger] items[i]) is Text) {
            let i = choose|i: int| 0 <= i < items.len() && !((#[trigger] items[i]) is Text);
            if i < n {
                assert(!(init[i] is Text));
            }
        }
    }
}

// ---------------------------------------------------------------------------
// Manifests
// ---------------------------------------------------------------------------

/// A manifest gives its name as a text, and its workspaces as a list of patterns or as one under
/// `packages`; either may be left out.
pub proof fn lemma_manifest(manifest: Json, members: Vec<(String, Json)>, inner: Json, list: Seq<Text>)
    requires
        manifest == Json::Object(members),
    ensures
        manifest.member("name"@) is None && manifest.member("workspaces"@) is None ==> (package_in(
            manifest,
        ) matches Some(p) && p.name is None && p.workspaces is None),
        manifest.member("workspaces"@) is None ==> (manifest.member("name"@) matches Some(
            Json::Text(s),
        ) ==> (package_in(manifest) matches Some(p) && p.name == Some(s@) && p.workspaces is None)),
        manifest.member("name"@) is None && manifest.member("workspaces"@) == Some(inner)
            && inner is Array && inner.text_list() == Some(list) ==> (package_in(
            manifest,
        ) matches Some(p) && p.workspaces == Some(list)),
        manifest.member("name"@) is None ==> (manifest.member("workspaces"@) matches Some(
            Json::Object(w),
        ) ==> (Json::Object(w).member("packages"@) == Some(inner) && inner.text_list() == Some(list)
            ==> (package_in(manifest) matches Some(p) && p.workspaces == Some(list)))),
        manifest.member("name"@) matches Some(Json::Number(_)) ==> package_in(manifest) is None,
{
}

/// A field that is given twice makes a manifest unreadable, and so does a text that is no document.
pub proof fn lemma_unreadable_manifest(content: Text)
    ensures
        repeats(content, "name"@) || repeats(content, "workspaces"@) || json_document(content) is Err
            ==> package_json(content) is Err,
        !repeats(content, "name"@) && !repeats(content, "workspaces"@) ==> (json_document(
            content,
        ) matches Ok(v) ==> (package_in(v) matches Some(p) ==> package_json(content) == Ok::<
            crate::workspace::workspaces::PackageJsonView,
            ErrorView,
        >(p))),
{
}

/// The project of a manifest has the name that the manifest gives, and the directory of the manifest,
/// as seen from the workspace root, as its root and its source root.
pub proof fn lemma_project_of_manifest(
    tree: FileTree,
    file: Text,
    cwd: Text,
    content: Text,
    name: Text,
    dir: Text,
    root: Text,
)
    requires
        tree.content(file) == Some(content),
        package_json(content) matches Ok(p) && p.name == Some(name),
        path_parent(file) == Some(dir),
        path_within(dir, cwd) == Some(root),
    ensures
        project_of_manifest(tree, file, cwd) matches Ok(p) && p.name == name && p.root == root
            && p.source_root == root && p.ts_config is None && p.implicit_dependencies.len() == 0
            && p.targets.len() == 0,
{
}

/// A manifest that cannot be read or gives no name is that of no project.
pub proof fn lemma_nameless_manifest(tree: FileTree, file: Text, cwd: Text)
    requires
        tree.content(file) matches Some(content) ==> (package_json(content) matches Ok(p)
            ==> p.name is None),
    ensures
        project_of_manifest(tree, file, cwd) is Err,
{
}

// ---------------------------------------------------------------------------
// Members
// ---------------------------------------------------------------------------

/// Each pattern that is no negation stands for the manifests in the directories that it matches.
pub proof fn lemma_manifest_globs(patterns: Seq<Text>, glob: Text)
    ensures
        manifest_globs(patterns).contains(glob) <==> is_glob(glob) && exists|i: int|
            0 <= i < patterns.len() && glob == (#[trigger] patterns[i]) + "/package.json"@ && !(
            patterns[i].len() > 0 && patterns[i][0] == '!'),
    decreases patterns.len(),
{
    if patterns.len() > 0 {
        let init = patterns.drop_last();
        let n = patterns.len() - 1;
        let last = patterns.last();
        lemma_manifest_globs(init, glob);
        lemma_negation(last);
        assert(patterns[n] == last);
        lemma_push_contains(manifest_globs(init), last + "/package.json"@, glob);
        if exists|i: int|
            0 <= i < init.len() && glob == (#[trigger] init[i]) + "/package.json"@ && !(
            init[i].len() > 0 && init[i][0] == '!') {
            let i = choose|i: int|
                0 <= i < init.len() && glob == (#[trigger] init[i]) + "/package.json"@ && !(
                init[i].len() > 0 && init[i][0] == '!');
            assert(patterns[i] == init[i]);
        }
        if exists|i: int|
            0 <= i < patterns.len() && glob == (#[trigger] patterns[i]) + "/package.json"@ && !(
            patterns[i].len() > 0 && patterns[i][0] == '!') {
            let i = choose|i: int|
                0 <= i < patterns.len() && glob == (#[trigger] patterns[i]) + "/package.json"@ && !(
                patterns[i].len() > 0 && patterns[i][0] == '!');
            if i < n {
                assert(init[i] == patterns[i]);
            }
        }
    }
}

proof fn lemma_negation(s: Text)
    ensures
        has_prefix(s, "!"@) <==> s.len() > 0 && s[0] == '!',
{
    reveal_strlit("!");
    if s.len() > 0 {
        let one = s.subrange(0, 1);
        assert(one[0] == s[0]);
        if s[0] == '!' {
            assert(one =~= "!"@);
        }
    }
}

/// The projects are those of the manifests, among the files that a walk comes by, that a glob matches
/// as seen from the workspace root; each of them and no other.
pub proof fn lemma_projects_among(
    tree: FileTree,
    files: Seq<Text>,
    globs: Seq<Text>,
    cwd: Text,
    p: ProjectView,
)
    ensures
        projects_among(tree, files, globs, cwd).contains(p) <==> exists|i: int|
            0 <= i < files.len() && project_of_manifest(tree, #[trigger] files[i], cwd) == Ok::<
                ProjectView,
                ErrorView,
            >(p) && is_matched_manifest(files[i], globs, cwd),
    decreases files.len(),
{
    if files.len() > 0 {
        let init = files.drop_last();
        let n = files.len() - 1;
        let last = files.last();
        lemma_projects_among(tree, init, globs, cwd, p);
        assert(files[n] == last);
        lemma_matched_manifest(last, globs, cwd);
        let before = projects_among(tree, init, globs, cwd);
        if let Ok(q) = project_of_manifest(tree, last, cwd) {
            lemma_push_contains(before, q, p);
        }
        if before.contains(p) {
            let i = choose|i: int|
                0 <= i < init.len() && project_of_manifest(tree, #[trigger] init[i], cwd) == Ok::<
                    ProjectView,
                    ErrorView,
                >(p) && is_matched_manifest(init[i], globs, cwd);
            assert(files[i] == init[i]);
        }
        if exists|i: int|
            0 <= i < files.len() && project_of_manifest(tree, #[trigger] files[i], cwd) == Ok::<
                ProjectView,
                ErrorView,
            >(p) && is_matched_manifest(files[i], globs, cwd) {
            let i = choose|i: int|
                0 <= i < files.len() && project_of_manifest(tree, #[trigger] files[i], cwd) == Ok::<
                    ProjectView,
                    ErrorView,
                >(p) && is_matched_manifest(files[i], globs, cwd);
            if i < n {
                assert(init[i] == files[i]);
            }
        }
    }
}

/// The file is a `package.json` below the workspace root, and a glob matches its path from there,
/// segment by segment.
pub open spec fn is_matched_manifest(file: Text, globs: Seq<Text>, cwd: Text) -> bool {
    path_name(file) == Some("package.json"@) && (path_within(file, cwd) matches Some(inner)
        && exists|k: int| 0 <= k < globs.len() && glob_matches(#[trigger] globs[k], inner, true))
}

proof fn lemma_matched_manifest(file: Text, globs: Seq<Text>, cwd: Text)
    ensures
        is_member_manifest(file, globs, cwd) <==> is_matched_manifest(file, globs, cwd),
{
    if let Some(inner) = path_within(file, cwd) {
        if exists|k: int| 0 <= k < globs.len() && glob_matches(#[trigger] globs[k], inner, true) {
            let k = choose|k: int|
                0 <= k < globs.len() && glob_matches(#[trigger] globs[k], inner, true);
            assert(glob_matches(globs[k], inner, true));
        }
    }
}

/// The patterns of the workspace are those of pnpm where it is configured, and else those of the
/// root manifest; without either there are none.
pub proof fn lemma_pattern_sources(tree: FileTree, cwd: Text)
    ensures
        tree.present(path_join(cwd, "pnpm-workspace.yaml"@)) ==> (tree.content(
            path_join(cwd, "pnpm-workspace.yaml"@),
        ) matches Some(content) ==> workspace_patterns(tree, cwd)
            == crate::workspace::workspaces::pnpm_packages(content)),
        !tree.present(path_join(cwd, "pnpm-workspace.yaml"@)) && !tree.present(
            path_join(cwd, "package.json"@),
        ) ==> workspace_patterns(tree, cwd) == Ok::<Seq<Text>, ErrorView>(Seq::empty()),
        !tree.present(path_join(cwd, "pnpm-workspace.yaml"@)) && tree.present(
            path_join(cwd, "package.json"@),
        ) ==> (tree.content(path_join(cwd, "package.json"@)) matches Some(content) ==> (package_json(
            content,
        ) matches Ok(p) ==> (p.workspaces matches Some(list) ==> workspace_patterns(tree, cwd)
            == Ok::<Seq<Text>, ErrorView>(list)))),
{
}

/// The packages of a pnpm workspace are what stands under `packages`; without it the configuration
/// is refused.
pub proof fn lemma_pnpm_packages(lists: Seq<(Text, Seq<Text>)>, document: Yaml, i: int)
    ensures
        0 <= i < lists.len() && lists[i].0 == "packages"@ && (forall|j: int|
            0 <= j < i ==> (#[trigger] lists[j]).0 != "packages"@) ==> pnpm_packages_of(
            Ok(lists),
            document,
        ) == Ok::<Seq<Text>, ErrorView>(lists[i].1),
        (forall|j: int| 0 <= j < lists.len() ==> (#[trigger] lists[j]).0 != "packages"@)
            ==> pnpm_packages_of(Ok(lists), document) is Err,
    decreases lists.len(),
{
    lemma_list_under(lists, "packages"@, i);
}

proof fn lemma_list_under(lists: Seq<(Text, Seq<Text>)>, key: Text, i: int)
    ensures
        0 <= i < lists.len() && lists[i].0 == key && (forall|j: int|
            0 <= j < i ==> (#[trigger] lists[j]).0 != key) ==> list_under(lists, key) == Some(
            lists[i].1,
        ),
        (forall|j: int| 0 <= j < lists.len() ==> (#[trigger] lists[j]).0 != key) ==> list_under(
            lists,
            key,
        ) is None,
    decreases lists.len(),
{
    if lists.len() > 0 {
        let rest = lists.drop_first();
        lemma_list_under(rest, key, i - 1);
        assert forall|j: int| 0 <= j < rest.len() implies rest[j] == #[trigger] lists[j + 1] by {}
        if 0 < i < lists.len() && lists[i].0 == key && (forall|j: int|
            0 <= j < i ==> (#[trigger] lists[j]).0 != key) {
            assert(rest[i - 1] == lists[i]);
            assert(lists[0].0 != key);
            assert forall|j: int| 0 <= j < i - 1 implies (#[trigger] rest[j]).0 != key by {
                assert(lists[j + 1].0 != key);
            }
        }
        if forall|j: int| 0 <= j < lists.len() ==> (#[trigger] lists[j]).0 != key {
            assert(lists[0].0 != key);
            assert forall|j: int| 0 <= j < rest.len() implies (#[trigger] rest[j]).0 != key by {
                assert(lists[j + 1].0 != key);
            }
        }
    }
}

// ---------------------------------------------------------------------------
// Which tool gives the projects
// ---------------------------------------------------------------------------

/// Nx comes before all others; then the workspaces of the package managers, which Turborepo uses too;
/// then Rush; and where none of them is there, there are no projects.
pub proof fn lemma_discovery_order(
    tree: FileTree,
    walked: Seq<Text>,
    cwd: Text,
    nx: ProjectsView,
    rush: ProjectsView,
)
    ensures
        tree.present(path_join(cwd, "nx.json"@)) && nx is Err ==> discovered(
            tree,
            walked,
            cwd,
            nx,
            rush,
        ) == nx,
        tree.present(path_join(cwd, "nx.json"@)) && nx is Ok ==> discovered(
            tree,
            walked,
            cwd,
            nx,
            rush,
        ) is Ok,
        !tree.present(path_join(cwd, "nx.json"@)) && (tree.has_file(path_join(cwd, "turbo.json"@))
            || tree.has_file(path_join(cwd, "turbo.jsonc"@)) || tree.present(
            path_join(cwd, "pnpm-workspace.yaml"@),
        )) ==> discovered(tree, walked, cwd, nx, rush) == workspace_projects(tree, walked, cwd),
        !tree.present(path_join(cwd, "nx.json"@)) && !tree.has_file(path_join(cwd, "turbo.json"@))
            && !tree.has_file(path_join(cwd, "turbo.jsonc"@)) && !has_workspaces(tree, cwd)
            && tree.present(path_join(cwd, "rush.json"@)) ==> discovered(
            tree,
            walked,
            cwd,
            nx,
            rush,
        ) == rush,
        !tree.present(path_join(cwd, "nx.json"@)) && !tree.has_file(path_join(cwd, "turbo.json"@))
            && !tree.has_file(path_join(cwd, "turbo.jsonc"@)) && !has_workspaces(tree, cwd)
            && !tree.present(path_join(cwd, "rush.json"@)) ==> discovered(
            tree,
            walked,
            cwd,
            nx,
            rush,
        ) == Ok::<Seq<ProjectView>, ErrorView>(Seq::empty()),
{
}

/// A workspace of a package manager is there where pnpm is configured, or where the root manifest
/// lists workspaces.
pub proof fn lemma_has_workspaces(tree: FileTree, cwd: Text)
    ensures
        tree.present(path_join(cwd, "pnpm-workspace.yaml"@)) ==> has_workspaces(tree, cwd),
        (tree.content(path_join(cwd, "package.json"@)) matches Some(content) && (package_json(
            content,
        ) matches Ok(p) && p.workspaces is Some)) ==> has_workspaces(tree, cwd),
        !tree.present(path_join(cwd, "pnpm-workspace.yaml"@)) && tree.content(
            path_join(cwd, "package.json"@),
        ) is None ==> !has_workspaces(tree, cwd),
{
}

/// A member of the workspace joins the projects that Nx knows exactly where none of these has its root
/// or its name, and no exclusion matches its root; it comes with what its manifest says to Nx.
pub proof fn lemma_members_join(
    members: Seq<ProjectView>,
    known: Seq<ProjectView>,
    excluded: Seq<Text>,
    tree: FileTree,
    cwd: Text,
    p: ProjectView,
)
    ensures
        added(members, known, excluded, tree, cwd).contains(p) <==> exists|i: int|
            0 <= i < members.len() && is_newcomer(#[trigger] members[i], known, excluded) && p
                == with_nx(members[i], tree, cwd),
    decreases members.len(),
{
    if members.len() > 0 {
        let init = members.drop_last();
        let n = members.len() - 1;
        let last = members.last();
        lemma_members_join(init, known, excluded, tree, cwd, p);
        lemma_newcomer(last, known, excluded);
        assert(members[n] == last);
        let before = added(init, known, excluded, tree, cwd);
        lemma_push_contains(before, with_nx(last, tree, cwd), p);
        if before.contains(p) {
            let i = choose|i: int|
                0 <= i < init.len() && is_newcomer(#[trigger] init[i], known, excluded) && p
                    == with_nx(init[i], tree, cwd);
            assert(members[i] == init[i]);
        }
        if exists|i: int|
            0 <= i < members.len() && is_newcomer(#[trigger] members[i], known, excluded) && p
                == with_nx(members[i], tree, cwd) {
            let i = choose|i: int|
                0 <= i < members.len() && is_newcomer(#[trigger] members[i], known, excluded) && p
                    == with_nx(members[i], tree, cwd);
            if i < n {
                assert(init[i] == members[i]);
            }
        }
    }
}

/// Neither the root nor the name of the project is known, and no exclusion matches its root.
pub open spec fn is_newcomer(p: ProjectView, known: Seq<ProjectView>, excluded: Seq<Text>) -> bool {
    &&& forall|i: int|
        0 <= i < known.len() ==> tidy((#[trigger] known[i]).root) != tidy(p.root) && known[i].name
            != p.name
    &&& forall|k: int|
        0 <= k < excluded.len() ==> !glob_matches(#[trigger] excluded[k], p.root, true)
}

proof fn lemma_newcomer(p: ProjectView, known: Seq<ProjectView>, excluded: Seq<Text>)
    ensures
        is_added(p, known, excluded) <==> is_newcomer(p, known, excluded),
{
    if is_newcomer(p, known, excluded) {
        if has_root(known, p.root) {
            let i = choose|i: int|
                0 <= i < known.len() && tidy((#[trigger] known[i]).root) == tidy(p.root);
            assert(tidy(known[i].root) != tidy(p.root));
        }
        if has_name(known, p.name) {
            let i = choose|i: int| 0 <= i < known.len() && (#[trigger] known[i]).name == p.name;
            assert(known[i].name != p.name);
        }
    }
    if is_added(p, known, excluded) {
        assert forall|i: int| 0 <= i < known.len() implies tidy((#[trigger] known[i]).root) != tidy(
            p.root,
        ) && known[i].name != p.name by {}
    }
}

/// An exclusion `!p` excludes what `p` matches, and where `p` ends in `/**` the directory itself too.
pub proof fn lemma_exclusions(patterns: Seq<Text>, e: Text)
    ensures
        exclusions(patterns).contains(e) <==> is_glob(e) && exists|i: int|
            0 <= i < patterns.len() && is_excluded_by(#[trigger] patterns[i], e),
    decreases patterns.len(),
{
    if patterns.len() > 0 {
        let init = patterns.drop_last();
        let n = patterns.len() - 1;
        let last = patterns.last();
        lemma_exclusions(init, e);
        lemma_negation(last);
        assert(patterns[n] == last);
        let before = exclusions(init);
        let pattern = last.skip(1);
        let dir = drop_suffixes(pattern, "/**"@);
        let x: Seq<Text> = if is_glob(dir) {
            seq![dir]
        } else {
            Seq::empty()
        };
        let y: Seq<Text> = if is_glob(pattern) {
            seq![pattern]
        } else {
            Seq::empty()
        };
        if has_prefix(last, "!"@) {
            let all = exclusions(patterns);
            assert(all =~= before + x + y);
            if is_glob(dir) {
                assert(all[before.len() as int] == dir);
            }
            if is_glob(pattern) {
                assert(all[before.len() as int + x.len() as int] == pattern);
            }
            if before.contains(e) {
                let k = choose|k: int| 0 <= k < before.len() && before[k] == e;
                assert(all[k] == e);
            }
            if all.contains(e) {
                let k = choose|k: int| 0 <= k < all.len() && all[k] == e;
                if k < before.len() {
                    assert(before[k] == e);
                } else if k < before.len() + x.len() {
                    assert(e == x[k - before.len()]);
                } else {
                    assert(e == y[k - before.len() - x.len()]);
                }
            }
        }
        if exists|i: int| 0 <= i < init.len() && is_excluded_by(#[trigger] init[i], e) {
            let i = choose|i: int| 0 <= i < init.len() && is_excluded_by(#[trigger] init[i], e);
            assert(patterns[i] == init[i]);
        }
        if exists|i: int| 0 <= i < patterns.len() && is_excluded_by(#[trigger] patterns[i], e) {
            let i = choose|i: int|
                0 <= i < patterns.len() && is_excluded_by(#[trigger] patterns[i], e);
            if i < n {
                assert(init[i] == patterns[i]);
            }
        }
    }
}

/// The pattern is a negation, and `e` is what it negates, with or without its last `/**`.
pub open spec fn is_excluded_by(pattern: Text, e: Text) -> bool {
    pattern.len() > 0 && pattern[0] == '!' && (e == pattern.skip(1) || e == drop_suffixes(
        pattern.skip(1),
        "/**"@,
    ))
}

/// The directory of a pattern that ends in `/**` is what stands before that.
pub proof fn lemma_excluded_dir(dir: Text)
    requires
        !has_suffix(dir, "/**"@),
    ensures
        drop_suffixes(dir + "/**"@, "/**"@) == dir,
        drop_suffixes(dir, "/**"@) == dir,
{
    reveal_strlit("/**");
    reveal_with_fuel(drop_suffixes, 2);
    let s = dir + "/**"@;
    assert(s.subrange(s.len() - 3, s.len() as int) =~= "/**"@);
    assert(s.take(s.len() - 3) =~= dir);
}

/// What a manifest says to Nx replaces the source root, and fills in what is not known otherwise: the
/// configuration of the build, the implicit dependencies and the targets.
pub proof fn lemma_nx_part(p: ProjectView, nx: Json, cwd: Text)
    ensures
        with_nx_part(p, nx, cwd).name == p.name,
        with_nx_part(p, nx, cwd).root == p.root,
        nx.member("sourceRoot"@) matches Some(Json::Text(s)) ==> with_nx_part(p, nx, cwd).source_root
            == s@,
        nx.member("sourceRoot"@) is None ==> with_nx_part(p, nx, cwd).source_root == p.source_root,
        p.ts_config is Some ==> with_nx_part(p, nx, cwd).ts_config == p.ts_config,
        p.implicit_dependencies.len() > 0 ==> with_nx_part(p, nx, cwd).implicit_dependencies
            == p.implicit_dependencies,
        p.implicit_dependencies.len() == 0 ==> (nx.member("implicitDependencies"@) matches Some(
            Json::Array(items),
        ) ==> with_nx_part(p, nx, cwd).implicit_dependencies == texts_in(items@)),
        p.targets.len() > 0 ==> with_nx_part(p, nx, cwd).targets == p.targets,
        p.targets.len() == 0 ==> (nx.member("targets"@) matches Some(Json::Object(members))
            ==> with_nx_part(p, nx, cwd).targets.len() == members@.len() && forall|i: int|
            0 <= i < members@.len() ==> #[trigger] with_nx_part(p, nx, cwd).targets[i]
                == members@[i].0@),
{
}

/// The configuration of the build is the one that the options of the build target give: a text, or
/// the first of a list, as seen from the workspace root.
pub proof fn lemma_nx_build_config(
    p: ProjectView,
    nx: Json,
    cwd: Text,
    targets: Json,
    build: Json,
    options: Json,
    value: Json,
)
    requires
        p.ts_config is None,
        nx.member("targets"@) == Some(targets),
        targets.member("build"@) == Some(build),
        build.member("options"@) == Some(options),
        options.member("tsConfig"@) == Some(value),
    ensures
        value matches Json::Text(s) ==> with_nx_part(p, nx, cwd).ts_config == Some(
            path_join(cwd, s@),
        ),
        value matches Json::Array(items) ==> (items@.len() > 0 ==> (items@[0] matches Json::Text(s)
            ==> with_nx_part(p, nx, cwd).ts_config == Some(path_join(cwd, s@)))),
{
}

/// The global dependencies of Turborepo are the texts of the list that gives them; without one there
/// are none, and anything else is refused.
pub proof fn lemma_turbo_dependencies(config: Json, members: Vec<(String, Json)>, items: Vec<Json>)
    requires
        config == Json::Object(members),
    ensures
        config.member("globalDependencies"@) is None ==> dependencies_in(config) == Some(
            Seq::<Text>::empty(),
        ),
        config.member("globalDependencies"@) == Some(Json::Array(items)) ==> dependencies_in(config)
            == Json::Array(items).text_list(),
        config.member("globalDependencies"@) matches Some(Json::Text(_)) ==> dependencies_in(
            config,
        ) is None,
{
}

/// The file of Turborepo is `turbo.json`, or else `turbo.jsonc`.
pub proof fn lemma_turbo_file(tree: FileTree, cwd: Text)
    ensures
        tree.has_file(path_join(cwd, "turbo.json"@)) ==> turbo_file(tree, cwd) == Some(
            path_join(cwd, "turbo.json"@),
        ),
        !tree.has_file(path_join(cwd, "turbo.json"@)) && tree.has_file(
            path_join(cwd, "turbo.jsonc"@),
        ) ==> turbo_file(tree, cwd) == Some(path_join(cwd, "turbo.jsonc"@)),
        !tree.has_file(path_join(cwd, "turbo.json"@)) && !tree.has_file(
            path_join(cwd, "turbo.jsonc"@),
        ) ==> turbo_file(tree, cwd) is None,
{
}

/// Scalars in a list of packages are taken as they are written, in order; a list with anything else is
/// refused.
pub proof fn lemma_scalar_texts(items: Seq<Yaml>)
    ensures
        scalar_texts(items) matches Some(list) ==> list.len() == items.len() && forall|i: int|
            0 <= i < items.len() ==> scalar_text(#[trigger] items[i]) == Some(list[i]),
        scalar_texts(items) is None ==> exists|i: int|
            0 <= i < items.len() && scalar_text(#[trigger] items[i]) is None,
    decreases items.len(),
{
    if items.len() > 0 {
        let init = items.drop_last();
        let n = items.len() - 1;
        lemma_scalar_texts(init);
        assert(items[n] == items.last());
        if let Some(list) = scalar_texts(items) {
            assert forall|i: int| 0 <= i < items.len() implies scalar_text(#[trigger] items[i])
                == Some(list[i]) by {
                if i < n {
                    assert(init[i] == items[i]);
                    assert(list[i] == scalar_texts(init)->0[i]);
                }
            }
        }
        if scalar_texts(init) is None {
            let i = choose|i: int| 0 <= i < init.len() && scalar_text(#[trigger] init[i]) is None;
            assert(items[i] == init[i]);
        }
    }
}

/// A manifest can be written as a list of its two fields, the name and the patterns. Any other list, and
/// a field of another shape, is no manifest.
pub proof fn lemma_manifest_list(
    items: Vec<Json>,
    members: Vec<(String, Json)>,
    name: String,
    patterns: Json,
    list: Seq<Text>,
    n: Option<u64>,
)
    ensures
        items@.len() == 2 && items@[0] == Json::Text(name) && items@[1] == patterns
            && patterns is Array && patterns.text_list() == Some(list) ==> (package_in(
            Json::Array(items),
        ) matches Some(p) && p.name == Some(name@) && p.workspaces == Some(list)),
        items@.len() != 2 ==> package_in(Json::Array(items)) is None,
        package_in(Json::Null) is None,
        Json::Object(members).member("name"@) == Some(Json::Number(n)) ==> package_in(
            Json::Object(members),
        ) is None,
        Json::Object(members).member("workspaces"@) == Some(Json::Number(n)) ==> package_in(
            Json::Object(members),
        ) is None,
{
}

/// A manifest that is no document, repeats a field or has another shape is told so.
pub proof fn lemma_manifest_messages(content: Text, e: Text)
    ensures
        json_document(content) == Err::<Json, Text>(e) ==> package_json(content) == Err::<
            crate::workspace::workspaces::PackageJsonView,
            ErrorView,
        >(ErrorView::Parse("Failed to parse package.json: "@ + e)),
        json_document(content) is Ok && repeats(content, "name"@) ==> package_json(content) == Err::<
            crate::workspace::workspaces::PackageJsonView,
            ErrorView,
        >(ErrorView::Parse("Failed to parse package.json: "@ + "duplicate field `name`"@)),
        json_document(content) is Ok && !repeats(content, "name"@) && repeats(
            content,
            "workspaces"@,
        ) ==> package_json(content) == Err::<
            crate::workspace::workspaces::PackageJsonView,
            ErrorView,
        >(ErrorView::Parse("Failed to parse package.json: "@ + "duplicate field `workspaces`"@)),
{
}

/// Where an entry of `pnpm-workspace.yaml` other than the packages is no list, the packages are the
/// items of their entry, and none where nothing follows the key; else there is an error.
pub proof fn lemma_pnpm_packages_in(document: Yaml, v: Yaml, items: Seq<Yaml>, e: Text)
    requires
        document.entries() matches Some(entries) ==> entries.len() != 1,
    ensures
        document.entry("packages"@) == Some(v) && v.items() == Some(items) ==> (
        crate::workspace::workspaces::scalar_texts(items) matches Some(list) ==> pnpm_packages_of(
            Err(e),
            document,
        ) == Ok::<Seq<Text>, ErrorView>(list)),
        document.entry("packages"@) == Some(v) && v is Scalar && v.items() is None && v.written()
            == "null"@ ==> pnpm_packages_of(Err(e), document) == Ok::<Seq<Text>, ErrorView>(
            Seq::empty(),
        ),
        document.entry("packages"@) == Some(v) && v.items() is None && v.written() != "null"@
            ==> pnpm_packages_of(Err(e), document) is Err,
        document.entry("packages"@) is None ==> pnpm_packages_of(Err(e), document) is Err,
{
}

/// A manifest that cannot be read, or that gives no patterns, declares no workspaces.
pub proof fn lemma_no_workspaces(tree: FileTree, cwd: Text, content: Text)
    requires
        !tree.present(path_join(cwd, "pnpm-workspace.yaml"@)),
        tree.content(path_join(cwd, "package.json"@)) == Some(content),
    ensures
        package_json(content) is Err ==> !has_workspaces(tree, cwd),
        package_json(content) matches Ok(p) ==> (has_workspaces(tree, cwd) <==> p.workspaces is Some),
{
}

} // verus!
