//! Which files of the workspace a package specifier stands for, by the `exports` of the package.

use crate::collections::StringSet;
use crate::files::FileTree;
use crate::json;
use crate::json::{json_document, member_of, Json};
use crate::paths;
use crate::paths::{normal, path_join, tidy};
use crate::semantic::tsconfig_paths;
use crate::semantic::tsconfig_paths::{captured, prefix_len};
use crate::text;
use crate::text::{bytes_in, has_prefix, replaced, Text};
use crate::types::{Project, ProjectView};
use vstd::prelude::*;

verus! {

/// A package of the workspace.
pub struct WorkspacePackage {
    pub name: String,
    pub root: String,
    pub manifest: Json,
}

/// The view of a [`WorkspacePackage`].
pub struct PackageView {
    pub name: Text,
    pub root: Text,
    pub manifest: Json,
}

impl DeepView for WorkspacePackage {
    type V = PackageView;

    open spec fn deep_view(&self) -> PackageView {
        PackageView { name: self.name@, root: self.root@, manifest: self.manifest }
    }
}

/// The packages of a workspace, those with longer names first.
pub struct PackageIndex {
    packages: Vec<WorkspacePackage>,
}

// ---------------------------------------------------------------------------
// The packages
// ---------------------------------------------------------------------------

/// The package at a root, where its manifest can be read and has a name.
pub open spec fn package_at(tree: FileTree, cwd: Text, root: Text) -> Option<PackageView> {
    match tree.content(path_join(path_join(cwd, root), "package.json"@)) {
        Some(content) => match json_document(content) {
            Ok(manifest) => match manifest.text_member("name"@) {
                Some(name) => Some(PackageView { name, root, manifest }),
                None => None,
            },
            Err(_) => None,
        },
        None => None,
    }
}

/// The list with a package put behind all whose names are as long or longer.
pub open spec fn put_in(list: Seq<PackageView>, p: PackageView) -> Seq<PackageView>
    decreases list.len(),
{
    if list.len() > 0 && bytes_in(list.last().name) < bytes_in(p.name) {
        put_in(list.drop_last(), p).push(list.last())
    } else {
        list.push(p)
    }
}

/// The roots of projects in tidy form, each once, in order.
pub open spec fn distinct_roots(projects: Seq<ProjectView>) -> Seq<Text>
    decreases projects.len(),
{
    if projects.len() == 0 {
        Seq::empty()
    } else {
        let before = distinct_roots(projects.drop_last());
        if before.contains(tidy(projects.last().root)) {
            before
        } else {
            before.push(tidy(projects.last().root))
        }
    }
}

/// The packages at some roots, those with longer names first.
pub open spec fn packages_at(tree: FileTree, cwd: Text, roots: Seq<Text>) -> Seq<PackageView>
    decreases roots.len(),
{
    if roots.len() == 0 {
        Seq::empty()
    } else {
        let before = packages_at(tree, cwd, roots.drop_last());
        match package_at(tree, cwd, roots.last()) {
            Some(p) => put_in(before, p),
            None => before,
        }
    }
}

/// No package comes before one with a longer name.
pub open spec fn longest_first(list: Seq<PackageView>) -> bool {
    forall|i: int, j: int|
        0 <= i < j < list.len() ==> bytes_in((#[trigger] list[i]).name) >= bytes_in(
            (#[trigger] list[j]).name,
        )
}

proof fn lemma_put_in(list: Seq<PackageView>, p: PackageView)
    requires
        longest_first(list),
    ensures
        longest_first(put_in(list, p)),
        put_in(list, p).len() == list.len() + 1,
        forall|i: int|
            0 <= i < put_in(list, p).len() ==> (#[trigger] put_in(list, p)[i]) == p
                || list.contains(put_in(list, p)[i]),
    decreases list.len(),
{
    let r = put_in(list, p);
    if list.len() > 0 && bytes_in(list.last().name) < bytes_in(p.name) {
        let init = list.drop_last();
        assert forall|i: int, j: int| 0 <= i < j < init.len() implies bytes_in(
            (#[trigger] init[i]).name,
        ) >= bytes_in((#[trigger] init[j]).name) by {
            assert(init[i] == list[i] && init[j] == list[j]);
        }
        lemma_put_in(init, p);
        let front = put_in(init, p);
        assert forall|i: int| 0 <= i < r.len() implies (#[trigger] r[i]) == p || list.contains(
            r[i],
        ) by {
            if i < front.len() {
                assert(r[i] == front[i]);
                if front[i] != p {
                    let k = choose|k: int| 0 <= k < init.len() && init[k] == front[i];
                    assert(list[k] == front[i]);
                }
            } else {
                assert(list[list.len() - 1] == r[i]);
            }
        }
        assert forall|i: int, j: int| 0 <= i < j < r.len() implies bytes_in(
            (#[trigger] r[i]).name,
        ) >= bytes_in((#[trigger] r[j]).name) by {
            if j < front.len() {
                assert(r[i] == front[i] && r[j] == front[j]);
            } else {
                assert(r[i] == front[i]);
                if front[i] != p {
                    let k = choose|k: int| 0 <= k < init.len() && init[k] == front[i];
                    assert(list[k] == front[i]);
                    assert(list[list.len() - 1] == r[j]);
                }
            }
        }
    } else {
        assert forall|i: int| 0 <= i < r.len() implies (#[trigger] r[i]) == p || list.contains(
            r[i],
        ) by {
            if i < list.len() {
                assert(list[i] == r[i]);
            }
        }
        assert forall|i: int, j: int| 0 <= i < j < r.len() implies bytes_in(
            (#[trigger] r[i]).name,
        ) >= bytes_in((#[trigger] r[j]).name) by {
            assert(r[i] == list[i]);
            if j < list.len() {
                assert(r[j] == list[j]);
            } else {
                assert(list[list.len() - 1] == list.last());
            }
        }
    }
}

/// The packages of a workspace stand in the order in which they are tried: a longer name before a
/// shorter one.
pub proof fn lemma_packages_longest_first(tree: FileTree, cwd: Text, roots: Seq<Text>)
    ensures
        longest_first(packages_at(tree, cwd, roots)),
    decreases roots.len(),
{
    if roots.len() > 0 {
        lemma_packages_longest_first(tree, cwd, roots.drop_last());
        if let Some(p) = package_at(tree, cwd, roots.last()) {
            lemma_put_in(packages_at(tree, cwd, roots.drop_last()), p);
        }
    }
}

// ---------------------------------------------------------------------------
// Exports
// ---------------------------------------------------------------------------

/// The subpath of a package that a specifier names, written as in `exports`. `None` where it
/// names another package.
pub open spec fn subpath_of(specifier: Text, name: Text) -> Option<Text> {
    if !has_prefix(specifier, name) {
        None
    } else {
        let rest = specifier.skip(name.len() as int);
        if rest.len() == 0 {
            Some("."@)
        } else if has_prefix(rest, "/"@) {
            Some("./"@ + rest.skip(1))
        } else {
            None
        }
    }
}

/// A text with every `*` replaced, where there is something to put there.
pub open spec fn with_stars(s: Text, wildcard: Option<Text>) -> Text {
    match wildcard {
        Some(w) => replaced(s, "*"@, w),
        None => s,
    }
}

/// The texts in a value, at any depth, in order.
pub open spec fn strings_in(target: Json, wildcard: Option<Text>) -> Seq<Text>
    decreases target,
{
    match target {
        Json::Text(s) => seq![with_stars(s@, wildcard)],
        Json::Array(items) => strings_in_items(items@, wildcard),
        Json::Object(members) => strings_in_members(members@, wildcard),
        _ => Seq::empty(),
    }
}

/// The texts in some values, at any depth, in order.
pub open spec fn strings_in_items(items: Seq<Json>, wildcard: Option<Text>) -> Seq<Text>
    decreases items,
{
    if items.len() == 0 {
        Seq::empty()
    } else {
        strings_in_items(items.subrange(0, items.len() - 1), wildcard) + strings_in(
            items[items.len() - 1],
            wildcard,
        )
    }
}

/// The texts in some members, at any depth, in order.
pub open spec fn strings_in_members(members: Seq<(String, Json)>, wildcard: Option<Text>) -> Seq<
    Text,
>
    decreases members,
{
    if members.len() == 0 {
        Seq::empty()
    } else {
        strings_in_members(members.subrange(0, members.len() - 1), wildcard) + strings_in(
            members[members.len() - 1].1,
            wildcard,
        )
    }
}

/// A key says where a subpath leads.
pub open spec fn has_subpaths(members: Seq<(String, Json)>) -> bool {
    exists|i: int| 0 <= i < members.len() && has_prefix((#[trigger] members[i]).0@, "."@)
}

/// The position of the key with a `*` that fits best: the longest before the `*`, and the last of
/// these.
pub open spec fn best_key(members: Seq<(String, Json)>, subpath: Text) -> Option<int>
    decreases members.len(),
{
    if members.len() == 0 {
        None
    } else {
        let before = best_key(members.drop_last(), subpath);
        let key = members.last().0@;
        if captured(key, subpath) is None {
            before
        } else {
            match before {
                None => Some(members.len() - 1),
                Some(b) => if prefix_len(key) >= prefix_len(members[b].0@) {
                    Some(members.len() - 1)
                } else {
                    before
                },
            }
        }
    }
}

/// The targets that some keys give for a subpath: an exact key, or else the best with a `*`.
pub open spec fn subpath_targets(members: Seq<(String, Json)>, subpath: Text) -> Seq<Text> {
    match member_of(members, subpath) {
        Some(target) => strings_in(target, None),
        None => match best_key(members, subpath) {
            Some(b) => strings_in(members[b].1, captured(members[b].0@, subpath)),
            None => Seq::empty(),
        },
    }
}

/// The targets of a subpath.
pub open spec fn targets_of(exports: Json, subpath: Text) -> Seq<Text> {
    match exports {
        Json::Object(members) => if has_subpaths(members@) {
            subpath_targets(members@, subpath)
        } else if subpath == "."@ {
            strings_in(exports, None)
        } else {
            Seq::empty()
        },
        _ => if subpath == "."@ {
            strings_in(exports, None)
        } else {
            Seq::empty()
        },
    }
}

/// The files that a subpath of a package stands for.
pub open spec fn files_of(p: PackageView, subpath: Text) -> Seq<Text> {
    let targets = match p.manifest.member("exports"@) {
        Some(exports) => targets_of(exports, subpath),
        None => seq![subpath],
    };
    Seq::new(targets.len(), |i: int| normal(path_join(p.root, targets[i])))
}

/// The files that a specifier stands for, by the first package that it names.
pub open spec fn package_files(packages: Seq<PackageView>, specifier: Text) -> Seq<Text>
    decreases packages.len(),
{
    if packages.len() == 0 {
        Seq::empty()
    } else {
        match subpath_of(specifier, packages[0].name) {
            Some(subpath) => files_of(packages[0], subpath),
            None => package_files(packages.drop_first(), specifier),
        }
    }
}

/// A text with every `*` replaced, where there is something to put there.
fn replace_stars(s: &str, wildcard: &Option<String>) -> (r: String)
    ensures
        r@ == with_stars(s@, wildcard.deep_view()),
{
    proof {
        reveal_strlit("*");
    }
    match wildcard {
        Some(w) => text::replace(s, "*", w.as_str()),
        None => s.to_owned(),
    }
}

/// Appends the texts in a value, at any depth, in order.
fn collect_strings(target: &Json, wildcard: &Option<String>, out: &mut Vec<String>)
    ensures
        final(out).deep_view() == old(out).deep_view() + strings_in(*target, wildcard.deep_view()),
    decreases *target,
{
    let ghost start = out.deep_view();
    let ghost w = wildcard.deep_view();
    match target {
        Json::Text(s) => {
            let filled = replace_stars(s.as_str(), wildcard);
            let ghost view = filled@;
            out.push(filled);
            assert(out.deep_view() =~= start + seq![view]);
        },
        Json::Array(items) => {
            let mut i: usize = 0;
            assert(out.deep_view() =~= start + strings_in_items(items@.take(0), w));
            while i < items.len()
                invariant
                    i <= items.len(),
                    w == wildcard.deep_view(),
                    *target == Json::Array(*items),
                    out.deep_view() == start + strings_in_items(items@.take(i as int), w),
                decreases items.len() - i,
            {
                let ghost done = strings_in_items(items@.take(i as int), w);
                assert(items@.take(i + 1).subrange(0, i as int) =~= items@.take(i as int));
                assert(decreases_to!(*target => target->Array_0));
                assert(decreases_to!(target->Array_0 => target->Array_0@));
                assert(decreases_to!(items@ => items@[i as int]));
                collect_strings(&items[i], wildcard, out);
                assert(out.deep_view() =~= start + (done + strings_in(items@[i as int], w)));
                i += 1;
            }
            assert(items@.take(i as int) =~= items@);
        },
        Json::Object(members) => {
            let mut i: usize = 0;
            assert(out.deep_view() =~= start + strings_in_members(members@.take(0), w));
            while i < members.len()
                invariant
                    i <= members.len(),
                    w == wildcard.deep_view(),
                    *target == Json::Object(*members),
                    out.deep_view() == start + strings_in_members(members@.take(i as int), w),
                decreases members.len() - i,
            {
                let ghost done = strings_in_members(members@.take(i as int), w);
                assert(members@.take(i + 1).subrange(0, i as int) =~= members@.take(i as int));
                assert(decreases_to!(*target => target->Object_0));
                assert(decreases_to!(target->Object_0 => target->Object_0@));
                assert(decreases_to!(members@ => members@[i as int]));
                assert(decreases_to!(members@[i as int] => members@[i as int].1));
                collect_strings(&members[i].1, wildcard, out);
                assert(out.deep_view() =~= start + (done + strings_in(members@[i as int].1, w)));
                i += 1;
            }
            assert(members@.take(i as int) =~= members@);
        },
        _ => {
            assert(out.deep_view() =~= start + Seq::<Text>::empty());
        },
    }
}

/// Whether a key says where a subpath leads.
fn names_subpaths(members: &Vec<(String, Json)>) -> (r: bool)
    ensures
        r == has_subpaths(members@),
{
    let mut i: usize = 0;
    while i < members.len()
        invariant
            i <= members.len(),
            forall|j: int| 0 <= j < i ==> !has_prefix((#[trigger] members@[j]).0@, "."@),
        decreases members.len() - i,
    {
        if text::starts_with(members[i].0.as_str(), ".") {
            assert(has_prefix(members@[i as int].0@, "."@));
            return true;
        }
        i += 1;
    }
    false
}

/// The position of the key with a `*` that fits best.
fn find_best_key(members: &Vec<(String, Json)>, subpath: &str) -> (r: Option<usize>)
    ensures
        match r {
            Some(b) => b < members.len() && best_key(members@, subpath@) == Some(b as int)
                && captured(members@[b as int].0@, subpath@) is Some,
            None => best_key(members@, subpath@) is None,
        },
{
    let mut best: Option<usize> = None;
    let mut i: usize = 0;
    assert(members@.take(0) =~= Seq::<(String, Json)>::empty());
    while i < members.len()
        invariant
            i <= members.len(),
            match best {
                Some(b) => b < i && best_key(members@.take(i as int), subpath@) == Some(b as int)
                    && captured(members@[b as int].0@, subpath@) is Some,
                None => best_key(members@.take(i as int), subpath@) is None,
            },
        decreases members.len() - i,
    {
        let key = members[i].0.as_str();
        assert(members@.take(i + 1).drop_last() =~= members@.take(i as int));
        if tsconfig_paths::capture(key, subpath).is_some() {
            match best {
                None => {
                    best = Some(i);
                },
                Some(b) => {
                    assert(members@.take(i + 1)[b as int] == members@[b as int]);
                    if tsconfig_paths::key_prefix_len(key) >= tsconfig_paths::key_prefix_len(
                        members[b].0.as_str(),
                    ) {
                        best = Some(i);
                    }
                },
            }
        }
        i += 1;
    }
    assert(members@.take(i as int) =~= members@);
    best
}

/// The targets of a subpath.
pub fn export_targets(exports: &Json, subpath: &str) -> (r: Vec<String>)
    ensures
        r.deep_view() == targets_of(*exports, subpath@),
{
    let mut out: Vec<String> = Vec::new();
    assert(out.deep_view() =~= Seq::<Text>::empty());
    let nothing: Option<String> = None;
    if let Json::Object(members) = exports {
        if names_subpaths(members) {
            match json::get_member(members, subpath) {
                Some(target) => {
                    collect_strings(target, &nothing, &mut out);
                    assert(out.deep_view() =~= strings_in(*target, None));
                },
                None => {
                    if let Some(b) = find_best_key(members, subpath) {
                        let wildcard = tsconfig_paths::capture(members[b].0.as_str(), subpath);
                        collect_strings(&members[b].1, &wildcard, &mut out);
                        assert(out.deep_view() =~= strings_in(
                            members@[b as int].1,
                            wildcard.deep_view(),
                        ));
                    }
                },
            }
            return out;
        }
    }
    if text::same(subpath, ".") {
        collect_strings(exports, &nothing, &mut out);
        assert(out.deep_view() =~= strings_in(*exports, None));
    }
    out
}

/// The subpath of a package that a specifier names, written as in `exports`.
fn read_subpath(specifier: &str, name: &str) -> (r: Option<String>)
    ensures
        r.deep_view() == subpath_of(specifier@, name@),
{
    proof {
        reveal_strlit("/");
    }
    match text::strip_prefix(specifier, name) {
        None => None,
        Some(rest) => {
            if rest.is_empty() {
                Some(".".to_owned())
            } else {
                match text::strip_prefix(rest, "/") {
                    Some(s) => Some(text::cat("./", s)),
                    None => None,
                }
            }
        },
    }
}

/// The files that a subpath of a package stands for.
fn collect_files(p: &WorkspacePackage, subpath: String) -> (r: Vec<String>)
    ensures
        r.deep_view() == files_of(p.deep_view(), subpath@),
{
    let ghost goal = files_of(p.deep_view(), subpath@);
    let targets = match p.manifest.get("exports") {
        Some(exports) => export_targets(exports, subpath.as_str()),
        None => {
            let mut one: Vec<String> = Vec::new();
            one.push(subpath);
            assert(one.deep_view() =~= seq![subpath@]);
            one
        },
    };
    let ghost all = targets.deep_view();
    let mut out: Vec<String> = Vec::new();
    let mut i: usize = 0;
    assert(out.deep_view() =~= goal.take(0));
    while i < targets.len()
        invariant
            i <= targets.len(),
            all == targets.deep_view(),
            goal == Seq::new(all.len(), |i: int| normal(path_join(p.root@, all[i]))),
            out.deep_view() == goal.take(i as int),
        decreases targets.len() - i,
    {
        let ghost before = out.deep_view();
        assert(all[i as int] == targets@[i as int]@);
        let file = paths::normalize(
            paths::join(p.root.as_str(), targets[i].as_str()).as_str(),
        );
        let ghost view = file@;
        out.push(file);
        assert(out.deep_view() =~= before.push(view));
        assert(goal.take(i + 1) =~= goal.take(i as int).push(view));
        i += 1;
    }
    assert(goal.take(i as int) =~= goal);
    out
}

/// Puts a package behind all whose names are as long or longer.
fn insert_package(list: &mut Vec<WorkspacePackage>, p: WorkspacePackage)
    ensures
        final(list).deep_view() == put_in(old(list).deep_view(), p.deep_view()),
{
    let ghost all = list.deep_view();
    let n: usize = text::byte_len(p.name.as_str());
    let mut pos: usize = list.len();
    while pos > 0 && text::byte_len(list[pos - 1].name.as_str()) < n
        invariant
            pos <= list.len(),
            all == list.deep_view(),
            n == bytes_in(p.name@),
            forall|k: int|
                pos <= k < all.len() ==> bytes_in((#[trigger] all[k]).name) < bytes_in(p.name@),
        decreases pos,
    {
        assert(all[pos - 1] == list@[pos - 1].deep_view());
        pos -= 1;
    }
    proof {
        if pos > 0 {
            assert(all[pos - 1] == list@[pos - 1].deep_view());
        }
        lemma_put_in_at(all, p.deep_view(), pos as int);
    }
    list.insert(pos, p);
    assert(list.deep_view() =~= all.insert(pos as int, p.deep_view()));
}

proof fn lemma_put_in_at(list: Seq<PackageView>, p: PackageView, pos: int)
    requires
        0 <= pos <= list.len(),
        forall|k: int| pos <= k < list.len() ==> bytes_in((#[trigger] list[k]).name) < bytes_in(
            p.name,
        ),
        pos > 0 ==> bytes_in(list[pos - 1].name) >= bytes_in(p.name),
    ensures
        put_in(list, p) == list.insert(pos, p),
    decreases list.len() - pos,
{
    if pos < list.len() {
        assert(list[list.len() - 1] == list.last());
        let init = list.drop_last();
        assert forall|k: int| pos <= k < init.len() implies bytes_in((#[trigger] init[k]).name)
            < bytes_in(p.name) by {
            assert(init[k] == list[k]);
        }
        lemma_put_in_at(init, p, pos);
        assert(list.insert(pos, p) =~= init.insert(pos, p).push(list.last()));
    } else {
        if list.len() > 0 {
            assert(list[list.len() - 1] == list.last());
        }
        assert(list.insert(pos, p) =~= list.push(p));
    }
}

/// The package at a root, where its manifest can be read and has a name.
fn read_package(tree: &FileTree, cwd: &str, root: &str) -> (r: Option<WorkspacePackage>)
    ensures
        r.deep_view() == package_at(*tree, cwd@, root@),
{
    let dir = paths::join(cwd, root);
    let content = match tree.read(paths::join(dir.as_str(), "package.json").as_str()) {
        Some(c) => c,
        None => {
            return None;
        },
    };
    let manifest = match json::parse_json(content) {
        Ok(m) => m,
        Err(_) => {
            return None;
        },
    };
    let name = match manifest.get_text("name") {
        Some(n) => n.to_owned(),
        None => {
            return None;
        },
    };
    Some(WorkspacePackage { name, root: root.to_owned(), manifest })
}

impl PackageIndex {
    /// The packages, in the order in which they are tried.
    pub closed spec fn packages(&self) -> Seq<PackageView> {
        self.packages.deep_view()
    }

    /// The packages of some projects: those with readable manifests that have a name.
    pub fn from_projects(cwd: &str, projects: &Vec<Project>, tree: &FileTree) -> (r: Self)
        ensures
            r.packages() == packages_at(*tree, cwd@, distinct_roots(projects.deep_view())),
            longest_first(r.packages()),
    {
        let ghost all = projects.deep_view();
        let mut seen = StringSet::new();
        let mut packages: Vec<WorkspacePackage> = Vec::new();
        let mut i: usize = 0;
        assert(all.take(0) =~= Seq::<ProjectView>::empty());
        assert(packages.deep_view() =~= Seq::<PackageView>::empty());
        while i < projects.len()
            invariant
                i <= projects.len(),
                all == projects.deep_view(),
                seen.order() == distinct_roots(all.take(i as int)),
                packages.deep_view() == packages_at(
                    *tree,
                    cwd@,
                    distinct_roots(all.take(i as int)),
                ),
            decreases projects.len() - i,
        {
            assert(all.take(i + 1).drop_last() =~= all.take(i as int));
            assert(all.take(i + 1).last() == projects@[i as int].deep_view());
            let root = paths::tidied(projects[i].root.as_str());
            seen.check_order();
            let ghost roots = seen.order();
            assert(seen@.contains(root@) <==> roots.contains(root@));
            if seen.insert(root.clone()) {
                assert(roots.push(root@).drop_last() =~= roots);
                if let Some(p) = read_package(tree, cwd, root.as_str()) {
                    insert_package(&mut packages, p);
                }
            }
            i += 1;
        }
        assert(all.take(i as int) =~= all);
        proof {
            lemma_packages_longest_first(*tree, cwd@, distinct_roots(all));
        }
        PackageIndex { packages }
    }

    /// The files that a specifier stands for, as seen from the workspace root. All targets of
    /// conditional exports count: which conditions the consumer has is not known.
    pub fn resolve(&self, specifier: &str) -> (r: Vec<String>)
        ensures
            r.deep_view() == package_files(self.packages(), specifier@),
    {
        let ghost all = self.packages.deep_view();
        let mut i: usize = 0;
        assert(all.skip(0) =~= all);
        while i < self.packages.len()
            invariant
                i <= self.packages.len(),
                all == self.packages.deep_view(),
                package_files(all, specifier@) == package_files(all.skip(i as int), specifier@),
            decreases self.packages.len() - i,
        {
            let p = &self.packages[i];
            assert(all.skip(i as int)[0] == p.deep_view());
            assert(all.skip(i as int).drop_first() =~= all.skip(i + 1));
            if let Some(subpath) = read_subpath(specifier, p.name.as_str()) {
                return collect_files(p, subpath);
            }
            i += 1;
        }
        let none: Vec<String> = Vec::new();
        assert(none.deep_view() =~= Seq::<Text>::empty());
        none
    }
}

} // verus!
