//! Which kind of workspace there is, and its projects.

use crate::collections::StringSet;
use crate::error::DominoError;
use crate::files::FileTree;
use crate::glob_match;
use crate::glob_match::is_glob;
use crate::json;
use crate::json::{json_document, texts_in, Json};
use crate::paths;
use crate::paths::{path_join, tidy};
use crate::text;
use crate::text::{drop_suffixes, has_prefix, Text};
use crate::types::{Project, ProjectView};
use crate::workspace::turbo;
use crate::workspace::turbo::turbo_file;
use crate::workspace::workspaces;
use crate::workspace::workspaces::{
    any_glob_matches, has_workspaces, projects_result, workspace_patterns, workspace_projects,
    ProjectsView,
};
use vstd::prelude::*;

verus! {

// ---------------------------------------------------------------------------
// What a walk leaves out
// ---------------------------------------------------------------------------

/// The overrides that keep a walk out of directories that hold no projects of the workspace.
pub open spec fn static_excludes() -> Seq<Text> {
    seq!["!node_modules/"@, "!dist/"@, "!__fixtures__/"@]
}

/// The overrides for a walk: those that always hold, then the extra ones.
pub fn walk_excludes(extra: &Vec<String>) -> (r: Vec<String>)
    ensures
        r.deep_view() == static_excludes() + extra.deep_view(),
{
    let mut out: Vec<String> = Vec::new();
    out.push("!node_modules/".to_owned());
    out.push("!dist/".to_owned());
    out.push("!__fixtures__/".to_owned());
    let ghost more = extra.deep_view();
    let mut i: usize = 0;
    assert(out.deep_view() =~= static_excludes() + more.take(0));
    while i < extra.len()
        invariant
            i <= extra.len(),
            more == extra.deep_view(),
            out.deep_view() == static_excludes() + more.take(i as int),
        decreases extra.len() - i,
    {
        let ghost before = out.deep_view();
        out.push(extra[i].clone());
        assert(out.deep_view() =~= before.push(more[i as int]));
        assert(more.take(i + 1) =~= more.take(i as int).push(more[i as int]));
        assert(out.deep_view() =~= static_excludes() + more.take(i + 1));
        i += 1;
    }
    assert(more.take(i as int) =~= more);
    out
}

// ---------------------------------------------------------------------------
// Members of an Nx workspace that are packages only
// ---------------------------------------------------------------------------

/// The first configuration in a `tsConfig`, which is a text or a list.
pub open spec fn first_config(value: Json) -> Option<Text> {
    match value {
        Json::Array(items) => if items@.len() > 0 {
            items@[0].as_text()
        } else {
            None
        },
        _ => value.as_text(),
    }
}

/// The member of an optional value.
pub open spec fn member_in(value: Option<Json>, key: Text) -> Option<Json> {
    match value {
        Some(v) => v.member(key),
        None => None,
    }
}

/// The configuration of the build target, as seen from the workspace root.
pub open spec fn build_config(targets: Option<Json>, cwd: Text) -> Option<Text> {
    match member_in(member_in(member_in(targets, "build"@), "options"@), "tsConfig"@) {
        Some(v) => match first_config(v) {
            Some(config) => Some(path_join(cwd, config)),
            None => None,
        },
        None => None,
    }
}

/// The keys of an object, in order.
pub open spec fn keys_of(members: Seq<(String, Json)>) -> Seq<Text> {
    Seq::new(members.len(), |i: int| members[i].0@)
}

/// The project with what the `nx` part of its manifest adds.
pub open spec fn with_nx_part(p: ProjectView, nx: Json, cwd: Text) -> ProjectView {
    let targets = nx.member("targets"@);
    ProjectView {
        name: p.name,
        root: p.root,
        source_root: match nx.text_member("sourceRoot"@) {
            Some(s) => s,
            None => p.source_root,
        },
        ts_config: if p.ts_config is None {
            build_config(targets, cwd)
        } else {
            p.ts_config
        },
        implicit_dependencies: if p.implicit_dependencies.len() == 0 {
            match member_in(Some(nx), "implicitDependencies"@) {
                Some(Json::Array(items)) => texts_in(items@),
                _ => Seq::empty(),
            }
        } else {
            p.implicit_dependencies
        },
        targets: if p.targets.len() == 0 {
            match targets {
                Some(Json::Object(members)) => keys_of(members@),
                _ => Seq::empty(),
            }
        } else {
            p.targets
        },
    }
}

/// The project with what its manifest says to Nx.
pub open spec fn with_nx(p: ProjectView, tree: FileTree, cwd: Text) -> ProjectView {
    match tree.content(path_join(path_join(cwd, p.root), "package.json"@)) {
        Some(content) => match json_document(content) {
            Ok(manifest) => match manifest.member("nx"@) {
                Some(nx) => with_nx_part(p, nx, cwd),
                None => p,
            },
            Err(_) => p,
        },
        None => p,
    }
}

/// The patterns that exclude members: for `!a/**` both `a` and `a/**`.
pub open spec fn exclusions(patterns: Seq<Text>) -> Seq<Text>
    decreases patterns.len(),
{
    if patterns.len() == 0 {
        Seq::empty()
    } else {
        let before = exclusions(patterns.drop_last());
        if has_prefix(patterns.last(), "!"@) {
            let pattern = patterns.last().skip(1);
            let dir = drop_suffixes(pattern, "/**"@);
            before + if is_glob(dir) {
                seq![dir]
            } else {
                Seq::empty()
            } + if is_glob(pattern) {
                seq![pattern]
            } else {
                Seq::empty()
            }
        } else {
            before
        }
    }
}

/// The patterns that exclude members of the workspace.
pub open spec fn excluded_patterns(tree: FileTree, cwd: Text) -> Seq<Text> {
    match workspace_patterns(tree, cwd) {
        Ok(patterns) => exclusions(patterns),
        Err(_) => Seq::empty(),
    }
}

/// A project of the list has the root.
pub open spec fn has_root(projects: Seq<ProjectView>, root: Text) -> bool {
    exists|i: int| 0 <= i < projects.len() && tidy((#[trigger] projects[i]).root) == tidy(root)
}

/// A project of the list has the name.
pub open spec fn has_name(projects: Seq<ProjectView>, name: Text) -> bool {
    exists|i: int| 0 <= i < projects.len() && (#[trigger] projects[i]).name == name
}

/// The member joins the projects that Nx knows: neither its root nor its name is known, and no
/// pattern excludes it.
pub open spec fn is_added(p: ProjectView, known: Seq<ProjectView>, excluded: Seq<Text>) -> bool {
    !has_root(known, p.root) && !has_name(known, p.name) && !any_glob_matches(excluded, p.root)
}

/// The members that join the projects that Nx knows.
pub open spec fn added(
    members: Seq<ProjectView>,
    known: Seq<ProjectView>,
    excluded: Seq<Text>,
    tree: FileTree,
    cwd: Text,
) -> Seq<ProjectView>
    decreases members.len(),
{
    if members.len() == 0 {
        Seq::empty()
    } else {
        let before = added(members.drop_last(), known, excluded, tree, cwd);
        if is_added(members.last(), known, excluded) {
            before.push(with_nx(members.last(), tree, cwd))
        } else {
            before
        }
    }
}

/// The projects of an Nx workspace: those that Nx knows, and the members that join them.
pub open spec fn nx_projects(
    known: Seq<ProjectView>,
    tree: FileTree,
    walked: Seq<Text>,
    cwd: Text,
) -> Seq<ProjectView> {
    match workspace_projects(tree, walked, cwd) {
        Ok(members) => if has_workspaces(tree, cwd) {
            known + added(members, known, excluded_patterns(tree, cwd), tree, cwd)
        } else {
            known
        },
        Err(_) => known,
    }
}

/// The projects of a workspace: Nx comes before Turborepo, that before the package managers, and
/// these before Rush.
pub open spec fn discovered(
    tree: FileTree,
    walked: Seq<Text>,
    cwd: Text,
    nx: ProjectsView,
    rush: ProjectsView,
) -> ProjectsView {
    if tree.present(path_join(cwd, "nx.json"@)) {
        match nx {
            Ok(known) => Ok(nx_projects(known, tree, walked, cwd)),
            Err(e) => Err(e),
        }
    } else if turbo_file(tree, cwd) is Some || has_workspaces(tree, cwd) {
        workspace_projects(tree, walked, cwd)
    } else if tree.present(path_join(cwd, "rush.json"@)) {
        rush
    } else {
        Ok(Seq::empty())
    }
}

// ---------------------------------------------------------------------------
// Executable
// ---------------------------------------------------------------------------

/// Whether there is an Nx configuration.
pub fn is_nx_workspace(cwd: &str, tree: &FileTree) -> (r: bool)
    ensures
        r == tree.present(path_join(cwd@, "nx.json"@)),
{
    tree.is_present(paths::join(cwd, "nx.json").as_str())
}

/// Whether there is a Rush configuration.
pub fn is_rush_workspace(cwd: &str, tree: &FileTree) -> (r: bool)
    ensures
        r == tree.present(path_join(cwd@, "rush.json"@)),
{
    tree.is_present(paths::join(cwd, "rush.json").as_str())
}

/// The first configuration in a `tsConfig`, which is a text or a list.
pub fn first_ts_config(value: &Json) -> (r: Option<String>)
    ensures
        r.deep_view() == first_config(*value),
{
    match value {
        Json::Array(items) => {
            if items.len() > 0 {
                match items[0].text() {
                    Some(s) => Some(s.to_owned()),
                    None => None,
                }
            } else {
                None
            }
        },
        _ => match value.text() {
            Some(s) => Some(s.to_owned()),
            None => None,
        },
    }
}

/// The member of an optional value.
fn get_in<'a>(value: Option<&'a Json>, key: &str) -> (r: Option<&'a Json>)
    ensures
        match (value, r) {
            (Some(v), Some(m)) => v.member(key@) == Some(*m),
            (Some(v), None) => v.member(key@) is None,
            (None, m) => m is None,
        },
{
    match value {
        Some(v) => v.get(key),
        None => None,
    }
}

/// The configuration of the build target, as seen from the workspace root.
fn read_build_config(targets: Option<&Json>, cwd: &str) -> (r: Option<String>)
    ensures
        r.deep_view() == build_config(
            match targets {
                Some(t) => Some(*t),
                None => None,
            },
            cwd@,
        ),
{
    match get_in(get_in(get_in(targets, "build"), "options"), "tsConfig") {
        Some(v) => match first_ts_config(v) {
            Some(config) => Some(paths::join(cwd, config.as_str())),
            None => None,
        },
        None => None,
    }
}

/// The keys of an object, in order.
fn read_keys(members: &Vec<(String, Json)>) -> (r: Vec<String>)
    ensures
        r.deep_view() == keys_of(members@),
{
    let mut out: Vec<String> = Vec::new();
    let mut i: usize = 0;
    assert(out.deep_view() =~= keys_of(members@).take(0));
    while i < members.len()
        invariant
            i <= members.len(),
            out.deep_view() == keys_of(members@).take(i as int),
        decreases members.len() - i,
    {
        let ghost before = out.deep_view();
        out.push(members[i].0.clone());
        assert(out.deep_view() =~= before.push(members@[i as int].0@));
        assert(keys_of(members@).take(i + 1) =~= keys_of(members@).take(i as int).push(
            members@[i as int].0@,
        ));
        i += 1;
    }
    assert(keys_of(members@).take(i as int) =~= keys_of(members@));
    out
}

/// The project with what the `nx` part of its manifest adds.
pub fn add_nx_part(project: Project, nx: &Json, cwd: &str) -> (r: Project)
    ensures
        r.deep_view() == with_nx_part(project.deep_view(), *nx, cwd@),
{
    let ghost view = project.deep_view();
    let Project { name, root, source_root, ts_config, implicit_dependencies, targets } = project;
    assert(view.implicit_dependencies.len() == implicit_dependencies.len());
    assert(view.targets.len() == targets.len());
    let none: Vec<String> = Vec::new();
    assert(none.deep_view() =~= Seq::<Text>::empty());
    let implicit_dependencies = if implicit_dependencies.len() == 0 {
        match nx.get("implicitDependencies") {
            Some(Json::Array(items)) => json::collect_texts(items),
            _ => none,
        }
    } else {
        implicit_dependencies
    };
    let source_root = match nx.get_text("sourceRoot") {
        Some(s) => s.to_owned(),
        None => source_root,
    };
    let declared = nx.get("targets");
    let ts_config = if ts_config.is_none() {
        read_build_config(declared, cwd)
    } else {
        ts_config
    };
    let targets = if targets.len() == 0 {
        match declared {
            Some(Json::Object(members)) => read_keys(members),
            _ => {
                let none: Vec<String> = Vec::new();
                assert(none.deep_view() =~= Seq::<Text>::empty());
                none
            },
        }
    } else {
        targets
    };
    Project { name, root, source_root, ts_config, implicit_dependencies, targets }
}

/// The project with what its manifest says to Nx.
pub fn apply_package_nx_metadata(cwd: &str, tree: &FileTree, project: Project) -> (r: Project)
    ensures
        r.deep_view() == with_nx(project.deep_view(), *tree, cwd@),
{
    let dir = paths::join(cwd, project.root.as_str());
    let content = match tree.read(paths::join(dir.as_str(), "package.json").as_str()) {
        Some(c) => c,
        None => {
            return project;
        },
    };
    let manifest = match json::parse_json(content) {
        Ok(m) => m,
        Err(_) => {
            return project;
        },
    };
    match manifest.get("nx") {
        Some(nx) => add_nx_part(project, nx, cwd),
        None => project,
    }
}

/// The patterns that exclude members: for `!a/**` both `a` and `a/**`.
fn compile_exclusions(patterns: &Vec<String>) -> (r: Vec<String>)
    ensures
        r.deep_view() == exclusions(patterns.deep_view()),
{
    let ghost all = patterns.deep_view();
    let mut out: Vec<String> = Vec::new();
    let mut i: usize = 0;
    assert(all.take(0) =~= Seq::<Text>::empty());
    assert(out.deep_view() =~= Seq::<Text>::empty());
    while i < patterns.len()
        invariant
            i <= patterns.len(),
            all == patterns.deep_view(),
            out.deep_view() == exclusions(all.take(i as int)),
        decreases patterns.len() - i,
    {
        proof {
            assert(all.take(i + 1).drop_last() =~= all.take(i as int));
            assert(all.take(i + 1).last() == patterns@[i as int]@);
            reveal_strlit("!");
        }
        if let Some(pattern) = text::strip_prefix(patterns[i].as_str(), "!") {
            let ghost before = out.deep_view();
            let dir = text::trim_end_text(pattern, "/**");
            if glob_match::check_glob(dir) {
                out.push(dir.to_owned());
                assert(out.deep_view() =~= before + seq![dir@]);
            } else {
                assert(out.deep_view() =~= before + Seq::<Text>::empty());
            }
            let ghost mid = out.deep_view();
            if glob_match::check_glob(pattern) {
                out.push(pattern.to_owned());
                assert(out.deep_view() =~= mid + seq![pattern@]);
            } else {
                assert(out.deep_view() =~= mid + Seq::<Text>::empty());
            }
        }
        i += 1;
    }
    assert(all.take(i as int) =~= all);
    out
}

/// The patterns that exclude members of the workspace.
pub fn excluded_workspace_patterns(cwd: &str, tree: &FileTree) -> (r: Vec<String>)
    ensures
        r.deep_view() == excluded_patterns(*tree, cwd@),
{
    match workspaces::get_workspace_patterns(cwd, tree) {
        Ok(patterns) => compile_exclusions(&patterns),
        Err(_) => {
            let none: Vec<String> = Vec::new();
            assert(none.deep_view() =~= Seq::<Text>::empty());
            none
        },
    }
}

/// The roots and the names of some projects.
fn roots_and_names(projects: &Vec<Project>) -> (r: (StringSet, StringSet))
    ensures
        forall|t: Text| #[trigger]
            r.0@.contains(tidy(t)) <==> has_root(projects.deep_view(), t),
        forall|t: Text| #[trigger] r.1@.contains(t) <==> has_name(projects.deep_view(), t),
{
    let ghost all = projects.deep_view();
    let mut roots = StringSet::new();
    let mut names = StringSet::new();
    let mut i: usize = 0;
    while i < projects.len()
        invariant
            i <= projects.len(),
            all == projects.deep_view(),
            forall|t: Text| #[trigger]
                roots@.contains(t) <==> exists|j: int|
                    0 <= j < i && tidy((#[trigger] all[j]).root) == t,
            forall|t: Text| #[trigger]
                names@.contains(t) <==> exists|j: int| 0 <= j < i && (#[trigger] all[j]).name == t,
        decreases projects.len() - i,
    {
        let ghost old_roots = roots@;
        let ghost old_names = names@;
        let p = &projects[i];
        roots.insert(paths::tidied(p.root.as_str()));
        names.insert(p.name.clone());
        proof {
            assert(all[i as int] == p.deep_view());
            assert forall|t: Text| #[trigger] roots@.contains(t) <==> exists|j: int|
                0 <= j < i + 1 && tidy((#[trigger] all[j]).root) == t by {
                assert(old_roots.contains(t) ==> roots@.contains(t));
                if t == tidy(p.root@) {
                    assert(tidy(all[i as int].root) == t);
                }
            }
            assert forall|t: Text| #[trigger] names@.contains(t) <==> exists|j: int|
                0 <= j < i + 1 && (#[trigger] all[j]).name == t by {
                assert(old_names.contains(t) ==> names@.contains(t));
                if t == p.name@ {
                    assert(all[i as int].name == t);
                }
            }
        }
        i += 1;
    }
    (roots, names)
}

/// Adds to the projects that Nx knows the members that join them.
fn add_members(
    known: Vec<Project>,
    members: &Vec<Project>,
    excluded: &Vec<String>,
    tree: &FileTree,
    cwd: &str,
) -> (r: Vec<Project>)
    ensures
        r.deep_view() == known.deep_view() + added(
            members.deep_view(),
            known.deep_view(),
            excluded.deep_view(),
            *tree,
            cwd@,
        ),
{
    let ghost first = known.deep_view();
    let ghost all = members.deep_view();
    let ghost out_patterns = excluded.deep_view();
    let (roots, names) = roots_and_names(&known);
    let mut out = known;
    let mut i: usize = 0;
    assert(all.take(0) =~= Seq::<ProjectView>::empty());
    assert(out.deep_view() =~= first + Seq::<ProjectView>::empty());
    while i < members.len()
        invariant
            i <= members.len(),
            all == members.deep_view(),
            out_patterns == excluded.deep_view(),
            forall|t: Text| #[trigger] roots@.contains(tidy(t)) <==> has_root(first, t),
            forall|t: Text| #[trigger] names@.contains(t) <==> has_name(first, t),
            out.deep_view() == first + added(
                all.take(i as int),
                first,
                out_patterns,
                *tree,
                cwd@,
            ),
        decreases members.len() - i,
    {
        assert(all.take(i + 1).drop_last() =~= all.take(i as int));
        assert(all.take(i + 1).last() == members@[i as int].deep_view());
        let p = &members[i];
        if !roots.contains(paths::tidied(p.root.as_str()).as_str()) && !names.contains(p.name.as_str())
            && !workspaces::matches_any(excluded, p.root.as_str()) {
            let ghost before = out.deep_view();
            let ghost done = added(all.take(i as int), first, out_patterns, *tree, cwd@);
            let project = apply_package_nx_metadata(cwd, tree, p.clone());
            let ghost view = project.deep_view();
            out.push(project);
            assert(out.deep_view() =~= before.push(view));
            assert(out.deep_view() =~= first + done.push(view));
        }
        i += 1;
    }
    assert(all.take(i as int) =~= all);
    out
}

/// The projects of the workspace. `nx` and `rush` are the projects that the configurations of Nx
/// and Rush give; `walked` are the files that a walk comes by.
pub fn discover_projects(
    cwd: &str,
    tree: &FileTree,
    walked: &Vec<String>,
    nx: Result<Vec<Project>, DominoError>,
    rush: Result<Vec<Project>, DominoError>,
) -> (r: Result<Vec<Project>, DominoError>)
    ensures
        projects_result(r) == discovered(
            *tree,
            walked.deep_view(),
            cwd@,
            projects_result(nx),
            projects_result(rush),
        ),
{
    if is_nx_workspace(cwd, tree) {
        let known = match nx {
            Ok(known) => known,
            Err(e) => {
                return Err(e);
            },
        };
        if workspaces::is_workspace(cwd, tree) {
            if let Ok(members) = workspaces::get_projects(cwd, tree, walked) {
                let excluded = excluded_workspace_patterns(cwd, tree);
                return Ok(add_members(known, &members, &excluded, tree, cwd));
            }
        }
        return Ok(known);
    }
    if turbo::is_turbo_workspace(cwd, tree) {
        return turbo::get_projects(cwd, tree, walked);
    }
    if workspaces::is_workspace(cwd, tree) {
        return workspaces::get_projects(cwd, tree, walked);
    }
    if is_rush_workspace(cwd, tree) {
        return rush;
    }
    let none: Vec<Project> = Vec::new();
    assert(none.deep_view() =~= Seq::<ProjectView>::empty());
    Ok(none)
}

// ---------------------------------------------------------------------------
// What holds of all workspaces
// ---------------------------------------------------------------------------

/// The projects that Nx knows stay as they are, in front of those that join them.
pub proof fn lemma_known_stay(
    known: Seq<ProjectView>,
    tree: FileTree,
    walked: Seq<Text>,
    cwd: Text,
)
    ensures
        nx_projects(known, tree, walked, cwd).len() >= known.len(),
        nx_projects(known, tree, walked, cwd).take(known.len() as int) == known,
{
    assert(known.take(known.len() as int) =~= known);
    match workspace_projects(tree, walked, cwd) {
        Ok(members) => {
            let more = added(members, known, excluded_patterns(tree, cwd), tree, cwd);
            assert((known + more).take(known.len() as int) =~= known);
        },
        Err(_) => {},
    }
}

/// A project that joins those of Nx has a root and a name that they do not have, and no pattern
/// excludes it.
pub proof fn lemma_added_are_new(
    members: Seq<ProjectView>,
    known: Seq<ProjectView>,
    excluded: Seq<Text>,
    tree: FileTree,
    cwd: Text,
    i: int,
)
    requires
        0 <= i < added(members, known, excluded, tree, cwd).len(),
    ensures
        is_added(added(members, known, excluded, tree, cwd)[i], known, excluded),
    decreases members.len(),
{
    let before = added(members.drop_last(), known, excluded, tree, cwd);
    if i < before.len() {
        lemma_added_are_new(members.drop_last(), known, excluded, tree, cwd, i);
        assert(added(members, known, excluded, tree, cwd)[i] == before[i]);
    } else {
        let p = members.last();
        assert(with_nx(p, tree, cwd).name == p.name && with_nx(p, tree, cwd).root == p.root);
    }
}

/// Where there is an `nx.json`, the projects do not depend on what Rush gives; where there is none,
/// they do not depend on what Nx gives.
pub proof fn lemma_one_source(
    tree: FileTree,
    walked: Seq<Text>,
    cwd: Text,
    nx: ProjectsView,
    other_nx: ProjectsView,
    rush: ProjectsView,
    other_rush: ProjectsView,
)
    ensures
        tree.present(path_join(cwd, "nx.json"@)) ==> discovered(tree, walked, cwd, nx, rush)
            == discovered(tree, walked, cwd, nx, other_rush),
        !tree.present(path_join(cwd, "nx.json"@)) ==> discovered(tree, walked, cwd, nx, rush)
            == discovered(tree, walked, cwd, other_nx, rush),
{
}

} // verus!
