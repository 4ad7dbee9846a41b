//! Workspaces of package managers: npm, yarn, pnpm and bun.

use crate::error::{DominoError, ErrorView};
use crate::files::FileTree;
use crate::glob_match;
use crate::glob_match::{glob_matches, is_glob};
use crate::json;
use crate::json::{json_document, Json};
use crate::json_text;
use crate::json_text::repeats;
use crate::paths;
use crate::paths::{path_join, path_name, path_parent, path_within};
use crate::text;
use crate::text::{has_prefix, Text};
use crate::types::{Project, ProjectView};
use crate::yaml;
use crate::yaml::{yaml_document, yaml_lists, Yaml};
use vstd::prelude::*;

verus! {

/// The view of projects, or of the error that came in their place.
pub type ProjectsView = Result<Seq<ProjectView>, ErrorView>;

/// The view of a result that holds projects.
pub open spec fn projects_result(r: Result<Vec<Project>, DominoError>) -> ProjectsView {
    match r {
        Ok(v) => Ok(v.deep_view()),
        Err(e) => Err(e.deep_view()),
    }
}

/// The view of a result that holds texts.
pub open spec fn texts_result(r: Result<Vec<String>, DominoError>) -> Result<Seq<Text>, ErrorView> {
    match r {
        Ok(v) => Ok(v.deep_view()),
        Err(e) => Err(e.deep_view()),
    }
}

// ---------------------------------------------------------------------------
// Manifests
// ---------------------------------------------------------------------------

/// What is read of a `package.json`.
pub struct PackageJson {
    pub name: Option<String>,
    pub workspaces: Option<Vec<String>>,
}

/// The view of a [`PackageJson`].
pub struct PackageJsonView {
    pub name: Option<Text>,
    pub workspaces: Option<Seq<Text>>,
}

impl DeepView for PackageJson {
    type V = PackageJsonView;

    open spec fn deep_view(&self) -> PackageJsonView {
        PackageJsonView { name: self.name.deep_view(), workspaces: self.workspaces.deep_view() }
    }
}

/// The name in a manifest: `Some(None)` where there is none, `None` where it is no text.
pub open spec fn name_in(manifest: Json) -> Option<Option<Text>> {
    match manifest.field("name"@, 0) {
        None => Some(None),
        Some(Json::Null) => Some(None),
        Some(v) => match v.as_text() {
            Some(s) => Some(Some(s)),
            None => None,
        },
    }
}

/// The workspace patterns in a manifest, as a list or under `packages`: `Some(None)` where there
/// are none, `None` where they are neither.
pub open spec fn workspaces_in(manifest: Json) -> Option<Option<Seq<Text>>> {
    match manifest.field("workspaces"@, 1) {
        None => Some(None),
        Some(Json::Null) => Some(None),
        Some(v) => match v {
            Json::Object(_) => match v.member("packages"@) {
                Some(list) => match list.text_list() {
                    Some(patterns) => Some(Some(patterns)),
                    None => None,
                },
                None => None,
            },
            _ => match v.text_list() {
                Some(patterns) => Some(Some(patterns)),
                None => None,
            },
        },
    }
}

/// What a document says as a `package.json`.
pub open spec fn package_in(manifest: Json) -> Option<PackageJsonView> {
    if manifest.is_record(2, 2) && name_in(manifest) is Some && workspaces_in(manifest) is Some {
        Some(
            PackageJsonView {
                name: name_in(manifest)->0,
                workspaces: workspaces_in(manifest)->0,
            },
        )
    } else {
        None
    }
}

/// The error for a manifest.
pub open spec fn manifest_error(reason: Text) -> ErrorView {
    ErrorView::Parse("Failed to parse package.json: "@ + reason)
}

/// What a text says as a `package.json`.
pub open spec fn package_json(content: Text) -> Result<PackageJsonView, ErrorView> {
    match json_document(content) {
        Ok(manifest) => if repeats(content, "name"@) {
            Err(manifest_error("duplicate field `name`"@))
        } else if repeats(content, "workspaces"@) {
            Err(manifest_error("duplicate field `workspaces`"@))
        } else {
            match package_in(manifest) {
                Some(p) => Ok(p),
                None => Err(manifest_error("unexpected shape"@)),
            }
        },
        Err(e) => Err(manifest_error(e)),
    }
}

fn read_name(manifest: &Json) -> (r: Option<Option<String>>)
    ensures
        r.deep_view() == name_in(*manifest),
{
    match manifest.get_field("name", 0) {
        None => Some(None),
        Some(Json::Null) => Some(None),
        Some(v) => match v.text() {
            Some(s) => Some(Some(s.to_owned())),
            None => None,
        },
    }
}

fn read_workspaces(manifest: &Json) -> (r: Option<Option<Vec<String>>>)
    ensures
        r.deep_view() == workspaces_in(*manifest),
{
    match manifest.get_field("workspaces", 1) {
        None => Some(None),
        Some(Json::Null) => Some(None),
        Some(v) => match v {
            Json::Object(_) => match v.get("packages") {
                Some(list) => match list.texts() {
                    Some(patterns) => Some(Some(patterns)),
                    None => None,
                },
                None => None,
            },
            _ => match v.texts() {
                Some(patterns) => Some(Some(patterns)),
                None => None,
            },
        },
    }
}

/// What a parsed document says as a `package.json`.
pub fn package_of(manifest: &Json) -> (r: Option<PackageJson>)
    ensures
        r.deep_view() == package_in(*manifest),
{
    if !manifest.record(2, 2) {
        return None;
    }
    match (read_name(manifest), read_workspaces(manifest)) {
        (Some(name), Some(workspaces)) => Some(PackageJson { name, workspaces }),
        _ => None,
    }
}

fn read_package_json(content: &str) -> (r: Result<PackageJson, DominoError>)
    ensures
        match r {
            Ok(p) => package_json(content@) == Ok::<PackageJsonView, ErrorView>(p.deep_view()),
            Err(e) => package_json(content@) == Err::<PackageJsonView, ErrorView>(e.deep_view()),
        },
{
    match json::parse_json(content) {
        Ok(manifest) => {
            let reason = if json_text::repeats_key(content, "name") {
                "duplicate field `name`"
            } else if json_text::repeats_key(content, "workspaces") {
                "duplicate field `workspaces`"
            } else {
                match package_of(&manifest) {
                    Some(p) => {
                        return Ok(p);
                    },
                    None => "unexpected shape",
                }
            };
            Err(DominoError::Parse(text::cat("Failed to parse package.json: ", reason)))
        },
        Err(e) => Err(
            DominoError::Parse(text::cat("Failed to parse package.json: ", e.as_str())),
        ),
    }
}

// ---------------------------------------------------------------------------
// pnpm
// ---------------------------------------------------------------------------

/// A YAML value that stands for a text: any that is no list and no mapping. A number stands for the
/// text that the document shows for its value.
pub open spec fn scalar_text(v: Yaml) -> Option<Text> {
    match v.untagged() {
        Yaml::Mapping { .. } => None,
        Yaml::Sequence { .. } => None,
        w => Some(w.written()),
    }
}

/// The texts that YAML values stand for, where all of them do.
pub open spec fn scalar_texts(items: Seq<Yaml>) -> Option<Seq<Text>>
    decreases items.len(),
{
    if items.len() == 0 {
        Some(Seq::empty())
    } else {
        match (scalar_texts(items.drop_last()), scalar_text(items.last())) {
            (Some(before), Some(s)) => Some(before.push(s)),
            _ => None,
        }
    }
}

/// The packages that a `pnpm-workspace.yaml` lists next to entries that are no lists: none where
/// nothing follows the key. A parsed document does not tell nothing from `null`.
pub open spec fn pnpm_packages_in(document: Yaml) -> Option<Seq<Text>> {
    match document.entry("packages"@) {
        Some(v) => match v.items() {
            Some(items) => scalar_texts(items),
            None => if v is Scalar && v.written() == "null"@ {
                Some(Seq::empty())
            } else {
                None
            },
        },
        None => None,
    }
}

/// The error for a `pnpm-workspace.yaml`.
pub open spec fn pnpm_error(reason: Text) -> ErrorView {
    ErrorView::Parse("Failed to parse pnpm-workspace.yaml: "@ + reason)
}

/// The list under a key.
pub open spec fn list_under(lists: Seq<(Text, Seq<Text>)>, key: Text) -> Option<Seq<Text>>
    decreases lists.len(),
{
    if lists.len() == 0 {
        None
    } else if lists[0].0 == key {
        Some(lists[0].1)
    } else {
        list_under(lists.drop_first(), key)
    }
}

/// The packages that a `pnpm-workspace.yaml` lists, by what it is as a map of lists and by what it
/// is as a document. The lists hold scalars as they are written; they fail where some entry is no
/// list, which need not be that of the packages.
pub open spec fn pnpm_packages_of(
    lists: Result<Seq<(Text, Seq<Text>)>, Text>,
    document: Yaml,
) -> Result<Seq<Text>, ErrorView> {
    match lists {
        Ok(lists) => match list_under(lists, "packages"@) {
            Some(packages) => Ok(packages),
            None => Err(pnpm_error("missing field `packages`"@)),
        },
        Err(e) => if document.entries() matches Some(entries) && entries.len() == 1 && document.entry(
            "packages"@,
        ) is Some {
            Err(pnpm_error(e))
        } else {
            match pnpm_packages_in(document) {
                Some(packages) => Ok(packages),
                None => Err(pnpm_error("no list of packages"@)),
            }
        },
    }
}

/// The packages that the text of a `pnpm-workspace.yaml` lists.
pub open spec fn pnpm_packages(content: Text) -> Result<Seq<Text>, ErrorView> {
    match yaml_document(content) {
        Ok(document) => pnpm_packages_of(yaml_lists(content), document),
        Err(e) => Err(pnpm_error(e)),
    }
}

fn read_scalar(v: &Yaml) -> (r: Option<String>)
    ensures
        r.deep_view() == scalar_text(*v),
{
    let w = v.untag();
    match w {
        Yaml::Mapping { .. } => None,
        Yaml::Sequence { .. } => None,
        _ => Some(yaml::yaml_value_to_string(w)),
    }
}

fn read_scalars(items: &Vec<Yaml>) -> (r: Option<Vec<String>>)
    ensures
        r.deep_view() == scalar_texts(items@),
{
    let mut out: Vec<String> = Vec::new();
    let mut i: usize = 0;
    assert(items@.take(0) =~= Seq::<Yaml>::empty());
    assert(out.deep_view() =~= Seq::<Text>::empty());
    while i < items.len()
        invariant
            i <= items.len(),
            scalar_texts(items@.take(i as int)) == Some(out.deep_view()),
        decreases items.len() - i,
    {
        assert(items@.take(i + 1).drop_last() =~= items@.take(i as int));
        match read_scalar(&items[i]) {
            Some(s) => {
                let ghost before = out.deep_view();
                let ghost view = s@;
                out.push(s);
                assert(out.deep_view() =~= before.push(view));
            },
            None => {
                proof {
                    lemma_scalar_texts_fail(items@, i as int);
                }
                return None;
            },
        }
        i += 1;
    }
    assert(items@.take(i as int) =~= items@);
    Some(out)
}

proof fn lemma_scalar_texts_fail(items: Seq<Yaml>, k: int)
    requires
        0 <= k < items.len(),
        scalar_text(items[k]) is None,
    ensures
        scalar_texts(items) is None,
    decreases items.len(),
{
    if k < items.len() - 1 {
        assert(items.drop_last()[k] == items[k]);
        lemma_scalar_texts_fail(items.drop_last(), k);
    }
}

/// The packages that a parsed `pnpm-workspace.yaml` lists.
pub fn packages_of(document: &Yaml) -> (r: Option<Vec<String>>)
    ensures
        r.deep_view() == pnpm_packages_in(*document),
{
    match document.get("packages") {
        Some(v) => match v.untag() {
            Yaml::Sequence { items, .. } => read_scalars(items),
            _ => match v {
                Yaml::Scalar { .. } => {
                    if text::same(yaml::yaml_value_to_string(v).as_str(), "null") {
                        let none: Vec<String> = Vec::new();
                        assert(none.deep_view() =~= Seq::<Text>::empty());
                        Some(none)
                    } else {
                        None
                    }
                },
                _ => None,
            },
        },
        None => None,
    }
}

/// A result with lists, as a value of views.
pub open spec fn lists_result(r: Result<Vec<(String, Vec<String>)>, String>) -> Result<
    Seq<(Text, Seq<Text>)>,
    Text,
> {
    match r {
        Ok(v) => Ok(v.deep_view()),
        Err(e) => Err(e@),
    }
}

/// The list under a key.
fn take_list(lists: Vec<(String, Vec<String>)>, key: &str) -> (r: Option<Vec<String>>)
    ensures
        r.deep_view() == list_under(lists.deep_view(), key@),
{
    let ghost whole = lists.deep_view();
    let mut rest = lists;
    while rest.len() > 0
        invariant
            list_under(whole, key@) == list_under(rest.deep_view(), key@),
            whole == lists.deep_view(),
        decreases rest.len(),
    {
        let ghost before = rest.deep_view();
        let (name, list) = rest.remove(0);
        proof {
            assert(before[0] == (name@, list.deep_view()));
            assert(before.drop_first() =~= rest.deep_view());
        }
        if text::same(name.as_str(), key) {
            return Some(list);
        }
    }
    assert(rest.deep_view().len() == 0);
    None
}

/// The error for a `pnpm-workspace.yaml`.
fn pnpm_failure(reason: &str) -> (r: DominoError)
    ensures
        r.deep_view() == pnpm_error(reason@),
{
    DominoError::Parse(text::cat("Failed to parse pnpm-workspace.yaml: ", reason))
}

/// The packages that a `pnpm-workspace.yaml` lists, by what it is as a map of lists and by what it
/// is as a document.
pub fn packages_from(lists: Result<Vec<(String, Vec<String>)>, String>, document: &Yaml) -> (r:
    Result<Vec<String>, DominoError>)
    ensures
        texts_result(r) == pnpm_packages_of(lists_result(lists), *document),
{
    match lists {
        Ok(lists) => {
            match take_list(lists, "packages") {
                Some(packages) => Ok(packages),
                None => Err(pnpm_failure("missing field `packages`")),
            }
        },
        Err(e) => {
            if let Some(entries) = document.mapping() {
                if entries.len() == 1 && document.get("packages").is_some() {
                    return Err(pnpm_failure(e.as_str()));
                }
            }
            match packages_of(document) {
                Some(packages) => Ok(packages),
                None => Err(pnpm_failure("no list of packages")),
            }
        },
    }
}

fn read_pnpm_packages(content: &str) -> (r: Result<Vec<String>, DominoError>)
    ensures
        texts_result(r) == pnpm_packages(content@),
{
    match yaml::parse_yaml(content) {
        Ok(document) => packages_from(yaml::parse_yaml_lists(content), &document),
        Err(e) => Err(pnpm_failure(e.as_str())),
    }
}

// ---------------------------------------------------------------------------
// Workspaces
// ---------------------------------------------------------------------------

/// The root manifest declares workspaces.
pub open spec fn declares_workspaces(tree: FileTree, cwd: Text) -> bool {
    match tree.content(path_join(cwd, "package.json"@)) {
        Some(content) => package_json(content) is Ok && package_json(content)->Ok_0.workspaces is Some,
        None => false,
    }
}

/// A package manager sees a workspace.
pub open spec fn has_workspaces(tree: FileTree, cwd: Text) -> bool {
    tree.present(path_join(cwd, "pnpm-workspace.yaml"@)) || declares_workspaces(tree, cwd)
}

/// The patterns for the members of the workspace: those of `pnpm-workspace.yaml`, or else those
/// of the root manifest.
pub open spec fn workspace_patterns(tree: FileTree, cwd: Text) -> Result<Seq<Text>, ErrorView> {
    let pnpm = path_join(cwd, "pnpm-workspace.yaml"@);
    let manifest = path_join(cwd, "package.json"@);
    if tree.present(pnpm) {
        match tree.content(pnpm) {
            Some(content) => pnpm_packages(content),
            None => Err(ErrorView::Unreadable(pnpm)),
        }
    } else if tree.present(manifest) {
        match tree.content(manifest) {
            Some(content) => match package_json(content) {
                Ok(p) => Ok(
                    match p.workspaces {
                        Some(patterns) => patterns,
                        None => Seq::empty(),
                    },
                ),
                Err(e) => Err(e),
            },
            None => Err(ErrorView::Unreadable(manifest)),
        }
    } else {
        Ok(Seq::empty())
    }
}

/// The globs for the manifests of the members.
pub open spec fn manifest_globs(patterns: Seq<Text>) -> Seq<Text>
    decreases patterns.len(),
{
    if patterns.len() == 0 {
        Seq::empty()
    } else {
        let before = manifest_globs(patterns.drop_last());
        let glob = patterns.last() + "/package.json"@;
        if !has_prefix(patterns.last(), "!"@) && is_glob(glob) {
            before.push(glob)
        } else {
            before
        }
    }
}

/// A glob among some matches the path, segment by segment.
pub open spec fn any_glob_matches(globs: Seq<Text>, path: Text) -> bool {
    exists|i: int| 0 <= i < globs.len() && glob_matches(#[trigger] globs[i], path, true)
}

/// The file is the manifest of a member.
pub open spec fn is_member_manifest(file: Text, globs: Seq<Text>, cwd: Text) -> bool {
    path_name(file) == Some("package.json"@) && path_within(file, cwd) is Some && any_glob_matches(
        globs,
        path_within(file, cwd)->0,
    )
}

/// The project whose manifest the file is.
pub open spec fn project_of_manifest(tree: FileTree, file: Text, cwd: Text) -> Result<
    ProjectView,
    ErrorView,
> {
    match tree.content(file) {
        None => Err(ErrorView::Unreadable(file)),
        Some(content) => match package_json(content) {
            Err(e) => Err(e),
            Ok(p) => match p.name {
                None => Err(manifest_error("missing field `name`"@)),
                Some(name) => match path_parent(file) {
                    None => Err(ErrorView::Other("Invalid package path"@)),
                    Some(dir) => {
                        let root = match path_within(dir, cwd) {
                            Some(q) => q,
                            None => dir,
                        };
                        Ok(
                            ProjectView {
                                name,
                                root,
                                source_root: root,
                                ts_config: None,
                                implicit_dependencies: Seq::empty(),
                                targets: Seq::empty(),
                            },
                        )
                    },
                },
            },
        },
    }
}

/// The projects whose manifests are among some files.
pub open spec fn projects_among(
    tree: FileTree,
    files: Seq<Text>,
    globs: Seq<Text>,
    cwd: Text,
) -> Seq<ProjectView>
    decreases files.len(),
{
    if files.len() == 0 {
        Seq::empty()
    } else {
        let before = projects_among(tree, files.drop_last(), globs, cwd);
        let file = files.last();
        if is_member_manifest(file, globs, cwd) && project_of_manifest(tree, file, cwd) is Ok {
            before.push(project_of_manifest(tree, file, cwd)->Ok_0)
        } else {
            before
        }
    }
}

/// The projects of the workspace, among the files that a walk comes by.
pub open spec fn workspace_projects(tree: FileTree, walked: Seq<Text>, cwd: Text) -> ProjectsView {
    match workspace_patterns(tree, cwd) {
        Err(e) => Err(e),
        Ok(patterns) => Ok(projects_among(tree, walked, manifest_globs(patterns), cwd)),
    }
}

/// Whether the root manifest declares workspaces.
fn has_npm_workspaces(cwd: &str, tree: &FileTree) -> (r: bool)
    ensures
        r == declares_workspaces(*tree, cwd@),
{
    match tree.read(paths::join(cwd, "package.json").as_str()) {
        Some(content) => match read_package_json(content) {
            Ok(p) => p.workspaces.is_some(),
            Err(_) => false,
        },
        None => false,
    }
}

/// Whether a package manager sees a workspace.
pub fn is_workspace(cwd: &str, tree: &FileTree) -> (r: bool)
    ensures
        r == has_workspaces(*tree, cwd@),
{
    tree.is_present(paths::join(cwd, "pnpm-workspace.yaml").as_str()) || has_npm_workspaces(
        cwd,
        tree,
    )
}

/// The patterns for the members of the workspace.
pub fn get_workspace_patterns(cwd: &str, tree: &FileTree) -> (r: Result<Vec<String>, DominoError>)
    ensures
        texts_result(r) == workspace_patterns(*tree, cwd@),
{
    let pnpm = paths::join(cwd, "pnpm-workspace.yaml");
    if tree.is_present(pnpm.as_str()) {
        return match tree.read(pnpm.as_str()) {
            Some(content) => read_pnpm_packages(content),
            None => Err(DominoError::Unreadable(pnpm)),
        };
    }
    let manifest = paths::join(cwd, "package.json");
    let none: Vec<String> = Vec::new();
    assert(none.deep_view() =~= Seq::<Text>::empty());
    if !tree.is_present(manifest.as_str()) {
        return Ok(none);
    }
    match tree.read(manifest.as_str()) {
        Some(content) => match read_package_json(content) {
            Ok(p) => match p.workspaces {
                Some(patterns) => Ok(patterns),
                None => Ok(none),
            },
            Err(e) => Err(e),
        },
        None => Err(DominoError::Unreadable(manifest)),
    }
}

/// The globs for the manifests of the members.
fn compile_globs(patterns: &Vec<String>) -> (r: Vec<String>)
    ensures
        r.deep_view() == manifest_globs(patterns.deep_view()),
{
    let ghost all = patterns.deep_view();
    let mut out: Vec<String> = Vec::new();
    let mut i: usize = 0;
    assert(all.take(0) =~= Seq::<Text>::empty());
    assert(out.deep_view() =~= Seq::<Text>::empty());
    while i < patterns.len()
        invariant
            i <= patterns.len(),
            all == patterns.deep_view(),
            out.deep_view() == manifest_globs(all.take(i as int)),
        decreases patterns.len() - i,
    {
        assert(all.take(i + 1).drop_last() =~= all.take(i as int));
        assert(all.take(i + 1).last() == patterns@[i as int]@);
        let pattern = patterns[i].as_str();
        let glob = text::cat(pattern, "/package.json");
        if !text::starts_with(pattern, "!") && glob_match::check_glob(glob.as_str()) {
            let ghost before = out.deep_view();
            let ghost view = glob@;
            out.push(glob);
            assert(out.deep_view() =~= before.push(view));
        }
        i += 1;
    }
    assert(all.take(i as int) =~= all);
    out
}

/// Whether a glob among some matches the path, segment by segment.
pub fn matches_any(globs: &Vec<String>, path: &str) -> (r: bool)
    ensures
        r == any_glob_matches(globs.deep_view(), path@),
{
    let ghost all = globs.deep_view();
    let mut i: usize = 0;
    while i < globs.len()
        invariant
            i <= globs.len(),
            all == globs.deep_view(),
            forall|j: int| 0 <= j < i ==> !glob_matches(#[trigger] all[j], path@, true),
        decreases globs.len() - i,
    {
        assert(all[i as int] == globs@[i as int]@);
        if glob_match::match_glob(globs[i].as_str(), path, true) {
            return true;
        }
        i += 1;
    }
    false
}

/// Whether the file is the manifest of a member.
fn is_manifest(file: &str, globs: &Vec<String>, cwd: &str) -> (r: bool)
    ensures
        r == is_member_manifest(file@, globs.deep_view(), cwd@),
{
    let named = match paths::file_name(file) {
        Some(name) => text::same(name.as_str(), "package.json"),
        None => false,
    };
    if !named {
        return false;
    }
    match paths::strip_prefix(file, cwd) {
        Some(relative) => matches_any(globs, relative.as_str()),
        None => false,
    }
}

/// The project whose manifest the file is.
pub fn parse_package_json(path: &str, cwd: &str, tree: &FileTree) -> (r: Result<
    Project,
    DominoError,
>)
    ensures
        match r {
            Ok(p) => project_of_manifest(*tree, path@, cwd@) == Ok::<ProjectView, ErrorView>(
                p.deep_view(),
            ),
            Err(e) => project_of_manifest(*tree, path@, cwd@) == Err::<ProjectView, ErrorView>(
                e.deep_view(),
            ),
        },
{
    let content = match tree.read(path) {
        Some(c) => c,
        None => {
            return Err(DominoError::Unreadable(path.to_owned()));
        },
    };
    let package = match read_package_json(content) {
        Ok(p) => p,
        Err(e) => {
            return Err(e);
        },
    };
    let name = match package.name {
        Some(n) => n,
        None => {
            return Err(
                DominoError::Parse(
                    text::cat("Failed to parse package.json: ", "missing field `name`"),
                ),
            );
        },
    };
    match paths::parent(path) {
        None => Err(DominoError::Other("Invalid package path".to_owned())),
        Some(dir) => {
            let root = paths::strip_prefix_or_self(dir.as_str(), cwd);
            let source_root = root.clone();
            let implicit_dependencies: Vec<String> = Vec::new();
            let targets: Vec<String> = Vec::new();
            assert(implicit_dependencies.deep_view() =~= Seq::<Text>::empty());
            assert(targets.deep_view() =~= Seq::<Text>::empty());
            Ok(
                Project { name, root, source_root, ts_config: None, implicit_dependencies, targets },
            )
        },
    }
}

/// Without globs nothing is a member.
proof fn lemma_no_globs(tree: FileTree, files: Seq<Text>, cwd: Text)
    ensures
        projects_among(tree, files, Seq::<Text>::empty(), cwd) == Seq::<ProjectView>::empty(),
    decreases files.len(),
{
    if files.len() > 0 {
        lemma_no_globs(tree, files.drop_last(), cwd);
    }
}

/// The projects of the workspace: the members whose manifests a walk comes by, and which have
/// readable manifests with a name.
pub fn get_projects(cwd: &str, tree: &FileTree, walked: &Vec<String>) -> (r: Result<
    Vec<Project>,
    DominoError,
>)
    ensures
        projects_result(r) == workspace_projects(*tree, walked.deep_view(), cwd@),
{
    let patterns = match get_workspace_patterns(cwd, tree) {
        Ok(p) => p,
        Err(e) => {
            return Err(e);
        },
    };
    let globs = compile_globs(&patterns);
    let ghost globs_view = globs.deep_view();
    let ghost all = walked.deep_view();
    let mut out: Vec<Project> = Vec::new();
    assert(out.deep_view() =~= Seq::<ProjectView>::empty());
    if globs.len() == 0 {
        proof {
            assert(globs_view =~= Seq::<Text>::empty());
            lemma_no_globs(*tree, all, cwd@);
        }
        return Ok(out);
    }
    let mut i: usize = 0;
    assert(all.take(0) =~= Seq::<Text>::empty());
    while i < walked.len()
        invariant
            i <= walked.len(),
            all == walked.deep_view(),
            globs_view == globs.deep_view(),
            out.deep_view() == projects_among(*tree, all.take(i as int), globs_view, cwd@),
        decreases walked.len() - i,
    {
        assert(all.take(i + 1).drop_last() =~= all.take(i as int));
        assert(all.take(i + 1).last() == walked@[i as int]@);
        let file = walked[i].as_str();
        if is_manifest(file, &globs, cwd) {
            if let Ok(project) = parse_package_json(file, cwd, tree) {
                let ghost before = out.deep_view();
                let ghost view = project.deep_view();
                out.push(project);
                assert(out.deep_view() =~= before.push(view));
            }
        }
        i += 1;
    }
    assert(all.take(i as int) =~= all);
    Ok(out)
}

} // verus!
