//! Reading a `tsconfig.json` with all that it extends.

use crate::files::FileTree;
use crate::json;
use crate::json::{json_document, stripped_json, Json};
use crate::json_text;
use crate::json_text::{field_text, members_of_text, repeats};
use crate::paths;
use crate::paths::{absolute, path_join, path_of, path_parent, path_under, place, segments};
use crate::semantic::tsconfig_paths::{PatternsView, TsconfigPaths, TsconfigPathsView};
use crate::text;
use crate::text::{has_prefix, replaced, Text};
use crate::types::{copy_text, Project, ProjectView};
use vstd::prelude::*;

verus! {

// ---------------------------------------------------------------------------
// One configuration
// ---------------------------------------------------------------------------

/// What is read of a `tsconfig.json`.
pub struct Tsconfig {
    pub extends: Vec<String>,
    pub base_url: Option<String>,
    pub paths: Option<Vec<(String, Vec<String>)>>,
}

/// The view of a [`Tsconfig`].
pub struct TsconfigView {
    pub extends: Seq<Text>,
    pub base_url: Option<Text>,
    pub paths: Option<PatternsView>,
}

impl DeepView for Tsconfig {
    type V = TsconfigView;

    open spec fn deep_view(&self) -> TsconfigView {
        TsconfigView {
            extends: self.extends.deep_view(),
            base_url: self.base_url.deep_view(),
            paths: self.paths.deep_view(),
        }
    }
}

/// What a configuration extends: a text or a list of texts. `None` where it is neither.
pub open spec fn extends_in(config: Json) -> Option<Seq<Text>> {
    match config.field("extends"@, 0) {
        None => Some(Seq::empty()),
        Some(Json::Null) => Some(Seq::empty()),
        Some(Json::Text(s)) => Some(seq![s@]),
        Some(v) => v.text_list(),
    }
}

/// The text in a field: `Some(None)` where there is none, `None` where it is no text.
pub open spec fn optional_text(record: Json, key: Text, at: int) -> Option<Option<Text>> {
    match record.field(key, at) {
        None => Some(None),
        Some(Json::Null) => Some(None),
        Some(v) => match v.as_text() {
            Some(s) => Some(Some(s)),
            None => None,
        },
    }
}

/// Aliases, where all targets are lists of texts.
pub open spec fn patterns_in(members: Seq<(String, Json)>) -> Option<PatternsView>
    decreases members.len(),
{
    if members.len() == 0 {
        Some(Seq::empty())
    } else {
        match (patterns_in(members.drop_last()), members.last().1.text_list()) {
            (Some(before), Some(targets)) => Some(before.push((members.last().0@, targets))),
            _ => None,
        }
    }
}

/// The aliases in some options: `Some(None)` where there are none, `None` where they are in no
/// shape.
pub open spec fn paths_in(options: Json) -> Option<Option<PatternsView>> {
    match options.field("paths"@, 1) {
        None => Some(None),
        Some(Json::Null) => Some(None),
        Some(Json::Object(members)) => match patterns_in(members@) {
            Some(patterns) => Some(Some(patterns)),
            None => None,
        },
        Some(_) => None,
    }
}

/// The options of a configuration: the `baseUrl` and the aliases. `None` where they are in no
/// shape.
pub open spec fn options_in(config: Json) -> Option<(Option<Text>, Option<PatternsView>)> {
    match config.field("compilerOptions"@, 1) {
        None => Some((None, None)),
        Some(Json::Null) => Some((None, None)),
        Some(options) => if options.is_record(2, 2) {
            match (optional_text(options, "baseUrl"@, 0), paths_in(options)) {
                (Some(base_url), Some(paths)) => Some((base_url, paths)),
                _ => None,
            }
        } else {
            None
        },
    }
}

/// What a document says as a `tsconfig.json`.
pub open spec fn tsconfig_in(config: Json) -> Option<TsconfigView> {
    if config.is_record(2, 2) {
        match (extends_in(config), options_in(config)) {
            (Some(extends), Some(options)) => Some(
                TsconfigView { extends, base_url: options.0, paths: options.1 },
            ),
            _ => None,
        }
    } else {
        None
    }
}

/// The text of a configuration gives a field twice.
pub open spec fn repeats_field(plain: Text) -> bool {
    repeats(plain, "extends"@) || repeats(plain, "compilerOptions"@) || match field_text(
        plain,
        "compilerOptions"@,
        1,
    ) {
        Some(options) => repeats(options, "baseUrl"@) || repeats(options, "paths"@),
        None => false,
    }
}

/// Aliases in the order in which a text lists them, those that are given again included. All targets
/// must be lists of texts.
pub open spec fn aliases_among(members: Seq<(Text, Text)>) -> Option<PatternsView>
    decreases members.len(),
{
    if members.len() == 0 {
        Some(Seq::empty())
    } else {
        match (aliases_among(members.drop_last()), json_document(members.last().1)) {
            (Some(before), Ok(v)) => match v.text_list() {
                Some(targets) => Some(before.push((members.last().0, targets))),
                None => None,
            },
            _ => None,
        }
    }
}

/// The aliases that the text of a configuration lists.
pub open spec fn aliases_listed(plain: Text) -> Option<PatternsView> {
    match field_text(plain, "compilerOptions"@, 1) {
        Some(options) => match field_text(options, "paths"@, 1) {
            Some(paths) => aliases_among(members_of_text(paths)),
            None => None,
        },
        None => None,
    }
}

/// What a text and the document in it say as a `tsconfig.json`: no field is given twice, and the
/// aliases are all that the text lists.
pub open spec fn tsconfig_read(plain: Text, config: Json) -> Option<TsconfigView> {
    if repeats_field(plain) {
        None
    } else {
        match tsconfig_in(config) {
            Some(t) => if t.paths is Some {
                match aliases_listed(plain) {
                    Some(paths) => Some(TsconfigView { paths: Some(paths), ..t }),
                    None => None,
                }
            } else {
                Some(t)
            },
            None => None,
        }
    }
}

/// What a text with comments and trailing commas says as a `tsconfig.json`.
pub open spec fn tsconfig_text(content: Text) -> Option<TsconfigView> {
    match stripped_json(content) {
        Some(plain) => match json_document(plain) {
            Ok(config) => tsconfig_read(plain, config),
            Err(_) => None,
        },
        None => None,
    }
}

/// What a file says as a `tsconfig.json`.
pub open spec fn tsconfig_at(tree: FileTree, path: Text) -> Option<TsconfigView> {
    match tree.content(path) {
        Some(content) => tsconfig_text(content),
        None => None,
    }
}

fn read_extends(config: &Json) -> (r: Option<Vec<String>>)
    ensures
        r.deep_view() == extends_in(*config),
{
    let mut one: Vec<String> = Vec::new();
    assert(one.deep_view() =~= Seq::<Text>::empty());
    match config.get_field("extends", 0) {
        None => Some(one),
        Some(Json::Null) => Some(one),
        Some(Json::Text(s)) => {
            one.push(s.clone());
            assert(one.deep_view() =~= seq![s@]);
            Some(one)
        },
        Some(v) => v.texts(),
    }
}

/// The text in a field: `Some(None)` where there is none, `None` where it is no text.
pub fn read_optional_text(record: &Json, key: &str, at: usize) -> (r: Option<Option<String>>)
    ensures
        r.deep_view() == optional_text(*record, key@, at as int),
{
    match record.get_field(key, at) {
        None => Some(None),
        Some(Json::Null) => Some(None),
        Some(v) => match v.text() {
            Some(s) => Some(Some(s.to_owned())),
            None => None,
        },
    }
}

proof fn lemma_patterns_fail(members: Seq<(String, Json)>, k: int)
    requires
        0 <= k < members.len(),
        members[k].1.text_list() is None,
    ensures
        patterns_in(members) is None,
    decreases members.len(),
{
    if k < members.len() - 1 {
        assert(members.drop_last()[k] == members[k]);
        lemma_patterns_fail(members.drop_last(), k);
    }
}

fn read_patterns(members: &Vec<(String, Json)>) -> (r: Option<Vec<(String, Vec<String>)>>)
    ensures
        r.deep_view() == patterns_in(members@),
{
    let mut out: Vec<(String, Vec<String>)> = Vec::new();
    let mut i: usize = 0;
    assert(members@.take(0) =~= Seq::<(String, Json)>::empty());
    assert(out.deep_view() =~= Seq::<(Text, Seq<Text>)>::empty());
    while i < members.len()
        invariant
            i <= members.len(),
            patterns_in(members@.take(i as int)) == Some(out.deep_view()),
        decreases members.len() - i,
    {
        assert(members@.take(i + 1).drop_last() =~= members@.take(i as int));
        match members[i].1.texts() {
            Some(targets) => {
                let ghost before = out.deep_view();
                let ghost view = (members@[i as int].0@, targets.deep_view());
                out.push((members[i].0.clone(), targets));
                assert(out.deep_view() =~= before.push(view));
            },
            None => {
                proof {
                    lemma_patterns_fail(members@, i as int);
                }
                return None;
            },
        }
        i += 1;
    }
    assert(members@.take(i as int) =~= members@);
    Some(out)
}

fn read_paths(options: &Json) -> (r: Option<Option<Vec<(String, Vec<String>)>>>)
    ensures
        r.deep_view() == paths_in(*options),
{
    match options.get_field("paths", 1) {
        None => Some(None),
        Some(Json::Null) => Some(None),
        Some(Json::Object(members)) => match read_patterns(members) {
            Some(patterns) => Some(Some(patterns)),
            None => None,
        },
        Some(_) => None,
    }
}

/// What a parsed document says as a `tsconfig.json`.
pub fn tsconfig_of(config: &Json) -> (r: Option<Tsconfig>)
    ensures
        r.deep_view() == tsconfig_in(*config),
{
    if !config.record(2, 2) {
        return None;
    }
    let extends = match read_extends(config) {
        Some(e) => e,
        None => {
            return None;
        },
    };
    match config.get_field("compilerOptions", 1) {
        None => Some(Tsconfig { extends, base_url: None, paths: None }),
        Some(Json::Null) => Some(Tsconfig { extends, base_url: None, paths: None }),
        Some(options) => {
            if !options.record(2, 2) {
                return None;
            }
            match (read_optional_text(options, "baseUrl", 0), read_paths(options)) {
                (Some(base_url), Some(paths)) => Some(Tsconfig { extends, base_url, paths }),
                _ => None,
            }
        },
    }
}

/// What a file says as a `tsconfig.json`.
fn read_tsconfig(path: &str, tree: &FileTree) -> (r: Option<Tsconfig>)
    ensures
        r.deep_view() == tsconfig_at(*tree, path@),
{
    let content = match tree.read(path) {
        Some(c) => c,
        None => {
            return None;
        },
    };
    let plain = match json::strip_json(content) {
        Some(p) => p,
        None => {
            return None;
        },
    };
    match json::parse_json(plain.as_str()) {
        Ok(config) => read_typed(plain.as_str(), &config),
        Err(_) => None,
    }
}

/// Whether the text of a configuration gives a field twice.
fn gives_field_twice(plain: &str) -> (r: bool)
    ensures
        r == repeats_field(plain@),
{
    if json_text::repeats_key(plain, "extends") || json_text::repeats_key(plain, "compilerOptions") {
        return true;
    }
    match json_text::find_field_text(plain, "compilerOptions", 1) {
        Some(options) => json_text::repeats_key(options.as_str(), "baseUrl")
            || json_text::repeats_key(options.as_str(), "paths"),
        None => false,
    }
}

/// The aliases that the text of a configuration lists.
fn list_aliases(plain: &str) -> (r: Option<Vec<(String, Vec<String>)>>)
    ensures
        r.deep_view() == aliases_listed(plain@),
{
    let options = match json_text::find_field_text(plain, "compilerOptions", 1) {
        Some(options) => options,
        None => {
            return None;
        },
    };
    let paths = match json_text::find_field_text(options.as_str(), "paths", 1) {
        Some(paths) => paths,
        None => {
            return None;
        },
    };
    let members = json_text::list_members(paths.as_str());
    let ghost all = members.deep_view();
    let mut out: Vec<(String, Vec<String>)> = Vec::new();
    let mut i: usize = 0;
    assert(all.take(0) =~= Seq::<(Text, Text)>::empty());
    assert(out.deep_view() =~= Seq::<(Text, Seq<Text>)>::empty());
    while i < members.len()
        invariant
            i <= members.len(),
            all == members.deep_view(),
            aliases_among(all.take(i as int)) == Some(out.deep_view()),
            aliases_listed(plain@) == aliases_among(all),
        decreases members.len() - i,
    {
        let ghost before = out.deep_view();
        assert(all.take(i + 1).drop_last() =~= all.take(i as int));
        assert(all.take(i + 1).last() == (members@[i as int].0@, members@[i as int].1@));
        let targets = match json::parse_json(members[i].1.as_str()) {
            Ok(v) => v.texts(),
            Err(_) => None,
        };
        match targets {
            Some(targets) => {
                let ghost view = (members@[i as int].0@, targets.deep_view());
                out.push((members[i].0.clone(), targets));
                assert(out.deep_view() =~= before.push(view));
            },
            None => {
                proof {
                    lemma_no_aliases(all, i as int);
                }
                return None;
            },
        }
        i += 1;
    }
    assert(all.take(i as int) =~= all);
    Some(out)
}

/// Where one list of aliases fails, so do all that go on from it.
proof fn lemma_no_aliases(members: Seq<(Text, Text)>, i: int)
    requires
        0 <= i < members.len(),
        aliases_among(members.take(i + 1)) is None,
    ensures
        aliases_among(members) is None,
    decreases members.len(),
{
    if i + 1 < members.len() {
        let init = members.drop_last();
        assert(init.take(i + 1) =~= members.take(i + 1));
        lemma_no_aliases(init, i);
    } else {
        assert(members.take(i + 1) =~= members);
    }
}

/// What a text and the document in it say as a `tsconfig.json`.
pub fn read_typed(plain: &str, config: &Json) -> (r: Option<Tsconfig>)
    ensures
        r.deep_view() == tsconfig_read(plain@, *config),
{
    if gives_field_twice(plain) {
        return None;
    }
    match tsconfig_of(config) {
        Some(t) => {
            let Tsconfig { extends, base_url, paths } = t;
            match paths {
                Some(_) => match list_aliases(plain) {
                    Some(listed) => Some(Tsconfig { extends, base_url, paths: Some(listed) }),
                    None => None,
                },
                None => Some(Tsconfig { extends, base_url, paths: None }),
            }
        },
        None => None,
    }
}

// ---------------------------------------------------------------------------
// What `extends` names
// ---------------------------------------------------------------------------

/// The file at a path, or at the path with `.json` behind it.
pub open spec fn config_at(tree: FileTree, path: Text) -> Option<Text> {
    if tree.has_file(path) {
        Some(path)
    } else if tree.has_file(path + ".json"@) {
        Some(path + ".json"@)
    } else {
        None
    }
}

/// The name and the configuration that a package manifest gives.
pub open spec fn manifest_at(tree: FileTree, root: Text) -> Option<(Option<Text>, Option<Text>)> {
    match tree.content(path_join(root, "package.json"@)) {
        Some(content) => match json_document(content) {
            Ok(manifest) => if manifest.is_record(2, 2) && !repeats(content, "name"@) && !repeats(
                content,
                "tsconfig"@,
            ) {
                match (optional_text(manifest, "name"@, 0), optional_text(manifest, "tsconfig"@, 1)) {
                    (Some(name), Some(tsconfig)) => Some((name, tsconfig)),
                    _ => None,
                }
            } else {
                None
            },
            Err(_) => None,
        },
        None => None,
    }
}

/// The configuration that a package names, or else `tsconfig.json`.
pub open spec fn package_config(tree: FileTree, root: Text) -> Text {
    match manifest_at(tree, root) {
        Some((_, Some(tsconfig))) => tsconfig,
        _ => "tsconfig.json"@,
    }
}

/// The path inside the package that a specifier names. A bare name stands for the configuration
/// of the package. `None` where the specifier names another package.
pub open spec fn path_in_package(
    tree: FileTree,
    specifier: Text,
    name: Text,
    root: Text,
) -> Option<Text> {
    if !has_prefix(specifier, name) {
        None
    } else {
        let rest = specifier.skip(name.len() as int);
        if has_prefix(rest, "/"@) {
            Some(rest.skip(1))
        } else if rest.len() == 0 {
            Some(package_config(tree, root))
        } else {
            None
        }
    }
}

/// The configuration that a specifier names in a project, by the name of the project or of its
/// package.
pub open spec fn config_in_project(
    tree: FileTree,
    cwd: Text,
    p: ProjectView,
    specifier: Text,
) -> Option<Text> {
    let root = path_join(cwd, p.root);
    let inside = match path_in_package(tree, specifier, p.name, root) {
        Some(path) => Some(path),
        None => match manifest_at(tree, root) {
            Some((Some(name), _)) => path_in_package(tree, specifier, name, root),
            _ => None,
        },
    };
    match inside {
        Some(path) => config_at(tree, path_join(root, path)),
        None => None,
    }
}

/// The configuration that a specifier names in the first project that has it.
pub open spec fn config_in_projects(
    tree: FileTree,
    cwd: Text,
    projects: Seq<ProjectView>,
    specifier: Text,
) -> Option<Text>
    decreases projects.len(),
{
    if projects.len() == 0 {
        None
    } else {
        match config_in_project(tree, cwd, projects[0], specifier) {
            Some(path) => Some(path),
            None => config_in_projects(tree, cwd, projects.drop_first(), specifier),
        }
    }
}

/// The directory that takes the first `k` segments of a path.
pub open spec fn ancestor(p: Text, k: int) -> Text {
    path_of(absolute(p), segments(p).take(k))
}

/// The configuration that a specifier names among the packages installed in a directory.
pub open spec fn config_installed(tree: FileTree, dir: Text, specifier: Text) -> Option<Text> {
    let package = path_join(path_join(dir, "node_modules"@), specifier);
    if tree.has_dir(package) {
        config_at(tree, path_join(package, package_config(tree, package)))
    } else {
        config_at(tree, package)
    }
}

/// The configuration that a specifier names among the packages installed in the directory of `k`
/// segments, or in the nearest above it that lies in the workspace.
pub open spec fn config_installed_above(
    tree: FileTree,
    cwd: Text,
    dir: Text,
    k: nat,
    specifier: Text,
) -> Option<Text>
    decreases k,
{
    if !path_under(ancestor(dir, k as int), cwd) {
        None
    } else {
        match config_installed(tree, ancestor(dir, k as int), specifier) {
            Some(path) => Some(path),
            None => if k == 0 {
                None
            } else {
                config_installed_above(tree, cwd, dir, (k - 1) as nat, specifier)
            },
        }
    }
}

/// The configuration that an `extends` names, as seen from the directory `dir`.
pub open spec fn extended(
    tree: FileTree,
    cwd: Text,
    projects: Seq<ProjectView>,
    dir: Text,
    specifier: Text,
) -> Option<Text> {
    if has_prefix(specifier, "."@) || absolute(specifier) {
        config_at(tree, path_join(dir, specifier))
    } else {
        match config_in_projects(tree, cwd, projects, specifier) {
            Some(path) => Some(path),
            None => config_installed_above(tree, cwd, dir, segments(dir).len(), specifier),
        }
    }
}

/// The file at a path, or at the path with `.json` behind it.
fn existing_config(path: String, tree: &FileTree) -> (r: Option<String>)
    ensures
        r.deep_view() == config_at(*tree, path@),
{
    if tree.is_file(path.as_str()) {
        return Some(path);
    }
    let with_extension = text::cat(path.as_str(), ".json");
    if tree.is_file(with_extension.as_str()) {
        Some(with_extension)
    } else {
        None
    }
}

/// The name and the configuration that a package manifest gives.
fn package_manifest(root: &str, tree: &FileTree) -> (r: Option<(Option<String>, Option<String>)>)
    ensures
        r.deep_view() == manifest_at(*tree, root@),
{
    let content = match tree.read(paths::join(root, "package.json").as_str()) {
        Some(c) => c,
        None => {
            return None;
        },
    };
    let manifest = match json::parse_json(content) {
        Ok(m) => m,
        Err(_) => {
            return None;
        },
    };
    if !manifest.record(2, 2) || json_text::repeats_key(content, "name") || json_text::repeats_key(
        content,
        "tsconfig",
    ) {
        return None;
    }
    match (read_optional_text(&manifest, "name", 0), read_optional_text(&manifest, "tsconfig", 1)) {
        (Some(name), Some(tsconfig)) => Some((name, tsconfig)),
        _ => None,
    }
}

/// The configuration that a package names, or else `tsconfig.json`.
fn read_package_config(root: &str, tree: &FileTree) -> (r: String)
    ensures
        r@ == package_config(*tree, root@),
{
    match package_manifest(root, tree) {
        Some((_, Some(tsconfig))) => tsconfig,
        _ => "tsconfig.json".to_owned(),
    }
}

/// The path inside the package that a specifier names.
fn strip_package_prefix(specifier: &str, name: &str, root: &str, tree: &FileTree) -> (r: Option<
    String,
>)
    ensures
        r.deep_view() == path_in_package(*tree, specifier@, name@, root@),
{
    proof {
        reveal_strlit("/");
    }
    match text::strip_prefix(specifier, name) {
        None => None,
        Some(rest) => match text::strip_prefix(rest, "/") {
            Some(inside) => Some(inside.to_owned()),
            None => {
                if rest.is_empty() {
                    Some(read_package_config(root, tree))
                } else {
                    None
                }
            },
        },
    }
}

/// The configuration that a specifier names in a project.
fn find_in_project(tree: &FileTree, cwd: &str, p: &Project, specifier: &str) -> (r: Option<String>)
    ensures
        r.deep_view() == config_in_project(*tree, cwd@, p.deep_view(), specifier@),
{
    let root = paths::join(cwd, p.root.as_str());
    let inside = match strip_package_prefix(specifier, p.name.as_str(), root.as_str(), tree) {
        Some(path) => Some(path),
        None => match package_manifest(root.as_str(), tree) {
            Some((Some(name), _)) => strip_package_prefix(
                specifier,
                name.as_str(),
                root.as_str(),
                tree,
            ),
            _ => None,
        },
    };
    match inside {
        Some(path) => existing_config(paths::join(root.as_str(), path.as_str()), tree),
        None => None,
    }
}

/// The configuration that a specifier names in the first project that has it.
fn find_in_projects(tree: &FileTree, cwd: &str, projects: &Vec<Project>, specifier: &str) -> (r:
    Option<String>)
    ensures
        r.deep_view() == config_in_projects(*tree, cwd@, projects.deep_view(), specifier@),
{
    let ghost all = projects.deep_view();
    let mut i: usize = 0;
    assert(all.skip(0) =~= all);
    while i < projects.len()
        invariant
            i <= projects.len(),
            all == projects.deep_view(),
            config_in_projects(*tree, cwd@, all, specifier@) == config_in_projects(
                *tree,
                cwd@,
                all.skip(i as int),
                specifier@,
            ),
        decreases projects.len() - i,
    {
        assert(all.skip(i as int)[0] == projects@[i as int].deep_view());
        assert(all.skip(i as int).drop_first() =~= all.skip(i + 1));
        let found = find_in_project(tree, cwd, &projects[i], specifier);
        if found.is_some() {
            return found;
        }
        i += 1;
    }
    None
}

/// The directory that takes the first `k` segments of a path.
pub fn ancestor_of(p: &str, segs: &Vec<String>, k: usize) -> (r: String)
    requires
        segs.deep_view() == segments(p@),
        k <= segs.len(),
    ensures
        r@ == ancestor(p@, k as int),
{
    paths::make_path(paths::is_absolute(p), &paths::first_texts(segs, k))
}

/// The configuration that a specifier names among the packages installed in a directory.
fn find_installed(tree: &FileTree, dir: &str, specifier: &str) -> (r: Option<String>)
    ensures
        r.deep_view() == config_installed(*tree, dir@, specifier@),
{
    let modules = paths::join(dir, "node_modules");
    let package = paths::join(modules.as_str(), specifier);
    if tree.is_dir(package.as_str()) {
        let entry = read_package_config(package.as_str(), tree);
        existing_config(paths::join(package.as_str(), entry.as_str()), tree)
    } else {
        existing_config(package, tree)
    }
}

/// The configuration that a specifier names among the packages installed in the directory or
/// above it.
fn find_installed_above(tree: &FileTree, cwd: &str, dir: &str, specifier: &str) -> (r: Option<
    String,
>)
    ensures
        r.deep_view() == config_installed_above(
            *tree,
            cwd@,
            dir@,
            segments(dir@).len(),
            specifier@,
        ),
{
    let segs = paths::split_path(dir);
    assert(segs.deep_view().len() == segs.len());
    let mut k: usize = segs.len();
    loop
        invariant
            segs.deep_view() == segments(dir@),
            segs.deep_view().len() == segs.len(),
            k <= segs.len(),
            config_installed_above(*tree, cwd@, dir@, segments(dir@).len(), specifier@)
                == config_installed_above(*tree, cwd@, dir@, k as nat, specifier@),
        decreases k,
    {
        let here = ancestor_of(dir, &segs, k);
        if !paths::starts_with(here.as_str(), cwd) {
            return None;
        }
        let found = find_installed(tree, here.as_str(), specifier);
        if found.is_some() {
            return found;
        }
        if k == 0 {
            return None;
        }
        k -= 1;
    }
}

/// The configuration that an `extends` names, as seen from the directory `dir`.
fn resolve_extends(
    tree: &FileTree,
    cwd: &str,
    projects: &Vec<Project>,
    dir: &str,
    specifier: &str,
) -> (r: Option<String>)
    ensures
        r.deep_view() == extended(*tree, cwd@, projects.deep_view(), dir@, specifier@),
{
    if text::starts_with(specifier, ".") || paths::is_absolute(specifier) {
        return existing_config(paths::join(dir, specifier), tree);
    }
    let found = find_in_projects(tree, cwd, projects, specifier);
    if found.is_some() {
        return found;
    }
    find_installed_above(tree, cwd, dir, specifier)
}

// ---------------------------------------------------------------------------
// The chain
// ---------------------------------------------------------------------------

/// The longest chain of configurations that is followed.
pub const MAX_EXTENDS_DEPTH: usize = 64;

/// What holds after a chain of configurations: the `baseUrl`, and the aliases with the directory
/// that their targets are seen from.
pub struct Effective {
    pub base_url: Option<String>,
    pub paths: Option<(Vec<(String, Vec<String>)>, String)>,
}

/// The view of [`Effective`].
pub struct EffectiveView {
    pub base_url: Option<Text>,
    pub paths: Option<(PatternsView, Text)>,
}

impl DeepView for Effective {
    type V = EffectiveView;

    open spec fn deep_view(&self) -> EffectiveView {
        EffectiveView { base_url: self.base_url.deep_view(), paths: self.paths.deep_view() }
    }
}

/// The value, or else the one that held before.
pub open spec fn or_before<T>(value: Option<T>, before: Option<T>) -> Option<T> {
    if value is Some {
        value
    } else {
        before
    }
}

/// A value with `${configDir}` filled in.
pub open spec fn expanded(value: Text, config_dir: Text) -> Text {
    replaced(value, "${configDir}"@, config_dir)
}

/// Aliases with `${configDir}` filled into their targets.
pub open spec fn expanded_patterns(patterns: PatternsView, config_dir: Text) -> PatternsView {
    Seq::new(
        patterns.len(),
        |i: int|
            (
                patterns[i].0,
                Seq::new(
                    patterns[i].1.len(),
                    |j: int| expanded(patterns[i].1[j], config_dir),
                ),
            ),
    )
}

/// What holds after the configuration's own options override what it inherits. Aliases are
/// replaced, never merged.
pub open spec fn overridden(
    inherited: EffectiveView,
    config: TsconfigView,
    dir: Text,
    config_dir: Text,
) -> EffectiveView {
    EffectiveView {
        base_url: match config.base_url {
            Some(base) => Some(path_join(dir, expanded(base, config_dir))),
            None => inherited.base_url,
        },
        paths: match config.paths {
            Some(patterns) => Some((expanded_patterns(patterns, config_dir), dir)),
            None => inherited.paths,
        },
    }
}

/// What a configuration says, with all that it extends. `None` where it cannot be read, where it
/// extends itself, or where the chain is too long.
pub open spec fn effective(
    tree: FileTree,
    cwd: Text,
    projects: Seq<ProjectView>,
    config_dir: Text,
    tsconfig: Text,
    chain: Seq<Text>,
) -> Option<EffectiveView>
    decreases MAX_EXTENDS_DEPTH - chain.len(), 0nat,
{
    if chain.contains(place(tsconfig)) || chain.len() >= MAX_EXTENDS_DEPTH {
        None
    } else {
        match (tsconfig_at(tree, tsconfig), path_parent(tsconfig)) {
            (Some(config), Some(dir)) => Some(
                overridden(
                    inherited(
                        tree,
                        cwd,
                        projects,
                        config_dir,
                        dir,
                        config.extends,
                        chain.push(place(tsconfig)),
                    ),
                    config,
                    dir,
                    config_dir,
                ),
            ),
            _ => None,
        }
    }
}

/// What the configurations that one extends say: each overrides those before it.
pub open spec fn inherited(
    tree: FileTree,
    cwd: Text,
    projects: Seq<ProjectView>,
    config_dir: Text,
    dir: Text,
    specifiers: Seq<Text>,
    chain: Seq<Text>,
) -> EffectiveView
    decreases MAX_EXTENDS_DEPTH - chain.len(), specifiers.len(),
{
    if specifiers.len() == 0 {
        EffectiveView { base_url: None, paths: None }
    } else {
        let before = inherited(
            tree,
            cwd,
            projects,
            config_dir,
            dir,
            specifiers.drop_last(),
            chain,
        );
        match extended(tree, cwd, projects, dir, specifiers.last()) {
            None => before,
            Some(parent) => match effective(tree, cwd, projects, config_dir, parent, chain) {
                None => before,
                Some(e) => EffectiveView {
                    base_url: or_before(e.base_url, before.base_url),
                    paths: or_before(e.paths, before.paths),
                },
            },
        }
    }
}

/// The aliases that a configuration gives. `None` where neither aliases nor a `baseUrl` hold.
pub open spec fn loaded(
    tree: FileTree,
    cwd: Text,
    projects: Seq<ProjectView>,
    tsconfig: Text,
) -> Option<TsconfigPathsView> {
    match path_parent(tsconfig) {
        None => None,
        Some(config_dir) => match effective(
            tree,
            cwd,
            projects,
            config_dir,
            tsconfig,
            Seq::empty(),
        ) {
            None => None,
            Some(e) => match (e.base_url, e.paths) {
                (Some(base), Some((patterns, _))) => Some(
                    TsconfigPathsView { base_dir: base, patterns, base_url: Some(base) },
                ),
                (Some(base), None) => Some(
                    TsconfigPathsView {
                        base_dir: base,
                        patterns: Seq::empty(),
                        base_url: Some(base),
                    },
                ),
                (None, Some((patterns, dir))) => Some(
                    TsconfigPathsView { base_dir: dir, patterns, base_url: None },
                ),
                (None, None) => None,
            },
        },
    }
}

/// A value with `${configDir}` filled in.
fn expand_config_dir(value: &str, config_dir: &str) -> (r: String)
    ensures
        r@ == expanded(value@, config_dir@),
{
    proof {
        reveal_strlit("${configDir}");
    }
    text::replace(value, "${configDir}", config_dir)
}

/// Some targets with `${configDir}` filled in.
fn expand_targets(targets: &Vec<String>, config_dir: &str) -> (r: Vec<String>)
    ensures
        r.deep_view() == Seq::new(
            targets.deep_view().len(),
            |j: int| expanded(targets.deep_view()[j], config_dir@),
        ),
{
    let ghost goal = Seq::new(
        targets.deep_view().len(),
        |j: int| expanded(targets.deep_view()[j], config_dir@),
    );
    let mut out: Vec<String> = Vec::new();
    let mut i: usize = 0;
    assert(out.deep_view() =~= goal.take(0));
    while i < targets.len()
        invariant
            i <= targets.len(),
            goal == Seq::new(
                targets.deep_view().len(),
                |j: int| expanded(targets.deep_view()[j], config_dir@),
            ),
            out.deep_view() == goal.take(i as int),
        decreases targets.len() - i,
    {
        let ghost before = out.deep_view();
        assert(targets.deep_view()[i as int] == targets@[i as int]@);
        let target = expand_config_dir(targets[i].as_str(), config_dir);
        let ghost view = target@;
        out.push(target);
        assert(out.deep_view() =~= before.push(view));
        assert(goal.take(i + 1) =~= goal.take(i as int).push(view));
        i += 1;
    }
    assert(goal.take(i as int) =~= goal);
    out
}

/// Aliases with `${configDir}` filled into their targets.
fn expand_patterns(patterns: &Vec<(String, Vec<String>)>, config_dir: &str) -> (r: Vec<
    (String, Vec<String>),
>)
    ensures
        r.deep_view() == expanded_patterns(patterns.deep_view(), config_dir@),
{
    let ghost all = patterns.deep_view();
    let ghost goal = expanded_patterns(all, config_dir@);
    let mut out: Vec<(String, Vec<String>)> = Vec::new();
    let mut i: usize = 0;
    assert(out.deep_view() =~= goal.take(0));
    while i < patterns.len()
        invariant
            i <= patterns.len(),
            all == patterns.deep_view(),
            goal == expanded_patterns(all, config_dir@),
            out.deep_view() == goal.take(i as int),
        decreases patterns.len() - i,
    {
        let ghost before = out.deep_view();
        let targets = expand_targets(&patterns[i].1, config_dir);
        let ghost view = (patterns@[i as int].0@, targets.deep_view());
        proof {
            assert(all[i as int].0 == patterns@[i as int].0@);
            assert(all[i as int].1 == patterns@[i as int].1.deep_view());
            assert(goal[i as int].1 =~= view.1);
        }
        out.push((patterns[i].0.clone(), targets));
        assert(out.deep_view() =~= before.push(view));
        assert(goal.take(i + 1) =~= goal.take(i as int).push(view));
        i += 1;
    }
    assert(goal.take(i as int) =~= goal);
    out
}

/// Whether a text is among some.
fn is_among(texts: &Vec<String>, t: &str) -> (r: bool)
    ensures
        r == texts.deep_view().contains(t@),
{
    let ghost all = texts.deep_view();
    let mut i: usize = 0;
    while i < texts.len()
        invariant
            i <= texts.len(),
            all == texts.deep_view(),
            forall|j: int| 0 <= j < i ==> #[trigger] all[j] != t@,
        decreases texts.len() - i,
    {
        assert(all[i as int] == texts@[i as int]@);
        if text::same(texts[i].as_str(), t) {
            return true;
        }
        i += 1;
    }
    false
}

/// What a configuration says, with all that it extends.
fn load_chain(
    tree: &FileTree,
    cwd: &str,
    projects: &Vec<Project>,
    config_dir: &str,
    tsconfig: &str,
    chain: &mut Vec<String>,
) -> (r: Option<Effective>)
    requires
        old(chain).len() <= MAX_EXTENDS_DEPTH,
    ensures
        final(chain).deep_view() == old(chain).deep_view(),
        r.deep_view() == effective(
            *tree,
            cwd@,
            projects.deep_view(),
            config_dir@,
            tsconfig@,
            old(chain).deep_view(),
        ),
    decreases MAX_EXTENDS_DEPTH - old(chain).len(),
{
    let ghost known = chain.deep_view();
    let ghost all = projects.deep_view();
    assert(known.len() == chain.len());
    let canonical = paths::place_of(tsconfig);
    if is_among(chain, canonical.as_str()) || chain.len() >= MAX_EXTENDS_DEPTH {
        return None;
    }
    let config = match read_tsconfig(tsconfig, tree) {
        Some(c) => c,
        None => {
            return None;
        },
    };
    let dir = match paths::parent(tsconfig) {
        Some(d) => d,
        None => {
            return None;
        },
    };
    let ghost view = config.deep_view();
    let ghost longer = known.push(canonical@);
    chain.push(canonical);
    assert(chain.deep_view() =~= longer);
    let mut base_url: Option<String> = None;
    let mut found: Option<(Vec<(String, Vec<String>)>, String)> = None;
    let ghost names = config.extends.deep_view();
    let mut i: usize = 0;
    assert(names.take(0) =~= Seq::<Text>::empty());
    while i < config.extends.len()
        invariant
            i <= config.extends.len(),
            names == config.extends.deep_view(),
            all == projects.deep_view(),
            chain.deep_view() == longer,
            chain.len() == longer.len(),
            longer.len() == old(chain).len() + 1,
            longer.len() <= MAX_EXTENDS_DEPTH,
            (EffectiveView { base_url: base_url.deep_view(), paths: found.deep_view() })
                == inherited(
                *tree,
                cwd@,
                all,
                config_dir@,
                dir@,
                names.take(i as int),
                longer,
            ),
        decreases config.extends.len() - i,
    {
        assert(names.take(i + 1).drop_last() =~= names.take(i as int));
        assert(names.take(i + 1).last() == config.extends@[i as int]@);
        let specifier = config.extends[i].as_str();
        if let Some(parent) = resolve_extends(tree, cwd, projects, dir.as_str(), specifier) {
            if let Some(e) = load_chain(tree, cwd, projects, config_dir, parent.as_str(), chain) {
                let Effective { base_url: b, paths: p } = e;
                if b.is_some() {
                    base_url = b;
                }
                if p.is_some() {
                    found = p;
                }
            }
            assert(chain.deep_view().len() == chain.len());
        }
        i += 1;
    }
    assert(names.take(i as int) =~= names);
    let ghost whole = chain@;
    assert(whole.len() > 0);
    chain.pop();
    assert(chain@ == whole.drop_last());
    assert(longer.drop_last() =~= known);
    assert(chain.deep_view() =~= longer.drop_last());
    if let Some(base) = &config.base_url {
        let value = expand_config_dir(base.as_str(), config_dir);
        base_url = Some(paths::join(dir.as_str(), value.as_str()));
    }
    if let Some(patterns) = &config.paths {
        found = Some((expand_patterns(patterns, config_dir), dir));
    }
    Some(Effective { base_url, paths: found })
}

impl TsconfigPaths {
    /// The aliases that a configuration gives, with what it inherits. `None` where neither
    /// aliases nor a `baseUrl` hold.
    pub fn load(tsconfig: &str, cwd: &str, projects: &Vec<Project>, tree: &FileTree) -> (r: Option<
        Self,
    >)
        ensures
            r.deep_view() == loaded(*tree, cwd@, projects.deep_view(), tsconfig@),
    {
        let config_dir = match paths::parent(tsconfig) {
            Some(d) => d,
            None => {
                return None;
            },
        };
        let mut chain: Vec<String> = Vec::new();
        assert(chain.deep_view() =~= Seq::<Text>::empty());
        let Effective { base_url, paths: found } = match load_chain(
            tree,
            cwd,
            projects,
            config_dir.as_str(),
            tsconfig,
            &mut chain,
        ) {
            Some(e) => e,
            None => {
                return None;
            },
        };
        let base = copy_text(&base_url);
        match (base_url, found) {
            (Some(base_dir), Some((patterns, _))) => Some(
                TsconfigPaths { base_dir, patterns, base_url: base },
            ),
            (Some(base_dir), None) => {
                let patterns: Vec<(String, Vec<String>)> = Vec::new();
                assert(patterns.deep_view() =~= Seq::<(Text, Seq<Text>)>::empty());
                Some(TsconfigPaths { base_dir, patterns, base_url: base })
            },
            (None, Some((patterns, base_dir))) => Some(
                TsconfigPaths { base_dir, patterns, base_url: base },
            ),
            (None, None) => None,
        }
    }
}

} // verus!
