//! Turborepo workspaces.

use crate::error::DominoError;
use crate::files::FileTree;
use crate::json;
use crate::json::{json_document, stripped_json, Json};
use crate::json_text;
use crate::json_text::repeats;
use crate::paths;
use crate::paths::path_join;
use crate::text::Text;
use crate::types::Project;
use crate::workspace::workspaces;
use crate::workspace::workspaces::projects_result;
use vstd::prelude::*;

verus! {

/// What is read of a `turbo.json` or `turbo.jsonc`.
#[derive(Debug, PartialEq, Eq)]
pub struct TurboConfig {
    /// Patterns for files that all projects depend on.
    pub global_dependencies: Vec<String>,
}

/// The configuration file of a Turborepo workspace.
pub open spec fn turbo_file(tree: FileTree, cwd: Text) -> Option<Text> {
    if tree.has_file(path_join(cwd, "turbo.json"@)) {
        Some(path_join(cwd, "turbo.json"@))
    } else if tree.has_file(path_join(cwd, "turbo.jsonc"@)) {
        Some(path_join(cwd, "turbo.jsonc"@))
    } else {
        None
    }
}

/// The global dependencies in a configuration: none where it does not speak of them.
pub open spec fn dependencies_in(config: Json) -> Option<Seq<Text>> {
    if config.is_record(0, 1) {
        match config.field("globalDependencies"@, 0) {
            Some(list) => list.text_list(),
            None => Some(Seq::empty()),
        }
    } else {
        None
    }
}

/// The global dependencies that the text of a configuration lists.
pub open spec fn turbo_dependencies(content: Text) -> Option<Seq<Text>> {
    match stripped_json(content) {
        Some(plain) => match json_document(plain) {
            Ok(config) => if repeats(plain, "globalDependencies"@) {
                None
            } else {
                dependencies_in(config)
            },
            Err(_) => None,
        },
        None => None,
    }
}

/// The global dependencies of the workspace, where there is a configuration to read.
pub open spec fn turbo_config(tree: FileTree, cwd: Text) -> Option<Seq<Text>> {
    match turbo_file(tree, cwd) {
        Some(path) => match tree.content(path) {
            Some(content) => turbo_dependencies(content),
            None => None,
        },
        None => None,
    }
}

/// The configuration file of a Turborepo workspace.
pub fn find_config_file(cwd: &str, tree: &FileTree) -> (r: Option<String>)
    ensures
        r.deep_view() == turbo_file(*tree, cwd@),
{
    let plain = paths::join(cwd, "turbo.json");
    if tree.is_file(plain.as_str()) {
        return Some(plain);
    }
    let commented = paths::join(cwd, "turbo.jsonc");
    if tree.is_file(commented.as_str()) {
        Some(commented)
    } else {
        None
    }
}

/// Whether there is a Turborepo configuration.
pub fn is_turbo_workspace(cwd: &str, tree: &FileTree) -> (r: bool)
    ensures
        r == (turbo_file(*tree, cwd@) is Some),
{
    find_config_file(cwd, tree).is_some()
}

/// The configuration that a parsed document holds.
pub fn config_of(document: &Json) -> (r: Option<TurboConfig>)
    ensures
        match r {
            Some(c) => dependencies_in(*document) == Some(c.global_dependencies.deep_view()),
            None => dependencies_in(*document) is None,
        },
{
    if !document.record(0, 1) {
        return None;
    }
    match document.get_field("globalDependencies", 0) {
        Some(list) => match list.texts() {
            Some(global_dependencies) => Some(TurboConfig { global_dependencies }),
            None => None,
        },
        None => {
            let global_dependencies: Vec<String> = Vec::new();
            assert(global_dependencies.deep_view() =~= Seq::<Text>::empty());
            Some(TurboConfig { global_dependencies })
        },
    }
}

/// The configuration of the workspace. There is none where there is no file, or where the file
/// cannot be read or parsed.
pub fn parse_config(cwd: &str, tree: &FileTree) -> (r: Option<TurboConfig>)
    ensures
        match r {
            Some(c) => turbo_config(*tree, cwd@) == Some(c.global_dependencies.deep_view()),
            None => turbo_config(*tree, cwd@) is None,
        },
{
    let path = match find_config_file(cwd, tree) {
        Some(p) => p,
        None => {
            return None;
        },
    };
    let content = match tree.read(path.as_str()) {
        Some(c) => c,
        None => {
            return None;
        },
    };
    let plain = match json::strip_json(content) {
        Some(p) => p,
        None => {
            return None;
        },
    };
    match json::parse_json(plain.as_str()) {
        Ok(document) => if json_text::repeats_key(plain.as_str(), "globalDependencies") {
            None
        } else {
            config_of(&document)
        },
        Err(_) => None,
    }
}

/// The projects of the workspace: those of the package manager.
pub fn get_projects(cwd: &str, tree: &FileTree, walked: &Vec<String>) -> (r: Result<
    Vec<Project>,
    DominoError,
>)
    ensures
        projects_result(r) == workspaces::workspace_projects(*tree, walked.deep_view(), cwd@),
{
    workspaces::get_projects(cwd, tree, walked)
}

} // verus!
