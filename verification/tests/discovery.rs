use domino::error::DominoError;
use domino::files::FileTree;
use domino::types::Project;
use domino::workspace::discover_projects;
use domino::workspace::discovery::walk_excludes;
use ignore::gitignore::GitignoreBuilder;
use ignore::overrides::OverrideBuilder;
use std::path::Path;

const CWD: &str = "/repo";

/// The files that a walk comes by: what the overrides or a `.gitignore` at the root exclude, by
/// itself or by a directory above it, is left out.
fn walk(tree: &FileTree) -> Vec<String> {
    let mut overrides = OverrideBuilder::new(CWD);
    for pattern in walk_excludes(&vec![]) {
        overrides.add(&pattern).unwrap();
    }
    let overrides = overrides.build().unwrap();
    let mut ignored = GitignoreBuilder::new(CWD);
    for line in tree.read("/repo/.gitignore").unwrap_or("").lines() {
        ignored.add_line(None, line).unwrap();
    }
    let ignored = ignored.build().unwrap();
    let mut out = Vec::new();
    for i in 0..tree.count() {
        let file = Path::new(tree.path_at(i));
        let left_out = file
            .ancestors()
            .take_while(|p| *p != Path::new(CWD))
            .any(|p| {
                let is_dir = p != file;
                overrides.matched(p, is_dir).is_ignore() || ignored.matched(p, is_dir).is_ignore()
            });
        if !left_out {
            out.push(tree.path_at(i).to_string());
        }
    }
    out
}

fn discover(tree: &FileTree) -> Result<Vec<Project>, DominoError> {
    discover_projects(CWD, tree, &walk(tree), Ok(vec![]), Ok(vec![]))
}

fn write_package_json(tree: &mut FileTree, dir_name: &str, pkg_name: &str) {
    tree.add_file(
        &format!("/repo/{}/package.json", dir_name),
        Some(format!(r#"{{ "name": "{}" }}"#, pkg_name)),
    );
}

#[test]
fn test_nx_merge_honors_negated_workspace_patterns() {
    let mut tree = FileTree::new();

    tree.add_file("/repo/nx.json", Some("{}".to_string()));
    tree.add_file("/repo/package.json", Some(r#"{ "name": "root", "workspaces": ["packages/*", "!packages/examples/**"] }"#.to_string()));
    write_package_json(&mut tree, "packages/lib", "lib");
    write_package_json(&mut tree, "packages/examples", "examples");

    let projects = discover(&tree).unwrap();
    let names: Vec<&str> = projects.iter().map(|p| p.name.as_str()).collect();

    assert!(
        names.contains(&"lib"),
        "included package must be discovered"
    );
    assert!(
        !names.contains(&"examples"),
        "package excluded by a negated workspace glob must not be merged in, got {names:?}"
    );
}

#[test]
fn test_nx_merge_with_unnamed_root_manifest() {
    let mut tree = FileTree::new();

    tree.add_file("/repo/nx.json", Some("{}".to_string()));
    tree.add_file("/repo/package.json", Some(r#"{ "private": true, "workspaces": ["packages/*"] }"#.to_string()));
    write_package_json(&mut tree, "packages/lib", "lib");

    let names: Vec<String> = discover(&tree)
        .unwrap()
        .into_iter()
        .map(|p| p.name)
        .collect();
    assert!(
        names.iter().any(|name| name == "lib"),
        "an unnamed root must still be recognised as a workspace, got {names:?}"
    );
}

#[test]
fn test_merged_package_keeps_nx_implicit_dependencies() {
    let mut tree = FileTree::new();

    tree.add_file("/repo/nx.json", Some("{}".to_string()));
    tree.add_file("/repo/package.json", Some(r#"{ "private": true, "workspaces": ["packages/*"] }"#.to_string()));
    tree.add_dir("/repo/packages/web");
    tree.add_file("/repo/packages/web/package.json", Some(r#"{ "name": "web", "nx": { "implicitDependencies": ["shared-config"], "targets": { "build": {} } } }"#.to_string()));

    let projects = discover(&tree).unwrap();
    let web = projects
        .iter()
        .find(|p| p.name == "web")
        .expect("web must be merged");

    assert_eq!(
        web.implicit_dependencies,
        vec!["shared-config".to_string()],
        "the package's nx.implicitDependencies must survive the merge"
    );
    assert_eq!(web.targets, vec!["build".to_string()]);
}

#[test]
fn test_nx_merge_with_yarn_object_workspaces() {
    let mut tree = FileTree::new();

    tree.add_file("/repo/nx.json", Some("{}".to_string()));
    tree.add_file("/repo/package.json", Some(r#"{ "private": true, "workspaces": { "packages": ["packages/*"], "nohoist": ["**/react-native"] } }"#.to_string()));
    write_package_json(&mut tree, "packages/lib", "lib");

    let names: Vec<String> = discover(&tree)
        .unwrap()
        .into_iter()
        .map(|p| p.name)
        .collect();
    assert!(
        names.iter().any(|name| name == "lib"),
        "Yarn's object form must be recognised as a workspace, got {names:?}"
    );
}

#[test]
fn test_merged_package_keeps_build_ts_config() {
    let mut tree = FileTree::new();

    tree.add_file("/repo/nx.json", Some("{}".to_string()));
    tree.add_file("/repo/package.json", Some(r#"{ "private": true, "workspaces": ["packages/*"] }"#.to_string()));
    tree.add_dir("/repo/packages/web");
    tree.add_file("/repo/packages/web/package.json", Some(r#"{ "name": "web", "nx": { "targets": { "build": { "options": { "tsConfig": "packages/web/tsconfig.app.json" } } } } }"#.to_string()));

    let projects = discover(&tree).unwrap();
    let web = projects
        .iter()
        .find(|p| p.name == "web")
        .expect("web must be merged");

    assert_eq!(
        web.ts_config,
        Some("/repo/packages/web/tsconfig.app.json".to_string()),
        "the build target's tsConfig must survive the merge"
    );
}

#[test]
fn test_merged_package_accepts_array_ts_config() {
    let mut tree = FileTree::new();

    tree.add_file("/repo/nx.json", Some("{}".to_string()));
    tree.add_file("/repo/package.json", Some(r#"{ "private": true, "workspaces": ["packages/*"] }"#.to_string()));
    tree.add_dir("/repo/packages/web");
    tree.add_file("/repo/packages/web/package.json", Some(r#"{
        "name": "web",
        "nx": {
          "implicitDependencies": ["shared-config"],
          "targets": {
            "build": {
              "options": {
                "tsConfig": ["packages/web/tsconfig.app.json", "packages/web/tsconfig.spec.json"]
              }
            }
          }
        }
      }"#.to_string()));

    let projects = discover(&tree).unwrap();
    let web = projects
        .iter()
        .find(|p| p.name == "web")
        .expect("web must be merged");

    assert_eq!(
        web.ts_config,
        Some("/repo/packages/web/tsconfig.app.json".to_string()),
        "the first entry of an array tsConfig is the build config"
    );
    assert_eq!(
        web.implicit_dependencies,
        vec!["shared-config".to_string()],
        "an array tsConfig must not discard the rest of the nx metadata"
    );
    assert_eq!(web.targets, vec!["build".to_string()]);
}

#[test]
fn test_merged_package_keeps_nx_source_root() {
    let mut tree = FileTree::new();

    tree.add_file("/repo/nx.json", Some("{}".to_string()));
    tree.add_file("/repo/package.json", Some(r#"{ "private": true, "workspaces": ["packages/*"] }"#.to_string()));
    tree.add_dir("/repo/packages/foo/client");
    tree.add_file("/repo/packages/foo/package.json", Some(r#"{ "name": "foo", "nx": { "sourceRoot": "packages/foo/client" } }"#.to_string()));

    let projects = discover(&tree).unwrap();
    let foo = projects
        .iter()
        .find(|p| p.name == "foo")
        .expect("foo must be merged");

    assert_eq!(
        foo.source_root,
        "packages/foo/client".to_string(),
        "the package's declared sourceRoot must survive the merge"
    );
    assert_eq!(
        foo.root,
        "packages/foo".to_string(),
        "the project root stays the package directory"
    );
}

#[test]
fn test_negated_pattern_does_not_cross_separators() {
    let mut tree = FileTree::new();

    tree.add_file("/repo/nx.json", Some("{}".to_string()));
    tree.add_file("/repo/package.json", Some(r#"{ "name": "root", "workspaces": ["packages/**", "!packages/*-example"] }"#.to_string()));
    write_package_json(&mut tree, "packages/top-example", "top-example");
    write_package_json(&mut tree, "packages/group/demo-example", "demo-example");

    let projects = discover(&tree).unwrap();
    let names: Vec<&str> = projects.iter().map(|p| p.name.as_str()).collect();

    assert!(
        !names.contains(&"top-example"),
        "the one-level exclusion covers packages/top-example, got {names:?}"
    );
    assert!(
        names.contains(&"demo-example"),
        "packages/group/demo-example is nested deeper than the exclusion, got {names:?}"
    );
}
