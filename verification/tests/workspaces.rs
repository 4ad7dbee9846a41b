use domino::error::DominoError;
use domino::files::FileTree;
use domino::workspace::discovery::walk_excludes;
use domino::workspace::workspaces::{get_projects, get_workspace_patterns};
use ignore::gitignore::GitignoreBuilder;
use ignore::overrides::OverrideBuilder;
use std::path::Path;

const CWD: &str = "/repo";

/// The files that a walk comes by: what the overrides or a `.gitignore` at the root exclude, by
/// itself or by a directory above it, is left out.
fn walk(tree: &FileTree) -> Vec<String> {
    let mut overrides = OverrideBuilder::new(CWD);
    for pattern in walk_excludes(&vec![]) {
        overrides.add(&pattern).unwrap();
    }
    let overrides = overrides.build().unwrap();
    let mut ignored = GitignoreBuilder::new(CWD);
    for line in tree.read("/repo/.gitignore").unwrap_or("").lines() {
        ignored.add_line(None, line).unwrap();
    }
    let ignored = ignored.build().unwrap();
    let mut out = Vec::new();
    for i in 0..tree.count() {
        let file = Path::new(tree.path_at(i));
        let left_out = file
            .ancestors()
            .take_while(|p| *p != Path::new(CWD))
            .any(|p| {
                let is_dir = p != file;
                overrides.matched(p, is_dir).is_ignore() || ignored.matched(p, is_dir).is_ignore()
            });
        if !left_out {
            out.push(tree.path_at(i).to_string());
        }
    }
    out
}

fn create_workspace_fixture(patterns: &[&str]) -> FileTree {
    let mut tree = FileTree::new();
    let workspaces: Vec<String> = patterns.iter().map(|p| format!(r#""{}""#, p)).collect();
    tree.add_file(
        "/repo/package.json",
        Some(format!(r#"{{ "name": "root", "workspaces": [{}] }}"#, workspaces.join(", "))),
    );
    tree
}

fn write_package_json(tree: &mut FileTree, dir_name: &str, pkg_name: &str) {
    tree.add_file(
        &format!("/repo/{}/package.json", dir_name),
        Some(format!(r#"{{ "name": "{}" }}"#, pkg_name)),
    );
}

#[test]
fn test_valid_workspace_projects_discovered() {
    let mut tree = create_workspace_fixture(&["packages/*"]);

    write_package_json(&mut tree, "packages/utils", "@myorg/utils");
    write_package_json(&mut tree, "packages/core", "@myorg/core");

    let projects = get_projects(CWD, &tree, &walk(&tree)).unwrap();
    let names: Vec<&str> = projects.iter().map(|p| p.name.as_str()).collect();

    assert_eq!(projects.len(), 2);
    assert!(names.contains(&"@myorg/utils"));
    assert!(names.contains(&"@myorg/core"));
}

#[test]
fn test_gitignore_excludes_workspace_project() {
    let mut tree = create_workspace_fixture(&["packages/*"]);

    write_package_json(&mut tree, "packages/utils", "@myorg/utils");
    write_package_json(&mut tree, "packages/ignored-pkg", "@myorg/ignored-pkg");

    tree.add_file("/repo/.gitignore", Some("packages/ignored-pkg\n".to_string()));

    let projects = get_projects(CWD, &tree, &walk(&tree)).unwrap();
    let names: Vec<&str> = projects.iter().map(|p| p.name.as_str()).collect();

    assert_eq!(projects.len(), 1);
    assert!(names.contains(&"@myorg/utils"));
    assert!(!names.contains(&"@myorg/ignored-pkg"));
}

#[test]
fn test_dist_excluded_by_default() {
    let mut tree = create_workspace_fixture(&["packages/*", "dist/*"]);

    write_package_json(&mut tree, "packages/utils", "@myorg/utils");
    write_package_json(&mut tree, "dist/utils", "@myorg/utils-dist");

    let projects = get_projects(CWD, &tree, &walk(&tree)).unwrap();
    let names: Vec<&str> = projects.iter().map(|p| p.name.as_str()).collect();

    assert_eq!(projects.len(), 1);
    assert!(names.contains(&"@myorg/utils"));
    assert!(!names.contains(&"@myorg/utils-dist"));
}

#[test]
fn test_pnpm_workspace_discovery() {
    let mut tree = FileTree::new();

    tree.add_file("/repo/pnpm-workspace.yaml", Some("packages:\n  - 'apps/*'\n  - 'libs/*'\n".to_string()));

    write_package_json(&mut tree, "apps/web", "@myorg/web");
    write_package_json(&mut tree, "libs/shared", "@myorg/shared");

    let projects = get_projects(CWD, &tree, &walk(&tree)).unwrap();
    let names: Vec<&str> = projects.iter().map(|p| p.name.as_str()).collect();

    assert_eq!(projects.len(), 2);
    assert!(names.contains(&"@myorg/web"));
    assert!(names.contains(&"@myorg/shared"));
}

#[test]
fn test_non_matching_packages_excluded() {
    let mut tree = create_workspace_fixture(&["packages/*"]);

    write_package_json(&mut tree, "packages/utils", "@myorg/utils");
    write_package_json(&mut tree, "other/stray", "@myorg/stray");

    let projects = get_projects(CWD, &tree, &walk(&tree)).unwrap();
    let names: Vec<&str> = projects.iter().map(|p| p.name.as_str()).collect();

    assert_eq!(projects.len(), 1);
    assert!(names.contains(&"@myorg/utils"));
}

#[test]
fn test_node_modules_excluded_by_default() {
    let mut tree = create_workspace_fixture(&["packages/*"]);

    write_package_json(&mut tree, "packages/utils", "@myorg/utils");
    write_package_json(&mut tree, "node_modules/some-dep", "@some/dep");
    write_package_json(
        &mut tree,
        "packages/utils/node_modules/nested-dep",
        "@nested/dep",
    );

    let projects = get_projects(CWD, &tree, &walk(&tree)).unwrap();
    let names: Vec<&str> = projects.iter().map(|p| p.name.as_str()).collect();

    assert_eq!(projects.len(), 1);
    assert!(names.contains(&"@myorg/utils"));
}

#[test]
fn test_star_does_not_match_across_separators() {
    let mut tree = create_workspace_fixture(&["packages/*"]);

    write_package_json(&mut tree, "packages/utils", "@myorg/utils");
    write_package_json(&mut tree, "packages/utils/nested/deep", "@myorg/deep");

    let projects = get_projects(CWD, &tree, &walk(&tree)).unwrap();
    let names: Vec<&str> = projects.iter().map(|p| p.name.as_str()).collect();

    assert_eq!(projects.len(), 1);
    assert!(names.contains(&"@myorg/utils"));
}

#[test]
fn test_source_root_with_absolute_cwd() {
    let mut tree = create_workspace_fixture(&["packages/*"]);

    write_package_json(&mut tree, "packages/utils", "@myorg/utils");

    let projects = get_projects(CWD, &tree, &walk(&tree)).unwrap();

    assert_eq!(projects.len(), 1);
    assert_eq!(
        projects[0].source_root,
        "packages/utils".to_string()
    );
}

#[test]
fn a_manifest_may_list_its_fields_in_order() {
    let mut tree = FileTree::new();
    tree.add_file("/repo/package.json", Some(r#"["root", ["packages/*"]]"#.to_string()));
    assert_eq!(get_workspace_patterns("/repo", &tree).unwrap(), vec!["packages/*"]);
    tree.add_file("/repo/package.json", Some(r#"["root"]"#.to_string()));
    assert!(get_workspace_patterns("/repo", &tree).is_err());
}

#[test]
fn a_field_of_a_manifest_may_be_given_once() {
    let mut tree = FileTree::new();
    tree.add_file(
        "/repo/package.json",
        Some(r#"{"name": "a", "workspaces": ["x"], "scripts": {"t": "1", "t": "2"}}"#.to_string()),
    );
    assert_eq!(get_workspace_patterns("/repo", &tree).unwrap(), vec!["x"]);
    tree.add_file(
        "/repo/package.json",
        Some(r#"{"name": "a", "workspaces": ["x"], "name": "b"}"#.to_string()),
    );
    assert_eq!(
        get_workspace_patterns("/repo", &tree),
        Err(DominoError::Parse(
            "Failed to parse package.json: duplicate field `name`".to_string()
        ))
    );
}

#[test]
fn packages_of_pnpm_stand_as_they_are_written() {
    let patterns = |content: &str| {
        let mut tree = FileTree::new();
        tree.add_file("/repo/pnpm-workspace.yaml", Some(content.to_string()));
        get_workspace_patterns("/repo", &tree)
    };
    assert_eq!(
        patterns("packages:\n  - 0x10\n  - 1e3\n  - ~\n  - 'a/*'\n").unwrap(),
        vec!["0x10", "1e3", "~", "a/*"]
    );
    assert_eq!(
        patterns("packages:\n  - 0x10\nonlyBuiltDependencies:\n  - esbuild\n").unwrap(),
        vec!["0x10"]
    );
    assert_eq!(
        patterns("packages:\n  - 'a/*'\ncatalog:\n  react: ^18.0.0\n").unwrap(),
        vec!["a/*"]
    );
    assert_eq!(patterns("packages:\n").unwrap(), Vec::<String>::new());
    assert!(patterns("packages: null\n").is_err());
    assert!(patterns("packages: ~\n").is_err());
    assert!(patterns("packages: a\n").is_err());
    assert_eq!(
        patterns("other: []\n"),
        Err(DominoError::Parse(
            "Failed to parse pnpm-workspace.yaml: missing field `packages`".to_string()
        ))
    );
}
