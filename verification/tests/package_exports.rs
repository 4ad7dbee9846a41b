use domino::files::FileTree;
use domino::semantic::package_exports::PackageIndex;
use domino::types::Project;

fn index(manifests: &[(&str, &str)]) -> PackageIndex {
    let mut tree = FileTree::new();
    let mut projects: Vec<Project> = Vec::new();
    for (root, manifest) in manifests {
        tree.add_file(&format!("/repo/{}/package.json", root), Some(manifest.to_string()));
        projects.push(Project {
            name: root.to_string(),
            root: root.to_string(),
            source_root: format!("{}/src", root),
            ts_config: None,
            implicit_dependencies: vec![],
            targets: vec![],
        });
    }
    PackageIndex::from_projects("/repo", &projects, &tree)
}

#[test]
fn exact_subpath_export() {
    let idx = index(&[(
        "packages/ui",
        r##"{"name": "@scope/ui", "exports": {"./styles/x.css": "./src/styles/x.css"}}"##,
    )]);
    assert_eq!(
        idx.resolve("@scope/ui/styles/x.css"),
        vec!["packages/ui/src/styles/x.css".to_string()]
    );
    assert!(idx.resolve("@scope/ui/styles/y.css").is_empty());
}

#[test]
fn wildcard_and_conditional_exports() {
    let idx = index(&[(
        "packages/ui",
        r##"{"name": "@scope/ui", "exports": { ".": {"import": "./src/index.ts", "default": "./dist/index.js"}, "./*": "./src/*", "./styles/*.css": {"style": "./src/styles/*.css"} }}"##,
    )]);
    assert_eq!(
        idx.resolve("@scope/ui/styles/x.css"),
        vec!["packages/ui/src/styles/x.css".to_string()]
    );
    assert_eq!(
        idx.resolve("@scope/ui/theme.css"),
        vec!["packages/ui/src/theme.css".to_string()]
    );
    let mut root = idx.resolve("@scope/ui");
    root.sort();
    assert_eq!(
        root,
        vec![
            "packages/ui/dist/index.js".to_string(),
            "packages/ui/src/index.ts".to_string(),
        ]
    );
}

#[test]
fn no_exports_falls_back_to_package_root() {
    let idx = index(&[("packages/ui", r##"{"name": "@scope/ui"}"##)]);
    assert_eq!(
        idx.resolve("@scope/ui/src/styles/x.css"),
        vec!["packages/ui/src/styles/x.css".to_string()]
    );
}

#[test]
fn longest_name_wins_and_prefix_must_end_at_segment() {
    let idx = index(&[
        ("packages/ui", r##"{"name": "@scope/ui"}"##),
        ("packages/ui-kit", r##"{"name": "@scope/ui-kit"}"##),
    ]);
    assert_eq!(
        idx.resolve("@scope/ui-kit/a.css"),
        vec!["packages/ui-kit/a.css".to_string()]
    );
    assert!(idx.resolve("@scope/uix/a.css").is_empty());
}
