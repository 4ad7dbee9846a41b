use domino::files::FileTree;
use domino::lockfile::{
    build_reverse_dep_graph, diff_lockfile_packages, match_affected_dependency,
    resolve_to_direct_deps, LockfileData, PackageInfo,
};
use domino::collections::{StringMap, StringSet};
use domino::named_inputs::{
    check_global_invalidation, filter_negated_files, resolve_global_inputs,
};
use domino::types::{ChangedFile, GlobalTrigger, Project};
use domino::workspace::discover_projects;

const CWD: &str = "/repo";

fn tree_of(files: &[(&str, &str)]) -> FileTree {
    let mut tree = FileTree::new();
    for (path, content) in files {
        tree.add_file(&format!("{}/{}", CWD, path), Some(content.to_string()));
    }
    tree
}

fn changed(path: &str) -> ChangedFile {
    ChangedFile { file_path: path.to_string(), changed_lines: vec![1], deleted_lines: vec![] }
}

fn project(name: &str, root: &str) -> Project {
    Project {
        name: name.to_string(),
        root: root.to_string(),
        source_root: root.to_string(),
        ts_config: None,
        implicit_dependencies: vec![],
        targets: vec![],
    }
}

const NX: &str = r#"{ "namedInputs": {
    "default": ["{projectRoot}/**/*", "sharedGlobals", "!{projectRoot}/**/*.md"],
    "sharedGlobals": ["{workspaceRoot}/ci/*.yml"]
} }"#;

#[test]
fn a_change_to_a_shared_file_triggers_and_no_other_does() {
    let inputs = resolve_global_inputs(CWD, &tree_of(&[("nx.json", NX)])).unwrap();
    let triggers = check_global_invalidation(
        &inputs,
        &vec![changed("libs/a/x.ts"), changed("ci/build.yml"), changed("ci/notes.txt")],
    );
    assert_eq!(
        triggers,
        vec![GlobalTrigger {
            file: "ci/build.yml".to_string(),
            named_input: "sharedGlobals".to_string(),
            raw_pattern: "{workspaceRoot}/ci/*.yml".to_string(),
        }]
    );
}

#[test]
fn negated_files_are_left_out_once_and_for_all() {
    let inputs = resolve_global_inputs(CWD, &tree_of(&[("nx.json", NX)])).unwrap();
    let projects = vec![project("a", "libs/a")];
    let files = || {
        vec![
            changed("libs/a/README.md"),
            changed("libs/a/x.ts"),
            changed("libs/b/README.md"),
        ]
    };
    let kept = filter_negated_files(&inputs, files(), &projects);
    assert_eq!(kept, vec![changed("libs/a/x.ts"), changed("libs/b/README.md")]);
    let again = filter_negated_files(&inputs, kept, &projects);
    assert_eq!(again, vec![changed("libs/a/x.ts"), changed("libs/b/README.md")]);
    assert_eq!(filter_negated_files(&inputs, files(), &vec![]), files());
}

#[test]
fn nx_comes_before_turborepo() {
    let turbo = r#"{ "globalDependencies": ["tsconfig.json"] }"#;
    let both = resolve_global_inputs(CWD, &tree_of(&[("nx.json", NX), ("turbo.json", turbo)]));
    assert_eq!(both, resolve_global_inputs(CWD, &tree_of(&[("nx.json", NX)])));
    let broken = resolve_global_inputs(CWD, &tree_of(&[("nx.json", "{"), ("turbo.json", turbo)]));
    assert!(broken.is_none());
    let alone = resolve_global_inputs(CWD, &tree_of(&[("turbo.json", turbo)])).unwrap();
    assert_eq!(
        check_global_invalidation(&alone, &vec![changed("tsconfig.json")])[0].named_input,
        "globalDependencies"
    );
}

#[test]
fn members_join_the_projects_of_nx_by_new_names_and_roots() {
    let tree = tree_of(&[
        ("nx.json", "{}"),
        ("package.json", r#"{ "name": "root", "workspaces": ["packages/*", "!packages/out"] }"#),
        ("packages/a/package.json", r#"{ "name": "a" }"#),
        ("packages/b/package.json", r#"{ "name": "known" }"#),
        ("packages/c/package.json", r#"{ "name": "c" }"#),
        ("packages/out/package.json", r#"{ "name": "out" }"#),
    ]);
    let walked: Vec<String> = (0..tree.count()).map(|i| tree.path_at(i).to_string()).collect();
    let known = || Ok(vec![project("known", "apps/known"), project("x", "packages/c")]);
    let found = discover_projects(CWD, &tree, &walked, known(), Ok(vec![])).unwrap();
    let names: Vec<&str> = found.iter().map(|p| p.name.as_str()).collect();
    assert_eq!(names, vec!["known", "x", "a"]);
    let untidy = Ok(vec![project("known", "apps/known"), project("x", "packages//c/")]);
    let found = discover_projects(CWD, &tree, &walked, untidy, Ok(vec![])).unwrap();
    let names: Vec<&str> = found.iter().map(|p| p.name.as_str()).collect();
    assert_eq!(names, vec!["known", "x", "a"]);
}

fn lockfile(packages: &[(&str, &str, &[&str])], direct: &[&str]) -> LockfileData {
    let mut data = LockfileData::empty();
    for (key, version, dependencies) in packages {
        let mut needs = StringMap::new();
        for d in dependencies.iter() {
            needs.insert(d.to_string(), "^1.0.0".to_string());
        }
        data.packages.insert(
            key.to_string(),
            PackageInfo { version: version.to_string(), dependencies: needs },
        );
    }
    for d in direct {
        data.direct_dependencies.insert(d.to_string());
    }
    data
}

fn names(set: &StringSet) -> Vec<String> {
    let mut out: Vec<String> = (0..set.len()).map(|i| set.at(i).to_string()).collect();
    out.sort();
    out
}

#[test]
fn differences_are_the_same_both_ways() {
    let a = lockfile(&[("x", "1", &[]), ("y", "1", &[]), ("gone", "1", &[])], &[]);
    let b = lockfile(&[("x", "2", &[]), ("y", "1", &[]), ("new", "1", &[])], &[]);
    let there = diff_lockfile_packages(&a.packages, &b.packages);
    let back = diff_lockfile_packages(&b.packages, &a.packages);
    assert_eq!(names(&there), vec!["gone", "new", "x"]);
    assert_eq!(names(&there), names(&back));
    assert!(diff_lockfile_packages(&a.packages, &a.packages).is_empty());
}

#[test]
fn the_way_up_ends_at_the_first_direct_dependency() {
    let data = lockfile(
        &[
            ("deep", "1", &[]),
            ("middle", "1", &["deep"]),
            ("near", "1", &["middle"]),
            ("far", "1", &["near"]),
        ],
        &["near", "far"],
    );
    let graph = build_reverse_dep_graph(&data);
    let mut changed = StringSet::new();
    changed.insert("deep".to_string());
    let affected = resolve_to_direct_deps(&changed, &graph, &data.direct_dependencies);
    assert_eq!(names(&affected), vec!["near"]);
    assert_eq!(match_affected_dependency("near/sub/path", &affected), Some("near"));
    assert_eq!(match_affected_dependency("./near", &affected), None);
    assert_eq!(match_affected_dependency("nearby", &affected), None);
}

#[test]
fn more_changes_affect_no_less() {
    let data = lockfile(
        &[("a", "1", &[]), ("b", "1", &["a"]), ("c", "1", &[])],
        &["b", "c"],
    );
    let graph = build_reverse_dep_graph(&data);
    let mut changed = StringSet::new();
    changed.insert("a".to_string());
    let fewer = resolve_to_direct_deps(&changed, &graph, &data.direct_dependencies);
    changed.insert("c".to_string());
    let more = resolve_to_direct_deps(&changed, &graph, &data.direct_dependencies);
    assert_eq!(names(&fewer), vec!["b"]);
    assert_eq!(names(&more), vec!["b", "c"]);
}

#[test]
fn every_package_of_the_graph_has_a_parent() {
    let data = lockfile(&[("a", "1", &[]), ("b", "1", &["a", "x"]), ("c", "1", &["a"])], &["b"]);
    let graph = build_reverse_dep_graph(&data);
    assert_eq!(graph.len(), 2);
    assert_eq!(names(graph.get("a").unwrap()), vec!["b", "c"]);
    assert_eq!(names(graph.get("x").unwrap()), vec!["b"]);
    assert!(graph.get("b").is_none());
    assert!(graph.get("c").is_none());
}
