use domino::files::FileTree;
use domino::named_inputs::{
    check_global_invalidation, resolve_from_nx_json, resolve_from_turbo_json, resolve_global_inputs,
};
use domino::types::ChangedFile;
use std::collections::HashMap;

const CWD: &str = "/repo";

fn write_nx_json(root: &mut FileTree, content: &str) {
    root.add_file("/repo/nx.json", Some(content.to_string()));
}

#[test]
fn test_resolve_global_patterns() {
    let mut root = FileTree::new();

    write_nx_json(
        &mut root,
        r#"{
        "namedInputs": {
          "default": ["{projectRoot}/**/*", "sharedGlobals"],
          "sharedGlobals": [
            "{workspaceRoot}/babel.config.json",
            "{workspaceRoot}/patches/*"
          ]
        }
      }"#,
    );

    let resolved = resolve_from_nx_json(CWD, &root).unwrap();
    assert_eq!(resolved.global_patterns.len(), 2);
    for gp in &resolved.global_patterns {
        assert_eq!(gp.named_input, "sharedGlobals");
    }
    assert!(resolved
        .matches_global_pattern("babel.config.json")
        .is_some());
    assert!(resolved
        .matches_global_pattern("patches/some-patch.patch")
        .is_some());
    assert!(resolved
        .matches_global_pattern("src/index.ts")
        .is_none());
}

#[test]
fn test_resolve_negation_patterns() {
    let mut root = FileTree::new();

    write_nx_json(
        &mut root,
        r#"{
        "namedInputs": {
          "default": [
            "{projectRoot}/**/*",
            "!{projectRoot}/**/*.figma.tsx",
            "!{projectRoot}/**/*.stories.tsx"
          ]
        }
      }"#,
    );

    let resolved = resolve_from_nx_json(CWD, &root).unwrap();
    assert_eq!(resolved.negation_patterns.len(), 2);

    let project_root = "libs/ui";
    assert!(resolved.is_negated(
        "libs/ui/src/Button.figma.tsx",
        project_root
    ));
    assert!(resolved.is_negated(
        "libs/ui/src/Button.stories.tsx",
        project_root
    ));
    assert!(!resolved.is_negated("libs/ui/src/Button.tsx", project_root));
}

#[test]
fn test_recursive_resolution() {
    let mut root = FileTree::new();

    write_nx_json(
        &mut root,
        r#"{
        "namedInputs": {
          "default": ["{projectRoot}/**/*", "sharedGlobals"],
          "sharedGlobals": ["{workspaceRoot}/babel.config.json", "ciInputs"],
          "ciInputs": ["{workspaceRoot}/ci/utils.Jenkinsfile"]
        }
      }"#,
    );

    let resolved = resolve_from_nx_json(CWD, &root).unwrap();
    assert_eq!(resolved.global_patterns.len(), 2);
    let babel = resolved
        .matches_global_pattern("babel.config.json")
        .expect("babel.config.json should match");
    assert_eq!(babel.named_input, "sharedGlobals");
    let jenkins = resolved
        .matches_global_pattern("ci/utils.Jenkinsfile")
        .expect("ci/utils.Jenkinsfile should match");
    assert_eq!(jenkins.named_input, "ciInputs");
}

#[test]
fn test_circular_reference_handled() {
    let mut root = FileTree::new();

    write_nx_json(
        &mut root,
        r#"{
        "namedInputs": {
          "default": ["a"],
          "a": ["b"],
          "b": ["a", "{workspaceRoot}/file.json"]
        }
      }"#,
    );

    let resolved = resolve_from_nx_json(CWD, &root).unwrap();
    assert_eq!(resolved.global_patterns.len(), 1);
    assert!(resolved
        .matches_global_pattern("file.json")
        .is_some());
}

#[test]
fn test_object_entries_skipped() {
    let mut root = FileTree::new();

    write_nx_json(
        &mut root,
        r#"{
        "namedInputs": {
          "default": [
            "{projectRoot}/**/*",
            {"runtime": "node"},
            "{workspaceRoot}/global.json"
          ]
        }
      }"#,
    );

    let resolved = resolve_from_nx_json(CWD, &root).unwrap();
    assert_eq!(resolved.global_patterns.len(), 1);
}

#[test]
fn test_no_named_inputs_returns_none() {
    let mut root = FileTree::new();

    write_nx_json(&mut root, r#"{"npmScope": "myorg"}"#);

    assert!(resolve_from_nx_json(CWD, &root).is_none());
}

#[test]
fn test_no_default_named_input_returns_none() {
    let mut root = FileTree::new();

    write_nx_json(
        &mut root,
        r#"{
        "namedInputs": {
          "production": ["{projectRoot}/**/*"]
        }
      }"#,
    );

    assert!(resolve_from_nx_json(CWD, &root).is_none());
}

#[test]
fn test_is_negated_by_any_project() {
    let mut root = FileTree::new();

    write_nx_json(
        &mut root,
        r#"{
        "namedInputs": {
          "default": [
            "{projectRoot}/**/*",
            "!{projectRoot}/**/*.spec.ts"
          ]
        }
      }"#,
    );

    let resolved = resolve_from_nx_json(CWD, &root).unwrap();

    let roots = vec!["libs/a".to_string(), "libs/b".to_string()];

    assert!(resolved.is_negated_by_any_project("libs/a/src/foo.spec.ts", &roots));
    assert!(!resolved.is_negated_by_any_project("libs/a/src/foo.ts", &roots));
}

#[test]
fn test_check_global_invalidation_returns_all_matches() {
    let mut root = FileTree::new();

    write_nx_json(
        &mut root,
        r#"{
        "namedInputs": {
          "default": ["{projectRoot}/**/*", "sharedGlobals", "ciInputs"],
          "sharedGlobals": [
            "{workspaceRoot}/nx.json",
            "{workspaceRoot}/package.json"
          ],
          "ciInputs": ["{workspaceRoot}/.github/workflows/ci.yml"]
        }
      }"#,
    );

    let resolved = resolve_from_nx_json(CWD, &root).unwrap();
    let changed = vec![
        ChangedFile {
            file_path: ".github/workflows/ci.yml".to_string(),
            changed_lines: vec![],
            deleted_lines: vec![],
        },
        ChangedFile {
            file_path: "nx.json".to_string(),
            changed_lines: vec![],
            deleted_lines: vec![],
        },
        ChangedFile {
            file_path: "package.json".to_string(),
            changed_lines: vec![],
            deleted_lines: vec![],
        },
        ChangedFile {
            file_path: "libs/foo/src/index.ts".to_string(),
            changed_lines: vec![],
            deleted_lines: vec![],
        },
    ];

    let triggers = check_global_invalidation(&resolved, &changed);
    assert_eq!(
        triggers.len(),
        3,
        "all three workspace-root files should be reported as triggers"
    );

    let by_file: HashMap<_, _> = triggers
        .iter()
        .map(|t| (t.file.clone(), t.named_input.clone()))
        .collect();
    assert_eq!(
        by_file.get(".github/workflows/ci.yml"),
        Some(&"ciInputs".to_string())
    );
    assert_eq!(
        by_file.get("nx.json"),
        Some(&"sharedGlobals".to_string())
    );
    assert_eq!(
        by_file.get("package.json"),
        Some(&"sharedGlobals".to_string())
    );
}

#[test]
fn test_check_global_invalidation_empty_when_no_match() {
    let mut root = FileTree::new();

    write_nx_json(
        &mut root,
        r#"{
        "namedInputs": {
          "default": ["{projectRoot}/**/*", "sharedGlobals"],
          "sharedGlobals": ["{workspaceRoot}/nx.json"]
        }
      }"#,
    );

    let resolved = resolve_from_nx_json(CWD, &root).unwrap();
    let changed = vec![ChangedFile {
        file_path: "libs/foo/src/index.ts".to_string(),
        changed_lines: vec![],
        deleted_lines: vec![],
    }];

    assert!(check_global_invalidation(&resolved, &changed).is_empty());
}

fn write_turbo_json(root: &mut FileTree, content: &str) {
    root.add_file("/repo/turbo.json", Some(content.to_string()));
}

#[test]
fn test_turbo_global_dependencies_resolved() {
    let mut root = FileTree::new();

    write_turbo_json(
        &mut root,
        r#"{
        "globalDependencies": [".env", "config/*.json"],
        "tasks": { "build": {} }
      }"#,
    );

    let resolved = resolve_from_turbo_json(CWD, &root).unwrap();
    assert_eq!(resolved.global_patterns.len(), 2);
    assert!(resolved.negation_patterns.is_empty());

    let env = resolved
        .matches_global_pattern(".env")
        .expect(".env should match");
    assert_eq!(env.named_input, "globalDependencies");
    assert_eq!(env.raw_pattern, ".env");

    assert!(resolved
        .matches_global_pattern("config/app.json")
        .is_some());
    assert!(resolved
        .matches_global_pattern("packages/ui/src/index.ts")
        .is_none());
}

#[test]
fn test_turbo_without_global_dependencies_returns_none() {
    let mut root = FileTree::new();

    write_turbo_json(&mut root, r#"{"tasks": {"build": {}}}"#);
    assert!(resolve_from_turbo_json(CWD, &root).is_none());
}

#[test]
fn test_turbo_unusable_patterns_skipped() {
    let mut root = FileTree::new();

    write_turbo_json(
        &mut root,
        r#"{
        "globalDependencies": ["!.env.local", "../outside/**", "/abs/path", ".env", "..config.json"]
      }"#,
    );

    let resolved = resolve_from_turbo_json(CWD, &root).unwrap();
    assert_eq!(resolved.global_patterns.len(), 2);
    assert_eq!(resolved.global_patterns[0].raw_pattern, ".env");
    assert_eq!(resolved.global_patterns[1].raw_pattern, "..config.json");
    assert!(resolved
        .matches_global_pattern(".env.local")
        .is_none());
    assert!(resolved
        .matches_global_pattern("..config.json")
        .is_some());
}

#[test]
fn test_turbo_leading_dot_slash_stripped_before_compiling() {
    let mut root = FileTree::new();

    write_turbo_json(&mut root, r#"{"globalDependencies": ["./.env"]}"#);

    let resolved = resolve_from_turbo_json(CWD, &root).unwrap();
    assert_eq!(resolved.global_patterns.len(), 1);
    assert_eq!(resolved.global_patterns[0].raw_pattern, "./.env");
    assert!(resolved
        .matches_global_pattern(".env")
        .is_some());
}

#[test]
fn test_turbo_malformed_config_returns_none() {
    let mut root = FileTree::new();

    write_turbo_json(&mut root, "{ not json ");
    assert!(resolve_from_turbo_json(CWD, &root).is_none());
}

#[test]
fn test_resolve_global_inputs_prefers_nx_over_turbo() {
    let mut root = FileTree::new();

    write_nx_json(
        &mut root,
        r#"{
        "namedInputs": {
          "default": ["{projectRoot}/**/*", "sharedGlobals"],
          "sharedGlobals": ["{workspaceRoot}/.nvmrc"]
        }
      }"#,
    );
    write_turbo_json(&mut root, r#"{"globalDependencies": [".env"]}"#);

    let resolved = resolve_global_inputs(CWD, &root).expect("nx.json should resolve");
    assert!(resolved
        .matches_global_pattern(".nvmrc")
        .is_some());
    assert!(
        resolved
            .matches_global_pattern(".env")
            .is_none(),
        "turbo.json globalDependencies must be ignored in an Nx workspace"
    );
}

#[test]
fn test_resolve_global_inputs_falls_back_to_turbo() {
    let mut root = FileTree::new();

    write_turbo_json(&mut root, r#"{"globalDependencies": [".env"]}"#);

    let resolved = resolve_global_inputs(CWD, &root).expect("turbo.json should resolve");
    assert!(resolved
        .matches_global_pattern(".env")
        .is_some());
}

#[test]
fn test_resolve_global_inputs_none_without_config() {
    let root = FileTree::new();
    assert!(resolve_global_inputs(CWD, &root).is_none());
}

#[test]
fn a_configuration_as_a_list_holds_the_inputs() {
    let mut root = FileTree::new();
    write_nx_json(&mut root, r#"[{ "default": ["{workspaceRoot}/ci.yml"] }]"#);
    let resolved = resolve_from_nx_json(CWD, &root).unwrap();
    assert_eq!(resolved.global_patterns.len(), 1);
    write_nx_json(&mut root, r#"[{ "default": ["{workspaceRoot}/ci.yml"] }, 1]"#);
    assert!(resolve_from_nx_json(CWD, &root).is_none());
}

#[test]
fn the_inputs_may_be_given_once() {
    let mut root = FileTree::new();
    let once = r#""namedInputs": { "default": ["{workspaceRoot}/ci.yml"] }"#;
    write_nx_json(&mut root, &format!("{{ {once}, {once} }}"));
    assert!(resolve_from_nx_json(CWD, &root).is_none());
    write_nx_json(
        &mut root,
        r#"{ "namedInputs": { "default": ["{workspaceRoot}/a"], "default": ["{workspaceRoot}/b"] } }"#,
    );
    assert_eq!(resolve_from_nx_json(CWD, &root).unwrap().global_patterns.len(), 1);
    write_nx_json(
        &mut root,
        r#"{ "namedInputs": { "default": 1, "default": ["{workspaceRoot}/b"] } }"#,
    );
    assert!(resolve_from_nx_json(CWD, &root).is_none());
}
