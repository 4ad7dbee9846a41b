use domino::files::FileTree;
use domino::workspace::turbo::{find_config_file, is_turbo_workspace, parse_config};

const CWD: &str = "/repo";

fn write_turbo(tree: &mut FileTree, filename: &str, content: &str) {
    tree.add_file(&format!("/repo/{}", filename), Some(content.to_string()));
}

#[test]
fn test_no_turbo_config_is_not_a_turbo_workspace() {
    let tree = FileTree::new();
    assert!(!is_turbo_workspace(CWD, &tree));
    assert!(find_config_file(CWD, &tree).is_none());
    assert!(parse_config(CWD, &tree).is_none());
}

#[test]
fn test_parse_v1_pipeline_layout() {
    let mut tree = FileTree::new();
    write_turbo(
        &mut tree,
        "turbo.json",
        r#"{
  "$schema": "https://turbo.build/schema.json",
  "globalDependencies": [".env", "tsconfig.base.json"],
  "pipeline": {
    "build": { "dependsOn": ["^build"], "outputs": ["dist/**"] }
  }
}"#,
    );

    assert!(is_turbo_workspace(CWD, &tree));
    let config = parse_config(CWD, &tree).expect("v1 pipeline layout must parse");
    assert_eq!(
        config.global_dependencies,
        vec![".env".to_string(), "tsconfig.base.json".to_string()]
    );
}

#[test]
fn test_parse_v2_tasks_layout() {
    let mut tree = FileTree::new();
    write_turbo(
        &mut tree,
        "turbo.json",
        r#"{
  "globalDependencies": [".env"],
  "tasks": {
    "build": { "dependsOn": ["^build"], "inputs": ["src/**"] }
  },
  "remoteCache": { "enabled": true }
}"#,
    );

    let config = parse_config(CWD, &tree).expect("v2 tasks layout must parse");
    assert_eq!(config.global_dependencies, vec![".env".to_string()]);
}

#[test]
fn test_parse_jsonc_comments_and_trailing_commas() {
    let mut tree = FileTree::new();
    write_turbo(
        &mut tree,
        "turbo.json",
        r#"{
  // Global hash inputs
  "globalDependencies": [
    ".env", /* inline block comment */
    "config/*.json",
  ],
  "tasks": {}
}"#,
    );

    let config = parse_config(CWD, &tree).expect("JSONC turbo.json must parse");
    assert_eq!(
        config.global_dependencies,
        vec![".env".to_string(), "config/*.json".to_string()]
    );
}

#[test]
fn test_turbo_jsonc_filename_supported() {
    let mut tree = FileTree::new();
    write_turbo(
        &mut tree,
        "turbo.jsonc",
        r#"{
  // Turborepo v2 allows turbo.jsonc
  "globalDependencies": [".env"]
}"#,
    );

    assert!(is_turbo_workspace(CWD, &tree));
    assert_eq!(
        find_config_file(CWD, &tree),
        Some("/repo/turbo.jsonc".to_string())
    );
    let config = parse_config(CWD, &tree).expect("turbo.jsonc must parse");
    assert_eq!(config.global_dependencies, vec![".env".to_string()]);
}

#[test]
fn test_turbo_json_takes_precedence_over_turbo_jsonc() {
    let mut tree = FileTree::new();
    write_turbo(&mut tree, "turbo.json", r#"{"globalDependencies": ["a"]}"#);
    write_turbo(
        &mut tree,
        "turbo.jsonc",
        r#"{"globalDependencies": ["b"]}"#,
    );

    let config = parse_config(CWD, &tree).unwrap();
    assert_eq!(config.global_dependencies, vec!["a".to_string()]);
}

#[test]
fn test_missing_global_dependencies_defaults_to_empty() {
    let mut tree = FileTree::new();
    write_turbo(&mut tree, "turbo.json", r#"{"tasks": {"build": {}}}"#);

    let config = parse_config(CWD, &tree).expect("config without globalDependencies must parse");
    assert!(config.global_dependencies.is_empty());
}

#[test]
fn test_malformed_json_degrades_gracefully() {
    let mut tree = FileTree::new();
    write_turbo(&mut tree, "turbo.json", "{ not valid json at all ");

    assert!(is_turbo_workspace(CWD, &tree));
    assert!(parse_config(CWD, &tree).is_none());
}

#[test]
fn test_wrong_global_dependencies_type_degrades_gracefully() {
    let mut tree = FileTree::new();
    write_turbo(
        &mut tree,
        "turbo.json",
        r#"{"globalDependencies": ".env"}"#,
    );

    assert!(parse_config(CWD, &tree).is_none());
}

#[test]
fn test_empty_file_degrades_gracefully() {
    let mut tree = FileTree::new();
    write_turbo(&mut tree, "turbo.json", "");

    assert!(parse_config(CWD, &tree).is_none());
}

#[test]
fn a_configuration_may_be_a_list_of_its_fields() {
    let dependencies = |content: &str| {
        let mut tree = FileTree::new();
        write_turbo(&mut tree, "turbo.json", content);
        parse_config(CWD, &tree).map(|c| c.global_dependencies)
    };
    assert_eq!(dependencies(r#"[[".env"]]"#), Some(vec![".env".to_string()]));
    assert_eq!(dependencies("[]"), Some(vec![]));
    assert_eq!(dependencies(r#"[[".env"], 1]"#), None);
    assert_eq!(dependencies(r#"[".env"]"#), None);
    assert_eq!(dependencies("1"), None);
}

#[test]
fn a_field_may_be_given_once() {
    let parsed = |content: &str| {
        let mut tree = FileTree::new();
        write_turbo(&mut tree, "turbo.json", content);
        parse_config(CWD, &tree).map(|c| c.global_dependencies)
    };
    assert_eq!(parsed(r#"{"globalDependencies": ["a"], "globalDependencies": ["b"]}"#), None);
    assert_eq!(
        parsed(r#"{"globalDependencies": ["a"], "tasks": {"x": 1, "x": 2}, "tasks": {}}"#),
        Some(vec!["a".to_string()])
    );
}
