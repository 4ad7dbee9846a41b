use domino::files::FileTree;
use domino::semantic::tsconfig_paths::TsconfigPaths;
use domino::types::Project;

const CWD: &str = "/repo";

fn project(name: &str, root: &str) -> Project {
    Project {
        name: name.to_string(),
        root: root.to_string(),
        source_root: format!("{}/src", root),
        ts_config: None,
        implicit_dependencies: vec![],
        targets: vec![],
    }
}

#[test]
fn test_bare_extends_resolves_through_workspace_project() {
    let mut tree = FileTree::new();
    tree.add_dir("/repo/tools/ts-config");
    tree.add_dir("/repo/apps/web");
    tree.add_file("/repo/tools/ts-config/tsconfig.front.json", Some(r#"{ "extends": "./tsconfig.base", "compilerOptions": { "jsx": "react-jsx" } }"#.to_string()));
    tree.add_file("/repo/tools/ts-config/tsconfig.base.json", Some(r#"{ "compilerOptions": { "paths": { "@shared/*": ["shared/*"] } } }"#.to_string()));
    tree.add_file("/repo/apps/web/tsconfig.json", Some(r#"{
  // no node_modules in this workspace
  "extends": "@scope/ts-config/tsconfig.front.json",
  "compilerOptions": { "paths": { "$pages/*": ["./src/pages/*"] } }
}"#.to_string()));

    let projects = vec![project("@scope/ts-config", "tools/ts-config")];
    let paths = TsconfigPaths::load("/repo/apps/web/tsconfig.json", CWD, &projects, &tree).unwrap();

    assert_eq!(
        paths.candidates("$pages/Fiche/index"),
        vec!["/repo/apps/web/src/pages/Fiche/index".to_string()]
    );
    assert!(
        paths.candidates("@shared/x").is_empty(),
        "own `paths` replaces the inherited map"
    );
}

#[test]
fn test_inherited_paths_resolve_against_declaring_config() {
    let mut tree = FileTree::new();
    tree.add_dir("/repo/apps/web");
    tree.add_file("/repo/tsconfig.shared.json", Some(r#"{ "compilerOptions": { "paths": { "@shared/*": ["libs/shared/*"] } } }"#.to_string()));
    tree.add_file("/repo/apps/web/tsconfig.json", Some(r#"{ "extends": "../../tsconfig.shared.json" }"#.to_string()));

    let paths = TsconfigPaths::load("/repo/apps/web/tsconfig.json", CWD, &vec![], &tree).unwrap();

    assert_eq!(
        paths.candidates("@shared/button"),
        vec!["/repo/libs/shared/button".to_string()]
    );
}

#[test]
fn test_base_url_overrides_paths_directory() {
    let mut tree = FileTree::new();
    tree.add_file("/repo/tsconfig.json", Some(r#"{ "compilerOptions": { "baseUrl": "src", "paths": { "~/*": ["*"] } } }"#.to_string()));

    let paths = TsconfigPaths::load("/repo/tsconfig.json", CWD, &vec![], &tree).unwrap();

    assert_eq!(
        paths.candidates("~/utils").first(),
        Some(&"/repo/src/utils".to_string())
    );
}

#[test]
fn test_candidates_prefer_exact_then_longest_prefix() {
    let paths = TsconfigPaths {
        base_dir: "/ws".to_string(),
        base_url: None,
        patterns: vec![
            ("$i18n".to_string(), vec!["i18n/index".to_string()]),
            ("$i18n/*".to_string(), vec!["i18n/*".to_string()]),
            ("*".to_string(), vec!["types/*".to_string()]),
            (
                "$i18n/locales/*.json".to_string(),
                vec!["locales/*.json".to_string()],
            ),
        ],
    };

    assert_eq!(
        paths.candidates("$i18n"),
        vec!["/ws/i18n/index".to_string()]
    );
    assert_eq!(
        paths.candidates("$i18n/fr"),
        vec!["/ws/i18n/fr".to_string()]
    );
    assert_eq!(
        paths.candidates("$i18n/locales/fr.json"),
        vec!["/ws/locales/fr.json".to_string()]
    );
    assert_eq!(
        paths.candidates("react"),
        vec!["/ws/types/react".to_string()]
    );
}

#[test]
fn test_trailing_commas_and_comments() {
    let mut tree = FileTree::new();
    tree.add_file("/repo/tsconfig.json", Some(r#"{
  // JSONC, as TypeScript accepts it
  "compilerOptions": {
    "paths": { "$pages/*": ["./src/pages/*",], },
  },
}"#.to_string()));

    let paths = TsconfigPaths::load("/repo/tsconfig.json", CWD, &vec![], &tree).unwrap();

    assert_eq!(
        paths.candidates("$pages/Home"),
        vec!["/repo/src/pages/Home".to_string()]
    );
}

#[test]
fn test_child_base_url_applies_to_inherited_paths() {
    let mut tree = FileTree::new();
    tree.add_dir("/repo/apps/web");
    tree.add_file("/repo/tsconfig.shared.json", Some(r#"{ "compilerOptions": { "paths": { "@lib/*": ["lib/*"] } } }"#.to_string()));
    tree.add_file("/repo/apps/web/tsconfig.json", Some(r#"{ "extends": "../../tsconfig.shared.json", "compilerOptions": { "baseUrl": "." } }"#.to_string()));

    let paths = TsconfigPaths::load("/repo/apps/web/tsconfig.json", CWD, &vec![], &tree).unwrap();

    assert_eq!(
        paths.candidates("@lib/button").first(),
        Some(&"/repo/apps/web/lib/button".to_string())
    );
}

#[test]
fn test_no_paths_in_chain() {
    let mut tree = FileTree::new();
    tree.add_file("/repo/tsconfig.json", Some(r#"{ "extends": "@missing/config" }"#.to_string()));

    assert!(TsconfigPaths::load("/repo/tsconfig.json", CWD, &vec![], &tree).is_none());
}

#[test]
fn test_base_url_without_paths_resolves_bare_specifier() {
    let mut tree = FileTree::new();
    tree.add_dir("/repo/src/features");
    tree.add_file("/repo/tsconfig.json", Some(r#"{ "compilerOptions": { "baseUrl": "./src" } }"#.to_string()));
    tree.add_file("/repo/src/features/router.ts", Some("export const r = 1;".to_string()));

    let paths = TsconfigPaths::load("/repo/tsconfig.json", CWD, &vec![], &tree).unwrap();
    assert_eq!(
        paths.candidates("features/router"),
        vec!["/repo/src/features/router".to_string()],
        "a bare specifier resolves against baseUrl when no paths key matches"
    );
}

#[test]
fn test_base_url_tried_after_failed_path_targets() {
    let mut tree = FileTree::new();
    tree.add_dir("/repo/src/features");
    tree.add_file("/repo/tsconfig.json", Some(r#"{ "compilerOptions": { "baseUrl": "src", "paths": { "*": ["generated/*"] } } }"#.to_string()));
    tree.add_file("/repo/src/features/router.ts", Some("export const r = 1;".to_string()));

    let paths = TsconfigPaths::load("/repo/tsconfig.json", CWD, &vec![], &tree).unwrap();
    let candidates = paths.candidates("features/router");

    assert_eq!(
        candidates.last(),
        Some(&"/repo/src/features/router".to_string()),
        "baseUrl must be tried after the pattern's targets, got {candidates:?}"
    );
    assert!(
        candidates.len() > 1,
        "the pattern's own target must still come first, got {candidates:?}"
    );
}

#[test]
fn test_bare_extends_uses_package_tsconfig_field() {
    let mut tree = FileTree::new();
    tree.add_dir("/repo/libs/config");
    tree.add_dir("/repo/apps/web");
    tree.add_file("/repo/libs/config/package.json", Some(r#"{ "name": "@acme/config", "tsconfig": "base.json" }"#.to_string()));
    tree.add_file("/repo/libs/config/base.json", Some(r#"{ "compilerOptions": { "paths": { "$shared/*": ["../shared/*"] } } }"#.to_string()));
    tree.add_file("/repo/apps/web/tsconfig.json", Some(r#"{ "extends": "@acme/config" }"#.to_string()));

    let project = Project {
        name: "config".to_string(),
        root: "libs/config".to_string(),
        source_root: "libs/config".to_string(),
        ts_config: None,
        implicit_dependencies: vec![],
        targets: vec![],
    };

    assert!(
        TsconfigPaths::load("/repo/apps/web/tsconfig.json", CWD, &vec![project], &tree).is_some(),
        "a bare extends must follow package.json's tsconfig field, not assume tsconfig.json"
    );
}

#[test]
fn test_node_modules_extends_uses_package_tsconfig_field() {
    let mut tree = FileTree::new();
    tree.add_dir("/repo/node_modules/@acme/config");
    tree.add_file("/repo/node_modules/@acme/config/package.json", Some(r#"{ "name": "@acme/config", "tsconfig": "base.json" }"#.to_string()));
    tree.add_file("/repo/node_modules/@acme/config/base.json", Some(r#"{ "compilerOptions": { "paths": { "$shared/*": ["shared/*"] } } }"#.to_string()));
    tree.add_file("/repo/tsconfig.json", Some(r#"{ "extends": "@acme/config" }"#.to_string()));

    assert!(
        TsconfigPaths::load("/repo/tsconfig.json", CWD, &vec![], &tree).is_some(),
        "an installed package's tsconfig field must be followed, not assumed"
    );
}

#[test]
fn test_config_dir_expands_to_the_consuming_config() {
    let mut tree = FileTree::new();
    tree.add_dir("/repo/tools");
    tree.add_dir("/repo/apps/web/src");
    tree.add_file("/repo/tools/base.json", Some(r#"{ "compilerOptions": { "paths": { "$app/*": ["${configDir}/src/*"] } } }"#.to_string()));
    tree.add_file("/repo/apps/web/tsconfig.json", Some(r#"{ "extends": "../../tools/base.json" }"#.to_string()));

    let paths = TsconfigPaths::load("/repo/apps/web/tsconfig.json", CWD, &vec![], &tree).unwrap();
    assert_eq!(
        paths.candidates("$app/home"),
        vec!["/repo/apps/web/src/home".to_string()],
        "the configDir template must expand to the consuming project's directory"
    );
}

#[test]
fn test_bare_extends_resolves_through_package_name() {
    let mut tree = FileTree::new();
    tree.add_dir("/repo/libs/ts-config");
    tree.add_dir("/repo/apps/web");
    tree.add_file("/repo/libs/ts-config/package.json", Some(r#"{ "name": "@acme/ts-config" }"#.to_string()));
    tree.add_file("/repo/libs/ts-config/base.json", Some(r#"{ "compilerOptions": { "paths": { "$shared/*": ["../../libs/shared/*"] } } }"#.to_string()));
    tree.add_file("/repo/apps/web/tsconfig.json", Some(r#"{ "extends": "@acme/ts-config/base.json" }"#.to_string()));

    let project = Project {
        name: "ts-config".to_string(),
        root: "libs/ts-config".to_string(),
        source_root: "libs/ts-config".to_string(),
        ts_config: None,
        implicit_dependencies: vec![],
        targets: vec![],
    };

    assert!(
        TsconfigPaths::load("/repo/apps/web/tsconfig.json", CWD, &vec![project], &tree).is_some(),
        "extends through the npm package name must resolve without node_modules"
    );
}

#[test]
fn test_equal_prefix_patterns_resolve_first_declared() {
    for (first, second) in [("@pkg/*", "@pkg/*/index"), ("@pkg/*/index", "@pkg/*")] {
        let mut tree = FileTree::new();
        tree.add_file("/repo/tsconfig.json", Some(format!(
                r#"{{ "compilerOptions": {{ "paths": {{ "{first}": ["./first/*"], "{second}": ["./second/*"] }} }} }}"#
            )));

        let paths = TsconfigPaths::load("/repo/tsconfig.json", CWD, &vec![], &tree).unwrap();
        let candidates = paths.candidates("@pkg/foo/index");

        assert!(
            candidates
                .first()
                .is_some_and(|candidate| candidate.starts_with("/repo/first/")),
            "with {first:?} declared before {second:?} its ./first/* target must win, got {candidates:?}"
        );
    }
}

#[test]
fn a_configuration_may_list_its_fields_in_order() {
    let targets = |content: &str| {
        let mut tree = FileTree::new();
        tree.add_file("/repo/tsconfig.json", Some(content.to_string()));
        TsconfigPaths::load("/repo/tsconfig.json", CWD, &vec![], &tree)
            .map(|paths| paths.candidates("@a/x"))
    };
    let expected = Some(vec!["/repo/libs/x".to_string()]);
    assert_eq!(targets(r#"{ "compilerOptions": { "paths": { "@a/*": ["libs/*"] } } }"#), expected);
    assert_eq!(targets(r#"[null, { "paths": { "@a/*": ["libs/*"] } }]"#), expected);
    assert_eq!(targets(r#"[null, [null, { "@a/*": ["libs/*"] }]]"#), expected);
    assert_eq!(targets(r#"[null]"#), None);
    assert_eq!(targets(r#"[null, [null]]"#), None);
}

#[test]
fn a_field_of_a_configuration_may_be_given_once() {
    let targets = |content: &str, specifier: &str| {
        let mut tree = FileTree::new();
        tree.add_file("/repo/tsconfig.json", Some(content.to_string()));
        TsconfigPaths::load("/repo/tsconfig.json", CWD, &vec![], &tree)
            .map(|paths| paths.candidates(specifier))
    };
    let options = r#""compilerOptions": { "paths": { "@a": ["x"] } }"#;
    assert!(targets(&format!("{{ {options} }}"), "@a").is_some());
    assert_eq!(targets(&format!("{{ {options}, {options} }}"), "@a"), None);
    assert_eq!(
        targets(r#"{ "compilerOptions": { "baseUrl": ".", "baseUrl": "." } }"#, "@a"),
        None
    );
    assert_eq!(
        targets(
            r#"{ "compilerOptions": { "paths": { "@a": ["x"], "@b": ["z"], "@a": ["y"] } } }"#,
            "@a"
        ),
        Some(vec!["/repo/x".to_string()])
    );
    assert_eq!(
        targets(r#"{ "compilerOptions": { "paths": { "@a": 1, "@a": ["y"] } } }"#, "@a"),
        None
    );
}
