use domino::collections::{StringMap, StringSet};
use domino::files::FileTree;
use domino::lockfile::bun::parse_bun_lockfile;
use domino::lockfile::keys::{
    extract_yarn_berry_name, package_name_from_key, parse_pnpm_package_key,
};
use domino::lockfile::npm::parse_npm_lockfile;
use domino::lockfile::pnpm::parse_pnpm_lockfile;
use domino::lockfile::revision::MAX_LOCKFILE_BYTES;
use domino::lockfile::workspace_manifests::{
    collect_workspace_pkg_jsons, extract_workspace_globs, extract_workspace_patterns, glob_match,
};
use domino::lockfile::yarn::{parse_yarn_classic_packages, parse_yarn_lockfile};
use domino::lockfile::{
    build_reverse_dep_graph, detect_package_manager, diff_lockfile_packages, has_lockfile_changed,
    is_dependency_manifest, lockfile_name, match_affected_dependency, parse_lockfile,
    resolve_to_direct_deps, LockfileData, PackageInfo, PackageManager,
};
use domino::types::ChangedFile;
use domino::yaml::{yaml_value_to_string, Yaml};

const CWD: &str = "/repo";

fn set(names: &[&str]) -> StringSet {
    let mut out = StringSet::new();
    for name in names {
        out.insert(name.to_string());
    }
    out
}

fn graph(edges: &[(&str, &[&str])]) -> StringMap<StringSet> {
    let mut out = StringMap::new();
    for (child, parents) in edges {
        out.insert(child.to_string(), set(parents));
    }
    out
}

fn texts(entries: &[(&str, &str)]) -> StringMap<String> {
    let mut out = StringMap::new();
    for (key, value) in entries {
        out.insert(key.to_string(), value.to_string());
    }
    out
}

fn packages(name: &str, version: &str) -> StringMap<PackageInfo> {
    let mut out = StringMap::new();
    out.insert(
        name.to_string(),
        PackageInfo {
            version: version.to_string(),
            dependencies: StringMap::new(),
        },
    );
    out
}

// --- detect_package_manager ---

#[test]
fn test_detect_npm() {
    let mut files = FileTree::new();
    files.add_dir(CWD);
    files.add_file("/repo/package-lock.json", Some("{}".to_string()));
    assert_eq!(
        detect_package_manager(&files, CWD),
        Some(PackageManager::Npm)
    );
}

#[test]
fn test_detect_yarn() {
    let mut files = FileTree::new();
    files.add_dir(CWD);
    files.add_file("/repo/yarn.lock", Some("".to_string()));
    assert_eq!(
        detect_package_manager(&files, CWD),
        Some(PackageManager::Yarn)
    );
}

#[test]
fn test_detect_pnpm() {
    let mut files = FileTree::new();
    files.add_dir(CWD);
    files.add_file("/repo/pnpm-lock.yaml", Some("".to_string()));
    assert_eq!(
        detect_package_manager(&files, CWD),
        Some(PackageManager::Pnpm)
    );
}

#[test]
fn test_detect_bun() {
    let mut files = FileTree::new();
    files.add_dir(CWD);
    files.add_file("/repo/bun.lock", Some("".to_string()));
    assert_eq!(
        detect_package_manager(&files, CWD),
        Some(PackageManager::Bun)
    );
}

#[test]
fn test_detect_none() {
    let mut files = FileTree::new();
    files.add_dir(CWD);
    assert_eq!(detect_package_manager(&files, CWD), None);
}

#[test]
fn test_detect_priority_npm_over_yarn() {
    let mut files = FileTree::new();
    files.add_dir(CWD);
    files.add_file("/repo/package-lock.json", Some("{}".to_string()));
    files.add_file("/repo/yarn.lock", Some("".to_string()));
    assert_eq!(
        detect_package_manager(&files, CWD),
        Some(PackageManager::Npm)
    );
}

// --- lockfile_name ---

#[test]
fn test_lockfile_name() {
    assert_eq!(lockfile_name(&PackageManager::Npm), "package-lock.json");
    assert_eq!(lockfile_name(&PackageManager::Yarn), "yarn.lock");
    assert_eq!(lockfile_name(&PackageManager::Pnpm), "pnpm-lock.yaml");
    assert_eq!(lockfile_name(&PackageManager::Bun), "bun.lock");
}

// --- has_lockfile_changed ---

#[test]
fn test_has_lockfile_changed_true() {
    let files = vec![ChangedFile {
        file_path: "package-lock.json".into(),
        changed_lines: vec![1],
        deleted_lines: vec![],
    }];
    assert!(has_lockfile_changed(&files, &PackageManager::Npm));
}

#[test]
fn test_has_lockfile_changed_false() {
    let files = vec![ChangedFile {
        file_path: "src/index.ts".into(),
        changed_lines: vec![1],
        deleted_lines: vec![],
    }];
    assert!(!has_lockfile_changed(&files, &PackageManager::Npm));
}

#[test]
fn test_has_lockfile_changed_yarn() {
    let files = vec![ChangedFile {
        file_path: "yarn.lock".into(),
        changed_lines: vec![1],
        deleted_lines: vec![],
    }];
    assert!(has_lockfile_changed(&files, &PackageManager::Yarn));
}

#[test]
fn test_has_lockfile_changed_pnpm() {
    let files = vec![ChangedFile {
        file_path: "pnpm-lock.yaml".into(),
        changed_lines: vec![1],
        deleted_lines: vec![],
    }];
    assert!(has_lockfile_changed(&files, &PackageManager::Pnpm));
}

#[test]
fn test_has_lockfile_changed_bun() {
    let files = vec![ChangedFile {
        file_path: "bun.lock".into(),
        changed_lines: vec![1],
        deleted_lines: vec![],
    }];
    assert!(has_lockfile_changed(&files, &PackageManager::Bun));
}

// --- npm parsing ---

#[test]
fn test_parse_npm_lockfile_v3() {
    let content = r#"{
      "lockfileVersion": 3,
      "packages": {
        "": {
          "dependencies": { "lib-a": "^1.0.0" },
          "devDependencies": { "vitest": "^1.0.0" }
        },
        "node_modules/lib-a": {
          "version": "1.0.0",
          "dependencies": { "lib-nested-1": "^2.0.0" }
        },
        "node_modules/lib-nested-1": {
          "version": "2.0.0"
        },
        "node_modules/vitest": {
          "version": "1.0.0"
        }
      }
    }"#;

    let data = parse_npm_lockfile(content).unwrap();
    assert!(data.direct_dependencies.contains("lib-a"));
    assert!(data.direct_dependencies.contains("vitest"));
    assert_eq!(data.direct_dependencies.len(), 2);

    assert_eq!(data.packages.get("node_modules/lib-a").unwrap().version, "1.0.0");
    assert_eq!(
        data.packages.get("node_modules/lib-a").unwrap()
            .dependencies
            .get("lib-nested-1"),
        Some(&"^2.0.0".to_string())
    );
    assert_eq!(data.packages.get("node_modules/lib-nested-1").unwrap().version, "2.0.0");
}

#[test]
fn test_parse_npm_lockfile_v1() {
    let content = r#"{
      "lockfileVersion": 1,
      "dependencies": {
        "lib-a": {
          "version": "1.0.0",
          "requires": { "lib-nested-1": "^2.0.0" },
          "dependencies": {
            "lib-nested-1": {
              "version": "2.1.0",
              "requires": { "lib-deep": "^3.0.0" }
            }
          }
        },
        "lib-nested-1": {
          "version": "2.0.0"
        }
      }
    }"#;

    let data = parse_npm_lockfile(content).unwrap();
    assert!(data.direct_dependencies.contains("lib-a"));
    assert!(data.direct_dependencies.contains("lib-nested-1"));

    assert_eq!(data.packages.get("lib-a").unwrap().version, "1.0.0");
    assert_eq!(
        data.packages.get("lib-a").unwrap().dependencies.get("lib-nested-1"),
        Some(&"^2.0.0".to_string())
    );
    // Both hoisted (2.0.0) and nested (2.1.0) versions exist; last-write-wins
    // in the flat map — the hoisted entry processes after the nested one
    assert!(data.packages.contains_key("lib-nested-1"));
}

#[test]
fn test_parse_npm_lockfile_scoped_package() {
    let content = r#"{
      "lockfileVersion": 3,
      "packages": {
        "": { "dependencies": { "@scope/pkg": "^1.0.0" } },
        "node_modules/@scope/pkg": {
          "version": "1.0.0"
        }
      }
    }"#;

    let data = parse_npm_lockfile(content).unwrap();
    assert!(data.direct_dependencies.contains("@scope/pkg"));
    assert_eq!(data.packages.get("node_modules/@scope/pkg").unwrap().version, "1.0.0");
}

#[test]
fn test_npm_v3_nested_instances_not_overwritten() {
    let base = r#"{
      "lockfileVersion": 3,
      "packages": {
        "": { "dependencies": { "ms": "^2.1.0", "debug": "^4.0.0" } },
        "node_modules/body-parser/node_modules/ms": { "version": "2.0.0" },
        "node_modules/debug": { "version": "4.3.4", "dependencies": { "ms": "2.1.2" } },
        "node_modules/debug/node_modules/ms": { "version": "2.1.3" },
        "node_modules/ms": { "version": "2.1.2" }
      }
    }"#;
    let current = r#"{
      "lockfileVersion": 3,
      "packages": {
        "": { "dependencies": { "ms": "^2.1.0", "debug": "^4.0.0" } },
        "node_modules/body-parser/node_modules/ms": { "version": "2.0.0" },
        "node_modules/debug": { "version": "4.3.4", "dependencies": { "ms": "2.1.2" } },
        "node_modules/debug/node_modules/ms": { "version": "2.1.3" },
        "node_modules/ms": { "version": "2.1.3" }
      }
    }"#;

    let base_data = parse_npm_lockfile(base).unwrap();
    let current_data = parse_npm_lockfile(current).unwrap();

    // Hoisted ms changed from 2.1.2 to 2.1.3 — must be detected
    let changed = diff_lockfile_packages(&current_data.packages, &base_data.packages);
    assert!(
        changed.contains("ms"),
        "hoisted ms version change should be detected"
    );
}

// --- npm error cases ---

#[test]
fn test_parse_npm_lockfile_invalid_json() {
    let result = parse_npm_lockfile("not json at all {{{");
    assert!(result.is_err());
}

#[test]
fn test_parse_npm_lockfile_empty() {
    let result = parse_npm_lockfile("");
    assert!(result.is_err());
}

// --- pnpm parsing ---

#[test]
fn test_parse_pnpm_lockfile() {
    let content = r#"
lockfileVersion: '9.0'
importers:
  '.':
    dependencies:
      lib-a:
        specifier: ^1.0.0
        version: 1.0.0
    devDependencies:
      vitest:
        specifier: ^1.0.0
        version: 1.0.0
packages:
  lib-a@1.0.0:
    dependencies:
      lib-nested-1: 2.0.0
  lib-nested-1@2.0.0: {}
  vitest@1.0.0: {}
"#;

    let data = parse_pnpm_lockfile(content).unwrap();
    assert!(data.direct_dependencies.contains("lib-a"));
    assert!(data.direct_dependencies.contains("vitest"));

    assert_eq!(data.packages.get("lib-a@1.0.0").unwrap().version, "1.0.0");
    assert!(data.packages.get("lib-a@1.0.0").unwrap()
        .dependencies
        .contains_key("lib-nested-1"));
    assert_eq!(data.packages.get("lib-nested-1@2.0.0").unwrap().version, "2.0.0");
}

#[test]
fn test_parse_pnpm_lockfile_workspace_importers() {
    let content = r#"
lockfileVersion: '9.0'
importers:
  '.':
    dependencies:
      lib-root:
        specifier: ^1.0.0
        version: 1.0.0
  'packages/app-a':
    dependencies:
      lib-app-dep:
        specifier: ^2.0.0
        version: 2.0.0
  'packages/app-b':
    devDependencies:
      vitest:
        specifier: ^1.0.0
        version: 1.0.0
packages:
  lib-root@1.0.0: {}
  lib-app-dep@2.0.0: {}
  vitest@1.0.0: {}
"#;

    let data = parse_pnpm_lockfile(content).unwrap();
    assert!(data.direct_dependencies.contains("lib-root"));
    assert!(data.direct_dependencies.contains("lib-app-dep"));
    assert!(data.direct_dependencies.contains("vitest"));
    assert_eq!(data.direct_dependencies.len(), 3);
}

#[test]
fn test_parse_pnpm_scoped_package() {
    let (name, version) = parse_pnpm_package_key("@scope/pkg@1.0.0");
    assert_eq!(name, "@scope/pkg");
    assert_eq!(version, "1.0.0");
}

#[test]
fn test_parse_pnpm_peer_dep_suffix_parens() {
    let (name, version) = parse_pnpm_package_key("foo@1.0.0(bar@2.0.0)");
    assert_eq!(name, "foo");
    assert_eq!(version, "1.0.0");
}

#[test]
fn test_parse_pnpm_peer_dep_suffix_underscore() {
    let (name, version) = parse_pnpm_package_key("foo@1.0.0_react@16.0.0");
    assert_eq!(name, "foo");
    assert_eq!(version, "1.0.0");
}

#[test]
fn test_parse_pnpm_scoped_with_peer_suffix() {
    let (name, version) = parse_pnpm_package_key("@scope/pkg@3.2.1(peer@1.0.0)");
    assert_eq!(name, "@scope/pkg");
    assert_eq!(version, "3.2.1");
}

// --- pnpm error cases ---

#[test]
fn test_parse_pnpm_lockfile_invalid_yaml() {
    let result = parse_pnpm_lockfile("{\n\t- invalid:\n\t\t- [mixed");
    assert!(result.is_err());
}

// --- yarn parsing ---

#[test]
fn test_parse_yarn_lockfile() {
    let content = r#"# THIS IS AN AUTOGENERATED FILE. DO NOT EDIT THIS FILE DIRECTLY.
# yarn lockfile v1

lib-a@^1.0.0:
  version "1.0.0"
  dependencies:
    lib-nested-1 "^2.0.0"

lib-nested-1@^2.0.0:
  version "2.0.0"
"#;

    let pkg_json = r#"{"dependencies":{"lib-a":"^1.0.0"}}"#.to_string();
    let data = parse_yarn_lockfile(content, &vec![pkg_json]).unwrap();
    assert!(data.direct_dependencies.contains("lib-a"));
    assert_eq!(data.packages.get("lib-a@^1.0.0").unwrap().version, "1.0.0");
    assert!(data.packages.get("lib-a@^1.0.0").unwrap()
        .dependencies
        .contains_key("lib-nested-1"));
    assert_eq!(data.packages.get("lib-nested-1@^2.0.0").unwrap().version, "2.0.0");
}

#[test]
fn test_parse_yarn_lockfile_scoped_packages() {
    let content = r#"# yarn lockfile v1

"@scope/pkg@^1.0.0":
  version "1.0.0"
  dependencies:
    "@scope/nested" "^2.0.0"

"@scope/nested@^2.0.0":
  version "2.0.0"
"#;

    let pkg_json = r#"{"dependencies":{"@scope/pkg":"^1.0.0"}}"#.to_string();
    let data = parse_yarn_lockfile(content, &vec![pkg_json]).unwrap();
    assert!(data.direct_dependencies.contains("@scope/pkg"));
    assert_eq!(data.packages.get("\"@scope/pkg@^1.0.0\"").unwrap().version, "1.0.0");
    assert!(data.packages.get("\"@scope/pkg@^1.0.0\"").unwrap()
        .dependencies
        .contains_key("@scope/nested"));
    assert_eq!(data.packages.get("\"@scope/nested@^2.0.0\"").unwrap().version, "2.0.0");
}

#[test]
fn test_parse_yarn_lockfile_no_pkg_json() {
    let content = r#"# yarn lockfile v1

lib-a@^1.0.0:
  version "1.0.0"
"#;

    let data = parse_yarn_lockfile(content, &vec![]).unwrap();
    assert!(data.direct_dependencies.is_empty());
    assert_eq!(data.packages.get("lib-a@^1.0.0").unwrap().version, "1.0.0");
}

// --- yarn Berry (v2+) parsing ---

#[test]
fn test_parse_yarn_berry_lockfile() {
    let content = r#"__metadata:
  version: 8
  cacheKey: 10c0

"image-lib@npm:^2.6.0":
  version: 3.3.1
  resolution: "image-lib@npm:3.3.1"
  dependencies:
    sharp: "npm:^0.33.0"
    color: "npm:^4.0.0"
  checksum: 10c0/abc123
  languageName: node
  linkType: hard

"sharp@npm:^0.33.0":
  version: 0.33.5
  resolution: "sharp@npm:0.33.5"
  checksum: 10c0/def456
  languageName: node
  linkType: hard

"color@npm:^4.0.0":
  version: 4.2.3
  resolution: "color@npm:4.2.3"
  checksum: 10c0/ghi789
  languageName: node
  linkType: hard
"#;

    let pkg_json = r#"{"dependencies":{"image-lib":"^2.6.0"}}"#.to_string();
    let data = parse_yarn_lockfile(content, &vec![pkg_json]).unwrap();

    assert!(data.direct_dependencies.contains("image-lib"));
    assert_eq!(data.packages.len(), 3);
    assert_eq!(data.packages.get("image-lib@npm:^2.6.0").unwrap().version, "3.3.1");
    assert_eq!(data.packages.get("sharp@npm:^0.33.0").unwrap().version, "0.33.5");
    assert_eq!(data.packages.get("color@npm:^4.0.0").unwrap().version, "4.2.3");

    assert_eq!(
        data.packages.get("image-lib@npm:^2.6.0").unwrap()
            .dependencies
            .get("sharp")
            .unwrap(),
        "^0.33.0"
    );
    assert_eq!(
        data.packages.get("image-lib@npm:^2.6.0").unwrap()
            .dependencies
            .get("color")
            .unwrap(),
        "^4.0.0"
    );
}

#[test]
fn test_parse_yarn_berry_scoped_packages() {
    let content = r#"__metadata:
  version: 8

"@scope/my-lib@npm:^1.0.0":
  version: 1.2.3
  resolution: "@scope/my-lib@npm:1.2.3"
  dependencies:
    "@scope/nested": "npm:^2.0.0"
  languageName: node
  linkType: hard

"@scope/nested@npm:^2.0.0":
  version: 2.0.1
  resolution: "@scope/nested@npm:2.0.1"
  languageName: node
  linkType: hard
"#;

    let pkg_json = r#"{"dependencies":{"@scope/my-lib":"^1.0.0"}}"#.to_string();
    let data = parse_yarn_lockfile(content, &vec![pkg_json]).unwrap();

    assert!(data.direct_dependencies.contains("@scope/my-lib"));
    assert_eq!(data.packages.get("@scope/my-lib@npm:^1.0.0").unwrap().version, "1.2.3");
    assert_eq!(data.packages.get("@scope/nested@npm:^2.0.0").unwrap().version, "2.0.1");
    assert!(data.packages.get("@scope/my-lib@npm:^1.0.0").unwrap()
        .dependencies
        .contains_key("@scope/nested"));
}

#[test]
fn test_parse_yarn_berry_multi_specifier_entry() {
    let content = r#"__metadata:
  version: 8

"lodash@npm:^4.17.0, lodash@npm:^4.17.21":
  version: 4.17.21
  resolution: "lodash@npm:4.17.21"
  languageName: node
  linkType: hard
"#;

    let data = parse_yarn_lockfile(content, &vec![]).unwrap();
    assert_eq!(
        data.packages.get("lodash@npm:^4.17.0, lodash@npm:^4.17.21").unwrap().version,
        "4.17.21"
    );
}

#[test]
fn test_parse_yarn_berry_no_deps() {
    let content = r#"__metadata:
  version: 8

"simple-pkg@npm:^1.0.0":
  version: 1.0.0
  resolution: "simple-pkg@npm:1.0.0"
  languageName: node
  linkType: hard
"#;

    let data = parse_yarn_lockfile(content, &vec![]).unwrap();
    assert_eq!(data.packages.get("simple-pkg@npm:^1.0.0").unwrap().version, "1.0.0");
    assert!(data.packages.get("simple-pkg@npm:^1.0.0").unwrap()
        .dependencies
        .is_empty());
}

#[test]
fn test_yaml_value_float_preserved() {
    let parsed: serde_yaml::Value = serde_yaml::from_str("1.0").unwrap();
    let val = Yaml::Scalar { shown: serde_yaml::to_string(&parsed).unwrap() };
    let s = yaml_value_to_string(&val);
    assert_eq!(s, "1.0");
}

#[test]
fn test_yarn_berry_version_change_detected() {
    let old_content = r#"__metadata:
  version: 8

"image-lib@npm:^2.6.0":
  version: 2.6.0
  resolution: "image-lib@npm:2.6.0"
  languageName: node
  linkType: hard
"#;
    let new_content = r#"__metadata:
  version: 8

"image-lib@npm:^2.6.0":
  version: 3.3.1
  resolution: "image-lib@npm:3.3.1"
  languageName: node
  linkType: hard
"#;

    let pkg_json = r#"{"dependencies":{"image-lib":"^2.6.0"}}"#.to_string();
    let old_data = parse_yarn_lockfile(old_content, &vec![pkg_json.clone()]).unwrap();
    let new_data = parse_yarn_lockfile(new_content, &vec![pkg_json.clone()]).unwrap();

    assert_eq!(old_data.packages.get("image-lib@npm:^2.6.0").unwrap().version, "2.6.0");
    assert_eq!(new_data.packages.get("image-lib@npm:^2.6.0").unwrap().version, "3.3.1");

    let changed = diff_lockfile_packages(&old_data.packages, &new_data.packages);
    assert!(
        changed.contains("image-lib"),
        "image-lib should be detected as changed"
    );
}

#[test]
fn test_extract_yarn_berry_name() {
    assert_eq!(extract_yarn_berry_name("image-lib@npm:^2.6.0"), "image-lib");
    assert_eq!(
        extract_yarn_berry_name("@scope/pkg@npm:^1.0.0"),
        "@scope/pkg"
    );
    assert_eq!(
        extract_yarn_berry_name("lodash@npm:^4.17.0, lodash@npm:^4.17.21"),
        "lodash"
    );
    assert_eq!(
        extract_yarn_berry_name("@scope/pkg@workspace:*"),
        "@scope/pkg"
    );
}

// --- bun parsing ---

#[test]
fn test_parse_bun_lockfile() {
    let content = r#"{
      "lockfileVersion": 0,
      "workspaces": {
        "": {
          "name": "my-app",
          "dependencies": { "lib-a": "^1.0.0" }
        }
      },
      "packages": {
        "lib-a": ["lib-a@1.0.0", { "lib-nested-1": "^2.0.0" }],
        "lib-nested-1": ["lib-nested-1@2.0.0"]
      }
    }"#;

    let data = parse_bun_lockfile(content).unwrap();
    assert!(data.direct_dependencies.contains("lib-a"));
    assert_eq!(data.packages.get("lib-a").unwrap().version, "lib-a@1.0.0");
    assert!(data.packages.get("lib-a").unwrap()
        .dependencies
        .contains_key("lib-nested-1"));
}

#[test]
fn test_parse_bun_lockfile_with_comments() {
    let content = r#"{
      // This is a JSONC comment
      "lockfileVersion": 0,
      /* block comment */
      "workspaces": {
        "": {
          "name": "my-app",
          "dependencies": { "lib-a": "^1.0.0" }
        }
      },
      "packages": {
        "lib-a": ["lib-a@1.0.0"]
      }
    }"#;

    let data = parse_bun_lockfile(content).unwrap();
    assert!(data.direct_dependencies.contains("lib-a"));
    assert_eq!(data.packages.get("lib-a").unwrap().version, "lib-a@1.0.0");
}

// --- bun error cases ---

#[test]
fn test_parse_bun_lockfile_invalid() {
    let result = parse_bun_lockfile("not valid jsonc {{");
    assert!(result.is_err());
}

// --- size guard ---

#[test]
fn test_parse_lockfile_rejects_oversized() {
    let result = parse_lockfile(
        &"x".repeat(MAX_LOCKFILE_BYTES as usize + 1),
        &PackageManager::Npm,
        &vec![],
    );
    assert!(result.is_err());
    let err = result.err().unwrap().message().to_string();
    assert!(err.contains("size limit"));
}

// --- reverse dep graph ---

#[test]
fn test_build_reverse_dep_graph() {
    let mut packages = StringMap::new();
    packages.insert(
        "lib-a".to_string(),
        PackageInfo {
            version: "1.0.0".to_string(),
            dependencies: texts(&[("lib-nested-1", "^2.0.0")]),
        },
    );
    packages.insert(
        "lib-b".to_string(),
        PackageInfo {
            version: "1.0.0".to_string(),
            dependencies: texts(&[("lib-nested-1", "^2.0.0")]),
        },
    );
    packages.insert(
        "lib-nested-1".to_string(),
        PackageInfo {
            version: "2.0.0".to_string(),
            dependencies: StringMap::new(),
        },
    );

    let data = LockfileData {
        direct_dependencies: StringSet::new(),
        packages,
    };

    let graph = build_reverse_dep_graph(&data);
    let parents = graph.get("lib-nested-1").unwrap();
    assert!(parents.contains("lib-a"));
    assert!(parents.contains("lib-b"));
}

// --- resolve_to_direct_deps ---

#[test]
fn test_resolve_direct_dep_changed() {
    let changed = set(&["lib-a"]);
    let direct = set(&["lib-a"]);
    let graph = graph(&[]);

    let result = resolve_to_direct_deps(&changed, &graph, &direct);
    assert!(result.contains("lib-a"));
}

#[test]
fn test_resolve_transitive_dep() {
    let changed = set(&["lib-nested-1"]);
    let direct = set(&["lib-a"]);
    let graph = graph(&[("lib-nested-1", &["lib-a"])]);

    let result = resolve_to_direct_deps(&changed, &graph, &direct);
    assert!(result.contains("lib-a"));
    assert!(!result.contains("lib-nested-1"));
}

#[test]
fn test_resolve_multi_level_transitive() {
    let changed = set(&["deep-lib"]);
    let direct = set(&["lib-a"]);
    let graph = graph(&[
        ("deep-lib", &["mid-lib"]),
        ("mid-lib", &["lib-a"]),
    ]);

    let result = resolve_to_direct_deps(&changed, &graph, &direct);
    assert!(result.contains("lib-a"));
}

#[test]
fn test_resolve_diamond_deps() {
    let changed = set(&["deep-lib"]);
    let direct = set(&["lib-a", "lib-b"]);
    let graph = graph(&[
        ("deep-lib", &["mid-a", "mid-b"]),
        ("mid-a", &["lib-a"]),
        ("mid-b", &["lib-b"]),
    ]);

    let result = resolve_to_direct_deps(&changed, &graph, &direct);
    assert!(result.contains("lib-a"));
    assert!(result.contains("lib-b"));
}

#[test]
fn test_resolve_orphan_package_ignored() {
    let changed = set(&["orphan-pkg"]);
    let direct = set(&["lib-a"]);
    let graph = graph(&[]);

    let result = resolve_to_direct_deps(&changed, &graph, &direct);
    assert!(result.is_empty());
}

// --- diff ---

#[test]
fn test_diff_lockfile_packages_changed() {
    let current = packages("lib-a", "2.0.0");
    let previous = packages("lib-a", "1.0.0");

    let result = diff_lockfile_packages(&current, &previous);
    assert!(result.contains("lib-a"));
}

#[test]
fn test_diff_lockfile_packages_added() {
    let current = packages("lib-new", "1.0.0");
    let previous = StringMap::new();

    let result = diff_lockfile_packages(&current, &previous);
    assert!(result.contains("lib-new"));
}

#[test]
fn test_diff_lockfile_packages_removed() {
    let current = StringMap::new();
    let previous = packages("lib-old", "1.0.0");

    let result = diff_lockfile_packages(&current, &previous);
    assert!(result.contains("lib-old"));
}

#[test]
fn test_diff_lockfile_packages_unchanged() {
    let current = packages("lib-a", "1.0.0");
    let previous = packages("lib-a", "1.0.0");

    let result = diff_lockfile_packages(&current, &previous);
    assert!(result.is_empty());
}

// --- match_affected_dependency ---

#[test]
fn test_match_affected_exact() {
    let deps = set(&["lib-a"]);
    assert_eq!(match_affected_dependency("lib-a", &deps), Some("lib-a"));
}

#[test]
fn test_match_affected_subpath() {
    let deps = set(&["lib-a"]);
    assert_eq!(
        match_affected_dependency("lib-a/utils", &deps),
        Some("lib-a")
    );
}

#[test]
fn test_match_affected_scoped() {
    let deps = set(&["@scope/pkg"]);
    assert_eq!(
        match_affected_dependency("@scope/pkg", &deps),
        Some("@scope/pkg")
    );
    assert_eq!(
        match_affected_dependency("@scope/pkg/sub", &deps),
        Some("@scope/pkg")
    );
}

#[test]
fn test_match_affected_no_match() {
    let deps = set(&["lib-a"]);
    assert_eq!(match_affected_dependency("lib-b", &deps), None);
    assert_eq!(match_affected_dependency("./lib-a", &deps), None);
    assert_eq!(match_affected_dependency("lib-ab", &deps), None);
    assert_eq!(match_affected_dependency("/lib-a", &deps), None);
}

// --- package_name_from_key ---

#[test]
fn test_package_name_from_key_npm_v3() {
    assert_eq!(
        package_name_from_key("node_modules/debug/node_modules/ms"),
        "ms"
    );
}

#[test]
fn test_package_name_from_key_npm_v3_scoped() {
    assert_eq!(
        package_name_from_key("node_modules/@scope/pkg"),
        "@scope/pkg"
    );
}

#[test]
fn test_package_name_from_key_pnpm() {
    assert_eq!(package_name_from_key("/foo@1.0.0"), "foo");
}

#[test]
fn test_package_name_from_key_pnpm_scoped() {
    assert_eq!(package_name_from_key("/@scope/pkg@1.0.0"), "@scope/pkg");
}

#[test]
fn test_package_name_from_key_yarn_berry() {
    assert_eq!(package_name_from_key("image-lib@npm:^2.6.0"), "image-lib");
}

#[test]
fn test_package_name_from_key_yarn_classic_quoted() {
    assert_eq!(package_name_from_key("\"lib-a@^1.0.0\""), "lib-a");
}

#[test]
fn test_package_name_from_key_bare() {
    assert_eq!(package_name_from_key("foo"), "foo");
}

#[test]
fn test_package_name_from_key_empty() {
    assert_eq!(package_name_from_key(""), "");
}

// --- glob_match ---

#[test]
fn test_glob_match_star() {
    assert!(glob_match("packages/*", "packages/foo"));
}

#[test]
fn test_glob_match_globstar() {
    assert!(glob_match("packages/**", "packages/foo/bar"));
    assert!(glob_match("packages/**", "packages/foo"));
}

#[test]
fn test_glob_match_star_matches_single_segment() {
    assert!(glob_match("packages/*", "packages/foo"));
    assert!(glob_match("packages/*", "packages/bar"));
}

#[test]
fn test_glob_match_nested() {
    assert!(glob_match("libs/*/src", "libs/core/src"));
    assert!(!glob_match("libs/*/src", "libs/core/dist"));
}

#[test]
fn test_glob_match_no_match() {
    assert!(!glob_match("apps/*", "packages/foo"));
}

// --- resolve_to_direct_deps with cyclic graph ---

#[test]
fn test_resolve_cyclic_no_direct_dep() {
    let changed = set(&["a"]);
    let direct = set(&["lib-x"]);
    let graph = graph(&[
        ("a", &["b"]),
        ("b", &["c"]),
        ("c", &["a"]),
    ]);
    let result = resolve_to_direct_deps(&changed, &graph, &direct);
    assert!(result.is_empty());
}

#[test]
fn test_resolve_cyclic_with_exit() {
    let changed = set(&["deep"]);
    let direct = set(&["lib-a"]);
    let graph = graph(&[
        ("deep", &["mid"]),
        ("mid", &["deep", "lib-a"]),
    ]);
    let result = resolve_to_direct_deps(&changed, &graph, &direct);
    assert!(result.contains("lib-a"));
}

// --- Yarn Classic optionalDependencies ---

#[test]
fn test_parse_yarn_classic_optional_deps() {
    let lockfile = r#"# yarn lockfile v1

lib-a@^1.0.0:
  version "1.0.0"
  optionalDependencies:
    fsevents "^2.0.0"
"#;
    let packages = parse_yarn_classic_packages(lockfile).unwrap();
    let entry = packages.value_at(0);
    assert!(entry.dependencies.contains_key("fsevents"));
    assert_eq!(entry.dependencies.get("fsevents").unwrap(), "^2.0.0");
}

// --- extract_workspace_patterns ---

#[test]
fn test_extract_workspace_patterns_array() {
    let pkg = r#"{"workspaces": ["packages/*", "libs/*"]}"#;
    let patterns = extract_workspace_patterns(pkg);
    assert_eq!(patterns, vec!["packages/*", "libs/*"]);
}

#[test]
fn test_extract_workspace_patterns_object() {
    let pkg = r#"{"workspaces": {"packages": ["libs/*"]}}"#;
    let patterns = extract_workspace_patterns(pkg);
    assert_eq!(patterns, vec!["libs/*"]);
}

#[test]
fn test_extract_workspace_patterns_missing() {
    let pkg = r#"{"name": "foo"}"#;
    let patterns = extract_workspace_patterns(pkg);
    assert!(patterns.is_empty());
}

#[test]
fn test_extract_workspace_patterns_invalid_json() {
    let patterns = extract_workspace_patterns("not json");
    assert!(patterns.is_empty());
}

#[test]
fn test_is_dependency_manifest() {
    // The detected package manager's lockfile is always exempt, regardless of
    // whether `lockfile_changed` was computed true (the lockfile file being
    // present in the diff is itself what makes lockfile_changed true).
    assert!(is_dependency_manifest(
        "pnpm-lock.yaml",
        Some(&PackageManager::Pnpm),
        true
    ));
    assert!(is_dependency_manifest(
        "package-lock.json",
        Some(&PackageManager::Npm),
        false
    ));

    // A lockfile for a *different* package manager than detected is not exempt.
    assert!(!is_dependency_manifest(
        "pnpm-lock.yaml",
        Some(&PackageManager::Npm),
        true
    ));

    // package.json is exempt ONLY when the lockfile also changed (a real
    // dependency update touches both) — lockfile analysis resolves the importers.
    assert!(is_dependency_manifest(
        "package.json",
        Some(&PackageManager::Pnpm),
        true
    ));
    // package.json alone (no lockfile change) stays a global trigger so an
    // uninstalled version-range edit can't silently under-include.
    assert!(!is_dependency_manifest(
        "package.json",
        Some(&PackageManager::Pnpm),
        false
    ));
    // No package manager detected → lockfile_changed is false in practice →
    // package.json is not exempt.
    assert!(!is_dependency_manifest(
        "package.json",
        None,
        false
    ));

    // Other workspace-root files (e.g. .nvmrc) are never dependency manifests,
    // so they keep triggering global invalidation.
    assert!(!is_dependency_manifest(
        ".nvmrc",
        Some(&PackageManager::Pnpm),
        true
    ));
    // Nested package.json is not the workspace-root manifest (never a global
    // trigger anyway — those match {workspaceRoot}/ only).
    assert!(!is_dependency_manifest(
        "libs/foo/package.json",
        Some(&PackageManager::Pnpm),
        true
    ));
}

fn members_tree(root: &str) -> FileTree {
    let mut tree = FileTree::new();
    for path in ["packages/a/package.json", "packages/b/package.json", "libs/c/package.json"] {
        tree.add_file(&format!("{root}{path}"), Some("{}".to_string()));
    }
    tree.add_file(&format!("{root}packages/a/src/index.ts"), Some(String::new()));
    tree
}

fn found(pattern: &str, tree: &FileTree, cwd: &str) -> Vec<String> {
    let manifest = format!(r#"{{ "workspaces": ["{pattern}"] }}"#);
    extract_workspace_globs(&manifest, tree, cwd)
}

#[test]
fn workspace_patterns_are_followed_segment_by_segment() {
    let tree = members_tree("/repo/");
    let packages = vec!["/repo/packages/a", "/repo/packages/b"];
    assert_eq!(found("packages/*", &tree, "/repo"), packages);
    assert_eq!(found("./packages/*", &tree, "/repo"), packages);
    assert_eq!(found("packages/*/", &tree, "/repo"), packages);
    assert_eq!(found("packages//*", &tree, "/repo"), packages);
    assert_eq!(found("packages/../libs/*", &tree, "/repo"), vec!["/repo/libs/c"]);
    assert_eq!(found("../repo/libs/*", &tree, "/repo"), vec!["/repo/libs/c"]);
    assert_eq!(found("packages/*", &tree, "/repo/."), packages);
    assert_eq!(found("packages/*", &tree, "/repo/libs/.."), packages);
    assert_eq!(found("packages/[", &tree, "/repo"), Vec::<String>::new());
}

#[test]
fn workspace_patterns_work_from_a_relative_root() {
    let tree = members_tree("./");
    assert_eq!(found("packages/*", &tree, "."), vec!["packages/a", "packages/b"]);
    assert_eq!(found("./libs/*", &tree, "."), vec!["libs/c"]);
    assert_eq!(found("packages/*", &members_tree("./repo/"), "./repo"), vec![
        "repo/packages/a",
        "repo/packages/b",
    ]);
    assert_eq!(found("packages/*", &members_tree("../repo/"), "../repo"), vec![
        "../repo/packages/a",
        "../repo/packages/b",
    ]);
    assert_eq!(found("../packages/*", &tree, "."), Vec::<String>::new());
}

#[test]
fn manifests_of_members_are_found_through_any_form_of_pattern() {
    for pattern in ["packages/*", "./packages/*", "packages/*/", "libs/../packages/*"] {
        let mut tree = members_tree("./");
        let root = format!(r#"{{ "workspaces": ["{pattern}"] }}"#);
        tree.add_file("./package.json", Some(root.clone()));
        assert_eq!(collect_workspace_pkg_jsons(&tree, "."), vec![root, "{}".into(), "{}".into()]);
    }
}
