use domino::error::DominoError;
use domino::files::FileTree;
use domino::profiler::Profiler;
use domino::semantic::analyzer::WorkspaceAnalyzer;
use domino::semantic::collect::SourceFile;
use domino::semantic::edges::ResolutionTable;
use domino::semantic::modules::extract_imports;
use domino::semantic::positions::{line_to_offset, offset_to_line_col};
use domino::semantic::queries::collect_symbols_on_lines;
use domino::semantic::reference_finder::ReferenceFinder;
use domino::semantic::symbols::{find_top_level_symbols, FileSemanticData};
use domino::semantic::syntax::NodeKind;
use domino::semantic::tsconfig_paths::TsconfigPaths;
use domino::semantic::workspace_resolver::{
    is_relative_specifier, is_workspace_specifier, path_prefixes, simple_resolve_relative,
    Resolution, WorkspaceResolver,
};
use domino::types::{Import, Project, Reference};
use oxc_resolver::{
    AliasValue, FileMetadata, FileSystem, ResolveError, ResolveOptions, ResolverGeneric,
};
use std::path::{Path, PathBuf};

const CWD: &str = "/repo";

/// The files of a workspace as the module resolver sees them.
struct MemoryFiles {
    tree: FileTree,
}

impl FileSystem for MemoryFiles {
    fn new() -> Self {
        MemoryFiles { tree: FileTree::new() }
    }

    fn read(&self, path: &Path) -> std::io::Result<Vec<u8>> {
        self.read_to_string(path).map(String::into_bytes)
    }

    fn read_to_string(&self, path: &Path) -> std::io::Result<String> {
        self.tree
            .read(path.to_str().unwrap())
            .map(str::to_string)
            .ok_or_else(|| std::io::Error::from(std::io::ErrorKind::NotFound))
    }

    fn metadata(&self, path: &Path) -> std::io::Result<FileMetadata> {
        let path = path.to_str().unwrap();
        if self.tree.is_present(path) {
            Ok(FileMetadata::new(self.tree.is_file(path), self.tree.is_dir(path), false))
        } else {
            Err(std::io::Error::from(std::io::ErrorKind::NotFound))
        }
    }

    fn symlink_metadata(&self, path: &Path) -> std::io::Result<FileMetadata> {
        self.metadata(path)
    }

    fn read_link(&self, _path: &Path) -> Result<PathBuf, ResolveError> {
        Err(ResolveError::NotFound(String::new()))
    }

    fn canonicalize(&self, path: &Path) -> std::io::Result<PathBuf> {
        Ok(path.to_path_buf())
    }
}

fn tree_of(files: &[(&str, &str)]) -> FileTree {
    let mut tree = FileTree::new();
    for (path, content) in files {
        tree.add_file(&format!("{}/{}", CWD, path), Some(content.to_string()));
    }
    tree
}

fn texts(list: &[&str]) -> Vec<String> {
    list.iter().map(|t| t.to_string()).collect()
}

fn module_resolver(files: &[(&str, &str)], projects: &[Project]) -> ResolverGeneric<MemoryFiles> {
    let options = ResolveOptions {
        alias: projects
            .iter()
            .map(|p| {
                let root = format!("{}/{}", CWD, p.source_root);
                (p.name.clone(), vec![AliasValue::Path(root)])
            })
            .collect(),
        extensions: texts(&[".ts", ".tsx", ".mts", ".cts", ".js", ".jsx", ".mjs", ".cjs"]),
        ..ResolveOptions::default()
    };
    ResolverGeneric::new_with_file_system(MemoryFiles { tree: tree_of(files) }, options)
}

fn resolve_with(
    modules: &ResolverGeneric<MemoryFiles>,
    resolver: &WorkspaceResolver,
    file: &str,
    specifier: &str,
) -> Option<String> {
    let reachable = is_workspace_specifier(specifier, resolver.projects, &vec![]);
    let mut replies: Vec<Option<String>> = Vec::new();
    loop {
        match resolver.resolve(file, specifier, reachable, &replies) {
            Resolution::Done(path) => return path,
            Resolution::Ask { context, request } => {
                let reply = modules.resolve(&context, &request).ok();
                replies.push(reply.map(|r| r.path().to_str().unwrap().to_string()));
            }
        }
    }
}

fn linked_analyzer(projects: Vec<Project>, files: &[(&str, &str)]) -> WorkspaceAnalyzer {
    let tree = tree_of(files);
    let modules = module_resolver(files, &projects);
    let kept = projects.clone();
    let analyzer = WorkspaceAnalyzer::new(projects, CWD, &tree);
    let resolver = WorkspaceResolver { cwd: CWD, projects: &kept, tree: &tree };
    let mut table = ResolutionTable::new();
    for (file, specifier) in analyzer.requests() {
        let target = resolve_with(&modules, &resolver, &file, &specifier);
        table.insert(&file, &specifier, target);
    }
    analyzer.link(&table)
}

fn project(name: &str, root: &str, source_root: &str) -> Project {
    Project {
        name: name.to_string(),
        root: root.to_string(),
        source_root: source_root.to_string(),
        ts_config: None,
        implicit_dependencies: vec![],
        targets: vec![],
    }
}

fn analyzer_over_files(files: &[(&str, &str)]) -> WorkspaceAnalyzer {
    linked_analyzer(vec![project("lib", "src", "src")], files)
}

fn analyzer_with_file(source: &str, file_name: &str) -> WorkspaceAnalyzer {
    let file = SourceFile { path: file_name.to_string(), source: source.to_string() };
    WorkspaceAnalyzer::from_sources(vec![], vec![file])
}

fn imports_of(source: &str, file_name: &str) -> Vec<Import> {
    let data = FileSemanticData::parse(file_name, source.to_string());
    extract_imports(&data.semantic().nodes)
}

/// Sorted `(reexporting_file, exported_name, local_name)` triples for a source file.
fn reexporters_of(
    analyzer: &WorkspaceAnalyzer,
    source: &str,
) -> Vec<(String, String, Option<String>)> {
    let mut entries: Vec<_> = analyzer
        .barrels(source)
        .into_iter()
        .map(|e| (e.reexporting_file, e.export.exported_name, e.export.local_name))
        .collect();
    entries.sort();
    entries
}

#[test]
fn program_node_span_survives_parse_function_return() {
    let source = "export const Widget = () => <div>modified</div>;\n";
    let file_data = FileSemanticData::parse("Widget.tsx", source.to_string());

    let program_span = file_data
        .semantic()
        .nodes
        .iter()
        .find(|node| matches!(node.kind, NodeKind::Program))
        .expect("semantic data should contain a Program node");

    assert_eq!(
        (program_span.start, program_span.end),
        (0, source.len() as u32),
        "Program node span was corrupted after the parsing function returned"
    );

    let symbols = find_top_level_symbols(&file_data, 1, 0).unwrap();
    assert_eq!(
        symbols,
        vec!["Widget".to_string()],
        "symbol on line 1 should resolve after the parsing function returned"
    );
}

#[test]
fn test_find_node_at_line_with_column_offset() {
    let source = r#"import { Component } from './component';

const MemoizedComponent = React.memo(Component);
const AnotherVar = 'test';

export { MemoizedComponent };"#;

    let file_path = "test.ts";
    let analyzer = analyzer_with_file(source, file_path);

    let result = analyzer.find_node_at_line(file_path, 3, 42);
    assert!(result.is_ok());
    let symbol = result.unwrap();
    assert_eq!(symbol, vec!["MemoizedComponent".to_string()]);

    let result = analyzer.find_node_at_line(file_path, 3, 0);
    assert!(result.is_ok());
    let symbol = result.unwrap();
    assert_eq!(symbol, vec!["MemoizedComponent".to_string()]);

    let result = analyzer.find_node_at_line(file_path, 4, 10);
    assert!(result.is_ok());
    let symbol = result.unwrap();
    assert_eq!(symbol, vec!["AnotherVar".to_string()]);
}

#[test]
fn test_find_node_at_line_non_exported_const_column_zero() {
    let source = r#"const basePattern = `some-pattern`
const combined = `prefix-${basePattern}-suffix`
export const MY_REGEX = new RegExp(combined)"#;

    let file_path = "test.ts";
    let analyzer = analyzer_with_file(source, file_path);

    let result = analyzer.find_node_at_line(file_path, 1, 0);
    assert!(result.is_ok());
    assert_eq!(result.unwrap(), vec!["basePattern".to_string()]);

    let result = analyzer.find_node_at_line(file_path, 2, 0);
    assert!(result.is_ok());
    assert_eq!(result.unwrap(), vec!["combined".to_string()]);

    let result = analyzer.find_node_at_line(file_path, 3, 0);
    assert!(result.is_ok());
    assert_eq!(result.unwrap(), vec!["MY_REGEX".to_string()]);
}

#[test]
fn test_find_node_at_line_non_exported_let_var_column_zero() {
    let source = r#"let localLet = 1
var localVar = 2"#;

    let file_path = "test.ts";
    let analyzer = analyzer_with_file(source, file_path);

    let result = analyzer.find_node_at_line(file_path, 1, 0);
    assert!(result.is_ok());
    assert_eq!(result.unwrap(), vec!["localLet".to_string()]);

    let result = analyzer.find_node_at_line(file_path, 2, 0);
    assert!(result.is_ok());
    assert_eq!(result.unwrap(), vec!["localVar".to_string()]);
}

#[test]
fn test_find_node_at_line_non_exported_destructuring_column_zero() {
    let source = r#"const { a, b } = { a: 1, b: 2 }
const [x, y] = [1, 2]"#;

    let file_path = "test.ts";
    let analyzer = analyzer_with_file(source, file_path);

    let result = analyzer.find_node_at_line(file_path, 1, 0);
    assert!(result.is_ok());
    assert_eq!(result.unwrap(), Vec::<String>::new());

    let result = analyzer.find_node_at_line(file_path, 2, 0);
    assert!(result.is_ok());
    assert_eq!(result.unwrap(), Vec::<String>::new());
}

#[test]
fn test_find_node_at_line_multiple_declarators_column_zero() {
    let source = "const a = 1, b = 2";

    let file_path = "test.ts";
    let analyzer = analyzer_with_file(source, file_path);

    let result = analyzer.find_node_at_line(file_path, 1, 0);
    assert!(result.is_ok());
    assert_eq!(result.unwrap(), vec!["a".to_string()]);
}

#[test]
fn test_find_deleted_symbols_whole_exported_declaration() {
    let base_source = r#"export const Removed = {
  value: 1,
};

export const Kept = 2;
"#;
    let analyzer = WorkspaceAnalyzer::from_sources(vec![], vec![]);

    let symbols = analyzer.find_deleted_symbols("gone.ts", base_source, &[1, 2, 3]);
    assert_eq!(symbols, vec!["Removed".to_string()]);
}

#[test]
fn test_find_deleted_symbols_member_resolves_enclosing_symbol() {
    let base_source = r#"export const TABLE = {
  alpha: 1,
  beta: 2,
  gamma: 3,
};
"#;
    let analyzer = WorkspaceAnalyzer::from_sources(vec![], vec![]);

    let symbols = analyzer.find_deleted_symbols("table.ts", base_source, &[3]);
    assert_eq!(symbols, vec!["TABLE".to_string()]);
}

#[test]
fn test_find_deleted_symbols_empty_lines_returns_empty() {
    let analyzer = WorkspaceAnalyzer::from_sources(vec![], vec![]);
    let symbols = analyzer.find_deleted_symbols("x.ts", "export const A = 1;\n", &[]);
    assert!(symbols.is_empty());
}

#[test]
fn test_find_node_smallest_containing_node() {
    let source = r#"export function outer() {
  const inner = function() {
    return 'nested';
  };
  return inner;
}"#;

    let file_path = "test.ts";
    let analyzer = analyzer_with_file(source, file_path);

    let result = analyzer.find_node_at_line(file_path, 2, 10);
    assert!(result.is_ok());
    let symbol = result.unwrap();
    assert!(!symbol.is_empty());
}

#[test]
fn test_extract_dynamic_imports_basic() {
    let source = r#"
import { staticImport } from './static';

const LazyComponent = React.lazy(() => import('./LazyComponent'));

async function loadModule() {
  const module = await import('./dynamic-module');
  return module;
}
"#;

    let imports = imports_of(source, "test.tsx");

    assert_eq!(imports.len(), 3);

    assert!(imports
        .iter()
        .any(|imp| imp.from_module == "./static" && imp.imported_name == "staticImport"));

    let dynamic_imports: Vec<_> = imports
        .iter()
        .filter(|imp| imp.from_module == "./LazyComponent" || imp.from_module == "./dynamic-module")
        .collect();
    assert_eq!(dynamic_imports.len(), 2);

    for imp in dynamic_imports {
        assert_eq!(imp.imported_name, "*");
        assert!(!imp.is_type_only);
    }
}

#[test]
fn test_extract_dynamic_imports_with_then() {
    let source = r#"
const LazyComponent = React.lazy(
  async () => await import('@my-org/shared-lib').then(module => ({ default: module.MyComponent })),
);
"#;

    let imports = imports_of(source, "App.tsx");

    assert_eq!(imports.len(), 1);

    let imp = &imports[0];
    assert_eq!(imp.from_module, "@my-org/shared-lib");
    assert_eq!(imp.imported_name, "*"); // Namespace import
    assert!(!imp.is_type_only);
}

#[test]
fn test_extract_no_dynamic_imports() {
    let source = r#"
import { Component } from './Component';
import * as Utils from './utils';
import type { Props } from './types';

export function MyComponent(props: Props) {
  return <Component {...props} />;
}
"#;

    let imports = imports_of(source, "test.tsx");

    assert_eq!(imports.len(), 3);

    assert!(!imports
        .iter()
        .any(|imp| imp.local_name.starts_with("__dynamic_import_")));
}

#[test]
fn test_extract_multiple_dynamic_imports() {
    let source = r#"
const Component1 = React.lazy(() => import('./Component1'));
const Component2 = React.lazy(() => import('./Component2'));
const Component3 = React.lazy(() => import('./Component3'));

async function loadAll() {
  await import('./module1');
  await import('./module2');
}
"#;

    let imports = imports_of(source, "test.tsx");

    assert_eq!(imports.len(), 5);

    assert!(imports.iter().all(|imp| imp.imported_name == "*"));

    let modules: Vec<_> = imports.iter().map(|imp| imp.from_module.as_str()).collect();
    assert!(modules.contains(&"./Component1"));
    assert!(modules.contains(&"./Component2"));
    assert!(modules.contains(&"./Component3"));
    assert!(modules.contains(&"./module1"));
    assert!(modules.contains(&"./module2"));
}

#[test]
fn test_extract_dynamic_imports_non_string_literal() {
    let source = r#"
// Template literal (not supported)
const moduleName = 'dynamic-module';
const module1 = await import(`./modules/${moduleName}`);

// Variable (not supported)
const specifier = './some-module';
const module2 = await import(specifier);

// String literal (supported)
const module3 = await import('./supported-module');
"#;

    let imports = imports_of(source, "test.ts");

    assert_eq!(imports.len(), 1);
    assert_eq!(imports[0].from_module, "./supported-module");
    assert_eq!(imports[0].imported_name, "*");
    assert!(imports[0].is_dynamic);
}

#[test]
fn test_dynamic_imports_are_marked() {
    let source = r#"
import { StaticImport } from './static';
import * as StaticNamespace from './static-namespace';

const DynamicImport = await import('./dynamic');
"#;

    let imports = imports_of(source, "test.ts");

    assert_eq!(imports.len(), 3);

    let static_imports: Vec<_> = imports.iter().filter(|imp| !imp.is_dynamic).collect();
    assert_eq!(static_imports.len(), 2);
    assert!(static_imports
        .iter()
        .all(|imp| imp.from_module.starts_with("./static")));

    let dynamic_imports: Vec<_> = imports.iter().filter(|imp| imp.is_dynamic).collect();
    assert_eq!(dynamic_imports.len(), 1);
    assert_eq!(dynamic_imports[0].from_module, "./dynamic");
    assert_eq!(dynamic_imports[0].imported_name, "*");
}

#[test]
fn test_find_node_at_line_export_default_named() {
    let source = r#"export default function myFunction() {
  return 'test';
}"#;

    let file_path = "test.ts";
    let analyzer = analyzer_with_file(source, file_path);

    let result = analyzer.find_node_at_line(file_path, 1, 0);
    assert!(result.is_ok(), "Should not error: {:?}", result);
    let symbol = result.unwrap();
    assert_eq!(
        symbol,
        vec!["default".to_string()],
        "Should find 'default' for export default"
    );
}

#[test]
fn test_find_node_at_line_export_default_anonymous() {
    let source = r#"export default function() {
  return 'anonymous';
}"#;

    let file_path = "test.ts";
    let analyzer = analyzer_with_file(source, file_path);

    let result = analyzer.find_node_at_line(file_path, 1, 0);
    assert!(result.is_ok(), "Should not error: {:?}", result);
    let symbol = result.unwrap();
    assert_eq!(
        symbol,
        vec!["default".to_string()],
        "Should find 'default' for anonymous export default"
    );
}

#[test]
fn test_find_node_at_line_destructured_export() {
    let source = r#"const obj = { a: 1, b: 2 };
export const { a, b } = obj;"#;

    let file_path = "test.ts";
    let analyzer = analyzer_with_file(source, file_path);

    let result = analyzer.find_node_at_line(file_path, 2, 0);
    assert!(result.is_ok(), "Should not error: {:?}", result);
}

#[test]
fn test_find_node_at_line_multiple_exports() {
    let source = r#"export const FIRST = 1;
export const SECOND = 2;
export function third() {
  return 3;
}"#;

    let file_path = "test.ts";
    let analyzer = analyzer_with_file(source, file_path);

    let result1 = analyzer.find_node_at_line(file_path, 1, 0);
    assert!(result1.is_ok());
    assert_eq!(result1.unwrap(), vec!["FIRST".to_string()]);

    let result2 = analyzer.find_node_at_line(file_path, 2, 0);
    assert!(result2.is_ok());
    assert_eq!(result2.unwrap(), vec!["SECOND".to_string()]);

    let result3 = analyzer.find_node_at_line(file_path, 3, 0);
    assert!(result3.is_ok());
    assert_eq!(result3.unwrap(), vec!["third".to_string()]);
}

#[test]
fn test_find_namespace_member_access() {
    let source = r#"import * as ui from '@my-org/ui-components';
import * as utils from './utils';

const button = ui.Button;
const input = ui.Input;
const datePicker = ui.DatePicker;

const helper = utils.helper;
const notUi = someOther.DatePicker;

type Props = ui.ButtonProps;
"#;

    let file_path = "test.tsx";
    let analyzer = analyzer_with_file(source, file_path);

    let refs = analyzer
        .find_namespace_member_access(file_path, "ui", "DatePicker")
        .expect("Should not error");
    assert_eq!(
        refs.len(),
        1,
        "Should find exactly 1 reference to ui.DatePicker"
    );

    let refs = analyzer
        .find_namespace_member_access(file_path, "ui", "Button")
        .expect("Should not error");
    assert_eq!(
        refs.len(),
        1,
        "Should find exactly 1 reference to ui.Button"
    );

    let refs = analyzer
        .find_namespace_member_access(file_path, "ui", "Input")
        .expect("Should not error");
    assert_eq!(refs.len(), 1, "Should find exactly 1 reference to ui.Input");

    let refs = analyzer
        .find_namespace_member_access(file_path, "utils", "helper")
        .expect("Should not error");
    assert_eq!(
        refs.len(),
        1,
        "Should find exactly 1 reference to utils.helper"
    );

    let refs = analyzer
        .find_namespace_member_access(file_path, "ui", "NonExistent")
        .expect("Should not error");
    assert_eq!(refs.len(), 0, "Should find no references to ui.NonExistent");

    let refs = analyzer
        .find_namespace_member_access(file_path, "utils", "DatePicker")
        .expect("Should not error");
    assert_eq!(
        refs.len(),
        0,
        "Should find no references to utils.DatePicker"
    );

    let refs = analyzer
        .find_namespace_member_access(file_path, "someOther", "DatePicker")
        .expect("Should not error");
    assert_eq!(
        refs.len(),
        1,
        "Should find 1 reference to someOther.DatePicker"
    );

    let refs = analyzer
        .find_namespace_member_access(file_path, "ui", "ButtonProps")
        .expect("Should not error");
    assert_eq!(
        refs.len(),
        1,
        "Should find 1 reference to ui.ButtonProps (type)"
    );
}

#[test]
fn test_find_node_at_line_reexport_specifier() {
    let source = "export { Foo } from './foo';\n";
    let file_path = "barrel.ts";
    let analyzer = analyzer_with_file(source, file_path);

    let result = analyzer
        .find_node_at_line(file_path, 1, 0)
        .expect("Should not error");
    assert_eq!(result, vec!["Foo".to_string()]);
}

#[test]
fn test_find_node_at_line_reexport_aliased() {
    let source = "export { Foo as Bar } from './foo';\n";
    let file_path = "barrel.ts";
    let analyzer = analyzer_with_file(source, file_path);

    let result = analyzer
        .find_node_at_line(file_path, 1, 0)
        .expect("Should not error");
    assert_eq!(result, vec!["Bar".to_string()]);
}

#[test]
fn test_find_node_at_line_reexport_multiple_specifiers() {
    let source = "export { Alpha, Beta, Gamma } from './module';\n";
    let file_path = "barrel.ts";
    let analyzer = analyzer_with_file(source, file_path);

    let result = analyzer
        .find_node_at_line(file_path, 1, 0)
        .expect("Should not error");
    assert_eq!(
        result,
        vec!["Alpha".to_string(), "Beta".to_string(), "Gamma".to_string()]
    );
}

#[test]
fn test_find_node_at_line_reexport_wildcard() {
    let source = "export * from './foo';\n";
    let file_path = "barrel.ts";
    let analyzer = analyzer_with_file(source, file_path);

    let result = analyzer
        .find_node_at_line(file_path, 1, 0)
        .expect("Should not error");
    assert!(result.is_empty());
}

#[test]
fn test_find_node_at_line_inline_export_still_works() {
    let source = "export const MyConst = 42;\n";
    let file_path = "test.ts";
    let analyzer = analyzer_with_file(source, file_path);

    let result = analyzer
        .find_node_at_line(file_path, 1, 0)
        .expect("Should not error");
    assert_eq!(result, vec!["MyConst".to_string()]);
}

#[test]
fn test_build_reexport_index_named_wildcard_and_aliased() {
    let analyzer = analyzer_over_files(&[
        (
            "src/utils.ts",
            "export function helper() {\n  return 1;\n}\n",
        ),
        ("src/other.ts", "export const other = 2;\n"),
        (
            "src/index.ts",
            "export { helper } from './utils';\nexport * from './other';\n",
        ),
        (
            "src/public-api.ts",
            "export { helper as publicHelper } from './utils';\nexport * from './index';\n",
        ),
        (
            "src/consumer.ts",
            "import { helper } from './utils';\nexport const used = helper();\n",
        ),
        (
            "src/external.ts",
            "export { something } from 'some-external-package';\n",
        ),
    ]);

    assert_eq!(
        reexporters_of(&analyzer, "src/utils.ts"),
        vec![
            (
                "src/index.ts".to_string(),
                "helper".to_string(),
                Some("helper".to_string())
            ),
            (
                "src/public-api.ts".to_string(),
                "publicHelper".to_string(),
                Some("helper".to_string())
            ),
        ]
    );

    assert_eq!(
        reexporters_of(&analyzer, "src/other.ts"),
        vec![("src/index.ts".to_string(), "*".to_string(), None)]
    );

    assert_eq!(
        reexporters_of(&analyzer, "src/index.ts"),
        vec![("src/public-api.ts".to_string(), "*".to_string(), None)]
    );

    assert!(
        analyzer.barrels("src/consumer.ts").is_empty(),
        "consumer.ts is not re-exported by anyone"
    );

    let mut targets: Vec<String> = Vec::new();
    for i in 0..analyzer.count() {
        for edge in analyzer.reexports(analyzer.path_at(i)) {
            targets.push(edge.target);
        }
    }
    assert_eq!(targets.len(), 4);
    assert!(
        targets.iter().all(|k| k.starts_with("src")),
        "index must only contain workspace-relative paths: {:?}",
        targets
    );
}

#[test]
fn test_build_reexport_index_keys_match_analyzer_paths() {
    let analyzer = analyzer_over_files(&[
        ("src/nested/deep/utils.ts", "export const value = 1;\n"),
        (
            "src/nested/index.ts",
            "export { value } from './deep/utils';\n",
        ),
    ]);

    let key = "src/nested/deep/utils.ts";
    assert!(
        analyzer.exports(key).is_some(),
        "sanity: exports are keyed by workspace-relative paths"
    );
    assert!(
        !analyzer.barrels(key).is_empty(),
        "re-export index must use the same keys as `exports`"
    );
}

#[test]
fn test_build_import_index_cross_project_imports() {
    let analyzer = linked_analyzer(
        vec![
            project("lib-a", "libs/lib-a", "libs/lib-a/src"),
            project("lib-b", "libs/lib-b", "libs/lib-b/src"),
            project("app", "apps/app", "apps/app/src"),
        ],
        &[
            (
                "libs/lib-a/src/index.ts",
                r#"export function helperA() {
  return 'a';
}

export const CONST_A = 1;
"#,
            ),
            (
                "libs/lib-b/src/index.ts",
                r#"import { helperA } from 'lib-a';

export function helperB() {
  return helperA();
}
"#,
            ),
            (
                "apps/app/src/main.ts",
                r#"import { helperA } from 'lib-a';
import { helperB } from 'lib-b';

export function run() {
  return helperA() + helperB();
}
"#,
            ),
        ],
    );

    let lib_a_index = "libs/lib-a/src/index.ts";
    let lib_b_index = "libs/lib-b/src/index.ts";
    let app_main = "apps/app/src/main.ts";

    let helper_a_importers = analyzer.importers(lib_a_index, "helperA");
    let mut importer_files: Vec<String> = helper_a_importers
        .iter()
        .map(|edge| edge.importing_file.clone())
        .collect();
    importer_files.sort();
    assert_eq!(
        importer_files,
        vec![app_main.to_string(), lib_b_index.to_string()],
        "helperA should be imported by both app/main.ts and lib-b/index.ts, got {:?}",
        helper_a_importers
    );

    let helper_b_importers = analyzer.importers(lib_b_index, "helperB");
    assert_eq!(helper_b_importers.len(), 1);
    assert_eq!(helper_b_importers[0].importing_file, app_main);
    assert_eq!(helper_b_importers[0].local_name, "helperB");

    assert!(
        analyzer.importers(lib_a_index, "CONST_A").is_empty(),
        "CONST_A is never imported and must not appear in the import index"
    );
}

fn simple(files: &[(&str, &str)], context: &str, specifier: &str) -> Option<String> {
    let context = format!("{}/{}", CWD, context);
    simple_resolve_relative(CWD, &context, specifier, &tree_of(files))
}

#[test]
fn test_simple_resolve_appends_extensions() {
    let files = [("libs/theme/colors.css.ts", "export const red = '#ff0000';")];
    let resolved = simple(&files, "libs/theme", "./colors.css");
    assert_eq!(
        resolved,
        Some("libs/theme/colors.css.ts".to_string()),
        "Expected to resolve to colors.css.ts (extension appended)"
    );
}

#[test]
fn test_simple_resolve_standard_extensions() {
    let files = [("src/utils.ts", "export function helper() {}")];
    let resolved = simple(&files, "src", "./utils");
    assert_eq!(
        resolved,
        Some("src/utils.ts".to_string()),
        "Expected to resolve to utils.ts"
    );
}

#[test]
fn test_simple_resolve_index_files() {
    let files = [("src/components/index.ts", "export * from './Button';")];
    let resolved = simple(&files, "src", "./components");
    assert_eq!(
        resolved,
        Some("src/components/index.ts".to_string()),
        "Expected to resolve to components/index.ts"
    );
}

#[test]
fn test_simple_resolve_js_to_ts_remapping() {
    let files = [("src/utils.ts", "export function helper() {}")];
    let resolved = simple(&files, "src", "./utils.js");
    assert_eq!(
        resolved,
        Some("src/utils.ts".to_string()),
        "Expected to resolve ./utils.js to utils.ts"
    );
}

#[test]
fn test_simple_resolve_mjs_to_mts_remapping() {
    let files = [("src/contract.mts", "export const schema = 1;")];
    let resolved = simple(&files, "src", "./contract.mjs");
    assert_eq!(
        resolved,
        Some("src/contract.mts".to_string()),
        "Expected ./contract.mjs to resolve to contract.mts"
    );
}

#[test]
fn test_simple_resolve_cjs_to_cts_remapping() {
    let files = [("src/legacy.cts", "export const schema = 1;")];
    let resolved = simple(&files, "src", "./legacy.cjs");
    assert_eq!(
        resolved,
        Some("src/legacy.cts".to_string()),
        "Expected ./legacy.cjs to resolve to legacy.cts"
    );
}

#[test]
fn test_simple_resolve_index_mts() {
    let files = [("packages/contract/src/index.mts", "export const x = 1;")];
    let resolved = simple(&files, "packages/contract", "./src");
    assert_eq!(
        resolved,
        Some("packages/contract/src/index.mts".to_string()),
        "Expected ./src to resolve to src/index.mts"
    );
}

#[test]
fn test_simple_resolve_js_to_tsx_remapping() {
    let files = [("src/Button.tsx", "export const Button = () => <button/>;")];
    let resolved = simple(&files, "src", "./Button.js");
    assert_eq!(
        resolved,
        Some("src/Button.tsx".to_string()),
        "Expected to resolve ./Button.js to Button.tsx"
    );
}

#[test]
fn test_simple_resolve_index_js_to_index_ts() {
    let files = [("src/models/index.ts", "export * from './User';")];
    let resolved = simple(&files, "src", "./models/index.js");
    assert_eq!(
        resolved,
        Some("src/models/index.ts".to_string()),
        "Expected to resolve ./models/index.js to models/index.ts"
    );
}

#[test]
fn test_dynamic_import_cascades_default_export_only() {
    let analyzer = linked_analyzer(
        vec![project("app", "app", "app")],
        &[
            (
                "app/page.tsx",
                "export default function Page() { return null; }\n\
                 export function helper() { return 1; }\n",
            ),
            (
                "app/router.tsx",
                "import { lazy } from 'react';\n\
                 const Page = lazy(() => import('./page'));\n\
                 export const routes = [Page];\n",
            ),
        ],
    );
    let reference_finder = ReferenceFinder::new(&analyzer, CWD);

    let page = "app/page.tsx";
    let router = "app/router.tsx";

    let default_refs = reference_finder
        .find_cross_file_references("default", page)
        .expect("find_cross_file_references failed for 'default'");
    assert!(
        default_refs
            .iter()
            .any(|r| r.file_path == router && r.line == 0 && r.column == 0),
        "Dynamic importer should be conservatively affected (sentinel) by a \
         default-export change, got: {:?}",
        default_refs
    );

    let helper_refs = reference_finder
        .find_cross_file_references("helper", page)
        .expect("find_cross_file_references failed for 'helper'");
    assert!(
        !helper_refs.iter().any(|r| r.file_path == router),
        "Named export must not cascade through the dynamic import (lazy-boundary \
         isolation), got: {:?}",
        helper_refs
    );
}

#[test]
fn test_paths_skip_relative_specifiers() {
    let files = [
        (
            "tsconfig.json",
            r#"{ "compilerOptions": { "paths": { "*": ["./types/*"] } } }"#,
        ),
        ("src/foo.ts", "export const foo = 1;"),
        ("types/foo.ts", "export const foo = 2;"),
        ("types/react.ts", "export const react = 1;"),
    ];
    let tree = tree_of(&files);
    let projects = vec![];
    let modules = module_resolver(&files, &projects);
    let resolver = WorkspaceResolver { cwd: CWD, projects: &projects, tree: &tree };

    assert_eq!(
        resolve_with(&modules, &resolver, "src/app.ts", "./foo"),
        Some("src/foo.ts".to_string()),
        "a relative import resolves from the importing file, never through `paths`"
    );
    assert_eq!(
        resolve_with(&modules, &resolver, "src/app.ts", "react"),
        Some("types/react.ts".to_string()),
        "a bare specifier still goes through `paths`"
    );
}

fn at(file: &str, line: usize, column: usize) -> Reference {
    Reference { file_path: file.to_string(), line, column }
}

fn sorted(mut refs: Vec<Reference>) -> Vec<Reference> {
    refs.sort_by(|a, b| (&a.file_path, a.line, a.column).cmp(&(&b.file_path, b.line, b.column)));
    refs
}

#[test]
fn references_lead_through_barrels_and_new_names() {
    let analyzer = analyzer_over_files(&[
        ("src/utils.ts", "export function helper() {\n  return 1;\n}\n"),
        ("src/index.ts", "export { helper as publicHelper } from './utils';\n"),
        ("src/all.ts", "export * from './index';\n"),
        (
            "src/consumer.ts",
            "import { publicHelper } from './all';\nexport const used = publicHelper();\n",
        ),
        ("src/direct.ts", "import { helper as h } from './utils';\nh();\n"),
        ("src/other.ts", "import { unrelated } from './utils';\nunrelated();\n"),
    ]);
    let finder = ReferenceFinder::new(&analyzer, CWD);
    let refs = sorted(finder.find_cross_file_references("helper", "src/utils.ts").unwrap());
    assert_eq!(refs, vec![at("src/consumer.ts", 2, 20), at("src/direct.ts", 2, 0)]);
}

#[test]
fn cycles_of_barrels_come_to_an_end() {
    let analyzer = analyzer_over_files(&[
        ("src/a.ts", "export * from './b';\nexport const x = 1;\n"),
        ("src/b.ts", "export * from './a';\n"),
        ("src/c.ts", "import { x } from './b';\nx;\n"),
    ]);
    let finder = ReferenceFinder::new(&analyzer, CWD);
    let refs = finder.find_cross_file_references("x", "src/a.ts").unwrap();
    assert_eq!(refs, vec![at("src/c.ts", 2, 0)]);
}

#[test]
fn a_namespace_import_counts_where_the_member_is_used() {
    let analyzer = analyzer_over_files(&[
        ("src/m.ts", "export const one = 1;\nexport const two = 2;\n"),
        ("src/n.ts", "import * as m from './m';\nconsole.log(m.one);\n"),
    ]);
    let finder = ReferenceFinder::new(&analyzer, CWD);
    assert_eq!(
        finder.find_cross_file_references("one", "src/m.ts").unwrap(),
        vec![at("src/n.ts", 2, 12)]
    );
    assert_eq!(finder.find_cross_file_references("two", "src/m.ts").unwrap(), vec![]);
}

#[test]
fn files_that_import_anything_from_a_file() {
    let analyzer = analyzer_over_files(&[
        ("src/m.ts", "export const one = 1;\nexport const two = 2;\n"),
        ("src/a.ts", "import { one, two } from './m';\none + two;\n"),
        ("src/b.ts", "import './m';\nimport * as m from './m';\nm;\n"),
        ("src/c.ts", "export const c = 1;\n"),
    ]);
    let finder = ReferenceFinder::new(&analyzer, CWD);
    assert_eq!(
        sorted(finder.find_files_importing_from("src/m.ts").unwrap()),
        vec![at("src/a.ts", 0, 0), at("src/b.ts", 0, 0)]
    );
    assert_eq!(finder.find_files_importing_from("src/c.ts").unwrap(), vec![]);
}

#[test]
fn importers_are_sorted_by_path_and_name() {
    let analyzer = analyzer_over_files(&[
        ("src/m.ts", "export const one = 1;\n"),
        ("src/a-b.ts", "import { one } from './m';\none;\n"),
        ("src/a/b.ts", "import { one as z, one as y } from '../m';\ny + z;\n"),
    ]);
    let edges: Vec<(String, String)> = analyzer
        .importers("src/m.ts", "one")
        .into_iter()
        .map(|e| (e.importing_file, e.local_name))
        .collect();
    assert_eq!(
        edges,
        vec![
            ("src/a/b.ts".to_string(), "y".to_string()),
            ("src/a/b.ts".to_string(), "z".to_string()),
            ("src/a-b.ts".to_string(), "one".to_string()),
        ]
    );
}

#[test]
fn what_a_file_exports_and_what_uses_it() {
    let source = "const base = 1;\nexport const sum = base + 1;\nexport const other = 2;\nexport { base as renamed };\n";
    let analyzer = analyzer_with_file(source, "a.ts");
    assert!(analyzer.is_symbol_exported("a.ts", "sum"));
    assert!(analyzer.is_symbol_exported("a.ts", "renamed"));
    assert!(analyzer.is_symbol_exported("a.ts", "base"));
    assert!(!analyzer.is_symbol_exported("a.ts", "missing"));
    assert!(!analyzer.is_symbol_exported("missing.ts", "sum"));
    let using = analyzer.find_exported_symbols_using("a.ts", "base").unwrap();
    assert!(using.contains(&"sum".to_string()));
    assert!(!using.contains(&"other".to_string()));
    let mut profiler = Profiler::new(true);
    assert_eq!(
        analyzer.profile_exported_symbols_using("a.ts", "base", &mut profiler).unwrap(),
        using
    );
    assert_eq!(profiler.stats().local_reference_calls, 1);
    assert_eq!(profiler.stats().symbol_extractions, 2);
    assert_eq!(
        analyzer.profile_exported_symbols_using("missing.ts", "base", &mut profiler),
        Ok(vec![])
    );
    assert_eq!(profiler.stats().local_reference_calls, 1);
    assert_eq!(
        analyzer.find_local_references("a.ts", "base").unwrap(),
        vec![at("a.ts", 2, 19), at("a.ts", 4, 9)]
    );
}

#[test]
fn files_and_lines_that_are_not_there_are_errors() {
    let analyzer = analyzer_with_file("const a = 1;\n", "a.ts");
    assert_eq!(
        analyzer.find_local_references("b.ts", "a"),
        Err(DominoError::FileNotFound("b.ts".to_string()))
    );
    assert_eq!(
        analyzer.find_namespace_member_access("b.ts", "n", "m"),
        Err(DominoError::FileNotFound("b.ts".to_string()))
    );
    assert_eq!(
        analyzer.find_node_at_line("b.ts", 1, 0),
        Err(DominoError::FileNotFound("b.ts".to_string()))
    );
    assert_eq!(
        analyzer.find_node_at_line("a.ts", 9, 0),
        Err(DominoError::Other("Invalid line number: 9".to_string()))
    );
}

#[test]
fn positions_go_there_and_back() {
    let source = "ab\ncé\n\nd";
    assert_eq!(line_to_offset(source, 1), Some(0));
    assert_eq!(line_to_offset(source, 2), Some(3));
    assert_eq!(line_to_offset(source, 3), Some(7));
    assert_eq!(line_to_offset(source, 4), Some(8));
    assert_eq!(offset_to_line_col(source, 3), (2, 0));
    assert_eq!(offset_to_line_col(source, 8), (4, 0));
}

#[test]
fn sources_lie_below_the_source_roots() {
    let mut tree = tree_of(&[
        ("src/a.ts", "export {};"),
        ("src/style.css", "x"),
        ("src/node_modules/b.ts", "export {};"),
        ("src/.hidden/c.ts", "export {};"),
        ("src/dist/d.ts", "export {};"),
        ("lib/e.ts", "export {};"),
    ]);
    tree.add_file("/repo/src/binary.ts", None);
    let analyzer = WorkspaceAnalyzer::new(
        vec![project("p", "src", "src"), project("q", "gone", "gone")],
        CWD,
        &tree,
    );
    assert_eq!(analyzer.count(), 1);
    assert_eq!(analyzer.path_at(0), "src/a.ts");
}

#[test]
fn an_import_takes_one_step_after_another() {
    let tree = tree_of(&[(
        "tsconfig.json",
        r#"{ "compilerOptions": { "paths": { "$lib/*": ["./lib/*", "./more/*"] } } }"#,
    )]);
    let projects = vec![];
    let resolver = WorkspaceResolver { cwd: CWD, projects: &projects, tree: &tree };
    let ask = |request: &str| Resolution::Ask {
        context: "/repo/src".to_string(),
        request: request.to_string(),
    };
    let step = |replies: Vec<Option<String>>| {
        resolver.resolve("src/a.ts", "$lib/x", true, &replies)
    };
    assert_eq!(step(vec![]), ask("/repo/lib/x"));
    assert_eq!(step(vec![None]), ask("/repo/more/x"));
    assert_eq!(
        step(vec![Some("/elsewhere/x.ts".to_string())]),
        ask("/repo/more/x")
    );
    assert_eq!(
        step(vec![None, Some("/repo/more/x.ts".to_string())]),
        Resolution::Done(Some("more/x.ts".to_string()))
    );
    assert_eq!(step(vec![None, None]), ask("$lib/x"));
    assert_eq!(
        resolver.resolve("src/a.ts", "$lib/x", false, &vec![None, None]),
        Resolution::Done(None)
    );
    assert_eq!(step(vec![None, None, None]), Resolution::Done(None));
}

#[test]
fn what_can_stand_for_something_in_the_workspace() {
    let projects = vec![project("@s/lib", "lib", "lib")];
    let paths = TsconfigPaths {
        base_dir: CWD.to_string(),
        patterns: vec![
            ("$app/*".to_string(), vec![]),
            ("exact".to_string(), vec![]),
        ],
        base_url: None,
    };
    let prefixes = path_prefixes(&paths);
    assert_eq!(prefixes, vec!["$app/".to_string(), "exact".to_string()]);
    assert!(is_workspace_specifier("./a", &projects, &prefixes));
    assert!(is_workspace_specifier("@s/lib", &projects, &prefixes));
    assert!(is_workspace_specifier("@s/lib/deep", &projects, &prefixes));
    assert!(!is_workspace_specifier("@s/library", &projects, &prefixes));
    assert!(is_workspace_specifier("$app/x", &projects, &prefixes));
    assert!(!is_workspace_specifier("react", &projects, &prefixes));
    assert!(is_relative_specifier(".."));
    assert!(is_relative_specifier("./x"));
    assert!(!is_relative_specifier(".hidden"));
    assert!(!is_relative_specifier("...x"));
}

#[test]
fn only_the_answers_to_requests_make_edges() {
    let sources = || {
        vec![
            SourceFile {
                path: "a.ts".to_string(),
                source: "import { b } from './b';\nexport * from './c';\n".to_string(),
            },
            SourceFile { path: "b.ts".to_string(), source: "export const b = 1;\n".to_string() },
        ]
    };
    let mut table = ResolutionTable::new();
    table.insert("a.ts", "./b", Some("b.ts".to_string()));
    table.insert("a.ts", "./c", Some("c.ts".to_string()));
    let analyzer = WorkspaceAnalyzer::from_sources(vec![], sources());
    let mut requests = analyzer.requests();
    requests.sort();
    assert_eq!(
        requests,
        vec![
            ("a.ts".to_string(), "./b".to_string()),
            ("a.ts".to_string(), "./c".to_string()),
        ]
    );
    let linked = analyzer.link(&table);
    table.insert("b.ts", "./elsewhere", Some("z.ts".to_string()));
    table.insert("a.ts", "never-named", Some("z.ts".to_string()));
    let again = WorkspaceAnalyzer::from_sources(vec![], sources()).link(&table);
    assert_eq!(linked.importers("b.ts", "b").len(), 1);
    assert_eq!(linked.importers_of_file("b.ts"), again.importers_of_file("b.ts"));
    assert_eq!(linked.barrels("c.ts"), again.barrels("c.ts"));
    assert!(again.importers_of_file("z.ts").is_empty());
}

#[test]
fn what_lies_in_an_exported_declaration_belongs_to_it() {
    let source = "export function outer() {\n  const inner = () => {\n    return 1;\n  };\n  return inner;\n}\nexport default class Named {\n  run() {\n    const x = 1;\n  }\n}\nfunction alone() {\n  const y = 2;\n}\n";
    let data = FileSemanticData::parse("/repo/a.ts", source.to_string());
    for line in 1..=5 {
        assert_eq!(find_top_level_symbols(&data, line, 4).unwrap(), vec!["outer"]);
    }
    for line in 7..=10 {
        assert_eq!(find_top_level_symbols(&data, line, 2).unwrap(), vec!["default"]);
    }
    assert_eq!(find_top_level_symbols(&data, 13, 2).unwrap(), vec!["alone"]);
    assert_eq!(collect_symbols_on_lines(&data, &[13, 3, 9, 2]), vec!["alone", "outer", "default"]);
    assert_eq!(collect_symbols_on_lines(&data, &[99]), Vec::<String>::new());
    assert_eq!(collect_symbols_on_lines(&data, &[]), Vec::<String>::new());

    let first = collect_symbols_on_lines(&data, &[13, 3]);
    let second = collect_symbols_on_lines(&data, &[2, 9, 13]);
    let both = collect_symbols_on_lines(&data, &[13, 3, 2, 9, 13]);
    let new: Vec<String> = second.into_iter().filter(|n| !first.contains(n)).collect();
    assert_eq!(both, [first, new].concat());
}

#[test]
fn no_line_is_too_large_to_ask_for() {
    let data = FileSemanticData::parse("/repo/a.ts", "export const a = 1;\n".to_string());
    assert_eq!(
        find_top_level_symbols(&data, usize::MAX, 0),
        Err(DominoError::Other(format!("Invalid line number: {}", usize::MAX)))
    );
    assert_eq!(collect_symbols_on_lines(&data, &[usize::MAX, 1, 0]), vec!["a"]);
}

#[test]
fn a_file_is_found_under_any_form_of_its_path() {
    let analyzer = analyzer_over_files(&[
        ("src/m.ts", "export const one = 1;\nexport const two = one;\n"),
        ("src/n.ts", "import { one } from './m';\nexport const used = one;\n"),
        ("src/barrel.ts", "export * from './m';\n"),
    ]);
    for path in ["src/m.ts", "src//m.ts", "src/./m.ts", "src/m.ts/"] {
        assert_eq!(
            analyzer.find_local_references(path, "one").unwrap(),
            vec![at(path, 2, 19)]
        );
        assert_eq!(analyzer.find_node_at_line(path, 2, 0).unwrap(), vec!["two"]);
        assert!(analyzer.is_symbol_exported(path, "one"));
        assert_eq!(analyzer.importers(path, "one").len(), 1);
        assert_eq!(analyzer.barrels(path).len(), 1);
        let finder = ReferenceFinder::new(&analyzer, CWD);
        assert_eq!(
            finder.find_cross_file_references("one", path).unwrap(),
            vec![at("src/n.ts", 2, 20)]
        );
        assert_eq!(
            finder.find_files_importing_from(path).unwrap(),
            vec![at("src/n.ts", 0, 0)]
        );
    }
    assert!(analyzer.find_local_references("./src/m.ts", "one").is_err());
    assert!(analyzer.find_local_references("/src/m.ts", "one").is_err());
}

#[test]
fn lookups_and_searches_are_counted() {
    let analyzer = analyzer_over_files(&[
        ("src/utils.ts", "export function helper() {\n  return 1;\n}\n"),
        ("src/index.ts", "export { helper as publicHelper } from './utils';\n"),
        ("src/all.ts", "export * from './index';\n"),
        (
            "src/consumer.ts",
            "import { publicHelper } from './all';\nexport const used = publicHelper();\n",
        ),
        ("src/direct.ts", "import { helper as h } from './utils';\nh();\n"),
    ]);
    let mut finder = ReferenceFinder::new(&analyzer, CWD);
    let mut profiler = Profiler::new(true);
    let refs = finder
        .profile_cross_file_references("helper", "src/utils.ts", &mut profiler)
        .unwrap();
    assert_eq!(sorted(refs), vec![at("src/consumer.ts", 2, 20), at("src/direct.ts", 2, 0)]);
    assert_eq!(profiler.stats().reference_lookups, 4);
    assert_eq!(profiler.stats().local_reference_calls, 2);
    assert_eq!(profiler.stats().resolution_calls, 9);
    assert_eq!(profiler.stats().resolution_cache_hits, 7);

    finder.profile_cross_file_references("helper", "src/utils.ts", &mut profiler).unwrap();
    assert_eq!(profiler.stats().resolution_calls, 18);
    assert_eq!(profiler.stats().resolution_cache_hits, 16);
    let files = finder.profile_files_importing_from("src/all.ts", &mut profiler).unwrap();
    assert_eq!(files, vec![at("src/consumer.ts", 0, 0)]);
    assert_eq!(profiler.stats().resolution_calls, 20);
    assert_eq!(profiler.stats().resolution_cache_hits, 16);
    let again = finder.profile_files_importing_from("src/all.ts", &mut profiler).unwrap();
    assert_eq!(again, files);
    assert_eq!(profiler.stats().resolution_calls, 22);
    assert_eq!(profiler.stats().resolution_cache_hits, 18);

    let mut profiler = Profiler::new(true);
    analyzer.profile_local_references("src/direct.ts", "h", &mut profiler).unwrap();
    assert!(analyzer.profile_local_references("none.ts", "h", &mut profiler).is_err());
    assert_eq!(profiler.stats().local_reference_calls, 1);
    assert_eq!(
        analyzer.profile_node_at_line("src/utils.ts", 2, 2, &mut profiler).unwrap(),
        vec!["helper"]
    );
    assert!(analyzer.profile_node_at_line("src/utils.ts", 9, 0, &mut profiler).is_err());
    assert!(analyzer.profile_node_at_line("none.ts", 1, 0, &mut profiler).is_err());
    assert_eq!(profiler.stats().symbol_extractions, 2);
    assert_eq!(profiler.stats().resolution_calls, 0);

    let mut idle = Profiler::new(false);
    finder.profile_cross_file_references("helper", "src/utils.ts", &mut idle).unwrap();
    assert_eq!(idle.stats(), Profiler::new(true).stats());
}
