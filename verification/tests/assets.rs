use domino::files::FileTree;
use domino::semantic::assets::AssetReferenceFinder;
use domino::types::AssetReference;

const CWD: &str = "/repo";

fn walk(tree: &FileTree) -> Vec<String> {
    (0..tree.count()).map(|i| tree.path_at(i).to_string()).collect()
}

fn find_refs_for(
    finder: &AssetReferenceFinder,
    tree: &FileTree,
    asset_path: &str,
) -> Vec<AssetReference> {
    let mut results = finder
        .find_references_batch(&vec![asset_path.to_string()], &walk(tree), tree)
        .unwrap();
    results.insert(asset_path.to_string(), vec![]).unwrap_or_default()
}

#[test]
fn test_find_references_single_quote() {
    let mut tree = FileTree::new();

    tree.add_file("/repo/src/components/hero.html", Some("<h1>Hero</h1>".to_string()));

    tree.add_file("/repo/src/components/hero.component.ts", Some(r#"@Component({
  templateUrl: './hero.html',
})
export class HeroComponent {}
"#.to_string()));

    let finder = AssetReferenceFinder::new(CWD);
    let refs = find_refs_for(&finder, &tree, "src/components/hero.html");

    assert_eq!(refs.len(), 1);
    assert_eq!(
        refs[0].source_file,
        "src/components/hero.component.ts".to_string()
    );
    assert_eq!(refs[0].line, 2);
    assert_eq!(refs[0].matched_path, "./hero.html");
}

#[test]
fn test_find_references_double_quote() {
    let mut tree = FileTree::new();

    tree.add_file("/repo/src/components/styles.css", Some(".btn {}".to_string()));
    tree.add_file("/repo/src/components/button.ts", Some(r#"import "./styles.css";
export function Button() {}
"#.to_string()));

    let finder = AssetReferenceFinder::new(CWD);
    let refs = find_refs_for(&finder, &tree, "src/components/styles.css");

    assert_eq!(refs.len(), 1);
    assert_eq!(refs[0].line, 1);
    assert_eq!(refs[0].matched_path, "./styles.css");
}

#[test]
fn test_find_references_backtick() {
    let mut tree = FileTree::new();

    tree.add_file("/repo/src/components/config.json", Some("{}".to_string()));
    tree.add_file("/repo/src/components/app.ts", Some("const template = `./config.json`;".to_string()));

    let finder = AssetReferenceFinder::new(CWD);
    let refs = find_refs_for(&finder, &tree, "src/components/config.json");

    assert_eq!(refs.len(), 1);
}

#[test]
fn test_path_resolution_parent_dir() {
    let mut tree = FileTree::new();

    tree.add_dir("/repo/src/assets");
    tree.add_file("/repo/src/assets/logo.png", Some("png-data".to_string()));

    tree.add_file("/repo/src/components/header.ts", Some(r#"const logo = require('../assets/logo.png');
"#.to_string()));

    let finder = AssetReferenceFinder::new(CWD);
    let refs = find_refs_for(&finder, &tree, "src/assets/logo.png");

    assert_eq!(refs.len(), 1);
    assert_eq!(refs[0].matched_path, "../assets/logo.png");
}

#[test]
fn test_no_match_different_file() {
    let mut tree = FileTree::new();

    tree.add_file("/repo/src/components/styles.css", Some(".btn {}".to_string()));
    tree.add_file("/repo/src/components/other-styles.css", Some(".other {}".to_string()));

    tree.add_file("/repo/src/components/button.ts", Some(r#"import "./styles.css";
"#.to_string()));

    let finder = AssetReferenceFinder::new(CWD);

    let refs = find_refs_for(&finder, &tree, "src/components/other-styles.css");
    assert!(refs.is_empty());
}

#[test]
fn test_multiple_references_same_file() {
    let mut tree = FileTree::new();

    tree.add_file("/repo/src/components/theme.css", Some(".theme {}".to_string()));
    tree.add_file("/repo/src/components/app.ts", Some(r#"import './theme.css';
const themePath = './theme.css';
require('./theme.css');
"#.to_string()));

    let finder = AssetReferenceFinder::new(CWD);
    let refs = find_refs_for(&finder, &tree, "src/components/theme.css");

    assert_eq!(refs.len(), 3);
}

#[test]
fn test_angular_component_decorator() {
    let mut tree = FileTree::new();

    tree.add_file("/repo/src/components/hero.component.html", Some("<h1>Hero</h1>".to_string()));
    tree.add_file("/repo/src/components/hero.component.css", Some(".hero {}".to_string()));

    tree.add_file("/repo/src/components/hero.component.ts", Some(r#"import { Component } from '@angular/core';

@Component({
  selector: 'app-hero',
  templateUrl: './hero.component.html',
  styleUrls: ['./hero.component.css'],
})
export class HeroComponent {
  title = 'Hero';
}
"#.to_string()));

    let finder = AssetReferenceFinder::new(CWD);

    let html_refs = find_refs_for(&finder, &tree, "src/components/hero.component.html");
    assert_eq!(html_refs.len(), 1);
    assert_eq!(html_refs[0].line, 5);

    let css_refs = find_refs_for(&finder, &tree, "src/components/hero.component.css");
    assert_eq!(css_refs.len(), 1);
    assert_eq!(css_refs[0].line, 6);
}

#[test]
fn test_find_references_batch_attributes_each_asset_separately() {
    let mut tree = FileTree::new();

    tree.add_file("/repo/src/components/hero.html", Some("<h1>Hero</h1>".to_string()));
    tree.add_file("/repo/src/components/styles.css", Some(".btn {}".to_string()));
    tree.add_file("/repo/src/components/orphan.json", Some("{}".to_string()));

    tree.add_file("/repo/src/components/hero.component.ts", Some(r#"@Component({
  templateUrl: './hero.html',
})
export class HeroComponent {}
"#.to_string()));
    tree.add_file("/repo/src/components/button.ts", Some(r#"import "./styles.css";
export function Button() {}
"#.to_string()));

    let finder = AssetReferenceFinder::new(CWD);
    let results = finder
        .find_references_batch(
            &vec![
                "src/components/hero.html".to_string(),
                "src/components/styles.css".to_string(),
                "src/components/orphan.json".to_string(),
            ],
            &walk(&tree),
            &tree,
        )
        .unwrap();

    assert_eq!(results.len(), 3);

    let hero_refs = results
        .get("src/components/hero.html")
        .unwrap();
    assert_eq!(hero_refs.len(), 1);
    assert_eq!(
        hero_refs[0].source_file,
        "src/components/hero.component.ts".to_string()
    );
    assert_eq!(hero_refs[0].matched_path, "./hero.html");

    let css_refs = results
        .get("src/components/styles.css")
        .unwrap();
    assert_eq!(css_refs.len(), 1);
    assert_eq!(
        css_refs[0].source_file,
        "src/components/button.ts".to_string()
    );
    assert_eq!(css_refs[0].matched_path, "./styles.css");

    let orphan_refs = results
        .get("src/components/orphan.json")
        .unwrap();
    assert!(orphan_refs.is_empty());
}

#[test]
fn many_assets_at_once_find_what_each_finds_alone() {
    let mut tree = FileTree::new();
    tree.add_file("/repo/src/a+b.png", None);
    tree.add_file("/repo/src/style.css", Some(String::new()));
    tree.add_file(
        "/repo/src/app.ts",
        Some("import './style.css'; import x from './a+b.png';\nconst y = '../src/a+b.png';\n".to_string()),
    );
    let finder = AssetReferenceFinder::new(CWD);
    let assets = vec!["src/a+b.png".to_string(), "src/style.css".to_string()];
    let together = finder.find_references_batch(&assets, &walk(&tree), &tree).unwrap();
    for asset in &assets {
        assert_eq!(together.get(asset), Some(&find_refs_for(&finder, &tree, asset)));
    }
    let found = together.get("src/a+b.png").unwrap();
    assert_eq!(found.len(), 2);
    assert_eq!((found[0].line, found[0].column), (1, 37));
    assert_eq!((found[1].line, found[1].column), (2, 11));
}
