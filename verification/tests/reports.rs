use domino::report::banner::generate_global_banner_html;
use domino::report::details::{
    generate_details_html, global_only_group_label, is_globally_invalidated_only,
};
use domino::report::generate_cytoscape_data;
use domino::report::generate_html_at;
use domino::report::metadata::{generate_metadata_script, report_to_json};
use domino::types::{
    AffectCause, AffectedProjectInfo, AffectedReport, GlobalTrigger, ReportTotals,
};

fn project(name: &str, causes: Vec<AffectCause>) -> AffectedProjectInfo {
    AffectedProjectInfo { name: name.to_string(), causes }
}

fn direct(file: &str, symbol: Option<&str>, line: usize) -> AffectCause {
    AffectCause::DirectChange {
        file: file.to_string(),
        symbol: symbol.map(str::to_string),
        line,
    }
}

fn imported(source_project: &str) -> AffectCause {
    AffectCause::ImportedSymbol {
        source_project: source_project.to_string(),
        symbol: "thing".to_string(),
        via_file: "via.ts".to_string(),
        source_file: "source.ts".to_string(),
    }
}

fn global(file: &str, input: &str) -> AffectCause {
    AffectCause::GlobalInvalidation { file: file.to_string(), named_input: input.to_string() }
}

fn report(projects: Vec<AffectedProjectInfo>, triggers: Vec<GlobalTrigger>) -> AffectedReport {
    AffectedReport {
        projects,
        global_triggers: triggers,
        totals: ReportTotals {
            globally_invalidated: 1,
            semantically_affected: 2,
            overlap: 3,
            changed_files: 1234,
        },
        version: "9.9.9",
        run_started_at_unix_secs: 1000,
    }
}

fn trigger(file: &str, input: &str) -> GlobalTrigger {
    GlobalTrigger {
        file: file.to_string(),
        named_input: input.to_string(),
        raw_pattern: "{workspaceRoot}/x".to_string(),
    }
}

#[test]
fn the_graph_has_a_node_for_each_project_and_edges_between_them() {
    let text = generate_cytoscape_data(&report(
        vec![
            project("@s/core", vec![direct("a.ts", None, 1)]),
            project("app", vec![imported("@s/core"), imported("@s/core"), imported("gone")]),
            project("e2e", vec![AffectCause::ImplicitDependency { depends_on: "app".to_string() }]),
        ],
        vec![],
    ));
    assert_eq!(
        text,
        concat(&[
            "{ nodes: [{ data: { id: \"s_core\", label: \"@s/core\", type: \"direct\" } }, ",
            "{ data: { id: \"app\", label: \"app\", type: \"affected\" } }, ",
            "{ data: { id: \"e2e\", label: \"e2e\", type: \"affected\" } }], ",
            "edges: [{ data: { source: \"s_core\", target: \"app\", label: \"2 imports\" } }, ",
            "{ data: { source: \"app\", target: \"e2e\", label: \"implicit\", type: \"implicit\" } }] }",
        ])
    );
}

fn concat(parts: &[&str]) -> String {
    parts.iter().map(|p| p.to_string()).collect()
}

#[test]
fn one_import_is_not_many() {
    let text = generate_cytoscape_data(&report(
        vec![project("a", vec![]), project("b", vec![imported("a")])],
        vec![],
    ));
    assert!(text.contains("label: \"1 import\" }"));
}

#[test]
fn projects_with_global_causes_alone_are_grouped() {
    let projects = vec![
        project("g1", vec![global("nx.json", "shared<Globals>")]),
        project("mixed", vec![global("nx.json", "shared"), direct("m.ts", Some("m"), 3)]),
        project("none", vec![]),
    ];
    assert!(is_globally_invalidated_only(&projects[0]));
    assert!(!is_globally_invalidated_only(&projects[1]));
    assert!(!is_globally_invalidated_only(&projects[2]));
    assert_eq!(
        global_only_group_label(&vec![&projects[0]]),
        " via <code>shared&lt;Globals&gt;</code>"
    );
    assert_eq!(
        global_only_group_label(&vec![&projects[0], &projects[1]]),
        " via Nx <code>namedInputs</code>"
    );
    assert_eq!(global_only_group_label(&vec![]), " via Nx <code>namedInputs</code>");
    let html = generate_details_html(&report(projects, vec![]));
    let group = html.find("global-only-group").unwrap();
    assert!(html.find("<span>mixed</span>").unwrap() < group);
    assert!(html.find("<span>none</span>").unwrap() < group);
    assert!(html.find("<span>g1</span>").unwrap() > group);
    assert_eq!(html.matches("<span>g1</span>").count(), 1);
    assert!(html.contains("<strong>1</strong> projects globally invalidated"));
}

#[test]
fn several_inputs_have_no_single_label() {
    let projects = vec![
        project("a", vec![global("x", "one")]),
        project("b", vec![global("x", "two")]),
    ];
    assert_eq!(
        global_only_group_label(&projects.iter().collect()),
        " via Nx <code>namedInputs</code>"
    );
}

#[test]
fn causes_are_told_in_words() {
    let html = generate_details_html(&report(
        vec![project(
            "p",
            vec![
                direct("gone.ts", Some("old"), 0),
                direct("f.ts", None, 0),
                direct("f.ts", None, 12),
                AffectCause::AssetChange {
                    asset_file: "logo.svg".to_string(),
                    referenced_in: "App.tsx".to_string(),
                    line: 4,
                },
                AffectCause::LockfileChange {
                    dependency: "lib-a".to_string(),
                    importing_file: "i.ts".to_string(),
                },
                AffectCause::ReExported {
                    through_file: "index.ts".to_string(),
                    symbol: "s".to_string(),
                    source_file: "s.ts".to_string(),
                },
            ],
        )],
        vec![],
    ));
    assert!(html.contains("gone.ts</span> (deleted)<br/>Symbol: <span class=\"symbol\">old</span>"));
    assert!(html.contains("f.ts</span></div>"));
    assert!(html.contains("f.ts</span> (line 12)</div>"));
    assert!(html.contains("App.tsx</span> (line 4)"));
    assert!(html.contains("Dependency: <span class=\"symbol\">lib-a</span>"));
    assert!(html.contains("Re-exported via: <span class=\"code-path\">index.ts</span>"));
    assert!(html.contains("6 causes"));
    assert!(html.contains("badge-direct"));
}

#[test]
fn direct_and_imported_causes_give_both_badges() {
    let html = generate_details_html(&report(
        vec![project("p", vec![direct("a", None, 1), imported("q")])],
        vec![],
    ));
    assert!(html.contains("data-filter-type=\"both\""));
    assert!(html.contains("Direct + Affected"));
}

#[test]
fn there_is_a_banner_exactly_where_a_pattern_matched() {
    assert_eq!(generate_global_banner_html(&report(vec![], vec![])), "");
    let nx = generate_global_banner_html(&report(vec![], vec![trigger("a<b", "shared")]));
    assert!(nx.contains("<strong>1</strong> changed file matched Nx <code>namedInputs</code>"));
    assert!(nx.contains("a&lt;b"));
    assert!(nx.contains("nx affected"));
    let turbo = generate_global_banner_html(&report(
        vec![],
        vec![trigger("a", "globalDependencies"), trigger("b", "globalDependencies")],
    ));
    assert!(turbo.contains("<strong>2</strong> changed files matched Turborepo"));
    assert!(turbo.contains("turbo run"));
}

#[test]
fn the_report_is_written_as_json() {
    let r = report(
        vec![project("a\"b", vec![direct("f.ts", None, 2)])],
        vec![trigger("</script>", "in")],
    );
    let json = report_to_json(&r);
    assert_eq!(
        json,
        concat(&[
            "{\"projects\":[{\"name\":\"a\\\"b\",\"causes\":[{\"directChange\":",
            "{\"file\":\"f.ts\",\"symbol\":null,\"line\":2}}]}],",
            "\"globalTriggers\":[{\"file\":\"</script>\",\"namedInput\":\"in\",",
            "\"rawPattern\":\"{workspaceRoot}/x\"}],",
            "\"totals\":{\"globallyInvalidated\":1,\"semanticallyAffected\":2,",
            "\"overlap\":3,\"changedFiles\":1234},",
            "\"version\":\"9.9.9\",\"runStartedAtUnixSecs\":1000}",
        ])
    );
    let script = generate_metadata_script(&r);
    assert_eq!(script.matches("</").count(), 1);
    assert!(script.ends_with("</script>"));
    let value: serde_json::Value = serde_json::from_str(&json).unwrap();
    assert_eq!(value["projects"][0]["name"], "a\"b");
}

#[test]
fn the_page_counts_projects_and_causes() {
    let html = generate_html_at(
        &report(vec![project("a", vec![direct("f", None, 1), imported("b")])], vec![]),
        1000 + 120,
    );
    assert!(html.contains("2 minutes ago"));
    assert!(html.contains("1,234"));
    assert!(html.contains("display: none;"));
    assert!(html.starts_with("<!DOCTYPE html>"));
}
