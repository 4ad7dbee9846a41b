use domino::report::escape::url_encode_svg;
use domino::report::{format_relative_time, generate_cytoscape_data, generate_html, VERSION};
use domino::types::{
    AffectCause, AffectedProjectInfo, AffectedReport, GlobalTrigger, ReportTotals,
};
use std::time::{SystemTime, UNIX_EPOCH};

fn make_project(name: &str, causes: Vec<AffectCause>) -> AffectedProjectInfo {
    AffectedProjectInfo {
        name: name.to_string(),
        causes,
    }
}

fn empty_totals() -> ReportTotals {
    ReportTotals::default()
}

fn synth_recent_timestamp() -> i64 {
    let now = SystemTime::now()
        .duration_since(UNIX_EPOCH)
        .map(|d| d.as_secs() as i64)
        .unwrap_or(0);
    now - 12 * 60
}

fn synth_global_report() -> AffectedReport {
    let mut projects = Vec::new();
    for i in 0..600 {
        projects.push(make_project(
            &format!("lib-{:03}", i),
            vec![
                AffectCause::GlobalInvalidation {
                    file: ".github/workflows/ci.yml".to_string(),
                    named_input: "sharedGlobals".to_string(),
                },
                AffectCause::GlobalInvalidation {
                    file: "nx.json".to_string(),
                    named_input: "sharedGlobals".to_string(),
                },
                AffectCause::GlobalInvalidation {
                    file: "package.json".to_string(),
                    named_input: "ciInputs".to_string(),
                },
            ],
        ));
    }
    projects.push(make_project(
        "shared-utils",
        vec![
            AffectCause::DirectChange {
                file: "libs/shared-utils/src/format.ts".to_string(),
                symbol: Some("formatDate".to_string()),
                line: 18,
            },
            AffectCause::ImportedSymbol {
                source_project: "core".to_string(),
                symbol: "Logger".to_string(),
                via_file: "libs/shared-utils/src/log.ts".to_string(),
                source_file: "libs/core/src/logger.ts".to_string(),
            },
            AffectCause::GlobalInvalidation {
                file: ".github/workflows/ci.yml".to_string(),
                named_input: "sharedGlobals".to_string(),
            },
        ],
    ));
    projects.push(make_project(
        "core",
        vec![
            AffectCause::DirectChange {
                file: "libs/core/src/logger.ts".to_string(),
                symbol: Some("Logger".to_string()),
                line: 42,
            },
            AffectCause::GlobalInvalidation {
                file: ".github/workflows/ci.yml".to_string(),
                named_input: "sharedGlobals".to_string(),
            },
        ],
    ));
    for i in 0..15 {
        projects.push(make_project(
            &format!("app-{}", i),
            vec![
                AffectCause::DirectChange {
                    file: format!("apps/app-{}/src/index.ts", i),
                    symbol: Some(format!("handleClick{}", i)),
                    line: 42 + i,
                },
                AffectCause::ImportedSymbol {
                    source_project: "shared-utils".to_string(),
                    symbol: "formatDate".to_string(),
                    via_file: format!("apps/app-{}/src/index.ts", i),
                    source_file: "libs/shared-utils/src/format.ts".to_string(),
                },
                AffectCause::GlobalInvalidation {
                    file: ".github/workflows/ci.yml".to_string(),
                    named_input: "sharedGlobals".to_string(),
                },
            ],
        ));
    }
    projects.sort_by(|a, b| a.name.cmp(&b.name));

    AffectedReport {
        projects,
        global_triggers: vec![
            GlobalTrigger {
                file: ".github/workflows/ci.yml".to_string(),
                named_input: "sharedGlobals".to_string(),
                raw_pattern: "{workspaceRoot}/.github/workflows/ci.yml".to_string(),
            },
            GlobalTrigger {
                file: "nx.json".to_string(),
                named_input: "sharedGlobals".to_string(),
                raw_pattern: "{workspaceRoot}/nx.json".to_string(),
            },
            GlobalTrigger {
                file: "package.json".to_string(),
                named_input: "ciInputs".to_string(),
                raw_pattern: "{workspaceRoot}/package.json".to_string(),
            },
        ],
        totals: ReportTotals {
            globally_invalidated: 600,
            semantically_affected: 17,
            overlap: 17,
            changed_files: 4,
        },
        version: VERSION,
        run_started_at_unix_secs: synth_recent_timestamp(),
    }
}

fn synth_turbo_global_report() -> AffectedReport {
    let projects = vec![make_project(
        "core",
        vec![
            AffectCause::DirectChange {
                file: "libs/core/src/logger.ts".to_string(),
                symbol: Some("Logger".to_string()),
                line: 42,
            },
            AffectCause::GlobalInvalidation {
                file: "tsconfig.base.json".to_string(),
                named_input: "globalDependencies".to_string(),
            },
        ],
    )];

    AffectedReport {
        projects,
        global_triggers: vec![GlobalTrigger {
            file: "tsconfig.base.json".to_string(),
            named_input: "globalDependencies".to_string(),
            raw_pattern: "tsconfig.base.json".to_string(),
        }],
        totals: ReportTotals {
            globally_invalidated: 1,
            semantically_affected: 1,
            overlap: 1,
            changed_files: 1,
        },
        version: VERSION,
        run_started_at_unix_secs: synth_recent_timestamp(),
    }
}

fn synth_normal_report() -> AffectedReport {
    let projects = vec![
        make_project(
            "core",
            vec![AffectCause::DirectChange {
                file: "libs/core/src/logger.ts".to_string(),
                symbol: Some("Logger".to_string()),
                line: 42,
            }],
        ),
        make_project(
            "app-web",
            vec![AffectCause::ImportedSymbol {
                source_project: "shared-utils".to_string(),
                symbol: "formatDate".to_string(),
                via_file: "apps/web/src/main.ts".to_string(),
                source_file: "libs/shared-utils/src/format.ts".to_string(),
            }],
        ),
        make_project(
            "shared-utils",
            vec![AffectCause::ImportedSymbol {
                source_project: "core".to_string(),
                symbol: "Logger".to_string(),
                via_file: "libs/shared-utils/src/log.ts".to_string(),
                source_file: "libs/core/src/logger.ts".to_string(),
            }],
        ),
        make_project(
            "ui-widgets",
            vec![AffectCause::ImplicitDependency {
                depends_on: "shared-utils".to_string(),
            }],
        ),
    ];
    AffectedReport {
        projects,
        global_triggers: Vec::new(),
        totals: ReportTotals {
            globally_invalidated: 0,
            semantically_affected: 4,
            overlap: 0,
            changed_files: 2,
        },
        version: VERSION,
        run_started_at_unix_secs: synth_recent_timestamp(),
    }
}

#[test]
fn banner_renders_only_when_global_triggers_present() {
    let global = generate_html(&synth_global_report());
    let normal = generate_html(&synth_normal_report());

    assert!(global.contains("Global invalidation detected"));
    assert!(global.contains("cause-type global"));
    assert!(global.contains(r#"<section class="global-banner""#));
    assert!(global.contains(r#"id="domino-meta""#));

    assert!(!normal.contains("Global invalidation detected"));
    assert!(!normal.contains("\"cause-type global\""));
    assert!(!normal.contains(r#"<section class="global-banner""#));
    assert!(!normal.contains(r#"<details class="global-only-group""#));
    assert!(normal.contains(r#"id="domino-meta""#));
}

#[test]
fn banner_uses_turbo_wording_and_docs_link_for_turbo_trigger() {
    let html = generate_html(&synth_turbo_global_report());

    assert!(html.contains("Global invalidation detected"));
    assert!(html.contains(r#"<section class="global-banner""#));

    assert!(html.contains("Turborepo <code>globalDependencies</code>"));
    assert!(html.contains("https://turborepo.com/docs/reference/configuration#globaldependencies"));

    assert!(!html.contains("Nx <code>namedInputs</code>"));
    assert!(!html.contains("https://nx.dev/concepts/more-concepts/customizing-inputs"));

    let banner_start = html
        .find(r#"<section class="global-banner""#)
        .expect("banner section must be present");
    let banner_end = html[banner_start..]
        .find("</section>")
        .map(|i| banner_start + i)
        .expect("banner section must close");
    let banner = &html[banner_start..banner_end];
    assert!(!banner.contains("nx affected"));
}

#[test]
fn banner_uses_nx_wording_and_docs_link_for_nx_trigger() {
    let html = generate_html(&synth_global_report());

    assert!(html.contains("Nx <code>namedInputs</code>"));
    assert!(html.contains("https://nx.dev/concepts/more-concepts/customizing-inputs"));
    assert!(html.contains("nx affected"));

    assert!(!html.contains("Turborepo <code>globalDependencies</code>"));
    assert!(!html.contains("https://turborepo.com/docs/reference/configuration#globaldependencies"));
}

#[test]
fn json_metadata_contains_camelcase_fields() {
    let html = generate_html(&synth_global_report());
    assert!(html.contains("\"globalTriggers\""));
    assert!(html.contains("\"namedInput\":\"sharedGlobals\""));
    assert!(html.contains("\"rawPattern\""));
    assert!(html.contains("\"runStartedAtUnixSecs\""));
    assert!(html.contains("\"globallyInvalidated\":600"));
}

#[test]
fn global_only_projects_are_collapsed_at_bottom() {
    let html = generate_html(&synth_global_report());
    let semantic_start = html
        .find(r#"data-filter-type="both""#)
        .expect("expected a semantic project card with `both` filter type");
    let group_start = html
        .find(r#"<details class="global-only-group""#)
        .expect("expected the collapsed global-only group element");
    assert!(
        semantic_start < group_start,
        "semantic project cards must appear before the collapsed global-only group \
       (semantic at {}, group at {})",
        semantic_start,
        group_start
    );
}

#[test]
fn pill_does_not_use_direct_class_for_global_cause() {
    let html = generate_html(&synth_global_report());
    let first_global = html
        .find("Global Invalidation")
        .expect("global pill present");
    let nearby = &html[first_global.saturating_sub(80)..first_global];
    assert!(
        nearby.contains("cause-type global"),
        "expected `cause-type global` near the pill, got: {}",
        nearby
    );
}

#[test]
fn favicon_is_embedded_inline() {
    let html = generate_html(&synth_normal_report());
    assert!(
        html.contains(r#"<link rel="icon" type="image/svg+xml" href="data:image/svg+xml,"#),
        "favicon must be an inline SVG data URI"
    );
    assert!(
        !html.contains(r#"href="data:image/svg+xml,<svg"#),
        "favicon data URI must url-encode `<`, otherwise some browsers/validators reject it"
    );
}

#[test]
fn inline_scripts_escape_unsafe_project_names() {
    let report = AffectedReport {
        projects: vec![make_project(
            r#"evil"</script><img src=x onerror=alert(1)>"#,
            vec![AffectCause::DirectChange {
                file: "libs/evil/src/a.ts".to_string(),
                symbol: None,
                line: 1,
            }],
        )],
        global_triggers: Vec::new(),
        totals: empty_totals(),
        version: VERSION,
        run_started_at_unix_secs: 0,
    };

    let graph = generate_cytoscape_data(&report);
    assert!(
        !graph.contains("</script"),
        "graph data leaked a raw </script: {}",
        graph
    );
    assert!(
        !graph.contains(r#"evil""#),
        "unescaped quote in graph: {}",
        graph
    );

    let html = generate_html(&report);
    assert!(
        !html.contains("</script><img"),
        "script breakout survived into rendered HTML"
    );
}

#[test]
fn url_encode_svg_escapes_hash() {
    let svg = r##"<svg fill="#F26F0D"/>"##;
    let encoded = url_encode_svg(svg);
    assert!(!encoded.contains('#'), "raw # must be percent-encoded");
    assert!(encoded.contains("%23F26F0D"));
    assert!(!encoded.contains('<'));
    assert!(encoded.contains("%3Csvg"));
}

#[test]
fn top_bar_renders_logo_and_github_link() {
    let html = generate_html(&synth_normal_report());
    assert!(
        html.contains(r#"id="domino-logo""#),
        "inline domino logo must be present in the top bar"
    );
    assert!(
        html.contains("https://github.com/frontops-dev/domino"),
        "top bar must link back to the GitHub repository"
    );
    assert!(html.contains(r#"<header class="topbar""#));
    assert!(
        html.contains("Star on GitHub"),
        "GitHub link must carry an accessible label"
    );
}

#[test]
fn footer_links_to_repo_issues_and_license() {
    let html = generate_html(&synth_normal_report());
    assert!(html.contains("https://github.com/frontops-dev/domino/issues"));
    assert!(html.contains("https://github.com/frontops-dev/domino/blob/main/LICENSE"));
}

#[test]
fn direct_change_carries_brand_accent_pill() {
    let html = generate_html(&synth_normal_report());
    let direct = html
        .find("Direct Change")
        .expect("expected a Direct Change pill");
    let nearby = &html[direct.saturating_sub(80)..direct];
    assert!(
        nearby.contains("cause-type direct"),
        "Direct Change must use the orange-accent .direct pill class, got: {}",
        nearby
    );
    let imported = html
        .find("Imported Symbol")
        .expect("expected an Imported Symbol pill");
    let near_imported = &html[imported.saturating_sub(80)..imported];
    assert!(!near_imported.contains("cause-type direct"));
}

#[test]
fn relative_time_helper_buckets() {
    let now = SystemTime::now()
        .duration_since(UNIX_EPOCH)
        .unwrap()
        .as_secs() as i64;

    assert_eq!(format_relative_time(now), "just now");
    assert_eq!(format_relative_time(now - 30), "just now");
    assert_eq!(format_relative_time(now - 60 * 5), "5 minutes ago");
    assert_eq!(format_relative_time(now - 60 * 60 * 3), "3 hours ago");
    assert_eq!(format_relative_time(now - 60 * 60 * 26), "yesterday");
    assert_eq!(format_relative_time(now - 60 * 60 * 24 * 3), "3 days ago");
    let old = format_relative_time(now - 60 * 60 * 24 * 30);
    assert!(
        old.contains("(run timestamp)"),
        "expected fallback form for >7d-old runs, got: {}",
        old
    );
}

#[test]
fn empty_report_does_not_panic() {
    let report = AffectedReport {
        projects: Vec::new(),
        global_triggers: Vec::new(),
        totals: empty_totals(),
        version: VERSION,
        run_started_at_unix_secs: 0,
    };
    let _ = generate_html(&report);
}
