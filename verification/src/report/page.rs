//! The page.

use crate::report::banner;
use crate::report::banner::banner_text;
use crate::report::details;
use crate::report::details::{details_text, plural};
use crate::report::escape;
use crate::report::escape::url_encoded;
use crate::report::graph;
use crate::report::graph::graph_text;
use crate::report::metadata;
use crate::report::metadata::metadata_text;
use crate::report::template::{
    ICON_EXTERNAL, ICON_GITHUB, LOGO_SVG, PAGE_BANNER, PAGE_CAUSES, PAGE_CHANGED, PAGE_COUNT,
    PAGE_DETAILS, PAGE_END, PAGE_FOOTER, PAGE_FOOTER_VERSION, PAGE_GLOBAL, PAGE_HEAD, PAGE_HERO,
    PAGE_HERO_VERSION, PAGE_ISSUES, PAGE_ISSUES_ICON, PAGE_LABEL, PAGE_LICENSE, PAGE_LICENSE_ICON,
    PAGE_LINKS, PAGE_LINK_ICON, PAGE_LOGO, PAGE_SCRIPTS, PAGE_SEMANTIC, PAGE_SPLIT_GLOBAL,
    PAGE_SPLIT_SEMANTIC, PAGE_STAR, PAGE_STAR_ICON, PAGE_STAR_TEXT, PAGE_TOPBAR, PAGE_VERSION,
    REPO_URL, SCRIPT_FILTER, SCRIPT_GRAPH, SCRIPT_LAYOUT, STYLE_BANNER, STYLE_BASE, STYLE_CARD,
    STYLE_CAUSE, STYLE_FILTER, STYLE_FOOTER, STYLE_GRAPH, STYLE_GROUP, STYLE_HERO, STYLE_MEDIA,
    STYLE_PROJECT, STYLE_STATS, STYLE_TOPBAR, VERSION,
};
use crate::report::times;
use crate::report::times::{clock_time, relative_time};
use crate::text;
use crate::text::{decimal, grouped, Text};
use crate::types::{AffectedProjectInfo, AffectedProjectView, AffectedReport, AffectedReportView};
use vstd::prelude::*;

verus! {

/// The number of causes of some projects.
pub open spec fn causes_in(projects: Seq<AffectedProjectView>) -> nat
    decreases projects.len(),
{
    if projects.len() == 0 {
        0
    } else {
        causes_in(projects.drop_last()) + projects.last().causes.len()
    }
}

/// The style of the cards that tell global from semantic: hidden where nothing is global.
pub open spec fn split_style(r: AffectedReportView) -> Text {
    if r.global_triggers.len() == 0 {
        "display: none;"@
    } else {
        ""@
    }
}

/// The page, read at the time `now`.
pub open spec fn page_text(r: AffectedReportView, now: int) -> Text {
    PAGE_HEAD@ + url_encoded(LOGO_SVG@) + PAGE_SCRIPTS@ + graph_text(r.projects) + SCRIPT_GRAPH@
        + SCRIPT_LAYOUT@ + SCRIPT_FILTER@ + STYLE_BASE@ + STYLE_TOPBAR@ + STYLE_HERO@
        + STYLE_BANNER@ + STYLE_STATS@ + STYLE_CARD@ + STYLE_GRAPH@ + STYLE_FILTER@
        + STYLE_PROJECT@ + STYLE_CAUSE@ + STYLE_GROUP@ + STYLE_FOOTER@ + STYLE_MEDIA@
        + metadata_text(r) + PAGE_TOPBAR@ + REPO_URL@ + PAGE_LOGO@ + LOGO_SVG@ + PAGE_VERSION@
        + VERSION@ + PAGE_STAR@ + REPO_URL@ + PAGE_STAR_ICON@ + ICON_GITHUB@ + PAGE_STAR_TEXT@
        + ICON_EXTERNAL@ + PAGE_HERO@ + relative_time(r.run_started_at_unix_secs, now)
        + PAGE_HERO_VERSION@ + VERSION@ + PAGE_COUNT@ + grouped(decimal(r.projects.len()))
        + PAGE_LABEL@ + plural(r.projects.len()) + PAGE_CAUSES@
        + grouped(decimal(causes_in(r.projects))) + PAGE_SPLIT_GLOBAL@ + split_style(r)
        + PAGE_GLOBAL@ + grouped(decimal(r.totals.globally_invalidated as nat))
        + PAGE_SPLIT_SEMANTIC@ + split_style(r) + PAGE_SEMANTIC@
        + grouped(decimal(r.totals.semantically_affected as nat)) + PAGE_CHANGED@
        + grouped(decimal(r.totals.changed_files as nat)) + PAGE_BANNER@ + banner_text(r)
        + PAGE_DETAILS@ + details_text(r.projects) + PAGE_FOOTER@ + LOGO_SVG@
        + PAGE_FOOTER_VERSION@ + VERSION@ + PAGE_LINKS@ + REPO_URL@ + PAGE_LINK_ICON@
        + ICON_GITHUB@ + PAGE_ISSUES@ + REPO_URL@ + PAGE_ISSUES_ICON@ + ICON_EXTERNAL@
        + PAGE_LICENSE@ + REPO_URL@ + PAGE_LICENSE_ICON@ + ICON_EXTERNAL@ + PAGE_END@
}

proof fn lemma_causes_grow(projects: Seq<AffectedProjectView>, k: int)
    requires
        0 <= k <= projects.len(),
    ensures
        causes_in(projects.take(k)) <= causes_in(projects),
    decreases projects.len(),
{
    if k < projects.len() {
        lemma_causes_grow(projects.drop_last(), k);
        assert(projects.drop_last().take(k) =~= projects.take(k));
    } else {
        assert(projects.take(k) =~= projects);
    }
}

/// The number of causes of some projects.
fn count_causes(projects: &Vec<AffectedProjectInfo>) -> (r: usize)
    requires
        causes_in(projects.deep_view()) <= usize::MAX,
    ensures
        r == causes_in(projects.deep_view()),
{
    let ghost all = projects.deep_view();
    let mut n: usize = 0;
    let mut i: usize = 0;
    assert(all.take(0) =~= Seq::<AffectedProjectView>::empty());
    while i < projects.len()
        invariant
            i <= projects.len(),
            all == projects.deep_view(),
            causes_in(all) <= usize::MAX,
            n == causes_in(all.take(i as int)),
        decreases projects.len() - i,
    {
        proof {
            assert(all.take(i + 1).drop_last() =~= all.take(i as int));
            assert(all.take(i + 1).last() == projects@[i as int].deep_view());
            lemma_causes_grow(all, i + 1);
        }
        n += projects[i].causes.len();
        i += 1;
    }
    assert(all.take(i as int) =~= all);
    n
}

/// The page for a report, read at the time `now`.
pub fn generate_html_at(report: &AffectedReport, now: i64) -> (r: String)
    requires
        causes_in(report.projects.deep_view()) <= usize::MAX,
    ensures
        r@ == page_text(report.deep_view(), now as int),
{
    let ghost view = report.deep_view();
    assert(view.projects.len() == report.projects.len());
    assert(view.global_triggers.len() == report.global_triggers.len());
    let style = if report.global_triggers.len() == 0 {
        "display: none;"
    } else {
        ""
    };
    let mut out = PAGE_HEAD.to_owned();
    out.append(escape::url_encode_svg(LOGO_SVG).as_str());
    out.append(PAGE_SCRIPTS);
    out.append(graph::generate_cytoscape_data(report).as_str());
    out.append(SCRIPT_GRAPH);
    out.append(SCRIPT_LAYOUT);
    out.append(SCRIPT_FILTER);
    out.append(STYLE_BASE);
    out.append(STYLE_TOPBAR);
    out.append(STYLE_HERO);
    out.append(STYLE_BANNER);
    out.append(STYLE_STATS);
    out.append(STYLE_CARD);
    out.append(STYLE_GRAPH);
    out.append(STYLE_FILTER);
    out.append(STYLE_PROJECT);
    out.append(STYLE_CAUSE);
    out.append(STYLE_GROUP);
    out.append(STYLE_FOOTER);
    out.append(STYLE_MEDIA);
    out.append(metadata::generate_metadata_script(report).as_str());
    out.append(PAGE_TOPBAR);
    out.append(REPO_URL);
    out.append(PAGE_LOGO);
    out.append(LOGO_SVG);
    out.append(PAGE_VERSION);
    out.append(VERSION);
    out.append(PAGE_STAR);
    out.append(REPO_URL);
    out.append(PAGE_STAR_ICON);
    out.append(ICON_GITHUB);
    out.append(PAGE_STAR_TEXT);
    out.append(ICON_EXTERNAL);
    out.append(PAGE_HERO);
    out.append(times::format_relative_time_at(report.run_started_at_unix_secs, now).as_str());
    out.append(PAGE_HERO_VERSION);
    out.append(VERSION);
    out.append(PAGE_COUNT);
    out.append(text::format_number(report.projects.len() as u64).as_str());
    out.append(PAGE_LABEL);
    out.append(details::plural_of(report.projects.len()));
    out.append(PAGE_CAUSES);
    out.append(text::format_number(count_causes(&report.projects) as u64).as_str());
    out.append(PAGE_SPLIT_GLOBAL);
    out.append(style);
    out.append(PAGE_GLOBAL);
    out.append(text::format_number(report.totals.globally_invalidated as u64).as_str());
    out.append(PAGE_SPLIT_SEMANTIC);
    out.append(style);
    out.append(PAGE_SEMANTIC);
    out.append(text::format_number(report.totals.semantically_affected as u64).as_str());
    out.append(PAGE_CHANGED);
    out.append(text::format_number(report.totals.changed_files as u64).as_str());
    out.append(PAGE_BANNER);
    out.append(banner::generate_global_banner_html(report).as_str());
    out.append(PAGE_DETAILS);
    out.append(details::generate_details_html(report).as_str());
    out.append(PAGE_FOOTER);
    out.append(LOGO_SVG);
    out.append(PAGE_FOOTER_VERSION);
    out.append(VERSION);
    out.append(PAGE_LINKS);
    out.append(REPO_URL);
    out.append(PAGE_LINK_ICON);
    out.append(ICON_GITHUB);
    out.append(PAGE_ISSUES);
    out.append(REPO_URL);
    out.append(PAGE_ISSUES_ICON);
    out.append(ICON_EXTERNAL);
    out.append(PAGE_LICENSE);
    out.append(REPO_URL);
    out.append(PAGE_LICENSE_ICON);
    out.append(ICON_EXTERNAL);
    out.append(PAGE_END);
    out
}

/// The page for a report, read now.
pub fn generate_html(report: &AffectedReport) -> (r: String)
    requires
        causes_in(report.projects.deep_view()) <= usize::MAX,
    ensures
        exists|elapsed: Option<u64>|
            r@ == #[trigger] page_text(report.deep_view(), clock_time(elapsed)),
{
    let now = times::unix_now();
    generate_html_at(report, now)
}

} // verus!
