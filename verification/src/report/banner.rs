//! The banner that says why all projects are affected.

use crate::named_inputs::TURBO_GLOBAL_DEPENDENCIES;
use crate::report::details;
use crate::report::details::plural;
use crate::report::escape;
use crate::report::escape::html_escaped;
use crate::report::template::{ICON_EXTERNAL, ICON_INFO};
use crate::text;
use crate::text::{decimal, grouped, lemma_decimal_read, Text};
use crate::types::{AffectedReport, AffectedReportView, GlobalTrigger, GlobalTriggerView};
use vstd::prelude::*;

verus! {

/// A row, up to the file.
pub const ROW_FILE: &'static str = r#"<div class="global-banner-row">
                <span class="file">"#;

/// A row from the file to the input.
pub const ROW_INPUT: &'static str = r#"</span>
                <span class="arrow">&larr; matched</span>
                <span class="input">"#;

/// A row from the input to the pattern.
pub const ROW_PATTERN: &'static str = r#"</span>
                <span class="pattern">"#;

/// A row after the pattern.
pub const ROW_END: &'static str = r#"</span>
            </div>"#;

/// The banner, up to its sign.
pub const BANNER_HEAD: &'static str = r#"<section class="global-banner" role="status" aria-labelledby="gbanner-title">
            <div class="global-banner-head">
                "#;

/// The banner from its sign to the number of triggers.
pub const BANNER_TITLE: &'static str = r#"
                <h3 id="gbanner-title">Global invalidation detected</h3>
            </div>
            <p>
                <strong>"#;

/// The banner from the source to the plural of its patterns.
pub const BANNER_PATTERN: &'static str = r#"
                workspace-root pattern"#;

/// The banner from the number of projects to the command.
pub const BANNER_SAME: &'static str = r#"</strong> projects
                are marked affected &mdash; the same as <code>"#;

/// The banner from the command to the rows.
pub const BANNER_ROWS: &'static str = r#"</code> would do.
            </p>
            <div class="global-banner-list">"#;

/// The banner from the rows to the link.
pub const BANNER_DOCS: &'static str = r#"</div>
            <p>
                Semantic analysis of the other changed files still ran &mdash; the
                <em>Detailed impact analysis</em> section below separates projects affected by
                real code signal from those only swept up by the global rule.
            </p>
            <a class="docs-link" href=""#;

/// The banner from the link to what it explains.
pub const BANNER_LEARN: &'static str = r#"" target="_blank" rel="noopener noreferrer">
                Learn how "#;

/// The banner after the arrow.
pub const BANNER_END: &'static str = r#"
            </a>
        </section>"#;

/// The triggers come from a Turborepo configuration: that of a report always has one source.
pub open spec fn is_turbo(triggers: Seq<GlobalTriggerView>) -> bool {
    triggers.len() > 0 && triggers[0].named_input == TURBO_GLOBAL_DEPENDENCIES@
}

/// The rows of the banner.
pub open spec fn rows_text(triggers: Seq<GlobalTriggerView>) -> Text
    decreases triggers.len(),
{
    if triggers.len() == 0 {
        Seq::empty()
    } else {
        let t = triggers.last();
        rows_text(triggers.drop_last()) + ROW_FILE@ + html_escaped(t.file) + ROW_INPUT@
            + html_escaped(t.named_input) + ROW_PATTERN@ + html_escaped(t.raw_pattern) + ROW_END@
    }
}

/// The patterns that matched, by name.
pub open spec fn source_prose(turbo: bool) -> Text {
    if turbo {
        "Turborepo <code>globalDependencies</code>"@
    } else {
        "Nx <code>namedInputs</code>"@
    }
}

/// The command that would affect as much.
pub open spec fn cli_equivalent(turbo: bool) -> Text {
    if turbo {
        "turbo run"@
    } else {
        "nx affected"@
    }
}

/// Where the patterns are documented.
pub open spec fn docs_href(turbo: bool) -> Text {
    if turbo {
        "https://turborepo.com/docs/reference/configuration#globaldependencies"@
    } else {
        "https://nx.dev/concepts/more-concepts/customizing-inputs"@
    }
}

/// The banner; nothing where no pattern matched.
pub open spec fn banner_text(r: AffectedReportView) -> Text {
    let n = r.global_triggers.len();
    let turbo = is_turbo(r.global_triggers);
    if n == 0 {
        Seq::empty()
    } else {
        BANNER_HEAD@ + ICON_INFO@ + BANNER_TITLE@ + decimal(n) + "</strong> changed file"@ + plural(
            n,
        ) + " matched "@ + source_prose(turbo) + BANNER_PATTERN@ + plural(n)
            + ", so all <strong>"@ + grouped(decimal(r.projects.len())) + BANNER_SAME@
            + cli_equivalent(turbo) + BANNER_ROWS@ + rows_text(r.global_triggers) + BANNER_DOCS@
            + docs_href(turbo) + BANNER_LEARN@ + source_prose(turbo) + " work "@ + ICON_EXTERNAL@
            + BANNER_END@
    }
}

/// The rows of the banner.
fn write_rows(triggers: &Vec<GlobalTrigger>) -> (r: String)
    ensures
        r@ == rows_text(triggers.deep_view()),
{
    let ghost all = triggers.deep_view();
    let mut out: String = String::new();
    let mut i: usize = 0;
    assert(all.take(0) =~= Seq::<GlobalTriggerView>::empty());
    while i < triggers.len()
        invariant
            i <= triggers.len(),
            all == triggers.deep_view(),
            out@ == rows_text(all.take(i as int)),
        decreases triggers.len() - i,
    {
        assert(all.take(i + 1).drop_last() =~= all.take(i as int));
        assert(all.take(i + 1).last() == triggers@[i as int].deep_view());
        let t = &triggers[i];
        out.append(ROW_FILE);
        out.append(escape::html_escape(t.file.as_str()).as_str());
        out.append(ROW_INPUT);
        out.append(escape::html_escape(t.named_input.as_str()).as_str());
        out.append(ROW_PATTERN);
        out.append(escape::html_escape(t.raw_pattern.as_str()).as_str());
        out.append(ROW_END);
        i += 1;
    }
    assert(all.take(i as int) =~= all);
    out
}

/// The banner that says why all projects are affected; nothing where no pattern matched.
pub fn generate_global_banner_html(report: &AffectedReport) -> (r: String)
    ensures
        r@ == banner_text(report.deep_view()),
{
    let n: usize = report.global_triggers.len();
    let ghost view = report.deep_view();
    assert(view.global_triggers.len() == n);
    assert(view.projects.len() == report.projects.len());
    if n == 0 {
        return String::new();
    }
    assert(view.global_triggers[0] == report.global_triggers@[0].deep_view());
    let turbo = text::same(
        report.global_triggers[0].named_input.as_str(),
        TURBO_GLOBAL_DEPENDENCIES,
    );
    let (prose, cli, href) = if turbo {
        (
            "Turborepo <code>globalDependencies</code>",
            "turbo run",
            "https://turborepo.com/docs/reference/configuration#globaldependencies",
        )
    } else {
        (
            "Nx <code>namedInputs</code>",
            "nx affected",
            "https://nx.dev/concepts/more-concepts/customizing-inputs",
        )
    };
    let mut out = BANNER_HEAD.to_owned();
    out.append(ICON_INFO);
    out.append(BANNER_TITLE);
    out.append(text::decimal_of(n as u64).as_str());
    out.append("</strong> changed file");
    out.append(details::plural_of(n));
    out.append(" matched ");
    out.append(prose);
    out.append(BANNER_PATTERN);
    out.append(details::plural_of(n));
    out.append(", so all <strong>");
    out.append(text::format_number(report.projects.len() as u64).as_str());
    out.append(BANNER_SAME);
    out.append(cli);
    out.append(BANNER_ROWS);
    out.append(write_rows(&report.global_triggers).as_str());
    out.append(BANNER_DOCS);
    out.append(href);
    out.append(BANNER_LEARN);
    out.append(prose);
    out.append(" work ");
    out.append(ICON_EXTERNAL);
    out.append(BANNER_END);
    out
}

/// There is a banner exactly where a pattern matched.
pub proof fn lemma_banner_shown(r: AffectedReportView)
    ensures
        banner_text(r).len() > 0 <==> r.global_triggers.len() > 0,
{
    lemma_decimal_read(r.global_triggers.len());
}

} // verus!
