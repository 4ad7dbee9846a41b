//! The report as JSON, for programs that read the page.

use crate::json;
use crate::json::json_quoted;
use crate::report::escape;
use crate::report::escape::script_safe;
use crate::report::times;
use crate::report::times::signed_decimal;
use crate::text;
use crate::text::{decimal, joined, Text};
use crate::types::{
    AffectCause, AffectCauseView, AffectedProjectInfo, AffectedProjectView, AffectedReport,
    AffectedReportView, GlobalTrigger, GlobalTriggerView, ReportTotals,
};
use vstd::prelude::*;

verus! {

/// A cause as JSON.
pub open spec fn cause_json(c: AffectCauseView) -> Text {
    match c {
        AffectCauseView::DirectChange { file, symbol, line } => {
            "{\"directChange\":{\"file\":"@ + json_quoted(file) + ",\"symbol\":"@ + match symbol {
                Some(s) => json_quoted(s),
                None => "null"@,
            } + ",\"line\":"@ + decimal(line) + "}}"@
        },
        AffectCauseView::ImportedSymbol { source_project, symbol, via_file, source_file } => {
            "{\"importedSymbol\":{\"sourceProject\":"@ + json_quoted(source_project)
                + ",\"symbol\":"@ + json_quoted(symbol) + ",\"viaFile\":"@ + json_quoted(via_file)
                + ",\"sourceFile\":"@ + json_quoted(source_file) + "}}"@
        },
        AffectCauseView::ReExported { through_file, symbol, source_file } => {
            "{\"reExported\":{\"throughFile\":"@ + json_quoted(through_file) + ",\"symbol\":"@
                + json_quoted(symbol) + ",\"sourceFile\":"@ + json_quoted(source_file) + "}}"@
        },
        AffectCauseView::ImplicitDependency { depends_on } => {
            "{\"implicitDependency\":{\"dependsOn\":"@ + json_quoted(depends_on) + "}}"@
        },
        AffectCauseView::AssetChange { asset_file, referenced_in, line } => {
            "{\"assetChange\":{\"assetFile\":"@ + json_quoted(asset_file) + ",\"referencedIn\":"@
                + json_quoted(referenced_in) + ",\"line\":"@ + decimal(line) + "}}"@
        },
        AffectCauseView::LockfileChange { dependency, importing_file } => {
            "{\"lockfileChange\":{\"dependency\":"@ + json_quoted(dependency)
                + ",\"importingFile\":"@ + json_quoted(importing_file) + "}}"@
        },
        AffectCauseView::GlobalInvalidation { file, named_input } => {
            "{\"globalInvalidation\":{\"file\":"@ + json_quoted(file) + ",\"namedInput\":"@
                + json_quoted(named_input) + "}}"@
        },
    }
}

/// A project with its causes as JSON.
pub open spec fn project_json(p: AffectedProjectView) -> Text {
    "{\"name\":"@ + json_quoted(p.name) + ",\"causes\":["@ + joined(
        p.causes.map_values(|c: AffectCauseView| cause_json(c)),
        ","@,
    ) + "]}"@
}

/// A trigger as JSON.
pub open spec fn trigger_json(t: GlobalTriggerView) -> Text {
    "{\"file\":"@ + json_quoted(t.file) + ",\"namedInput\":"@ + json_quoted(t.named_input)
        + ",\"rawPattern\":"@ + json_quoted(t.raw_pattern) + "}"@
}

/// The totals as JSON.
pub open spec fn totals_json(t: ReportTotals) -> Text {
    "{\"globallyInvalidated\":"@ + decimal(t.globally_invalidated as nat)
        + ",\"semanticallyAffected\":"@ + decimal(t.semantically_affected as nat)
        + ",\"overlap\":"@ + decimal(t.overlap as nat) + ",\"changedFiles\":"@ + decimal(
        t.changed_files as nat,
    ) + "}"@
}

/// The report as JSON.
pub open spec fn report_json(r: AffectedReportView) -> Text {
    "{\"projects\":["@ + joined(
        r.projects.map_values(|p: AffectedProjectView| project_json(p)),
        ","@,
    ) + "],\"globalTriggers\":["@ + joined(
        r.global_triggers.map_values(|t: GlobalTriggerView| trigger_json(t)),
        ","@,
    ) + "],\"totals\":"@ + totals_json(r.totals) + ",\"version\":"@ + json_quoted(r.version)
        + ",\"runStartedAtUnixSecs\":"@ + signed_decimal(r.run_started_at_unix_secs) + "}"@
}

/// The element that holds the report.
pub open spec fn metadata_text(r: AffectedReportView) -> Text {
    "<script type=\"application/json\" id=\"domino-meta\">"@ + script_safe(report_json(r))
        + "</script>"@
}

/// A cause as JSON.
fn write_cause(c: &AffectCause) -> (r: String)
    ensures
        r@ == cause_json(c.deep_view()),
{
    match c {
        AffectCause::DirectChange { file, symbol, line } => {
            let mut out = "{\"directChange\":{\"file\":".to_owned();
            out.append(json::quote_json(file.as_str()).as_str());
            out.append(",\"symbol\":");
            match symbol {
                Some(s) => {
                    out.append(json::quote_json(s.as_str()).as_str());
                },
                None => {
                    out.append("null");
                },
            }
            out.append(",\"line\":");
            out.append(text::decimal_of(*line as u64).as_str());
            out.append("}}");
            out
        },
        AffectCause::ImportedSymbol { source_project, symbol, via_file, source_file } => {
            let mut out = "{\"importedSymbol\":{\"sourceProject\":".to_owned();
            out.append(json::quote_json(source_project.as_str()).as_str());
            out.append(",\"symbol\":");
            out.append(json::quote_json(symbol.as_str()).as_str());
            out.append(",\"viaFile\":");
            out.append(json::quote_json(via_file.as_str()).as_str());
            out.append(",\"sourceFile\":");
            out.append(json::quote_json(source_file.as_str()).as_str());
            out.append("}}");
            out
        },
        AffectCause::ReExported { through_file, symbol, source_file } => {
            let mut out = "{\"reExported\":{\"throughFile\":".to_owned();
            out.append(json::quote_json(through_file.as_str()).as_str());
            out.append(",\"symbol\":");
            out.append(json::quote_json(symbol.as_str()).as_str());
            out.append(",\"sourceFile\":");
            out.append(json::quote_json(source_file.as_str()).as_str());
            out.append("}}");
            out
        },
        AffectCause::ImplicitDependency { depends_on } => {
            let mut out = "{\"implicitDependency\":{\"dependsOn\":".to_owned();
            out.append(json::quote_json(depends_on.as_str()).as_str());
            out.append("}}");
            out
        },
        AffectCause::AssetChange { asset_file, referenced_in, line } => {
            let mut out = "{\"assetChange\":{\"assetFile\":".to_owned();
            out.append(json::quote_json(asset_file.as_str()).as_str());
            out.append(",\"referencedIn\":");
            out.append(json::quote_json(referenced_in.as_str()).as_str());
            out.append(",\"line\":");
            out.append(text::decimal_of(*line as u64).as_str());
            out.append("}}");
            out
        },
        AffectCause::LockfileChange { dependency, importing_file } => {
            let mut out = "{\"lockfileChange\":{\"dependency\":".to_owned();
            out.append(json::quote_json(dependency.as_str()).as_str());
            out.append(",\"importingFile\":");
            out.append(json::quote_json(importing_file.as_str()).as_str());
            out.append("}}");
            out
        },
        AffectCause::GlobalInvalidation { file, named_input } => {
            let mut out = "{\"globalInvalidation\":{\"file\":".to_owned();
            out.append(json::quote_json(file.as_str()).as_str());
            out.append(",\"namedInput\":");
            out.append(json::quote_json(named_input.as_str()).as_str());
            out.append("}}");
            out
        },
    }
}

/// The causes of a project as JSON.
fn write_causes(causes: &Vec<AffectCause>) -> (r: Vec<String>)
    ensures
        r.deep_view() == causes.deep_view().map_values(|c: AffectCauseView| cause_json(c)),
{
    let ghost all = causes.deep_view();
    let ghost texts = all.map_values(|c: AffectCauseView| cause_json(c));
    let mut out: Vec<String> = Vec::new();
    let mut i: usize = 0;
    assert(out.deep_view() =~= texts.take(0));
    while i < causes.len()
        invariant
            i <= causes.len(),
            all == causes.deep_view(),
            texts == all.map_values(|c: AffectCauseView| cause_json(c)),
            out.deep_view() == texts.take(i as int),
        decreases causes.len() - i,
    {
        let ghost before = out.deep_view();
        assert(all[i as int] == causes@[i as int].deep_view());
        let item = write_cause(&causes[i]);
        let ghost view = item@;
        out.push(item);
        assert(out.deep_view() =~= before.push(view));
        assert(texts.take(i + 1) =~= texts.take(i as int).push(view));
        i += 1;
    }
    assert(texts.take(i as int) =~= texts);
    out
}

/// A project with its causes as JSON.
fn write_project(p: &AffectedProjectInfo) -> (r: String)
    ensures
        r@ == project_json(p.deep_view()),
{
    let causes = write_causes(&p.causes);
    let mut out = "{\"name\":".to_owned();
    out.append(json::quote_json(p.name.as_str()).as_str());
    out.append(",\"causes\":[");
    out.append(text::join(&causes, ",").as_str());
    out.append("]}");
    out
}

/// The projects as JSON.
fn write_projects(projects: &Vec<AffectedProjectInfo>) -> (r: Vec<String>)
    ensures
        r.deep_view() == projects.deep_view().map_values(
            |p: AffectedProjectView| project_json(p),
        ),
{
    let ghost all = projects.deep_view();
    let ghost texts = all.map_values(|p: AffectedProjectView| project_json(p));
    let mut out: Vec<String> = Vec::new();
    let mut i: usize = 0;
    assert(out.deep_view() =~= texts.take(0));
    while i < projects.len()
        invariant
            i <= projects.len(),
            all == projects.deep_view(),
            texts == all.map_values(|p: AffectedProjectView| project_json(p)),
            out.deep_view() == texts.take(i as int),
        decreases projects.len() - i,
    {
        let ghost before = out.deep_view();
        assert(all[i as int] == projects@[i as int].deep_view());
        let item = write_project(&projects[i]);
        let ghost view = item@;
        out.push(item);
        assert(out.deep_view() =~= before.push(view));
        assert(texts.take(i + 1) =~= texts.take(i as int).push(view));
        i += 1;
    }
    assert(texts.take(i as int) =~= texts);
    out
}

/// A trigger as JSON.
fn write_trigger(t: &GlobalTrigger) -> (r: String)
    ensures
        r@ == trigger_json(t.deep_view()),
{
    let mut out = "{\"file\":".to_owned();
    out.append(json::quote_json(t.file.as_str()).as_str());
    out.append(",\"namedInput\":");
    out.append(json::quote_json(t.named_input.as_str()).as_str());
    out.append(",\"rawPattern\":");
    out.append(json::quote_json(t.raw_pattern.as_str()).as_str());
    out.append("}");
    out
}

/// The triggers as JSON.
fn write_triggers(triggers: &Vec<GlobalTrigger>) -> (r: Vec<String>)
    ensures
        r.deep_view() == triggers.deep_view().map_values(|t: GlobalTriggerView| trigger_json(t)),
{
    let ghost all = triggers.deep_view();
    let ghost texts = all.map_values(|t: GlobalTriggerView| trigger_json(t));
    let mut out: Vec<String> = Vec::new();
    let mut i: usize = 0;
    assert(out.deep_view() =~= texts.take(0));
    while i < triggers.len()
        invariant
            i <= triggers.len(),
            all == triggers.deep_view(),
            texts == all.map_values(|t: GlobalTriggerView| trigger_json(t)),
            out.deep_view() == texts.take(i as int),
        decreases triggers.len() - i,
    {
        let ghost before = out.deep_view();
        assert(all[i as int] == triggers@[i as int].deep_view());
        let item = write_trigger(&triggers[i]);
        let ghost view = item@;
        out.push(item);
        assert(out.deep_view() =~= before.push(view));
        assert(texts.take(i + 1) =~= texts.take(i as int).push(view));
        i += 1;
    }
    assert(texts.take(i as int) =~= texts);
    out
}

/// The totals as JSON.
fn write_totals(t: &ReportTotals) -> (r: String)
    ensures
        r@ == totals_json(*t),
{
    let mut out = "{\"globallyInvalidated\":".to_owned();
    out.append(text::decimal_of(t.globally_invalidated as u64).as_str());
    out.append(",\"semanticallyAffected\":");
    out.append(text::decimal_of(t.semantically_affected as u64).as_str());
    out.append(",\"overlap\":");
    out.append(text::decimal_of(t.overlap as u64).as_str());
    out.append(",\"changedFiles\":");
    out.append(text::decimal_of(t.changed_files as u64).as_str());
    out.append("}");
    out
}

/// The report as JSON.
pub fn report_to_json(report: &AffectedReport) -> (r: String)
    ensures
        r@ == report_json(report.deep_view()),
{
    let projects = write_projects(&report.projects);
    let triggers = write_triggers(&report.global_triggers);
    let mut out = "{\"projects\":[".to_owned();
    out.append(text::join(&projects, ",").as_str());
    out.append("],\"globalTriggers\":[");
    out.append(text::join(&triggers, ",").as_str());
    out.append("],\"totals\":");
    out.append(write_totals(&report.totals).as_str());
    out.append(",\"version\":");
    out.append(json::quote_json(report.version).as_str());
    out.append(",\"runStartedAtUnixSecs\":");
    out.append(times::signed_decimal_of(report.run_started_at_unix_secs).as_str());
    out.append("}");
    out
}

/// The element that holds the report for programs that read the page.
pub fn generate_metadata_script(report: &AffectedReport) -> (r: String)
    ensures
        r@ == metadata_text(report.deep_view()),
{
    text::cat3(
        "<script type=\"application/json\" id=\"domino-meta\">",
        escape::escape_script_close(report_to_json(report).as_str()).as_str(),
        "</script>",
    )
}

} // verus!
