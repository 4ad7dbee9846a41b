//! What holds of every page.

use crate::json::json_quoted;
use crate::report::banner::{
    banner_text, cli_equivalent, docs_href, is_turbo, rows_text, source_prose, BANNER_DOCS,
    BANNER_END, BANNER_HEAD, BANNER_LEARN, BANNER_PATTERN, BANNER_ROWS, BANNER_SAME, BANNER_TITLE,
};
use crate::report::details::{
    badge_text, card_head, details_text, filter_text, global_causes_text, group_card_head,
    group_cards_text, group_label, group_text, plural, CARD_BADGE, CARD_CAUSES, CARD_COUNT, CARD_NAME,
    GROUP_CARDS, GROUP_CARD_CAUSES, GROUP_CARD_COUNT, GROUP_CARD_NAME, GROUP_COUNT, ITEM_END,
    ITEM_FILE,
};
use crate::report::escape::{html_escaped, node_id, script_string, url_encoded};
use crate::report::graph::{
    edge_text, graph_text, imports_label, is_direct_name, node_text, nodes_of,
};
use crate::report::laws::{lemma_contains, lemma_contains_on};
use crate::report::metadata::{
    cause_json, metadata_text, project_json, report_json, totals_json, trigger_json,
};
use crate::report::page::{causes_in, page_text, split_style};
use crate::report::template::{
    ICON_EXTERNAL, ICON_GITHUB, ICON_INFO, ICON_PACKAGE, LOGO_SVG, PAGE_BANNER, PAGE_CAUSES,
    PAGE_CHANGED, PAGE_COUNT, PAGE_DETAILS, PAGE_END, PAGE_FOOTER, PAGE_FOOTER_VERSION, PAGE_GLOBAL,
    PAGE_HEAD, PAGE_HERO, PAGE_HERO_VERSION, PAGE_ISSUES, PAGE_ISSUES_ICON, PAGE_LABEL,
    PAGE_LICENSE, PAGE_LICENSE_ICON, PAGE_LINKS, PAGE_LINK_ICON, PAGE_LOGO, PAGE_SCRIPTS,
    PAGE_SEMANTIC, PAGE_SPLIT_GLOBAL, PAGE_SPLIT_SEMANTIC, PAGE_STAR, PAGE_STAR_ICON,
    PAGE_STAR_TEXT, PAGE_TOPBAR, PAGE_VERSION, REPO_URL, SCRIPT_FILTER, SCRIPT_GRAPH, SCRIPT_LAYOUT,
    STYLE_BANNER, STYLE_BASE, STYLE_CARD, STYLE_CAUSE, STYLE_FILTER, STYLE_FOOTER, STYLE_GRAPH,
    STYLE_GROUP, STYLE_HERO, STYLE_MEDIA, STYLE_PROJECT, STYLE_STATS, STYLE_TOPBAR, VERSION,
};
use crate::report::times::{relative_time, signed_decimal};
use crate::text::{contains_text, decimal, grouped, has_prefix, joined, occurs_at, Text};
use crate::types::{
    AffectCauseView, AffectedProjectView, AffectedReportView, GlobalTriggerView, ReportTotals,
};
use vstd::prelude::*;

verus! {

// ---------------------------------------------------------------------------
// Beginnings
// ---------------------------------------------------------------------------

proof fn lemma_whole(whole: Text)
    ensures
        has_prefix(whole, whole),
{
    assert(whole.subrange(0, whole.len() as int) =~= whole);
}

proof fn lemma_start(p: Text, t: Text, whole: Text)
    requires
        has_prefix(whole, p + t),
    ensures
        has_prefix(whole, p),
{
    let longer = p + t;
    assert(whole.subrange(0, p.len() as int) =~= whole.subrange(0, longer.len() as int).subrange(
        0,
        p.len() as int,
    ));
    assert(longer.subrange(0, p.len() as int) =~= p);
}

proof fn lemma_from_start(whole: Text, p: Text, x: Text)
    requires
        has_prefix(whole, p),
        contains_text(p, x),
    ensures
        contains_text(whole, x),
{
    let at = choose|at: int| occurs_at(p, x, at);
    assert(whole.subrange(at, at + x.len()) =~= whole.subrange(0, p.len() as int).subrange(
        at,
        at + x.len(),
    ));
    assert(occurs_at(whole, x, at));
}

proof fn lemma_pair(front: Text, label: Text, value: Text)
    ensures
        contains_text(front + label + value, label + value),
{
    assert(front + label + value =~= front + (label + value));
    lemma_contains(front, label + value, Seq::<char>::empty());
}

/// Each of the texts that are joined stands in what they are joined to.
pub proof fn lemma_joined_holds(parts: Seq<Text>, sep: Text, i: int)
    requires
        0 <= i < parts.len(),
    ensures
        contains_text(joined(parts, sep), parts[i]),
    decreases parts.len(),
{
    let none = Seq::<char>::empty();
    if parts.len() == 1 {
        lemma_contains(none, parts[0], none);
    } else {
        let init = parts.drop_last();
        let n = parts.len() - 1;
        let before = joined(init, sep);
        if i < n {
            assert(init[i] == parts[i]);
            lemma_joined_holds(init, sep, i);
            lemma_contains_on(none, before, sep, parts[i]);
            lemma_contains_on(none, before + sep, parts[n], parts[i]);
        } else {
            lemma_contains(before + sep, parts[n], none);
        }
    }
}

// ---------------------------------------------------------------------------
// The graph
// ---------------------------------------------------------------------------

/// Each project has a node of its name, direct or not as its causes say.
pub proof fn lemma_nodes(projects: Seq<AffectedProjectView>, i: int)
    requires
        0 <= i < projects.len(),
    ensures
        nodes_of(projects).len() == projects.len(),
        nodes_of(projects)[i] == node_text(
            projects[i].name,
            is_direct_name(projects, projects[i].name),
        ),
        contains_text(joined(nodes_of(projects), ", "@), nodes_of(projects)[i]),
{
    lemma_joined_holds(nodes_of(projects), ", "@, i);
}

/// A node has the name's id, the name as its label, and its kind.
pub proof fn lemma_node(name: Text, direct: bool)
    ensures
        contains_text(node_text(name, direct), "{ data: { id: "@ + script_string(node_id(name))),
        contains_text(node_text(name, direct), ", label: "@ + script_string(name)),
        contains_text(node_text(name, direct), ", type: "@ + script_string(
        if direct {
            "direct"@
        } else {
            "affected"@
        },
    )),
{
    let whole = node_text(name, direct);
    let p0 = "{ data: { id: "@;
    let p1 = p0 + script_string(node_id(name));
    let p2 = p1 + ", label: "@;
    let p3 = p2 + script_string(name);
    let p4 = p3 + ", type: "@;
    let p5 = p4 + script_string(
        if direct {
            "direct"@
        } else {
            "affected"@
        },
    );
    let p6 = p5 + " } }"@;
    assert(whole == p6);
    lemma_whole(whole);
    lemma_start(p5, " } }"@, whole);
    lemma_start(p4, script_string(
        if direct {
            "direct"@
        } else {
            "affected"@
        },
    ), whole);
    lemma_start(p3, ", type: "@, whole);
    lemma_start(p2, script_string(name), whole);
    lemma_start(p1, ", label: "@, whole);
    lemma_contains(Seq::<char>::empty(), p1, Seq::<char>::empty());
    lemma_from_start(whole, p1, "{ data: { id: "@ + script_string(node_id(name)));
    lemma_pair(p1, ", label: "@, script_string(name));
    lemma_from_start(whole, p3, ", label: "@ + script_string(name));
    lemma_pair(p3, ", type: "@, script_string(
        if direct {
            "direct"@
        } else {
            "affected"@
        },
    ));
    lemma_from_start(whole, p5, ", type: "@ + script_string(
        if direct {
            "direct"@
        } else {
            "affected"@
        },
    ));
}

/// An edge leads from the source to the target. An implicit one says so.
pub proof fn lemma_implicit_edge(source: Text, target: Text, implicit: nat, imports: nat)
    requires
        implicit > 0,
    ensures
        contains_text(edge_text(source, target, implicit, imports), "{ data: { source: "@ + script_string(node_id(source))),
        contains_text(edge_text(source, target, implicit, imports), ", target: "@ + script_string(node_id(target))),
        contains_text(edge_text(source, target, implicit, imports), script_string(node_id(target)) + ", label: \"implicit\", type: \"implicit\" } }"@),
{
    let whole = edge_text(source, target, implicit, imports);
    let p0 = "{ data: { source: "@;
    let p1 = p0 + script_string(node_id(source));
    let p2 = p1 + ", target: "@;
    let p3 = p2 + script_string(node_id(target));
    let p4 = p3 + ", label: \"implicit\", type: \"implicit\" } }"@;
    assert(whole == p4);
    lemma_whole(whole);
    lemma_start(p3, ", label: \"implicit\", type: \"implicit\" } }"@, whole);
    lemma_start(p2, script_string(node_id(target)), whole);
    lemma_start(p1, ", target: "@, whole);
    lemma_contains(Seq::<char>::empty(), p1, Seq::<char>::empty());
    lemma_from_start(whole, p1, "{ data: { source: "@ + script_string(node_id(source)));
    lemma_pair(p1, ", target: "@, script_string(node_id(target)));
    lemma_from_start(whole, p3, ", target: "@ + script_string(node_id(target)));
    lemma_pair(p2, script_string(node_id(target)), ", label: \"implicit\", type: \"implicit\" } }"@);
    lemma_from_start(whole, p4, script_string(node_id(target)) + ", label: \"implicit\", type: \"implicit\" } }"@);
}

/// Another edge leads from the source to the target too, and counts the imports.
pub proof fn lemma_import_edge(source: Text, target: Text, imports: nat)
    ensures
        contains_text(edge_text(source, target, 0, imports), "{ data: { source: "@ + script_string(node_id(source))),
        contains_text(edge_text(source, target, 0, imports), ", target: "@ + script_string(node_id(target))),
        contains_text(edge_text(source, target, 0, imports), ", label: "@ + script_string(imports_label(imports))),
{
    let whole = edge_text(source, target, 0, imports);
    let p0 = "{ data: { source: "@;
    let p1 = p0 + script_string(node_id(source));
    let p2 = p1 + ", target: "@;
    let p3 = p2 + script_string(node_id(target));
    let p4 = p3 + ", label: "@;
    let p5 = p4 + script_string(imports_label(imports));
    let p6 = p5 + " } }"@;
    assert(whole == p6);
    lemma_whole(whole);
    lemma_start(p5, " } }"@, whole);
    lemma_start(p4, script_string(imports_label(imports)), whole);
    lemma_start(p3, ", label: "@, whole);
    lemma_start(p2, script_string(node_id(target)), whole);
    lemma_start(p1, ", target: "@, whole);
    lemma_contains(Seq::<char>::empty(), p1, Seq::<char>::empty());
    lemma_from_start(whole, p1, "{ data: { source: "@ + script_string(node_id(source)));
    lemma_pair(p1, ", target: "@, script_string(node_id(target)));
    lemma_from_start(whole, p3, ", target: "@ + script_string(node_id(target)));
    lemma_pair(p3, ", label: "@, script_string(imports_label(imports)));
    lemma_from_start(whole, p5, ", label: "@ + script_string(imports_label(imports)));
}

/// A direct change in JSON.
pub proof fn lemma_direct_change_json(file: Text, symbol: Option<Text>, line: nat)
    ensures
        contains_text(cause_json(AffectCauseView::DirectChange { file, symbol, line }), "{\"directChange\":{\"file\":"@ + json_quoted(file)),
        contains_text(cause_json(AffectCauseView::DirectChange { file, symbol, line }), ",\"symbol\":"@ + match symbol {
        Some(s) => json_quoted(s),
        None => "null"@,
    }),
        contains_text(cause_json(AffectCauseView::DirectChange { file, symbol, line }), ",\"line\":"@ + decimal(line)),
{
    let whole = cause_json(AffectCauseView::DirectChange { file, symbol, line });
    let p0 = "{\"directChange\":{\"file\":"@;
    let p1 = p0 + json_quoted(file);
    let p2 = p1 + ",\"symbol\":"@;
    let p3 = p2 + match symbol {
        Some(s) => json_quoted(s),
        None => "null"@,
    };
    let p4 = p3 + ",\"line\":"@;
    let p5 = p4 + decimal(line);
    let p6 = p5 + "}}"@;
    assert(whole == p6);
    lemma_whole(whole);
    lemma_start(p5, "}}"@, whole);
    lemma_start(p4, decimal(line), whole);
    lemma_start(p3, ",\"line\":"@, whole);
    lemma_start(p2, match symbol {
        Some(s) => json_quoted(s),
        None => "null"@,
    }, whole);
    lemma_start(p1, ",\"symbol\":"@, whole);
    lemma_contains(Seq::<char>::empty(), p1, Seq::<char>::empty());
    lemma_from_start(whole, p1, "{\"directChange\":{\"file\":"@ + json_quoted(file));
    lemma_pair(p1, ",\"symbol\":"@, match symbol {
        Some(s) => json_quoted(s),
        None => "null"@,
    });
    lemma_from_start(whole, p3, ",\"symbol\":"@ + match symbol {
        Some(s) => json_quoted(s),
        None => "null"@,
    });
    lemma_pair(p3, ",\"line\":"@, decimal(line));
    lemma_from_start(whole, p5, ",\"line\":"@ + decimal(line));
}

/// An imported symbol in JSON.
pub proof fn lemma_imported_symbol_json(source_project: Text, symbol: Text, via_file: Text, source_file: Text)
    ensures
        contains_text(cause_json(
            AffectCauseView::ImportedSymbol { source_project, symbol, via_file, source_file },
        ), "{\"importedSymbol\":{\"sourceProject\":"@ + json_quoted(source_project)),
        contains_text(cause_json(
            AffectCauseView::ImportedSymbol { source_project, symbol, via_file, source_file },
        ), ",\"symbol\":"@ + json_quoted(symbol)),
        contains_text(cause_json(
            AffectCauseView::ImportedSymbol { source_project, symbol, via_file, source_file },
        ), ",\"viaFile\":"@ + json_quoted(via_file)),
        contains_text(cause_json(
            AffectCauseView::ImportedSymbol { source_project, symbol, via_file, source_file },
        ), ",\"sourceFile\":"@ + json_quoted(source_file)),
{
    let whole = cause_json(
            AffectCauseView::ImportedSymbol { source_project, symbol, via_file, source_file },
        );
    let p0 = "{\"importedSymbol\":{\"sourceProject\":"@;
    let p1 = p0 + json_quoted(source_project);
    let p2 = p1 + ",\"symbol\":"@;
    let p3 = p2 + json_quoted(symbol);
    let p4 = p3 + ",\"viaFile\":"@;
    let p5 = p4 + json_quoted(via_file);
    let p6 = p5 + ",\"sourceFile\":"@;
    let p7 = p6 + json_quoted(source_file);
    let p8 = p7 + "}}"@;
    assert(whole == p8);
    lemma_whole(whole);
    lemma_start(p7, "}}"@, whole);
    lemma_start(p6, json_quoted(source_file), whole);
    lemma_start(p5, ",\"sourceFile\":"@, whole);
    lemma_start(p4, json_quoted(via_file), whole);
    lemma_start(p3, ",\"viaFile\":"@, whole);
    lemma_start(p2, json_quoted(symbol), whole);
    lemma_start(p1, ",\"symbol\":"@, whole);
    lemma_contains(Seq::<char>::empty(), p1, Seq::<char>::empty());
    lemma_from_start(whole, p1, "{\"importedSymbol\":{\"sourceProject\":"@ + json_quoted(source_project));
    lemma_pair(p1, ",\"symbol\":"@, json_quoted(symbol));
    lemma_from_start(whole, p3, ",\"symbol\":"@ + json_quoted(symbol));
    lemma_pair(p3, ",\"viaFile\":"@, json_quoted(via_file));
    lemma_from_start(whole, p5, ",\"viaFile\":"@ + json_quoted(via_file));
    lemma_pair(p5, ",\"sourceFile\":"@, json_quoted(source_file));
    lemma_from_start(whole, p7, ",\"sourceFile\":"@ + json_quoted(source_file));
}

/// A re-export in JSON.
pub proof fn lemma_reexport_json(through_file: Text, symbol: Text, source_file: Text)
    ensures
        contains_text(cause_json(AffectCauseView::ReExported { through_file, symbol, source_file }), "{\"reExported\":{\"throughFile\":"@ + json_quoted(through_file)),
        contains_text(cause_json(AffectCauseView::ReExported { through_file, symbol, source_file }), ",\"symbol\":"@ + json_quoted(symbol)),
        contains_text(cause_json(AffectCauseView::ReExported { through_file, symbol, source_file }), ",\"sourceFile\":"@ + json_quoted(source_file)),
{
    let whole = cause_json(AffectCauseView::ReExported { through_file, symbol, source_file });
    let p0 = "{\"reExported\":{\"throughFile\":"@;
    let p1 = p0 + json_quoted(through_file);
    let p2 = p1 + ",\"symbol\":"@;
    let p3 = p2 + json_quoted(symbol);
    let p4 = p3 + ",\"sourceFile\":"@;
    let p5 = p4 + json_quoted(source_file);
    let p6 = p5 + "}}"@;
    assert(whole == p6);
    lemma_whole(whole);
    lemma_start(p5, "}}"@, whole);
    lemma_start(p4, json_quoted(source_file), whole);
    lemma_start(p3, ",\"sourceFile\":"@, whole);
    lemma_start(p2, json_quoted(symbol), whole);
    lemma_start(p1, ",\"symbol\":"@, whole);
    lemma_contains(Seq::<char>::empty(), p1, Seq::<char>::empty());
    lemma_from_start(whole, p1, "{\"reExported\":{\"throughFile\":"@ + json_quoted(through_file));
    lemma_pair(p1, ",\"symbol\":"@, json_quoted(symbol));
    lemma_from_start(whole, p3, ",\"symbol\":"@ + json_quoted(symbol));
    lemma_pair(p3, ",\"sourceFile\":"@, json_quoted(source_file));
    lemma_from_start(whole, p5, ",\"sourceFile\":"@ + json_quoted(source_file));
}

/// An implicit dependency in JSON.
pub proof fn lemma_implicit_json(depends_on: Text)
    ensures
        contains_text(cause_json(AffectCauseView::ImplicitDependency { depends_on }), "{\"implicitDependency\":{\"dependsOn\":"@ + json_quoted(depends_on)),
{
    let whole = cause_json(AffectCauseView::ImplicitDependency { depends_on });
    let p0 = "{\"implicitDependency\":{\"dependsOn\":"@;
    let p1 = p0 + json_quoted(depends_on);
    let p2 = p1 + "}}"@;
    assert(whole == p2);
    lemma_whole(whole);
    lemma_start(p1, "}}"@, whole);
    lemma_contains(Seq::<char>::empty(), p1, Seq::<char>::empty());
    lemma_from_start(whole, p1, "{\"implicitDependency\":{\"dependsOn\":"@ + json_quoted(depends_on));
}

/// An asset in JSON.
pub proof fn lemma_asset_json(asset_file: Text, referenced_in: Text, line: nat)
    ensures
        contains_text(cause_json(AffectCauseView::AssetChange { asset_file, referenced_in, line }), "{\"assetChange\":{\"assetFile\":"@ + json_quoted(asset_file)),
        contains_text(cause_json(AffectCauseView::AssetChange { asset_file, referenced_in, line }), ",\"referencedIn\":"@ + json_quoted(referenced_in)),
        contains_text(cause_json(AffectCauseView::AssetChange { asset_file, referenced_in, line }), ",\"line\":"@ + decimal(line)),
{
    let whole = cause_json(AffectCauseView::AssetChange { asset_file, referenced_in, line });
    let p0 = "{\"assetChange\":{\"assetFile\":"@;
    let p1 = p0 + json_quoted(asset_file);
    let p2 = p1 + ",\"referencedIn\":"@;
    let p3 = p2 + json_quoted(referenced_in);
    let p4 = p3 + ",\"line\":"@;
    let p5 = p4 + decimal(line);
    let p6 = p5 + "}}"@;
    assert(whole == p6);
    lemma_whole(whole);
    lemma_start(p5, "}}"@, whole);
    lemma_start(p4, decimal(line), whole);
    lemma_start(p3, ",\"line\":"@, whole);
    lemma_start(p2, json_quoted(referenced_in), whole);
    lemma_start(p1, ",\"referencedIn\":"@, whole);
    lemma_contains(Seq::<char>::empty(), p1, Seq::<char>::empty());
    lemma_from_start(whole, p1, "{\"assetChange\":{\"assetFile\":"@ + json_quoted(asset_file));
    lemma_pair(p1, ",\"referencedIn\":"@, json_quoted(referenced_in));
    lemma_from_start(whole, p3, ",\"referencedIn\":"@ + json_quoted(referenced_in));
    lemma_pair(p3, ",\"line\":"@, decimal(line));
    lemma_from_start(whole, p5, ",\"line\":"@ + decimal(line));
}

/// A dependency in JSON.
pub proof fn lemma_dependency_json(dependency: Text, importing_file: Text)
    ensures
        contains_text(cause_json(AffectCauseView::LockfileChange { dependency, importing_file }), "{\"lockfileChange\":{\"dependency\":"@ + json_quoted(dependency)),
        contains_text(cause_json(AffectCauseView::LockfileChange { dependency, importing_file }), ",\"importingFile\":"@ + json_quoted(importing_file)),
{
    let whole = cause_json(AffectCauseView::LockfileChange { dependency, importing_file });
    let p0 = "{\"lockfileChange\":{\"dependency\":"@;
    let p1 = p0 + json_quoted(dependency);
    let p2 = p1 + ",\"importingFile\":"@;
    let p3 = p2 + json_quoted(importing_file);
    let p4 = p3 + "}}"@;
    assert(whole == p4);
    lemma_whole(whole);
    lemma_start(p3, "}}"@, whole);
    lemma_start(p2, json_quoted(importing_file), whole);
    lemma_start(p1, ",\"importingFile\":"@, whole);
    lemma_contains(Seq::<char>::empty(), p1, Seq::<char>::empty());
    lemma_from_start(whole, p1, "{\"lockfileChange\":{\"dependency\":"@ + json_quoted(dependency));
    lemma_pair(p1, ",\"importingFile\":"@, json_quoted(importing_file));
    lemma_from_start(whole, p3, ",\"importingFile\":"@ + json_quoted(importing_file));
}

/// A global cause in JSON.
pub proof fn lemma_global_json(file: Text, named_input: Text)
    ensures
        contains_text(cause_json(AffectCauseView::GlobalInvalidation { file, named_input }), "{\"globalInvalidation\":{\"file\":"@ + json_quoted(file)),
        contains_text(cause_json(AffectCauseView::GlobalInvalidation { file, named_input }), ",\"namedInput\":"@ + json_quoted(named_input)),
{
    let whole = cause_json(AffectCauseView::GlobalInvalidation { file, named_input });
    let p0 = "{\"globalInvalidation\":{\"file\":"@;
    let p1 = p0 + json_quoted(file);
    let p2 = p1 + ",\"namedInput\":"@;
    let p3 = p2 + json_quoted(named_input);
    let p4 = p3 + "}}"@;
    assert(whole == p4);
    lemma_whole(whole);
    lemma_start(p3, "}}"@, whole);
    lemma_start(p2, json_quoted(named_input), whole);
    lemma_start(p1, ",\"namedInput\":"@, whole);
    lemma_contains(Seq::<char>::empty(), p1, Seq::<char>::empty());
    lemma_from_start(whole, p1, "{\"globalInvalidation\":{\"file\":"@ + json_quoted(file));
    lemma_pair(p1, ",\"namedInput\":"@, json_quoted(named_input));
    lemma_from_start(whole, p3, ",\"namedInput\":"@ + json_quoted(named_input));
}

/// A trigger in JSON.
pub proof fn lemma_trigger_json(t: GlobalTriggerView)
    ensures
        contains_text(trigger_json(t), "{\"file\":"@ + json_quoted(t.file)),
        contains_text(trigger_json(t), ",\"namedInput\":"@ + json_quoted(t.named_input)),
        contains_text(trigger_json(t), ",\"rawPattern\":"@ + json_quoted(t.raw_pattern)),
{
    let whole = trigger_json(t);
    let p0 = "{\"file\":"@;
    let p1 = p0 + json_quoted(t.file);
    let p2 = p1 + ",\"namedInput\":"@;
    let p3 = p2 + json_quoted(t.named_input);
    let p4 = p3 + ",\"rawPattern\":"@;
    let p5 = p4 + json_quoted(t.raw_pattern);
    let p6 = p5 + "}"@;
    assert(whole == p6);
    lemma_whole(whole);
    lemma_start(p5, "}"@, whole);
    lemma_start(p4, json_quoted(t.raw_pattern), whole);
    lemma_start(p3, ",\"rawPattern\":"@, whole);
    lemma_start(p2, json_quoted(t.named_input), whole);
    lemma_start(p1, ",\"namedInput\":"@, whole);
    lemma_contains(Seq::<char>::empty(), p1, Seq::<char>::empty());
    lemma_from_start(whole, p1, "{\"file\":"@ + json_quoted(t.file));
    lemma_pair(p1, ",\"namedInput\":"@, json_quoted(t.named_input));
    lemma_from_start(whole, p3, ",\"namedInput\":"@ + json_quoted(t.named_input));
    lemma_pair(p3, ",\"rawPattern\":"@, json_quoted(t.raw_pattern));
    lemma_from_start(whole, p5, ",\"rawPattern\":"@ + json_quoted(t.raw_pattern));
}

/// The totals in JSON.
pub proof fn lemma_totals_json(t: ReportTotals)
    ensures
        contains_text(totals_json(t), "{\"globallyInvalidated\":"@ + decimal(t.globally_invalidated as nat)),
        contains_text(totals_json(t), ",\"semanticallyAffected\":"@ + decimal(t.semantically_affected as nat)),
        contains_text(totals_json(t), ",\"overlap\":"@ + decimal(t.overlap as nat)),
        contains_text(totals_json(t), ",\"changedFiles\":"@ + decimal(t.changed_files as nat)),
{
    let whole = totals_json(t);
    let p0 = "{\"globallyInvalidated\":"@;
    let p1 = p0 + decimal(t.globally_invalidated as nat);
    let p2 = p1 + ",\"semanticallyAffected\":"@;
    let p3 = p2 + decimal(t.semantically_affected as nat);
    let p4 = p3 + ",\"overlap\":"@;
    let p5 = p4 + decimal(t.overlap as nat);
    let p6 = p5 + ",\"changedFiles\":"@;
    let p7 = p6 + decimal(t.changed_files as nat);
    let p8 = p7 + "}"@;
    assert(whole == p8);
    lemma_whole(whole);
    lemma_start(p7, "}"@, whole);
    lemma_start(p6, decimal(t.changed_files as nat), whole);
    lemma_start(p5, ",\"changedFiles\":"@, whole);
    lemma_start(p4, decimal(t.overlap as nat), whole);
    lemma_start(p3, ",\"overlap\":"@, whole);
    lemma_start(p2, decimal(t.semantically_affected as nat), whole);
    lemma_start(p1, ",\"semanticallyAffected\":"@, whole);
    lemma_contains(Seq::<char>::empty(), p1, Seq::<char>::empty());
    lemma_from_start(whole, p1, "{\"globallyInvalidated\":"@ + decimal(t.globally_invalidated as nat));
    lemma_pair(p1, ",\"semanticallyAffected\":"@, decimal(t.semantically_affected as nat));
    lemma_from_start(whole, p3, ",\"semanticallyAffected\":"@ + decimal(t.semantically_affected as nat));
    lemma_pair(p3, ",\"overlap\":"@, decimal(t.overlap as nat));
    lemma_from_start(whole, p5, ",\"overlap\":"@ + decimal(t.overlap as nat));
    lemma_pair(p5, ",\"changedFiles\":"@, decimal(t.changed_files as nat));
    lemma_from_start(whole, p7, ",\"changedFiles\":"@ + decimal(t.changed_files as nat));
}

/// A project in JSON: its name, and its causes in order.
pub proof fn lemma_project_json(p: AffectedProjectView)
    ensures
        contains_text(project_json(p), "{\"name\":"@ + json_quoted(p.name)),
        contains_text(project_json(p), ",\"causes\":["@ + joined(p.causes.map_values(|c: AffectCauseView| cause_json(c)), ","@)),
{
    let whole = project_json(p);
    let p0 = "{\"name\":"@;
    let p1 = p0 + json_quoted(p.name);
    let p2 = p1 + ",\"causes\":["@;
    let p3 = p2 + joined(p.causes.map_values(|c: AffectCauseView| cause_json(c)), ","@);
    let p4 = p3 + "]}"@;
    assert(whole == p4);
    lemma_whole(whole);
    lemma_start(p3, "]}"@, whole);
    lemma_start(p2, joined(p.causes.map_values(|c: AffectCauseView| cause_json(c)), ","@), whole);
    lemma_start(p1, ",\"causes\":["@, whole);
    lemma_contains(Seq::<char>::empty(), p1, Seq::<char>::empty());
    lemma_from_start(whole, p1, "{\"name\":"@ + json_quoted(p.name));
    lemma_pair(p1, ",\"causes\":["@, joined(p.causes.map_values(|c: AffectCauseView| cause_json(c)), ","@));
    lemma_from_start(whole, p3, ",\"causes\":["@ + joined(p.causes.map_values(|c: AffectCauseView| cause_json(c)), ","@));
}

/// The report in JSON: its projects and its triggers in order, its totals, its version and its time.
pub proof fn lemma_report_json(r: AffectedReportView)
    ensures
        contains_text(report_json(r), "{\"projects\":["@ + joined(r.projects.map_values(|p: AffectedProjectView| project_json(p)), ","@)),
        contains_text(report_json(r), "],\"globalTriggers\":["@ + joined(r.global_triggers.map_values(|t: GlobalTriggerView| trigger_json(t)), ","@)),
        contains_text(report_json(r), "],\"totals\":"@ + totals_json(r.totals)),
        contains_text(report_json(r), ",\"version\":"@ + json_quoted(r.version)),
        contains_text(report_json(r), ",\"runStartedAtUnixSecs\":"@ + signed_decimal(r.run_started_at_unix_secs)),
{
    let whole = report_json(r);
    let p0 = "{\"projects\":["@;
    let p1 = p0 + joined(r.projects.map_values(|p: AffectedProjectView| project_json(p)), ","@);
    let p2 = p1 + "],\"globalTriggers\":["@;
    let p3 = p2 + joined(r.global_triggers.map_values(|t: GlobalTriggerView| trigger_json(t)), ","@);
    let p4 = p3 + "],\"totals\":"@;
    let p5 = p4 + totals_json(r.totals);
    let p6 = p5 + ",\"version\":"@;
    let p7 = p6 + json_quoted(r.version);
    let p8 = p7 + ",\"runStartedAtUnixSecs\":"@;
    let p9 = p8 + signed_decimal(r.run_started_at_unix_secs);
    let p10 = p9 + "}"@;
    assert(whole == p10);
    lemma_whole(whole);
    lemma_start(p9, "}"@, whole);
    lemma_start(p8, signed_decimal(r.run_started_at_unix_secs), whole);
    lemma_start(p7, ",\"runStartedAtUnixSecs\":"@, whole);
    lemma_start(p6, json_quoted(r.version), whole);
    lemma_start(p5, ",\"version\":"@, whole);
    lemma_start(p4, totals_json(r.totals), whole);
    lemma_start(p3, "],\"totals\":"@, whole);
    lemma_start(p2, joined(r.global_triggers.map_values(|t: GlobalTriggerView| trigger_json(t)), ","@), whole);
    lemma_start(p1, "],\"globalTriggers\":["@, whole);
    lemma_contains(Seq::<char>::empty(), p1, Seq::<char>::empty());
    lemma_from_start(whole, p1, "{\"projects\":["@ + joined(r.projects.map_values(|p: AffectedProjectView| project_json(p)), ","@));
    lemma_pair(p1, "],\"globalTriggers\":["@, joined(r.global_triggers.map_values(|t: GlobalTriggerView| trigger_json(t)), ","@));
    lemma_from_start(whole, p3, "],\"globalTriggers\":["@ + joined(r.global_triggers.map_values(|t: GlobalTriggerView| trigger_json(t)), ","@));
    lemma_pair(p3, "],\"totals\":"@, totals_json(r.totals));
    lemma_from_start(whole, p5, "],\"totals\":"@ + totals_json(r.totals));
    lemma_pair(p5, ",\"version\":"@, json_quoted(r.version));
    lemma_from_start(whole, p7, ",\"version\":"@ + json_quoted(r.version));
    lemma_pair(p7, ",\"runStartedAtUnixSecs\":"@, signed_decimal(r.run_started_at_unix_secs));
    lemma_from_start(whole, p9, ",\"runStartedAtUnixSecs\":"@ + signed_decimal(r.run_started_at_unix_secs));
}

/// A card counts its causes, and has the badge and the filter of the project.
pub proof fn lemma_card_head(p: AffectedProjectView)
    ensures
        contains_text(card_head(p), "<div class=\"project-card\" data-filter-type=\""@ + filter_text(p.causes)),
        contains_text(card_head(p), CARD_BADGE@ + badge_text(p.causes)),
        contains_text(card_head(p), CARD_COUNT@ + decimal(p.causes.len())),
        contains_text(card_head(p), decimal(p.causes.len()) + " cause"@),
        contains_text(card_head(p), " cause"@ + plural(p.causes.len())),
{
    let whole = card_head(p);
    let p0 = "<div class=\"project-card\" data-filter-type=\""@;
    let p1 = p0 + filter_text(p.causes);
    let p2 = p1 + CARD_NAME@;
    let p3 = p2 + ICON_PACKAGE@;
    let p4 = p3 + "<span>"@;
    let p5 = p4 + html_escaped(p.name);
    let p6 = p5 + CARD_BADGE@;
    let p7 = p6 + badge_text(p.causes);
    let p8 = p7 + CARD_COUNT@;
    let p9 = p8 + decimal(p.causes.len());
    let p10 = p9 + " cause"@;
    let p11 = p10 + plural(p.causes.len());
    let p12 = p11 + CARD_CAUSES@;
    assert(whole == p12);
    lemma_whole(whole);
    lemma_start(p11, CARD_CAUSES@, whole);
    lemma_start(p10, plural(p.causes.len()), whole);
    lemma_start(p9, " cause"@, whole);
    lemma_start(p8, decimal(p.causes.len()), whole);
    lemma_start(p7, CARD_COUNT@, whole);
    lemma_start(p6, badge_text(p.causes), whole);
    lemma_start(p5, CARD_BADGE@, whole);
    lemma_start(p4, html_escaped(p.name), whole);
    lemma_start(p3, "<span>"@, whole);
    lemma_start(p2, ICON_PACKAGE@, whole);
    lemma_start(p1, CARD_NAME@, whole);
    lemma_contains(Seq::<char>::empty(), p1, Seq::<char>::empty());
    lemma_from_start(whole, p1, "<div class=\"project-card\" data-filter-type=\""@ + filter_text(p.causes));
    lemma_pair(p5, CARD_BADGE@, badge_text(p.causes));
    lemma_from_start(whole, p7, CARD_BADGE@ + badge_text(p.causes));
    lemma_pair(p7, CARD_COUNT@, decimal(p.causes.len()));
    lemma_from_start(whole, p9, CARD_COUNT@ + decimal(p.causes.len()));
    lemma_pair(p8, decimal(p.causes.len()), " cause"@);
    lemma_from_start(whole, p10, decimal(p.causes.len()) + " cause"@);
    lemma_pair(p9, " cause"@, plural(p.causes.len()));
    lemma_from_start(whole, p11, " cause"@ + plural(p.causes.len()));
}

/// A card of the group has the name of its project, and counts its causes.
pub proof fn lemma_group_card_head(p: AffectedProjectView)
    ensures
        contains_text(group_card_head(p), "<span>"@ + html_escaped(p.name)),
        contains_text(group_card_head(p), GROUP_CARD_COUNT@ + decimal(p.causes.len())),
        contains_text(group_card_head(p), " cause"@ + plural(p.causes.len())),
{
    let whole = group_card_head(p);
    let p0 = GROUP_CARD_NAME@;
    let p1 = p0 + ICON_PACKAGE@;
    let p2 = p1 + "<span>"@;
    let p3 = p2 + html_escaped(p.name);
    let p4 = p3 + GROUP_CARD_COUNT@;
    let p5 = p4 + decimal(p.causes.len());
    let p6 = p5 + " cause"@;
    let p7 = p6 + plural(p.causes.len());
    let p8 = p7 + GROUP_CARD_CAUSES@;
    assert(whole == p8);
    lemma_whole(whole);
    lemma_start(p7, GROUP_CARD_CAUSES@, whole);
    lemma_start(p6, plural(p.causes.len()), whole);
    lemma_start(p5, " cause"@, whole);
    lemma_start(p4, decimal(p.causes.len()), whole);
    lemma_start(p3, GROUP_CARD_COUNT@, whole);
    lemma_pair(p1, "<span>"@, html_escaped(p.name));
    lemma_from_start(whole, p3, "<span>"@ + html_escaped(p.name));
    lemma_pair(p3, GROUP_CARD_COUNT@, decimal(p.causes.len()));
    lemma_from_start(whole, p5, GROUP_CARD_COUNT@ + decimal(p.causes.len()));
    lemma_pair(p5, " cause"@, plural(p.causes.len()));
    lemma_from_start(whole, p7, " cause"@ + plural(p.causes.len()));
}

/// The group counts its projects, says through what they were invalidated, and holds their cards.
pub proof fn lemma_group(projects: Seq<AffectedProjectView>)
    ensures
        contains_text(group_text(projects), GROUP_COUNT@ + grouped(decimal(projects.len()))),
        contains_text(group_text(projects), "</strong> projects globally invalidated"@ + group_label(projects)),
        contains_text(group_text(projects), GROUP_CARDS@ + group_cards_text(projects)),
{
    let whole = group_text(projects);
    let p0 = GROUP_COUNT@;
    let p1 = p0 + grouped(decimal(projects.len()));
    let p2 = p1 + "</strong> projects globally invalidated"@;
    let p3 = p2 + group_label(projects);
    let p4 = p3 + GROUP_CARDS@;
    let p5 = p4 + group_cards_text(projects);
    let p6 = p5 + "</div></details>"@;
    assert(whole == p6);
    lemma_whole(whole);
    lemma_start(p5, "</div></details>"@, whole);
    lemma_start(p4, group_cards_text(projects), whole);
    lemma_start(p3, GROUP_CARDS@, whole);
    lemma_start(p2, group_label(projects), whole);
    lemma_start(p1, "</strong> projects globally invalidated"@, whole);
    lemma_contains(Seq::<char>::empty(), p1, Seq::<char>::empty());
    lemma_from_start(whole, p1, GROUP_COUNT@ + grouped(decimal(projects.len())));
    lemma_pair(p1, "</strong> projects globally invalidated"@, group_label(projects));
    lemma_from_start(whole, p3, "</strong> projects globally invalidated"@ + group_label(projects));
    lemma_pair(p3, GROUP_CARDS@, group_cards_text(projects));
    lemma_from_start(whole, p5, GROUP_CARDS@ + group_cards_text(projects));
}

/// The banner counts the changed files and the projects, names the patterns and the command, and holds
/// the rows.
pub proof fn lemma_banner(r: AffectedReportView)
    requires
        r.global_triggers.len() > 0,
    ensures
        contains_text(banner_text(r), BANNER_TITLE@ + decimal(r.global_triggers.len())),
        contains_text(banner_text(r), "</strong> changed file"@ + plural(r.global_triggers.len())),
        contains_text(banner_text(r), " matched "@ + source_prose(is_turbo(r.global_triggers))),
        contains_text(banner_text(r), ", so all <strong>"@ + grouped(decimal(r.projects.len()))),
        contains_text(banner_text(r), BANNER_SAME@ + cli_equivalent(is_turbo(r.global_triggers))),
        contains_text(banner_text(r), BANNER_ROWS@ + rows_text(r.global_triggers)),
        contains_text(banner_text(r), BANNER_DOCS@ + docs_href(is_turbo(r.global_triggers))),
{
    let whole = banner_text(r);
    let p0 = BANNER_HEAD@;
    let p1 = p0 + ICON_INFO@;
    let p2 = p1 + BANNER_TITLE@;
    let p3 = p2 + decimal(r.global_triggers.len());
    let p4 = p3 + "</strong> changed file"@;
    let p5 = p4 + plural(r.global_triggers.len());
    let p6 = p5 + " matched "@;
    let p7 = p6 + source_prose(is_turbo(r.global_triggers));
    let p8 = p7 + BANNER_PATTERN@;
    let p9 = p8 + plural(r.global_triggers.len());
    let p10 = p9 + ", so all <strong>"@;
    let p11 = p10 + grouped(decimal(r.projects.len()));
    let p12 = p11 + BANNER_SAME@;
    let p13 = p12 + cli_equivalent(is_turbo(r.global_triggers));
    let p14 = p13 + BANNER_ROWS@;
    let p15 = p14 + rows_text(r.global_triggers);
    let p16 = p15 + BANNER_DOCS@;
    let p17 = p16 + docs_href(is_turbo(r.global_triggers));
    let p18 = p17 + BANNER_LEARN@;
    let p19 = p18 + source_prose(is_turbo(r.global_triggers));
    let p20 = p19 + " work "@;
    let p21 = p20 + ICON_EXTERNAL@;
    let p22 = p21 + BANNER_END@;
    assert(whole == p22);
    lemma_whole(whole);
    lemma_start(p21, BANNER_END@, whole);
    lemma_start(p20, ICON_EXTERNAL@, whole);
    lemma_start(p19, " work "@, whole);
    lemma_start(p18, source_prose(is_turbo(r.global_triggers)), whole);
    lemma_start(p17, BANNER_LEARN@, whole);
    lemma_start(p16, docs_href(is_turbo(r.global_triggers)), whole);
    lemma_start(p15, BANNER_DOCS@, whole);
    lemma_start(p14, rows_text(r.global_triggers), whole);
    lemma_start(p13, BANNER_ROWS@, whole);
    lemma_start(p12, cli_equivalent(is_turbo(r.global_triggers)), whole);
    lemma_start(p11, BANNER_SAME@, whole);
    lemma_start(p10, grouped(decimal(r.projects.len())), whole);
    lemma_start(p9, ", so all <strong>"@, whole);
    lemma_start(p8, plural(r.global_triggers.len()), whole);
    lemma_start(p7, BANNER_PATTERN@, whole);
    lemma_start(p6, source_prose(is_turbo(r.global_triggers)), whole);
    lemma_start(p5, " matched "@, whole);
    lemma_start(p4, plural(r.global_triggers.len()), whole);
    lemma_start(p3, "</strong> changed file"@, whole);
    lemma_pair(p1, BANNER_TITLE@, decimal(r.global_triggers.len()));
    lemma_from_start(whole, p3, BANNER_TITLE@ + decimal(r.global_triggers.len()));
    lemma_pair(p3, "</strong> changed file"@, plural(r.global_triggers.len()));
    lemma_from_start(whole, p5, "</strong> changed file"@ + plural(r.global_triggers.len()));
    lemma_pair(p5, " matched "@, source_prose(is_turbo(r.global_triggers)));
    lemma_from_start(whole, p7, " matched "@ + source_prose(is_turbo(r.global_triggers)));
    lemma_pair(p9, ", so all <strong>"@, grouped(decimal(r.projects.len())));
    lemma_from_start(whole, p11, ", so all <strong>"@ + grouped(decimal(r.projects.len())));
    lemma_pair(p11, BANNER_SAME@, cli_equivalent(is_turbo(r.global_triggers)));
    lemma_from_start(whole, p13, BANNER_SAME@ + cli_equivalent(is_turbo(r.global_triggers)));
    lemma_pair(p13, BANNER_ROWS@, rows_text(r.global_triggers));
    lemma_from_start(whole, p15, BANNER_ROWS@ + rows_text(r.global_triggers));
    lemma_pair(p15, BANNER_DOCS@, docs_href(is_turbo(r.global_triggers)));
    lemma_from_start(whole, p17, BANNER_DOCS@ + docs_href(is_turbo(r.global_triggers)));
}

/// The page draws the graph, carries the metadata, tells when the run was and how many projects and
/// causes there are, how many are global and how many semantic, and how many files changed; it has the
/// banner and the list of projects.
pub proof fn lemma_page(r: AffectedReportView, now: int)
    ensures
        contains_text(page_text(r, now), PAGE_SCRIPTS@ + graph_text(r.projects)),
        contains_text(page_text(r, now), STYLE_MEDIA@ + metadata_text(r)),
        contains_text(page_text(r, now), PAGE_HERO@ + relative_time(r.run_started_at_unix_secs, now)),
        contains_text(page_text(r, now), PAGE_COUNT@ + grouped(decimal(r.projects.len()))),
        contains_text(page_text(r, now), PAGE_LABEL@ + plural(r.projects.len())),
        contains_text(page_text(r, now), PAGE_CAUSES@ + grouped(decimal(causes_in(r.projects)))),
        contains_text(page_text(r, now), PAGE_GLOBAL@ + grouped(decimal(r.totals.globally_invalidated as nat))),
        contains_text(page_text(r, now), PAGE_SEMANTIC@ + grouped(decimal(r.totals.semantically_affected as nat))),
        contains_text(page_text(r, now), PAGE_CHANGED@ + grouped(decimal(r.totals.changed_files as nat))),
        contains_text(page_text(r, now), PAGE_BANNER@ + banner_text(r)),
        contains_text(page_text(r, now), PAGE_DETAILS@ + details_text(r.projects)),
{
    let whole = page_text(r, now);
    let p0 = PAGE_HEAD@;
    let p1 = p0 + url_encoded(LOGO_SVG@);
    let p2 = p1 + PAGE_SCRIPTS@;
    let p3 = p2 + graph_text(r.projects);
    let p4 = p3 + SCRIPT_GRAPH@;
    let p5 = p4 + SCRIPT_LAYOUT@;
    let p6 = p5 + SCRIPT_FILTER@;
    let p7 = p6 + STYLE_BASE@;
    let p8 = p7 + STYLE_TOPBAR@;
    let p9 = p8 + STYLE_HERO@;
    let p10 = p9 + STYLE_BANNER@;
    let p11 = p10 + STYLE_STATS@;
    let p12 = p11 + STYLE_CARD@;
    let p13 = p12 + STYLE_GRAPH@;
    let p14 = p13 + STYLE_FILTER@;
    let p15 = p14 + STYLE_PROJECT@;
    let p16 = p15 + STYLE_CAUSE@;
    let p17 = p16 + STYLE_GROUP@;
    let p18 = p17 + STYLE_FOOTER@;
    let p19 = p18 + STYLE_MEDIA@;
    let p20 = p19 + metadata_text(r);
    let p21 = p20 + PAGE_TOPBAR@;
    let p22 = p21 + REPO_URL@;
    let p23 = p22 + PAGE_LOGO@;
    let p24 = p23 + LOGO_SVG@;
    let p25 = p24 + PAGE_VERSION@;
    let p26 = p25 + VERSION@;
    let p27 = p26 + PAGE_STAR@;
    let p28 = p27 + REPO_URL@;
    let p29 = p28 + PAGE_STAR_ICON@;
    let p30 = p29 + ICON_GITHUB@;
    let p31 = p30 + PAGE_STAR_TEXT@;
    let p32 = p31 + ICON_EXTERNAL@;
    let p33 = p32 + PAGE_HERO@;
    let p34 = p33 + relative_time(r.run_started_at_unix_secs, now);
    let p35 = p34 + PAGE_HERO_VERSION@;
    let p36 = p35 + VERSION@;
    let p37 = p36 + PAGE_COUNT@;
    let p38 = p37 + grouped(decimal(r.projects.len()));
    let p39 = p38 + PAGE_LABEL@;
    let p40 = p39 + plural(r.projects.len());
    let p41 = p40 + PAGE_CAUSES@;
    let p42 = p41 + grouped(decimal(causes_in(r.projects)));
    let p43 = p42 + PAGE_SPLIT_GLOBAL@;
    let p44 = p43 + split_style(r);
    let p45 = p44 + PAGE_GLOBAL@;
    let p46 = p45 + grouped(decimal(r.totals.globally_invalidated as nat));
    let p47 = p46 + PAGE_SPLIT_SEMANTIC@;
    let p48 = p47 + split_style(r);
    let p49 = p48 + PAGE_SEMANTIC@;
    let p50 = p49 + grouped(decimal(r.totals.semantically_affected as nat));
    let p51 = p50 + PAGE_CHANGED@;
    let p52 = p51 + grouped(decimal(r.totals.changed_files as nat));
    let p53 = p52 + PAGE_BANNER@;
    let p54 = p53 + banner_text(r);
    let p55 = p54 + PAGE_DETAILS@;
    let p56 = p55 + details_text(r.projects);
    let p57 = p56 + PAGE_FOOTER@;
    let p58 = p57 + LOGO_SVG@;
    let p59 = p58 + PAGE_FOOTER_VERSION@;
    let p60 = p59 + VERSION@;
    let p61 = p60 + PAGE_LINKS@;
    let p62 = p61 + REPO_URL@;
    let p63 = p62 + PAGE_LINK_ICON@;
    let p64 = p63 + ICON_GITHUB@;
    let p65 = p64 + PAGE_ISSUES@;
    let p66 = p65 + REPO_URL@;
    let p67 = p66 + PAGE_ISSUES_ICON@;
    let p68 = p67 + ICON_EXTERNAL@;
    let p69 = p68 + PAGE_LICENSE@;
    let p70 = p69 + REPO_URL@;
    let p71 = p70 + PAGE_LICENSE_ICON@;
    let p72 = p71 + ICON_EXTERNAL@;
    let p73 = p72 + PAGE_END@;
    assert(whole == p73);
    lemma_whole(whole);
    lemma_start(p72, PAGE_END@, whole);
    lemma_start(p71, ICON_EXTERNAL@, whole);
    lemma_start(p70, PAGE_LICENSE_ICON@, whole);
    lemma_start(p69, REPO_URL@, whole);
    lemma_start(p68, PAGE_LICENSE@, whole);
    lemma_start(p67, ICON_EXTERNAL@, whole);
    lemma_start(p66, PAGE_ISSUES_ICON@, whole);
    lemma_start(p65, REPO_URL@, whole);
    lemma_start(p64, PAGE_ISSUES@, whole);
    lemma_start(p63, ICON_GITHUB@, whole);
    lemma_start(p62, PAGE_LINK_ICON@, whole);
    lemma_start(p61, REPO_URL@, whole);
    lemma_start(p60, PAGE_LINKS@, whole);
    lemma_start(p59, VERSION@, whole);
    lemma_start(p58, PAGE_FOOTER_VERSION@, whole);
    lemma_start(p57, LOGO_SVG@, whole);
    lemma_start(p56, PAGE_FOOTER@, whole);
    lemma_start(p55, details_text(r.projects), whole);
    lemma_start(p54, PAGE_DETAILS@, whole);
    lemma_start(p53, banner_text(r), whole);
    lemma_start(p52, PAGE_BANNER@, whole);
    lemma_start(p51, grouped(decimal(r.totals.changed_files as nat)), whole);
    lemma_start(p50, PAGE_CHANGED@, whole);
    lemma_start(p49, grouped(decimal(r.totals.semantically_affected as nat)), whole);
    lemma_start(p48, PAGE_SEMANTIC@, whole);
    lemma_start(p47, split_style(r), whole);
    lemma_start(p46, PAGE_SPLIT_SEMANTIC@, whole);
    lemma_start(p45, grouped(decimal(r.totals.globally_invalidated as nat)), whole);
    lemma_start(p44, PAGE_GLOBAL@, whole);
    lemma_start(p43, split_style(r), whole);
    lemma_start(p42, PAGE_SPLIT_GLOBAL@, whole);
    lemma_start(p41, grouped(decimal(causes_in(r.projects))), whole);
    lemma_start(p40, PAGE_CAUSES@, whole);
    lemma_start(p39, plural(r.projects.len()), whole);
    lemma_start(p38, PAGE_LABEL@, whole);
    lemma_start(p37, grouped(decimal(r.projects.len())), whole);
    lemma_start(p36, PAGE_COUNT@, whole);
    lemma_start(p35, VERSION@, whole);
    lemma_start(p34, PAGE_HERO_VERSION@, whole);
    lemma_start(p33, relative_time(r.run_started_at_unix_secs, now), whole);
    lemma_start(p32, PAGE_HERO@, whole);
    lemma_start(p31, ICON_EXTERNAL@, whole);
    lemma_start(p30, PAGE_STAR_TEXT@, whole);
    lemma_start(p29, ICON_GITHUB@, whole);
    lemma_start(p28, PAGE_STAR_ICON@, whole);
    lemma_start(p27, REPO_URL@, whole);
    lemma_start(p26, PAGE_STAR@, whole);
    lemma_start(p25, VERSION@, whole);
    lemma_start(p24, PAGE_VERSION@, whole);
    lemma_start(p23, LOGO_SVG@, whole);
    lemma_start(p22, PAGE_LOGO@, whole);
    lemma_start(p21, REPO_URL@, whole);
    lemma_start(p20, PAGE_TOPBAR@, whole);
    lemma_start(p19, metadata_text(r), whole);
    lemma_start(p18, STYLE_MEDIA@, whole);
    lemma_start(p17, STYLE_FOOTER@, whole);
    lemma_start(p16, STYLE_GROUP@, whole);
    lemma_start(p15, STYLE_CAUSE@, whole);
    lemma_start(p14, STYLE_PROJECT@, whole);
    lemma_start(p13, STYLE_FILTER@, whole);
    lemma_start(p12, STYLE_GRAPH@, whole);
    lemma_start(p11, STYLE_CARD@, whole);
    lemma_start(p10, STYLE_STATS@, whole);
    lemma_start(p9, STYLE_BANNER@, whole);
    lemma_start(p8, STYLE_HERO@, whole);
    lemma_start(p7, STYLE_TOPBAR@, whole);
    lemma_start(p6, STYLE_BASE@, whole);
    lemma_start(p5, SCRIPT_FILTER@, whole);
    lemma_start(p4, SCRIPT_LAYOUT@, whole);
    lemma_start(p3, SCRIPT_GRAPH@, whole);
    lemma_pair(p1, PAGE_SCRIPTS@, graph_text(r.projects));
    lemma_from_start(whole, p3, PAGE_SCRIPTS@ + graph_text(r.projects));
    lemma_pair(p18, STYLE_MEDIA@, metadata_text(r));
    lemma_from_start(whole, p20, STYLE_MEDIA@ + metadata_text(r));
    lemma_pair(p32, PAGE_HERO@, relative_time(r.run_started_at_unix_secs, now));
    lemma_from_start(whole, p34, PAGE_HERO@ + relative_time(r.run_started_at_unix_secs, now));
    lemma_pair(p36, PAGE_COUNT@, grouped(decimal(r.projects.len())));
    lemma_from_start(whole, p38, PAGE_COUNT@ + grouped(decimal(r.projects.len())));
    lemma_pair(p38, PAGE_LABEL@, plural(r.projects.len()));
    lemma_from_start(whole, p40, PAGE_LABEL@ + plural(r.projects.len()));
    lemma_pair(p40, PAGE_CAUSES@, grouped(decimal(causes_in(r.projects))));
    lemma_from_start(whole, p42, PAGE_CAUSES@ + grouped(decimal(causes_in(r.projects))));
    lemma_pair(p44, PAGE_GLOBAL@, grouped(decimal(r.totals.globally_invalidated as nat)));
    lemma_from_start(whole, p46, PAGE_GLOBAL@ + grouped(decimal(r.totals.globally_invalidated as nat)));
    lemma_pair(p48, PAGE_SEMANTIC@, grouped(decimal(r.totals.semantically_affected as nat)));
    lemma_from_start(whole, p50, PAGE_SEMANTIC@ + grouped(decimal(r.totals.semantically_affected as nat)));
    lemma_pair(p50, PAGE_CHANGED@, grouped(decimal(r.totals.changed_files as nat)));
    lemma_from_start(whole, p52, PAGE_CHANGED@ + grouped(decimal(r.totals.changed_files as nat)));
    lemma_pair(p52, PAGE_BANNER@, banner_text(r));
    lemma_from_start(whole, p54, PAGE_BANNER@ + banner_text(r));
    lemma_pair(p54, PAGE_DETAILS@, details_text(r.projects));
    lemma_from_start(whole, p56, PAGE_DETAILS@ + details_text(r.projects));
}

// ---------------------------------------------------------------------------
// Lists
// ---------------------------------------------------------------------------

/// The cards of the group tell every project, with each of its global causes.
pub proof fn lemma_group_cards(projects: Seq<AffectedProjectView>, i: int, k: int)
    requires
        0 <= i < projects.len(),
    ensures
        contains_text(group_cards_text(projects), group_card_head(projects[i])),
        0 <= k < projects[i].causes.len() && projects[i].causes[k] is GlobalInvalidation
            ==> contains_text(group_cards_text(projects), global_item(projects[i].causes[k])),
    decreases projects.len(),
{
    let none = Seq::<char>::empty();
    let init = projects.drop_last();
    let n = projects.len() - 1;
    let before = group_cards_text(init);
    let p = projects.last();
    let head = group_card_head(p);
    let items = global_causes_text(p.causes);
    let close = "</ul></div></details></div>"@;
    if i < n {
        assert(init[i] == projects[i]);
        lemma_group_cards(init, i, k);
        let rest = head + items + close;
        assert(group_cards_text(projects) =~= before + rest);
        lemma_contains_on(none, before, rest, group_card_head(projects[i]));
        if 0 <= k < projects[i].causes.len() && projects[i].causes[k] is GlobalInvalidation {
            lemma_contains_on(none, before, rest, global_item(projects[i].causes[k]));
        }
    } else {
        lemma_contains(before, head, items + close);
        assert(group_cards_text(projects) =~= before + head + (items + close));
        if 0 <= k < p.causes.len() && p.causes[k] is GlobalInvalidation {
            lemma_global_items(p.causes, k);
            lemma_contains_on(before + head, items, close, global_item(p.causes[k]));
        }
    }
}

/// The item for a global cause: its file and its input, made safe.
pub open spec fn global_item(c: AffectCauseView) -> Text {
    ITEM_FILE@ + (html_escaped(c->GlobalInvalidation_file)
        + "</span> &nbsp;&larr;&nbsp; matched <code>"@ + html_escaped(
        c->GlobalInvalidation_named_input,
    ) + ITEM_END@)
}

proof fn lemma_global_items(causes: Seq<AffectCauseView>, k: int)
    requires
        0 <= k < causes.len(),
        causes[k] is GlobalInvalidation,
    ensures
        contains_text(global_causes_text(causes), global_item(causes[k])),
    decreases causes.len(),
{
    let none = Seq::<char>::empty();
    let init = causes.drop_last();
    let n = causes.len() - 1;
    let before = global_causes_text(init);
    if k < n {
        assert(init[k] == causes[k]);
        lemma_global_items(init, k);
    }
    if causes.last() is GlobalInvalidation {
        let item = global_item(causes.last());
        assert(global_causes_text(causes) =~= before + item);
        if k < n {
            lemma_contains_on(none, before, item, global_item(causes[k]));
        } else {
            lemma_contains(before, item, none);
        }
    }
}

/// The words of the banner: those of Turborepo where the first trigger is of it, and else those of Nx.
pub proof fn lemma_banner_words(triggers: Seq<GlobalTriggerView>)
    ensures
        is_turbo(triggers) <==> triggers.len() > 0 && triggers[0].named_input
            == crate::named_inputs::TURBO_GLOBAL_DEPENDENCIES@,
        source_prose(true) == "Turborepo <code>globalDependencies</code>"@,
        source_prose(false) == "Nx <code>namedInputs</code>"@,
        cli_equivalent(true) == "turbo run"@,
        cli_equivalent(false) == "nx affected"@,
{
}

/// The cards that tell global from semantic are hidden where nothing is global.
pub proof fn lemma_split(r: AffectedReportView)
    ensures
        r.global_triggers.len() == 0 ==> split_style(r) == "display: none;"@,
        r.global_triggers.len() > 0 ==> split_style(r).len() == 0,
{
    reveal_strlit("");
}

} // verus!
