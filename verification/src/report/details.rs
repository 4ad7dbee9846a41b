//! The list of affected projects with the reasons.

use crate::collections::StringSet;
use crate::report::escape;
use crate::report::escape::html_escaped;
use crate::report::template::ICON_PACKAGE;
use crate::text;
use crate::text::{decimal, grouped, Text};
use crate::types::{
    AffectCause, AffectCauseView, AffectedProjectInfo, AffectedProjectView, AffectedReport,
};
use vstd::prelude::*;

verus! {

/// A card from its kind to its icon.
pub const CARD_NAME: &'static str = r#"">
                <details>
                    <summary>
                        <div class="project-name">"#;

/// A card from its name to its badge.
pub const CARD_BADGE: &'static str = r#"</span></div>
                        <div class="badge-container">
                            "#;

/// A card from its badge to the number of causes.
pub const CARD_COUNT: &'static str = r#"
                            <span class="affect-badge">"#;

/// A card from the number of causes to their list.
pub const CARD_CAUSES: &'static str = r#"</span>
                        </div>
                    </summary>
                    <div class="cause-list-container">
                        <ul class="cause-list">
"#;

/// The group, up to its size.
pub const GROUP_COUNT: &'static str = r#"<details class="global-only-group">
                <summary><strong>"#;

/// The group from its label to its cards.
pub const GROUP_CARDS: &'static str = r#"</summary>
                <div class="global-only-inner">"#;

/// A card of the group, up to its icon.
pub const GROUP_CARD_NAME: &'static str = r#"<div class="project-card" data-filter-type="affected">
                    <details>
                        <summary>
                            <div class="project-name">"#;

/// A card of the group from its name to the number of causes.
pub const GROUP_CARD_COUNT: &'static str = r#"</span></div>
                            <div class="badge-container">
                                <span class="affect-badge">Global only</span>
                                <span class="affect-badge">"#;

/// A card of the group from the number of causes to their list.
pub const GROUP_CARD_CAUSES: &'static str = r#"</span>
                            </div>
                        </summary>
                        <div class="cause-list-container">
                            <ul class="cause-list">"#;

/// An item of the group, up to the file.
pub const ITEM_FILE: &'static str = r#"<li class="cause-item">
                                <span class="cause-type global">Global Invalidation</span>
                                <div class="cause-details">
                                    Triggered by: <span class="code-path">"#;

/// An item of the group after the input.
pub const ITEM_END: &'static str = r#"</code>
                                </div>
                            </li>"#;

/// The ending of a noun that is counted.
pub open spec fn plural(n: nat) -> Text {
    if n == 1 {
        ""@
    } else {
        "s"@
    }
}

/// Some causes are all global, and there is one.
pub open spec fn is_global_only(causes: Seq<AffectCauseView>) -> bool {
    causes.len() > 0 && forall|i: int|
        0 <= i < causes.len() ==> (#[trigger] causes[i]) is GlobalInvalidation
}

/// The projects with other causes than global ones, or none.
pub open spec fn semantic_in(projects: Seq<AffectedProjectView>) -> Seq<AffectedProjectView>
    decreases projects.len(),
{
    if projects.len() == 0 {
        Seq::empty()
    } else if is_global_only(projects.last().causes) {
        semantic_in(projects.drop_last())
    } else {
        semantic_in(projects.drop_last()).push(projects.last())
    }
}

/// The projects with global causes alone.
pub open spec fn global_only_in(projects: Seq<AffectedProjectView>) -> Seq<AffectedProjectView>
    decreases projects.len(),
{
    if projects.len() == 0 {
        Seq::empty()
    } else if is_global_only(projects.last().causes) {
        global_only_in(projects.drop_last()).push(projects.last())
    } else {
        global_only_in(projects.drop_last())
    }
}

/// The cause is a change to a file of the project, or to what a file of it uses.
pub open spec fn is_change(c: AffectCauseView) -> bool {
    c is DirectChange || c is AssetChange || c is LockfileChange
}

/// A cause among some is a change.
pub open spec fn has_change(causes: Seq<AffectCauseView>) -> bool {
    exists|i: int| 0 <= i < causes.len() && is_change(#[trigger] causes[i])
}

/// A cause among some is an import.
pub open spec fn has_import(causes: Seq<AffectCauseView>) -> bool {
    exists|i: int| 0 <= i < causes.len() && (#[trigger] causes[i]) is ImportedSymbol
}

/// The badge of a project.
pub open spec fn badge_text(causes: Seq<AffectCauseView>) -> Text {
    if has_change(causes) && has_import(causes) {
        "<span class=\"affect-badge badge-both\">Direct + Affected</span>"@
    } else if has_change(causes) {
        "<span class=\"affect-badge badge-direct\">Direct</span>"@
    } else {
        "<span class=\"affect-badge badge-affected\">Affected</span>"@
    }
}

/// The kind by which a project is filtered.
pub open spec fn filter_text(causes: Seq<AffectCauseView>) -> Text {
    if has_change(causes) && has_import(causes) {
        "both"@
    } else if has_change(causes) {
        "direct"@
    } else {
        "affected"@
    }
}

/// The beginning of a project's card.
pub open spec fn card_head(p: AffectedProjectView) -> Text {
    "<div class=\"project-card\" data-filter-type=\""@ + filter_text(p.causes) + CARD_NAME@
        + ICON_PACKAGE@ + "<span>"@ + html_escaped(p.name) + CARD_BADGE@ + badge_text(p.causes)
        + CARD_COUNT@ + decimal(p.causes.len()) + " cause"@ + plural(p.causes.len()) + CARD_CAUSES@
}

/// Where in its file a change is.
pub open spec fn location_text(symbol: Option<Text>, line: nat) -> Text {
    if line == 0 {
        if symbol is Some {
            " (deleted)"@
        } else {
            ""@
        }
    } else {
        " (line "@ + decimal(line) + ")"@
    }
}

/// The symbol of a change, where it is known.
pub open spec fn symbol_text(symbol: Option<Text>) -> Text {
    match symbol {
        Some(s) => "<br/>Symbol: <span class=\"symbol\">"@ + s + "</span>"@,
        None => ""@,
    }
}

/// What a cause is, in words.
pub open spec fn cause_text(c: AffectCauseView) -> Text {
    match c {
        AffectCauseView::DirectChange { file, symbol, line } => {
            "<span class=\"cause-type direct\">Direct Change</span>"@
                + "<div class=\"cause-details\">"@ + "File: <span class=\"code-path\">"@ + file
                + "</span>"@ + location_text(symbol, line) + symbol_text(symbol) + "</div>"@
        },
        AffectCauseView::ImportedSymbol { source_project, symbol, via_file, source_file } => {
            "<span class=\"cause-type imported\">Imported Symbol</span>"@
                + "<div class=\"cause-details\">"@ + "Symbol: <span class=\"symbol\">"@ + symbol
                + "</span><br/>"@ + "From project: <strong>"@ + source_project + "</strong><br/>"@
                + "Source: <span class=\"code-path\">"@ + source_file + "</span><br/>"@
                + "Imported in: <span class=\"code-path\">"@ + via_file + "</span>"@ + "</div>"@
        },
        AffectCauseView::ReExported { through_file, symbol, source_file } => {
            "<span class=\"cause-type reexported\">Re-exported</span>"@
                + "<div class=\"cause-details\">"@ + "Symbol: <span class=\"symbol\">"@ + symbol
                + "</span><br/>"@ + "Source: <span class=\"code-path\">"@ + source_file
                + "</span><br/>"@ + "Re-exported via: <span class=\"code-path\">"@ + through_file
                + "</span>"@ + "</div>"@
        },
        AffectCauseView::ImplicitDependency { depends_on } => {
            "<span class=\"cause-type implicit\">Implicit Dependency</span>"@
                + "<div class=\"cause-details\">"@ + "Depends on: <strong>"@ + depends_on
                + "</strong>"@ + "</div>"@
        },
        AffectCauseView::AssetChange { asset_file, referenced_in, line } => {
            "<span class=\"cause-type asset\">Asset Change</span>"@
                + "<div class=\"cause-details\">"@ + "Asset: <span class=\"code-path\">"@
                + asset_file + "</span><br/>"@ + "Referenced in: <span class=\"code-path\">"@
                + referenced_in + "</span> (line "@ + decimal(line) + ")"@ + "</div>"@
        },
        AffectCauseView::LockfileChange { dependency, importing_file } => {
            "<span class=\"cause-type lockfile\">Lockfile Change</span>"@
                + "<div class=\"cause-details\">"@ + "Dependency: <span class=\"symbol\">"@
                + dependency + "</span><br/>"@ + "Imported in: <span class=\"code-path\">"@
                + importing_file + "</span>"@ + "</div>"@
        },
        AffectCauseView::GlobalInvalidation { file, named_input } => {
            "<span class=\"cause-type global\">Global Invalidation</span>"@
                + "<div class=\"cause-details\">"@ + "Triggered by: <span class=\"code-path\">"@
                + html_escaped(file) + "</span> &nbsp;&larr;&nbsp; matched <code>"@ + html_escaped(
                named_input,
            ) + "</code>"@ + "</div>"@
        },
    }
}

/// The items of a list of causes.
pub open spec fn causes_text(causes: Seq<AffectCauseView>) -> Text
    decreases causes.len(),
{
    if causes.len() == 0 {
        Seq::empty()
    } else {
        causes_text(causes.drop_last()) + "<li class=\"cause-item\">"@ + cause_text(causes.last())
            + "</li>"@
    }
}

/// The cards of some projects.
pub open spec fn cards_text(projects: Seq<AffectedProjectView>) -> Text
    decreases projects.len(),
{
    if projects.len() == 0 {
        Seq::empty()
    } else {
        cards_text(projects.drop_last()) + card_head(projects.last()) + causes_text(
            projects.last().causes,
        ) + "</ul></div></details></div>"@
    }
}

/// The inputs that global causes name, each once, in order.
pub open spec fn inputs_named(causes: Seq<AffectCauseView>, known: Seq<Text>) -> Seq<Text>
    decreases causes.len(),
{
    if causes.len() == 0 {
        known
    } else {
        let before = inputs_named(causes.drop_last(), known);
        match causes.last() {
            AffectCauseView::GlobalInvalidation { named_input, .. } => if before.contains(
                named_input,
            ) {
                before
            } else {
                before.push(named_input)
            },
            _ => before,
        }
    }
}

/// The inputs that the global causes of some projects name, each once, in order.
pub open spec fn inputs_in(projects: Seq<AffectedProjectView>) -> Seq<Text>
    decreases projects.len(),
{
    if projects.len() == 0 {
        Seq::empty()
    } else {
        inputs_named(projects.last().causes, inputs_in(projects.drop_last()))
    }
}

/// Through what the projects of the group were invalidated.
pub open spec fn group_label(projects: Seq<AffectedProjectView>) -> Text {
    let inputs = inputs_in(projects);
    if inputs.len() == 1 {
        " via <code>"@ + html_escaped(inputs[0]) + "</code>"@
    } else {
        " via Nx <code>namedInputs</code>"@
    }
}

/// The items for the global ones among some causes.
pub open spec fn global_causes_text(causes: Seq<AffectCauseView>) -> Text
    decreases causes.len(),
{
    if causes.len() == 0 {
        Seq::empty()
    } else {
        let before = global_causes_text(causes.drop_last());
        match causes.last() {
            AffectCauseView::GlobalInvalidation { file, named_input } => before + ITEM_FILE@
                + html_escaped(file) + "</span> &nbsp;&larr;&nbsp; matched <code>"@ + html_escaped(
                named_input,
            ) + ITEM_END@,
            _ => before,
        }
    }
}

/// The beginning of a card in the group.
pub open spec fn group_card_head(p: AffectedProjectView) -> Text {
    GROUP_CARD_NAME@ + ICON_PACKAGE@ + "<span>"@ + html_escaped(p.name) + GROUP_CARD_COUNT@
        + decimal(p.causes.len()) + " cause"@ + plural(p.causes.len()) + GROUP_CARD_CAUSES@
}

/// The cards of the group.
pub open spec fn group_cards_text(projects: Seq<AffectedProjectView>) -> Text
    decreases projects.len(),
{
    if projects.len() == 0 {
        Seq::empty()
    } else {
        group_cards_text(projects.drop_last()) + group_card_head(projects.last())
            + global_causes_text(projects.last().causes) + "</ul></div></details></div>"@
    }
}

/// The group of the projects with global causes alone.
pub open spec fn group_text(projects: Seq<AffectedProjectView>) -> Text {
    GROUP_COUNT@ + grouped(decimal(projects.len())) + "</strong> projects globally invalidated"@
        + group_label(projects) + GROUP_CARDS@ + group_cards_text(projects) + "</div></details>"@
}

/// The list: first the projects with other causes than global ones, then the others as a group.
pub open spec fn details_text(projects: Seq<AffectedProjectView>) -> Text {
    if global_only_in(projects).len() == 0 {
        cards_text(semantic_in(projects))
    } else {
        cards_text(semantic_in(projects)) + group_text(global_only_in(projects))
    }
}

// ---------------------------------------------------------------------------
// Executable
// ---------------------------------------------------------------------------

/// The ending of a noun that is counted.
pub fn plural_of(n: usize) -> (r: &'static str)
    ensures
        r@ == plural(n as nat),
{
    if n == 1 {
        ""
    } else {
        "s"
    }
}

/// Whether the only causes of the project are global ones.
pub fn is_globally_invalidated_only(project: &AffectedProjectInfo) -> (r: bool)
    ensures
        r == is_global_only(project.deep_view().causes),
{
    let causes = &project.causes;
    let ghost all = causes.deep_view();
    let mut i: usize = 0;
    while i < causes.len()
        invariant
            i <= causes.len(),
            all == causes.deep_view(),
            all == project.deep_view().causes,
            forall|j: int| 0 <= j < i ==> (#[trigger] all[j]) is GlobalInvalidation,
        decreases causes.len() - i,
    {
        assert(all[i as int] == causes@[i as int].deep_view());
        match &causes[i] {
            AffectCause::GlobalInvalidation { .. } => {},
            _ => {
                assert(!(all[i as int] is GlobalInvalidation));
                return false;
            },
        }
        i += 1;
    }
    causes.len() > 0
}

/// Whether a cause is a change, and whether one is an import.
fn kinds_of(causes: &Vec<AffectCause>) -> (r: (bool, bool))
    ensures
        r.0 == has_change(causes.deep_view()),
        r.1 == has_import(causes.deep_view()),
{
    let ghost all = causes.deep_view();
    let mut change = false;
    let mut import = false;
    let mut i: usize = 0;
    while i < causes.len()
        invariant
            i <= causes.len(),
            all == causes.deep_view(),
            change == exists|j: int| 0 <= j < i && is_change(#[trigger] all[j]),
            import == exists|j: int| 0 <= j < i && (#[trigger] all[j]) is ImportedSymbol,
        decreases causes.len() - i,
    {
        let ghost c = all[i as int];
        assert(c == causes@[i as int].deep_view());
        match &causes[i] {
            AffectCause::DirectChange { .. } => {
                assert(is_change(c));
                change = true;
            },
            AffectCause::AssetChange { .. } => {
                assert(is_change(c));
                change = true;
            },
            AffectCause::LockfileChange { .. } => {
                assert(is_change(c));
                change = true;
            },
            AffectCause::ImportedSymbol { .. } => {
                assert(c is ImportedSymbol);
                import = true;
            },
            _ => {},
        }
        i += 1;
    }
    (change, import)
}

/// Appends the beginning of a project's card.
fn push_card_head(out: &mut String, project: &AffectedProjectInfo)
    ensures
        final(out)@ == old(out)@ + card_head(project.deep_view()),
{
    let (change, import) = kinds_of(&project.causes);
    let (badge, filter) = if change && import {
        ("<span class=\"affect-badge badge-both\">Direct + Affected</span>", "both")
    } else if change {
        ("<span class=\"affect-badge badge-direct\">Direct</span>", "direct")
    } else {
        ("<span class=\"affect-badge badge-affected\">Affected</span>", "affected")
    };
    let n: usize = project.causes.len();
    assert(n == project.deep_view().causes.len());
    let mut card = "<div class=\"project-card\" data-filter-type=\"".to_owned();
    card.append(filter);
    card.append(CARD_NAME);
    card.append(ICON_PACKAGE);
    card.append("<span>");
    card.append(escape::html_escape(project.name.as_str()).as_str());
    card.append(CARD_BADGE);
    card.append(badge);
    card.append(CARD_COUNT);
    card.append(text::decimal_of(n as u64).as_str());
    card.append(" cause");
    card.append(plural_of(n));
    card.append(CARD_CAUSES);
    out.append(card.as_str());
}

/// Where in its file a change is.
fn write_location(symbol: &Option<String>, line: usize) -> (r: String)
    ensures
        r@ == location_text(symbol.deep_view(), line as nat),
{
    if line == 0 {
        if symbol.is_some() {
            " (deleted)".to_owned()
        } else {
            "".to_owned()
        }
    } else {
        text::cat3(" (line ", text::decimal_of(line as u64).as_str(), ")")
    }
}

/// What a cause is, in words.
fn write_cause(c: &AffectCause) -> (r: String)
    ensures
        r@ == cause_text(c.deep_view()),
{
    match c {
        AffectCause::DirectChange { file, symbol, line } => {
            let mut out = "<span class=\"cause-type direct\">Direct Change</span>".to_owned();
            out.append("<div class=\"cause-details\">");
            out.append("File: <span class=\"code-path\">");
            out.append(file.as_str());
            out.append("</span>");
            out.append(write_location(symbol, *line).as_str());
            match symbol {
                Some(s) => {
                    out.append(
                        text::cat3(
                            "<br/>Symbol: <span class=\"symbol\">",
                            s.as_str(),
                            "</span>",
                        ).as_str(),
                    );
                },
                None => {
                    out.append("");
                },
            }
            out.append("</div>");
            out
        },
        AffectCause::ImportedSymbol { source_project, symbol, via_file, source_file } => {
            let mut out = "<span class=\"cause-type imported\">Imported Symbol</span>".to_owned();
            out.append("<div class=\"cause-details\">");
            out.append("Symbol: <span class=\"symbol\">");
            out.append(symbol.as_str());
            out.append("</span><br/>");
            out.append("From project: <strong>");
            out.append(source_project.as_str());
            out.append("</strong><br/>");
            out.append("Source: <span class=\"code-path\">");
            out.append(source_file.as_str());
            out.append("</span><br/>");
            out.append("Imported in: <span class=\"code-path\">");
            out.append(via_file.as_str());
            out.append("</span>");
            out.append("</div>");
            out
        },
        AffectCause::ReExported { through_file, symbol, source_file } => {
            let mut out = "<span class=\"cause-type reexported\">Re-exported</span>".to_owned();
            out.append("<div class=\"cause-details\">");
            out.append("Symbol: <span class=\"symbol\">");
            out.append(symbol.as_str());
            out.append("</span><br/>");
            out.append("Source: <span class=\"code-path\">");
            out.append(source_file.as_str());
            out.append("</span><br/>");
            out.append("Re-exported via: <span class=\"code-path\">");
            out.append(through_file.as_str());
            out.append("</span>");
            out.append("</div>");
            out
        },
        AffectCause::ImplicitDependency { depends_on } => {
            let mut out =
                "<span class=\"cause-type implicit\">Implicit Dependency</span>".to_owned();
            out.append("<div class=\"cause-details\">");
            out.append("Depends on: <strong>");
            out.append(depends_on.as_str());
            out.append("</strong>");
            out.append("</div>");
            out
        },
        AffectCause::AssetChange { asset_file, referenced_in, line } => {
            let mut out = "<span class=\"cause-type asset\">Asset Change</span>".to_owned();
            out.append("<div class=\"cause-details\">");
            out.append("Asset: <span class=\"code-path\">");
            out.append(asset_file.as_str());
            out.append("</span><br/>");
            out.append("Referenced in: <span class=\"code-path\">");
            out.append(referenced_in.as_str());
            out.append("</span> (line ");
            out.append(text::decimal_of(*line as u64).as_str());
            out.append(")");
            out.append("</div>");
            out
        },
        AffectCause::LockfileChange { dependency, importing_file } => {
            let mut out = "<span class=\"cause-type lockfile\">Lockfile Change</span>".to_owned();
            out.append("<div class=\"cause-details\">");
            out.append("Dependency: <span class=\"symbol\">");
            out.append(dependency.as_str());
            out.append("</span><br/>");
            out.append("Imported in: <span class=\"code-path\">");
            out.append(importing_file.as_str());
            out.append("</span>");
            out.append("</div>");
            out
        },
        AffectCause::GlobalInvalidation { file, named_input } => {
            let mut out = "<span class=\"cause-type global\">Global Invalidation</span>".to_owned();
            out.append("<div class=\"cause-details\">");
            out.append("Triggered by: <span class=\"code-path\">");
            out.append(escape::html_escape(file.as_str()).as_str());
            out.append("</span> &nbsp;&larr;&nbsp; matched <code>");
            out.append(escape::html_escape(named_input.as_str()).as_str());
            out.append("</code>");
            out.append("</div>");
            out
        },
    }
}

/// The items of a list of causes.
fn write_causes(causes: &Vec<AffectCause>) -> (r: String)
    ensures
        r@ == causes_text(causes.deep_view()),
{
    let ghost all = causes.deep_view();
    let mut out: String = String::new();
    let mut i: usize = 0;
    assert(all.take(0) =~= Seq::<AffectCauseView>::empty());
    while i < causes.len()
        invariant
            i <= causes.len(),
            all == causes.deep_view(),
            out@ == causes_text(all.take(i as int)),
        decreases causes.len() - i,
    {
        assert(all.take(i + 1).drop_last() =~= all.take(i as int));
        assert(all.take(i + 1).last() == causes@[i as int].deep_view());
        out.append("<li class=\"cause-item\">");
        out.append(write_cause(&causes[i]).as_str());
        out.append("</li>");
        i += 1;
    }
    assert(all.take(i as int) =~= all);
    out
}

/// The cards of the projects with other causes than global ones, or none.
fn write_cards(projects: &Vec<AffectedProjectInfo>) -> (r: String)
    ensures
        r@ == cards_text(semantic_in(projects.deep_view())),
{
    let ghost all = projects.deep_view();
    let mut out: String = String::new();
    let mut i: usize = 0;
    assert(all.take(0) =~= Seq::<AffectedProjectView>::empty());
    while i < projects.len()
        invariant
            i <= projects.len(),
            all == projects.deep_view(),
            out@ == cards_text(semantic_in(all.take(i as int))),
        decreases projects.len() - i,
    {
        assert(all.take(i + 1).drop_last() =~= all.take(i as int));
        assert(all.take(i + 1).last() == projects@[i as int].deep_view());
        let project = &projects[i];
        if !is_globally_invalidated_only(project) {
            let ghost before = semantic_in(all.take(i as int));
            push_card_head(&mut out, project);
            out.append(write_causes(&project.causes).as_str());
            out.append("</ul></div></details></div>");
            assert(before.push(all[i as int]).drop_last() =~= before);
        }
        i += 1;
    }
    assert(all.take(i as int) =~= all);
    out
}

/// Adds the inputs that global causes name.
fn add_inputs(known: StringSet, causes: &Vec<AffectCause>) -> (r: StringSet)
    ensures
        r.order() == inputs_named(causes.deep_view(), known.order()),
{
    let ghost start = known.order();
    let ghost all = causes.deep_view();
    let mut out = known;
    let mut i: usize = 0;
    assert(all.take(0) =~= Seq::<AffectCauseView>::empty());
    while i < causes.len()
        invariant
            i <= causes.len(),
            all == causes.deep_view(),
            out.order() == inputs_named(all.take(i as int), start),
        decreases causes.len() - i,
    {
        assert(all.take(i + 1).drop_last() =~= all.take(i as int));
        assert(all.take(i + 1).last() == causes@[i as int].deep_view());
        if let AffectCause::GlobalInvalidation { named_input, .. } = &causes[i] {
            out.check_order();
            assert(out@.contains(named_input@) <==> out.order().contains(named_input@));
            out.insert(named_input.clone());
        }
        i += 1;
    }
    assert(all.take(i as int) =~= all);
    out
}

/// The projects with global causes alone.
fn select_global_only<'a>(projects: &'a Vec<AffectedProjectInfo>) -> (r: Vec<
    &'a AffectedProjectInfo,
>)
    ensures
        r.deep_view() == global_only_in(projects.deep_view()),
{
    let ghost all = projects.deep_view();
    let mut out: Vec<&'a AffectedProjectInfo> = Vec::new();
    let mut i: usize = 0;
    assert(all.take(0) =~= Seq::<AffectedProjectView>::empty());
    assert(out.deep_view() =~= Seq::<AffectedProjectView>::empty());
    while i < projects.len()
        invariant
            i <= projects.len(),
            all == projects.deep_view(),
            out.deep_view() == global_only_in(all.take(i as int)),
        decreases projects.len() - i,
    {
        let ghost before = out.deep_view();
        assert(all.take(i + 1).drop_last() =~= all.take(i as int));
        assert(all.take(i + 1).last() == projects@[i as int].deep_view());
        if is_globally_invalidated_only(&projects[i]) {
            out.push(&projects[i]);
            assert(out.deep_view() =~= before.push(all[i as int]));
        }
        i += 1;
    }
    assert(all.take(i as int) =~= all);
    out
}

/// The inputs that the global causes of some projects name, each once, in order.
fn collect_inputs(projects: &Vec<&AffectedProjectInfo>) -> (r: StringSet)
    ensures
        r.order() == inputs_in(projects.deep_view()),
{
    let ghost all = projects.deep_view();
    let mut out = StringSet::new();
    let mut i: usize = 0;
    assert(all.take(0) =~= Seq::<AffectedProjectView>::empty());
    while i < projects.len()
        invariant
            i <= projects.len(),
            all == projects.deep_view(),
            out.order() == inputs_in(all.take(i as int)),
        decreases projects.len() - i,
    {
        assert(all.take(i + 1).drop_last() =~= all.take(i as int));
        assert(all.take(i + 1).last() == projects@[i as int].deep_view());
        out = add_inputs(out, &projects[i].causes);
        i += 1;
    }
    assert(all.take(i as int) =~= all);
    out
}

/// Through what the projects of the group were invalidated: the one input that their global causes
/// name, or else none by name.
pub fn global_only_group_label(global_only: &Vec<&AffectedProjectInfo>) -> (r: String)
    ensures
        r@ == group_label(global_only.deep_view()),
{
    let inputs = collect_inputs(global_only);
    if inputs.len() == 1 {
        text::cat3(" via <code>", escape::html_escape(inputs.at(0)).as_str(), "</code>")
    } else {
        " via Nx <code>namedInputs</code>".to_owned()
    }
}

/// The number of projects with global causes alone.
fn count_global_only(projects: &Vec<AffectedProjectInfo>) -> (r: usize)
    ensures
        r == global_only_in(projects.deep_view()).len(),
{
    let ghost all = projects.deep_view();
    let mut n: usize = 0;
    let mut i: usize = 0;
    assert(all.take(0) =~= Seq::<AffectedProjectView>::empty());
    while i < projects.len()
        invariant
            i <= projects.len(),
            n <= i,
            all == projects.deep_view(),
            n == global_only_in(all.take(i as int)).len(),
        decreases projects.len() - i,
    {
        assert(all.take(i + 1).drop_last() =~= all.take(i as int));
        assert(all.take(i + 1).last() == projects@[i as int].deep_view());
        if is_globally_invalidated_only(&projects[i]) {
            n += 1;
        }
        i += 1;
    }
    assert(all.take(i as int) =~= all);
    n
}

/// The items for the global ones among some causes.
fn write_global_causes(causes: &Vec<AffectCause>) -> (r: String)
    ensures
        r@ == global_causes_text(causes.deep_view()),
{
    let ghost all = causes.deep_view();
    let mut out: String = String::new();
    let mut i: usize = 0;
    assert(all.take(0) =~= Seq::<AffectCauseView>::empty());
    while i < causes.len()
        invariant
            i <= causes.len(),
            all == causes.deep_view(),
            out@ == global_causes_text(all.take(i as int)),
        decreases causes.len() - i,
    {
        assert(all.take(i + 1).drop_last() =~= all.take(i as int));
        assert(all.take(i + 1).last() == causes@[i as int].deep_view());
        if let AffectCause::GlobalInvalidation { file, named_input } = &causes[i] {
            out.append(ITEM_FILE);
            out.append(escape::html_escape(file.as_str()).as_str());
            out.append("</span> &nbsp;&larr;&nbsp; matched <code>");
            out.append(escape::html_escape(named_input.as_str()).as_str());
            out.append(ITEM_END);
        }
        i += 1;
    }
    assert(all.take(i as int) =~= all);
    out
}

/// Appends the beginning of a card in the group.
fn push_group_card_head(out: &mut String, project: &AffectedProjectInfo)
    ensures
        final(out)@ == old(out)@ + group_card_head(project.deep_view()),
{
    let n: usize = project.causes.len();
    assert(n == project.deep_view().causes.len());
    let mut card = GROUP_CARD_NAME.to_owned();
    card.append(ICON_PACKAGE);
    card.append("<span>");
    card.append(escape::html_escape(project.name.as_str()).as_str());
    card.append(GROUP_CARD_COUNT);
    card.append(text::decimal_of(n as u64).as_str());
    card.append(" cause");
    card.append(plural_of(n));
    card.append(GROUP_CARD_CAUSES);
    out.append(card.as_str());
}

/// The cards of the group.
fn write_group_cards(projects: &Vec<AffectedProjectInfo>) -> (r: String)
    ensures
        r@ == group_cards_text(global_only_in(projects.deep_view())),
{
    let ghost all = projects.deep_view();
    let mut out: String = String::new();
    let mut i: usize = 0;
    assert(all.take(0) =~= Seq::<AffectedProjectView>::empty());
    while i < projects.len()
        invariant
            i <= projects.len(),
            all == projects.deep_view(),
            out@ == group_cards_text(global_only_in(all.take(i as int))),
        decreases projects.len() - i,
    {
        assert(all.take(i + 1).drop_last() =~= all.take(i as int));
        assert(all.take(i + 1).last() == projects@[i as int].deep_view());
        let project = &projects[i];
        if is_globally_invalidated_only(project) {
            let ghost before = global_only_in(all.take(i as int));
            push_group_card_head(&mut out, project);
            out.append(write_global_causes(&project.causes).as_str());
            out.append("</ul></div></details></div>");
            assert(before.push(all[i as int]).drop_last() =~= before);
        }
        i += 1;
    }
    assert(all.take(i as int) =~= all);
    out
}

/// The list of the affected projects with the reasons.
pub fn generate_details_html(report: &AffectedReport) -> (r: String)
    ensures
        r@ == details_text(report.projects.deep_view()),
{
    let mut html = write_cards(&report.projects);
    let n: usize = count_global_only(&report.projects);
    if n > 0 {
        let mut group = GROUP_COUNT.to_owned();
        group.append(text::format_number(n as u64).as_str());
        group.append("</strong> projects globally invalidated");
        group.append(global_only_group_label(&select_global_only(&report.projects)).as_str());
        group.append(GROUP_CARDS);
        group.append(write_group_cards(&report.projects).as_str());
        group.append("</div></details>");
        html.append(group.as_str());
    }
    html
}

// ---------------------------------------------------------------------------
// What holds of all reports
// ---------------------------------------------------------------------------

/// Every project is listed once: among those with other causes or in the group of the globally
/// invalidated, and in one of the two alone.
pub proof fn lemma_listed_once(projects: Seq<AffectedProjectView>)
    ensures
        semantic_in(projects).len() + global_only_in(projects).len() == projects.len(),
        semantic_in(projects).to_multiset().add(global_only_in(projects).to_multiset())
            == projects.to_multiset(),
        forall|i: int|
            0 <= i < semantic_in(projects).len() ==> !is_global_only(
                (#[trigger] semantic_in(projects)[i]).causes,
            ),
        forall|i: int|
            0 <= i < global_only_in(projects).len() ==> is_global_only(
                (#[trigger] global_only_in(projects)[i]).causes,
            ),
    decreases projects.len(),
{
    broadcast use vstd::seq_lib::group_to_multiset_ensures;

    if projects.len() > 0 {
        let init = projects.drop_last();
        lemma_listed_once(init);
        assert(projects =~= init.push(projects.last()));
        let a = semantic_in(init).to_multiset();
        let b = global_only_in(init).to_multiset();
        assert(a.insert(projects.last()).add(b) =~= a.add(b).insert(projects.last()));
        assert(a.add(b.insert(projects.last())) =~= a.add(b).insert(projects.last()));
    } else {
        assert(semantic_in(projects).to_multiset().add(global_only_in(projects).to_multiset())
            =~= projects.to_multiset());
    }
}

} // verus!
