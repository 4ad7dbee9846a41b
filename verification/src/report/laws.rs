//! What holds of every report.

use crate::collections::lemma_push_contains;
use crate::report::banner;
use crate::report::banner::rows_text;
use crate::report::details::{
    badge_text, card_head, cards_text, cause_text, causes_text, details_text, filter_text,
    global_only_in, group_label, group_text, has_change,
    has_import, inputs_in, inputs_named, is_change, location_text, plural,
    semantic_in, symbol_text,
};
use crate::report::escape::{html_char, html_escaped, id_char, node_id, url_char, url_encoded};
use crate::report::graph::{
    count_to, edge_text, edges_from, edges_of, has_own_cause, imports_label, is_direct_name,
    is_node, is_own_cause, relations_in, relations_of, sources_in, targets_in, with_source,
    RelationView,
};
use crate::report::page::causes_in;
use crate::report::times::{clock_time, relative_time};
use crate::text::{contains_text, decimal, occurs_at, Text};
use crate::types::{AffectCauseView, AffectedProjectView, GlobalTriggerView};
use vstd::prelude::*;

verus! {

// ---------------------------------------------------------------------------
// Texts in texts
// ---------------------------------------------------------------------------

/// A text stands in every text that it is put into.
pub proof fn lemma_contains(front: Text, s: Text, back: Text)
    ensures
        contains_text(front + s + back, s),
        contains_text(s, s),
        contains_text(front + s, s),
        contains_text(s + back, s),
{
    let whole = front + s + back;
    let n = front.len() as int;
    assert(whole.subrange(n, n + s.len()) =~= s);
    assert(occurs_at(whole, s, n));
    assert(s.subrange(0, s.len() as int) =~= s);
    assert(occurs_at(s, s, 0));
    assert((front + s).subrange(n, n + s.len()) =~= s);
    assert(occurs_at(front + s, s, n));
    assert((s + back).subrange(0, s.len() as int) =~= s);
    assert(occurs_at(s + back, s, 0));
}

/// What stands in a part stands in the whole.
pub proof fn lemma_contains_on(front: Text, middle: Text, back: Text, s: Text)
    requires
        contains_text(middle, s),
    ensures
        contains_text(front + middle + back, s),
        contains_text(front + middle, s),
        contains_text(middle + back, s),
{
    let at = choose|at: int| occurs_at(middle, s, at);
    let n = front.len() as int;
    let whole = front + middle + back;
    assert(whole.subrange(n + at, n + at + s.len()) =~= middle.subrange(at, at + s.len()));
    assert(occurs_at(whole, s, n + at));
    let ahead = front + middle;
    assert(ahead.subrange(n + at, n + at + s.len()) =~= middle.subrange(at, at + s.len()));
    assert(occurs_at(ahead, s, n + at));
    let behind = middle + back;
    assert(behind.subrange(at, at + s.len()) =~= middle.subrange(at, at + s.len()));
    assert(occurs_at(behind, s, at));
}

// ---------------------------------------------------------------------------
// Projects and causes
// ---------------------------------------------------------------------------

/// All causes are global ones, and there is one.
pub open spec fn is_swept_up(p: AffectedProjectView) -> bool {
    p.causes.len() > 0 && forall|i: int|
        0 <= i < p.causes.len() ==> (#[trigger] p.causes[i]) is GlobalInvalidation
}

/// The projects are told apart by their causes, and each list keeps their order.
pub proof fn lemma_told_apart(projects: Seq<AffectedProjectView>)
    ensures
        semantic_in(projects) == projects.filter(|p: AffectedProjectView| !is_swept_up(p)),
        global_only_in(projects) == projects.filter(|p: AffectedProjectView| is_swept_up(p)),
    decreases projects.len(),
{
    reveal(Seq::filter);
    if projects.len() > 0 {
        lemma_told_apart(projects.drop_last());
    }
}

/// The cause is a change of a file of the project, of an asset that it refers to, or of a dependency
/// that it imports.
pub open spec fn is_own_change(c: AffectCauseView) -> bool {
    c is DirectChange || c is AssetChange || c is LockfileChange
}

/// A project is direct where one of its causes is a change of its own, affected where none is, and
/// both where it imports a changed symbol besides. The badge and the filter say the same.
pub proof fn lemma_badges(causes: Seq<AffectCauseView>, i: int, j: int)
    ensures
        0 <= i < causes.len() && is_own_change(causes[i]) && 0 <= j < causes.len()
            && causes[j] is ImportedSymbol ==> filter_text(causes) == "both"@ && badge_text(causes)
            == "<span class=\"affect-badge badge-both\">Direct + Affected</span>"@,
        0 <= i < causes.len() && is_own_change(causes[i]) && (forall|k: int|
            0 <= k < causes.len() ==> !((#[trigger] causes[k]) is ImportedSymbol)) ==> filter_text(
            causes,
        ) == "direct"@ && badge_text(causes)
            == "<span class=\"affect-badge badge-direct\">Direct</span>"@,
        (forall|k: int| 0 <= k < causes.len() ==> !is_own_change(#[trigger] causes[k]))
            ==> filter_text(causes) == "affected"@ && badge_text(causes)
            == "<span class=\"affect-badge badge-affected\">Affected</span>"@,
{
    if 0 <= i < causes.len() && is_own_change(causes[i]) {
        assert(is_change(causes[i]));
        assert(has_change(causes));
    }
    if 0 <= j < causes.len() && causes[j] is ImportedSymbol {
        assert(has_import(causes));
    }
    if forall|k: int| 0 <= k < causes.len() ==> !is_own_change(#[trigger] causes[k]) {
        assert forall|k: int| 0 <= k < causes.len() implies !is_change(#[trigger] causes[k]) by {
            assert(!is_own_change(causes[k]));
        }
    }
}

/// Every cause of a project is told on its card.
pub proof fn lemma_causes_are_told(causes: Seq<AffectCauseView>, i: int)
    requires
        0 <= i < causes.len(),
    ensures
        contains_text(causes_text(causes), cause_text(causes[i])),
    decreases causes.len(),
{
    let init = causes.drop_last();
    let n = causes.len() - 1;
    let before = causes_text(init);
    let open = "<li class=\"cause-item\">"@;
    let close = "</li>"@;
    let last = cause_text(causes.last());
    if i < n {
        assert(init[i] == causes[i]);
        lemma_causes_are_told(init, i);
        lemma_contains_on(Seq::<char>::empty(), before, open + last + close, cause_text(causes[i]));
        assert(before + (open + last + close) =~= causes_text(causes));
    } else {
        lemma_contains(before + open, last, close);
    }
}

/// The cards of some projects tell every project with its name, made safe, and with all its causes.
pub proof fn lemma_cards_are_complete(projects: Seq<AffectedProjectView>, i: int, k: int)
    requires
        0 <= i < projects.len(),
    ensures
        contains_text(cards_text(projects), card_head(projects[i])),
        contains_text(card_head(projects[i]), "<span>"@ + html_escaped(projects[i].name)),
        0 <= k < projects[i].causes.len() ==> contains_text(
            cards_text(projects),
            cause_text(projects[i].causes[k]),
        ),
    decreases projects.len(),
{
    let init = projects.drop_last();
    let n = projects.len() - 1;
    let before = cards_text(init);
    let p = projects.last();
    let head = card_head(p);
    let causes = causes_text(p.causes);
    let close = "</ul></div></details></div>"@;
    lemma_head(projects[i]);
    if i < n {
        assert(init[i] == projects[i]);
        lemma_cards_are_complete(init, i, k);
        let rest = head + causes + close;
        assert(cards_text(projects) =~= before + rest);
        lemma_contains_on(Seq::<char>::empty(), before, rest, card_head(projects[i]));
        if 0 <= k < projects[i].causes.len() {
            lemma_contains_on(
                Seq::<char>::empty(),
                before,
                rest,
                cause_text(projects[i].causes[k]),
            );
        }
    } else {
        lemma_contains(before, head, causes + close);
        assert(cards_text(projects) =~= before + head + (causes + close));
        if 0 <= k < projects[i].causes.len() {
            lemma_causes_are_told(p.causes, k);
            lemma_contains_on(before + head, causes, close, cause_text(p.causes[k]));
        }
    }
}

proof fn lemma_head(p: AffectedProjectView)
    ensures
        contains_text(card_head(p), "<span>"@ + html_escaped(p.name)),
{
    let name = "<span>"@ + html_escaped(p.name);
    let front = "<div class=\"project-card\" data-filter-type=\""@ + filter_text(p.causes)
        + crate::report::details::CARD_NAME@ + crate::report::template::ICON_PACKAGE@;
    let back = crate::report::details::CARD_BADGE@ + badge_text(p.causes)
        + crate::report::details::CARD_COUNT@ + decimal(p.causes.len()) + " cause"@ + plural(
        p.causes.len(),
    ) + crate::report::details::CARD_CAUSES@;
    lemma_contains(front, name, back);
    assert(front + name + back =~= card_head(p));
}

/// The list of projects tells each project that has other causes than global ones, with all its
/// causes; the others stand in a group behind it.
pub proof fn lemma_details_are_complete(projects: Seq<AffectedProjectView>, i: int, k: int)
    requires
        0 <= i < semantic_in(projects).len(),
    ensures
        contains_text(
            details_text(projects),
            "<span>"@ + html_escaped(semantic_in(projects)[i].name),
        ),
        0 <= k < semantic_in(projects)[i].causes.len() ==> contains_text(
            details_text(projects),
            cause_text(semantic_in(projects)[i].causes[k]),
        ),
        global_only_in(projects).len() > 0 ==> contains_text(
            details_text(projects),
            group_text(global_only_in(projects)),
        ),
{
    let shown = semantic_in(projects);
    let cards = cards_text(shown);
    let group = group_text(global_only_in(projects));
    let none = Seq::<char>::empty();
    lemma_cards_are_complete(shown, i, k);
    let name = "<span>"@ + html_escaped(shown[i].name);
    let head = card_head(shown[i]);
    let at = choose|at: int| occurs_at(cards, head, at);
    assert(cards =~= cards.take(at) + head + cards.skip(at + head.len()));
    lemma_contains_on(cards.take(at), head, cards.skip(at + head.len()), name);
    lemma_contains_on(none, cards, group, name);
    if 0 <= k < shown[i].causes.len() {
        lemma_contains_on(none, cards, group, cause_text(shown[i].causes[k]));
    }
    lemma_contains(cards, group, none);
}

proof fn lemma_glued(front: Text, a: Text, b: Text)
    ensures
        front + (a + b) == front + a + b,
{
    assert(front + (a + b) =~= front + a + b);
}

/// A change is told with its file, and behind it with its line where that is known, or as a deletion
/// where a symbol has none; then with its symbol, where there is one.
pub proof fn lemma_direct_change_is_told(file: Text, symbol: Option<Text>, line: nat)
    ensures
        contains_text(
            cause_text(AffectCauseView::DirectChange { file, symbol, line }),
            "File: <span class=\"code-path\">"@ + file + "</span>"@ + location_text(symbol, line)
                + symbol_text(symbol),
        ),
        line > 0 ==> location_text(symbol, line) == " (line "@ + decimal(line) + ")"@,
        line == 0 && symbol is Some ==> location_text(symbol, line) == " (deleted)"@,
        line == 0 && symbol is None ==> location_text(symbol, line).len() == 0,
        symbol is Some ==> symbol_text(symbol) == "<br/>Symbol: <span class=\"symbol\">"@ + symbol->0
            + "</span>"@,
        symbol is None ==> symbol_text(symbol).len() == 0,
{
    reveal_strlit("");
    let front = "<span class=\"cause-type direct\">Direct Change</span>"@ + "<div class=\"cause-details\">"@;
    let s0 = "File: <span class=\"code-path\">"@;
    let s1 = s0 + file;
    lemma_glued(front, s0, file);
    let s2 = s1 + "</span>"@;
    lemma_glued(front, s1, "</span>"@);
    let s3 = s2 + location_text(symbol, line);
    lemma_glued(front, s2, location_text(symbol, line));
    let s4 = s3 + symbol_text(symbol);
    lemma_glued(front, s3, symbol_text(symbol));
    lemma_contains(front, s4, "</div>"@);
}

/// An imported symbol is told with the project and the file that it comes from, and with the file that
/// imports it.
pub proof fn lemma_import_is_told(source_project: Text, symbol: Text, via_file: Text, source_file: Text)
    ensures
        contains_text(
            cause_text(
                AffectCauseView::ImportedSymbol { source_project, symbol, via_file, source_file },
            ),
            "Symbol: <span class=\"symbol\">"@
                + symbol
                + "</span><br/>"@
                + "From project: <strong>"@
                + source_project
                + "</strong><br/>"@
                + "Source: <span class=\"code-path\">"@
                + source_file
                + "</span><br/>"@
                + "Imported in: <span class=\"code-path\">"@
                + via_file
                + "</span>"@,
        ),
{
    let front = "<span class=\"cause-type imported\">Imported Symbol</span>"@ + "<div class=\"cause-details\">"@;
    let s0 = "Symbol: <span class=\"symbol\">"@;
    let s1 = s0 + symbol;
    lemma_glued(front, s0, symbol);
    let s2 = s1 + "</span><br/>"@;
    lemma_glued(front, s1, "</span><br/>"@);
    let s3 = s2 + "From project: <strong>"@;
    lemma_glued(front, s2, "From project: <strong>"@);
    let s4 = s3 + source_project;
    lemma_glued(front, s3, source_project);
    let s5 = s4 + "</strong><br/>"@;
    lemma_glued(front, s4, "</strong><br/>"@);
    let s6 = s5 + "Source: <span class=\"code-path\">"@;
    lemma_glued(front, s5, "Source: <span class=\"code-path\">"@);
    let s7 = s6 + source_file;
    lemma_glued(front, s6, source_file);
    let s8 = s7 + "</span><br/>"@;
    lemma_glued(front, s7, "</span><br/>"@);
    let s9 = s8 + "Imported in: <span class=\"code-path\">"@;
    lemma_glued(front, s8, "Imported in: <span class=\"code-path\">"@);
    let s10 = s9 + via_file;
    lemma_glued(front, s9, via_file);
    let s11 = s10 + "</span>"@;
    lemma_glued(front, s10, "</span>"@);
    lemma_contains(front, s11, "</div>"@);
}

/// A re-export is told with the file that the symbol comes from, and with the file that passes it on.
pub proof fn lemma_reexport_is_told(through_file: Text, symbol: Text, source_file: Text)
    ensures
        contains_text(
            cause_text(AffectCauseView::ReExported { through_file, symbol, source_file }),
            "Symbol: <span class=\"symbol\">"@
                + symbol
                + "</span><br/>"@
                + "Source: <span class=\"code-path\">"@
                + source_file
                + "</span><br/>"@
                + "Re-exported via: <span class=\"code-path\">"@
                + through_file
                + "</span>"@,
        ),
{
    let front = "<span class=\"cause-type reexported\">Re-exported</span>"@ + "<div class=\"cause-details\">"@;
    let s0 = "Symbol: <span class=\"symbol\">"@;
    let s1 = s0 + symbol;
    lemma_glued(front, s0, symbol);
    let s2 = s1 + "</span><br/>"@;
    lemma_glued(front, s1, "</span><br/>"@);
    let s3 = s2 + "Source: <span class=\"code-path\">"@;
    lemma_glued(front, s2, "Source: <span class=\"code-path\">"@);
    let s4 = s3 + source_file;
    lemma_glued(front, s3, source_file);
    let s5 = s4 + "</span><br/>"@;
    lemma_glued(front, s4, "</span><br/>"@);
    let s6 = s5 + "Re-exported via: <span class=\"code-path\">"@;
    lemma_glued(front, s5, "Re-exported via: <span class=\"code-path\">"@);
    let s7 = s6 + through_file;
    lemma_glued(front, s6, through_file);
    let s8 = s7 + "</span>"@;
    lemma_glued(front, s7, "</span>"@);
    lemma_contains(front, s8, "</div>"@);
}

/// An asset is told with the place that refers to it.
pub proof fn lemma_asset_is_told(asset_file: Text, referenced_in: Text, line: nat)
    ensures
        contains_text(
            cause_text(AffectCauseView::AssetChange { asset_file, referenced_in, line }),
            "Asset: <span class=\"code-path\">"@
                + asset_file
                + "</span><br/>"@
                + "Referenced in: <span class=\"code-path\">"@
                + referenced_in
                + "</span> (line "@
                + decimal(line)
                + ")"@,
        ),
{
    let front = "<span class=\"cause-type asset\">Asset Change</span>"@ + "<div class=\"cause-details\">"@;
    let s0 = "Asset: <span class=\"code-path\">"@;
    let s1 = s0 + asset_file;
    lemma_glued(front, s0, asset_file);
    let s2 = s1 + "</span><br/>"@;
    lemma_glued(front, s1, "</span><br/>"@);
    let s3 = s2 + "Referenced in: <span class=\"code-path\">"@;
    lemma_glued(front, s2, "Referenced in: <span class=\"code-path\">"@);
    let s4 = s3 + referenced_in;
    lemma_glued(front, s3, referenced_in);
    let s5 = s4 + "</span> (line "@;
    lemma_glued(front, s4, "</span> (line "@);
    let s6 = s5 + decimal(line);
    lemma_glued(front, s5, decimal(line));
    let s7 = s6 + ")"@;
    lemma_glued(front, s6, ")"@);
    lemma_contains(front, s7, "</div>"@);
}

/// A dependency is told with the file that imports it.
pub proof fn lemma_dependency_is_told(dependency: Text, importing_file: Text)
    ensures
        contains_text(
            cause_text(AffectCauseView::LockfileChange { dependency, importing_file }),
            "Dependency: <span class=\"symbol\">"@
                + dependency
                + "</span><br/>"@
                + "Imported in: <span class=\"code-path\">"@
                + importing_file
                + "</span>"@,
        ),
{
    let front = "<span class=\"cause-type lockfile\">Lockfile Change</span>"@ + "<div class=\"cause-details\">"@;
    let s0 = "Dependency: <span class=\"symbol\">"@;
    let s1 = s0 + dependency;
    lemma_glued(front, s0, dependency);
    let s2 = s1 + "</span><br/>"@;
    lemma_glued(front, s1, "</span><br/>"@);
    let s3 = s2 + "Imported in: <span class=\"code-path\">"@;
    lemma_glued(front, s2, "Imported in: <span class=\"code-path\">"@);
    let s4 = s3 + importing_file;
    lemma_glued(front, s3, importing_file);
    let s5 = s4 + "</span>"@;
    lemma_glued(front, s4, "</span>"@);
    lemma_contains(front, s5, "</div>"@);
}

/// An implicit dependency is told with the project that is depended on.
pub proof fn lemma_implicit_is_told(depends_on: Text)
    ensures
        contains_text(
            cause_text(AffectCauseView::ImplicitDependency { depends_on }),
            "Depends on: <strong>"@
                + depends_on
                + "</strong>"@,
        ),
{
    let front = "<span class=\"cause-type implicit\">Implicit Dependency</span>"@ + "<div class=\"cause-details\">"@;
    let s0 = "Depends on: <strong>"@;
    let s1 = s0 + depends_on;
    lemma_glued(front, s0, depends_on);
    let s2 = s1 + "</strong>"@;
    lemma_glued(front, s1, "</strong>"@);
    lemma_contains(front, s2, "</div>"@);
}

/// A global cause is told with its file and with the input that matched, made safe.
pub proof fn lemma_global_is_told(file: Text, named_input: Text)
    ensures
        contains_text(
            cause_text(AffectCauseView::GlobalInvalidation { file, named_input }),
            "Triggered by: <span class=\"code-path\">"@
                + html_escaped(file)
                + "</span> &nbsp;&larr;&nbsp; matched <code>"@
                + html_escaped(named_input)
                + "</code>"@,
        ),
{
    let front = "<span class=\"cause-type global\">Global Invalidation</span>"@ + "<div class=\"cause-details\">"@;
    let s0 = "Triggered by: <span class=\"code-path\">"@;
    let s1 = s0 + html_escaped(file);
    lemma_glued(front, s0, html_escaped(file));
    let s2 = s1 + "</span> &nbsp;&larr;&nbsp; matched <code>"@;
    lemma_glued(front, s1, "</span> &nbsp;&larr;&nbsp; matched <code>"@);
    let s3 = s2 + html_escaped(named_input);
    lemma_glued(front, s2, html_escaped(named_input));
    let s4 = s3 + "</code>"@;
    lemma_glued(front, s3, "</code>"@);
    lemma_contains(front, s4, "</div>"@);
}

// ---------------------------------------------------------------------------
// The group of global causes
// ---------------------------------------------------------------------------

/// A global cause of a project names the input.
pub open spec fn names_input(p: AffectedProjectView, input: Text) -> bool {
    exists|i: int|
        0 <= i < p.causes.len() && ((#[trigger] p.causes[i]) is GlobalInvalidation
            && p.causes[i]->GlobalInvalidation_named_input == input)
}

proof fn lemma_inputs_named(causes: Seq<AffectCauseView>, known: Seq<Text>, input: Text)
    requires
        known.no_duplicates(),
    ensures
        inputs_named(causes, known).no_duplicates(),
        inputs_named(causes, known).contains(input) <==> known.contains(input) || exists|i: int|
            0 <= i < causes.len() && ((#[trigger] causes[i]) is GlobalInvalidation
                && causes[i]->GlobalInvalidation_named_input == input),
    decreases causes.len(),
{
    if causes.len() > 0 {
        let init = causes.drop_last();
        let n = causes.len() - 1;
        let last = causes.last();
        let before = inputs_named(init, known);
        lemma_inputs_named(init, known, input);
        assert(causes[n] == last);
        if let AffectCauseView::GlobalInvalidation { named_input, .. } = last {
            lemma_push_contains(before, named_input, input);
        }
        if before.contains(input) && !known.contains(input) {
            let i = choose|i: int|
                0 <= i < init.len() && ((#[trigger] init[i]) is GlobalInvalidation
                    && init[i]->GlobalInvalidation_named_input == input);
            assert(causes[i] == init[i]);
        }
        if exists|i: int|
            0 <= i < causes.len() && ((#[trigger] causes[i]) is GlobalInvalidation
                && causes[i]->GlobalInvalidation_named_input == input) {
            let i = choose|i: int|
                0 <= i < causes.len() && ((#[trigger] causes[i]) is GlobalInvalidation
                    && causes[i]->GlobalInvalidation_named_input == input);
            if i < n {
                assert(init[i] == causes[i]);
            }
        }
    }
}

proof fn lemma_inputs_in(projects: Seq<AffectedProjectView>, input: Text)
    ensures
        inputs_in(projects).no_duplicates(),
        inputs_in(projects).contains(input) <==> exists|i: int|
            0 <= i < projects.len() && names_input(#[trigger] projects[i], input),
    decreases projects.len(),
{
    if projects.len() > 0 {
        let init = projects.drop_last();
        let n = projects.len() - 1;
        let last = projects.last();
        lemma_inputs_in(init, input);
        lemma_inputs_named(last.causes, inputs_in(init), input);
        assert(projects[n] == last);
        if inputs_in(init).contains(input) {
            let i = choose|i: int| 0 <= i < init.len() && names_input(#[trigger] init[i], input);
            assert(projects[i] == init[i]);
        }
        if exists|i: int| 0 <= i < projects.len() && names_input(#[trigger] projects[i], input) {
            let i = choose|i: int|
                0 <= i < projects.len() && names_input(#[trigger] projects[i], input);
            if i < n {
                assert(init[i] == projects[i]);
            }
        }
    }
}

/// Where the global causes all name one input, the group is labelled with it, made safe; where they
/// name two or none, the label speaks of inputs in general.
pub proof fn lemma_group_label(projects: Seq<AffectedProjectView>, a: Text, b: Text)
    ensures
        (exists|i: int| 0 <= i < projects.len() && names_input(#[trigger] projects[i], a)) && (
        forall|i: int, input: Text|
            0 <= i < projects.len() && #[trigger] names_input(projects[i], input) ==> input == a)
            ==> group_label(projects) == " via <code>"@ + html_escaped(a) + "</code>"@,
        a != b && (exists|i: int| 0 <= i < projects.len() && names_input(#[trigger] projects[i], a))
            && (exists|i: int| 0 <= i < projects.len() && names_input(#[trigger] projects[i], b))
            ==> group_label(projects) == " via Nx <code>namedInputs</code>"@,
        (forall|i: int, input: Text|
            0 <= i < projects.len() ==> !(#[trigger] names_input(projects[i], input)))
            ==> group_label(projects) == " via Nx <code>namedInputs</code>"@,
{
    let inputs = inputs_in(projects);
    lemma_inputs_in(projects, a);
    lemma_inputs_in(projects, b);
    if inputs.len() > 0 {
        lemma_inputs_in(projects, inputs[0]);
        assert(inputs.contains(inputs[0]));
        if inputs.len() > 1 {
            lemma_inputs_in(projects, inputs[1]);
            assert(inputs.contains(inputs[1]));
            assert(inputs[0] != inputs[1]);
        }
    }
    if inputs.contains(a) && inputs.contains(b) && a != b {
        let x = choose|x: int| 0 <= x < inputs.len() && inputs[x] == a;
        let y = choose|y: int| 0 <= y < inputs.len() && inputs[y] == b;
        assert(x != y);
    }
}

/// The banner has a row for each trigger, with the file, the input and the pattern, made safe.
pub proof fn lemma_rows_are_complete(triggers: Seq<GlobalTriggerView>, i: int)
    requires
        0 <= i < triggers.len(),
    ensures
        contains_text(
            rows_text(triggers),
            banner::ROW_FILE@ + html_escaped(triggers[i].file) + banner::ROW_INPUT@ + html_escaped(
                triggers[i].named_input,
            ) + banner::ROW_PATTERN@ + html_escaped(triggers[i].raw_pattern) + banner::ROW_END@,
        ),
    decreases triggers.len(),
{
    let init = triggers.drop_last();
    let n = triggers.len() - 1;
    let before = rows_text(init);
    let t = triggers.last();
    let row = banner::ROW_FILE@ + html_escaped(t.file) + banner::ROW_INPUT@ + html_escaped(
        t.named_input,
    ) + banner::ROW_PATTERN@ + html_escaped(t.raw_pattern) + banner::ROW_END@;
    assert(rows_text(triggers) =~= before + row);
    if i < n {
        assert(init[i] == triggers[i]);
        lemma_rows_are_complete(init, i);
        let s = banner::ROW_FILE@ + html_escaped(triggers[i].file) + banner::ROW_INPUT@
            + html_escaped(triggers[i].named_input) + banner::ROW_PATTERN@ + html_escaped(
            triggers[i].raw_pattern,
        ) + banner::ROW_END@;
        lemma_contains_on(Seq::<char>::empty(), before, row, s);
    } else {
        lemma_contains(before, row, Seq::<char>::empty());
    }
}

// ---------------------------------------------------------------------------
// The graph
// ---------------------------------------------------------------------------

proof fn lemma_relations_of(name: Text, causes: Seq<AffectCauseView>, r: RelationView)
    ensures
        relations_of(name, causes).contains(r) <==> r.target == name && exists|i: int|
            0 <= i < causes.len() && gives_relation(#[trigger] causes[i], r),
    decreases causes.len(),
{
    if causes.len() > 0 {
        let init = causes.drop_last();
        let n = causes.len() - 1;
        let last = causes.last();
        let before = relations_of(name, init);
        lemma_relations_of(name, init, r);
        assert(causes[n] == last);
        match last {
            AffectCauseView::ImportedSymbol { source_project, .. } => {
                lemma_push_contains(
                    before,
                    RelationView { source: source_project, target: name, implicit: false },
                    r,
                );
            },
            AffectCauseView::ImplicitDependency { depends_on } => {
                lemma_push_contains(
                    before,
                    RelationView { source: depends_on, target: name, implicit: true },
                    r,
                );
            },
            _ => {},
        }
        if before.contains(r) {
            let i = choose|i: int| 0 <= i < init.len() && gives_relation(#[trigger] init[i], r);
            assert(causes[i] == init[i]);
        }
        if exists|i: int| 0 <= i < causes.len() && gives_relation(#[trigger] causes[i], r) {
            let i = choose|i: int| 0 <= i < causes.len() && gives_relation(#[trigger] causes[i], r);
            if i < n {
                assert(init[i] == causes[i]);
            }
        }
    }
}

/// The cause ties the project to another: by an import from it, or as an implicit dependency.
pub open spec fn gives_relation(c: AffectCauseView, r: RelationView) -> bool {
    ||| c is ImportedSymbol && c->ImportedSymbol_source_project == r.source && !r.implicit
    ||| c is ImplicitDependency && c->depends_on == r.source && r.implicit
}

/// Projects are related exactly where a cause of one says that it is affected through the other: from
/// the other to the one.
pub proof fn lemma_relations(projects: Seq<AffectedProjectView>, r: RelationView)
    ensures
        relations_in(projects).contains(r) <==> exists|i: int, k: int|
            0 <= i < projects.len() && (#[trigger] projects[i]).name == r.target && 0 <= k
                < projects[i].causes.len() && gives_relation(#[trigger] projects[i].causes[k], r),
    decreases projects.len(),
{
    if projects.len() > 0 {
        let init = projects.drop_last();
        let n = projects.len() - 1;
        let last = projects.last();
        lemma_relations(init, r);
        lemma_relations_of(last.name, last.causes, r);
        crate::semantic::reference_laws::lemma_in_sum(
            relations_in(init),
            relations_of(last.name, last.causes),
            r,
        );
        assert(projects[n] == last);
        if relations_in(init).contains(r) {
            let (i, k) = choose|i: int, k: int|
                0 <= i < init.len() && (#[trigger] init[i]).name == r.target && 0 <= k
                    < init[i].causes.len() && gives_relation(#[trigger] init[i].causes[k], r);
            assert(projects[i] == init[i]);
            assert(gives_relation(projects[i].causes[k], r));
        }
        if relations_of(last.name, last.causes).contains(r) {
            let k = choose|k: int|
                0 <= k < last.causes.len() && gives_relation(#[trigger] last.causes[k], r);
            assert(gives_relation(projects[n].causes[k], r));
        }
        if exists|i: int, k: int|
            0 <= i < projects.len() && (#[trigger] projects[i]).name == r.target && 0 <= k
                < projects[i].causes.len() && gives_relation(#[trigger] projects[i].causes[k], r) {
            let (i, k) = choose|i: int, k: int|
                0 <= i < projects.len() && (#[trigger] projects[i]).name == r.target && 0 <= k
                    < projects[i].causes.len() && gives_relation(
                    #[trigger] projects[i].causes[k],
                    r,
                );
            if i < n {
                assert(init[i] == projects[i]);
                assert(gives_relation(init[i].causes[k], r));
            } else {
                assert(gives_relation(last.causes[k], r));
            }
        }
    }
}

/// A project is drawn as changed itself where a project of that name has a cause of its own: any but
/// an import, a re-export and an implicit dependency.
pub proof fn lemma_direct_nodes(projects: Seq<AffectedProjectView>, name: Text)
    ensures
        is_direct_name(projects, name) <==> exists|i: int, k: int|
            0 <= i < projects.len() && (#[trigger] projects[i]).name == name && 0 <= k
                < projects[i].causes.len() && !((#[trigger] projects[i].causes[k]) is ImportedSymbol)
                && !(projects[i].causes[k] is ReExported) && !(
            projects[i].causes[k] is ImplicitDependency),
{
    if is_direct_name(projects, name) {
        let i = choose|i: int|
            0 <= i < projects.len() && (#[trigger] projects[i]).name == name && has_own_cause(
                projects[i].causes,
            );
        let causes = projects[i].causes;
        let k = choose|k: int| 0 <= k < causes.len() && is_own_cause(#[trigger] causes[k]);
        assert(!(projects[i].causes[k] is ImportedSymbol));
    }
    if exists|i: int, k: int|
        0 <= i < projects.len() && (#[trigger] projects[i]).name == name && 0 <= k
            < projects[i].causes.len() && !((#[trigger] projects[i].causes[k]) is ImportedSymbol)
            && !(projects[i].causes[k] is ReExported) && !(
        projects[i].causes[k] is ImplicitDependency) {
        let (i, k) = choose|i: int, k: int|
            0 <= i < projects.len() && (#[trigger] projects[i]).name == name && 0 <= k
                < projects[i].causes.len() && !((#[trigger] projects[i].causes[k]) is ImportedSymbol)
                && !(projects[i].causes[k] is ReExported) && !(
            projects[i].causes[k] is ImplicitDependency);
        assert(is_own_cause(projects[i].causes[k]));
        assert(has_own_cause(projects[i].causes));
        assert(projects[i].name == name);
    }
}

/// The relations from a source are those that say so, in order.
pub proof fn lemma_with_source(relations: Seq<RelationView>, source: Text)
    ensures
        with_source(relations, source) == relations.filter(|r: RelationView| r.source == source),
    decreases relations.len(),
{
    reveal(Seq::filter);
    if relations.len() > 0 {
        lemma_with_source(relations.drop_last(), source);
    }
}

/// How often two projects are related is the number of the relations between them of that kind.
pub proof fn lemma_count(relations: Seq<RelationView>, target: Text, implicit: bool)
    ensures
        count_to(relations, target, implicit) == relations.filter(
            |r: RelationView| r.target == target && r.implicit == implicit,
        ).len(),
    decreases relations.len(),
{
    reveal(Seq::filter);
    if relations.len() > 0 {
        lemma_count(relations.drop_last(), target, implicit);
    }
}

proof fn lemma_ends(relations: Seq<RelationView>, name: Text)
    ensures
        sources_in(relations).contains(name) <==> exists|i: int|
            0 <= i < relations.len() && (#[trigger] relations[i]).source == name,
        targets_in(relations).contains(name) <==> exists|i: int|
            0 <= i < relations.len() && (#[trigger] relations[i]).target == name,
    decreases relations.len(),
{
    if relations.len() > 0 {
        let init = relations.drop_last();
        let n = relations.len() - 1;
        let last = relations.last();
        lemma_ends(init, name);
        assert(relations[n] == last);
        lemma_push_contains(sources_in(init), last.source, name);
        lemma_push_contains(targets_in(init), last.target, name);
        if sources_in(init).contains(name) {
            let i = choose|i: int| 0 <= i < init.len() && (#[trigger] init[i]).source == name;
            assert(relations[i] == init[i]);
        }
        if targets_in(init).contains(name) {
            let i = choose|i: int| 0 <= i < init.len() && (#[trigger] init[i]).target == name;
            assert(relations[i] == init[i]);
        }
        if exists|i: int| 0 <= i < relations.len() && (#[trigger] relations[i]).source == name {
            let i = choose|i: int|
                0 <= i < relations.len() && (#[trigger] relations[i]).source == name;
            if i < n {
                assert(init[i] == relations[i]);
            }
        }
        if exists|i: int| 0 <= i < relations.len() && (#[trigger] relations[i]).target == name {
            let i = choose|i: int|
                0 <= i < relations.len() && (#[trigger] relations[i]).target == name;
            if i < n {
                assert(init[i] == relations[i]);
            }
        }
    }
}

proof fn lemma_edge_from(
    projects: Seq<AffectedProjectView>,
    source: Text,
    group: Seq<RelationView>,
    targets: Seq<Text>,
    target: Text,
)
    requires
        targets.contains(target),
        is_node(projects, node_id(target)),
    ensures
        edges_from(projects, source, group, targets).contains(
            edge_text(
                source,
                target,
                count_to(group, target, true),
                count_to(group, target, false),
            ),
        ),
    decreases targets.len(),
{
    let init = targets.drop_last();
    let last = targets.last();
    let before = edges_from(projects, source, group, init);
    let e = edge_text(
        source,
        target,
        count_to(group, target, true),
        count_to(group, target, false),
    );
    assert(targets =~= init.push(last));
    lemma_push_contains(init, last, target);
    if init.contains(target) {
        lemma_edge_from(projects, source, group, init, target);
    }
    lemma_push_contains(
        before,
        edge_text(source, last, count_to(group, last, true), count_to(group, last, false)),
        e,
    );
}

/// Two related projects that are both drawn are joined by an edge: an implicit one where any relation
/// between them is, and else one with the number of imports.
pub proof fn lemma_related_are_joined(
    projects: Seq<AffectedProjectView>,
    relations: Seq<RelationView>,
    sources: Seq<Text>,
    r: RelationView,
)
    requires
        relations.contains(r),
        sources.contains(r.source),
        is_node(projects, node_id(r.source)),
        is_node(projects, node_id(r.target)),
    ensures
        edges_of(projects, relations, sources).contains(
            edge_text(
                r.source,
                r.target,
                count_to(with_source(relations, r.source), r.target, true),
                count_to(with_source(relations, r.source), r.target, false),
            ),
        ),
    decreases sources.len(),
{
    let init = sources.drop_last();
    let last = sources.last();
    let before = edges_of(projects, relations, init);
    let group = with_source(relations, r.source);
    let e = edge_text(
        r.source,
        r.target,
        count_to(group, r.target, true),
        count_to(group, r.target, false),
    );
    assert(sources =~= init.push(last));
    lemma_push_contains(init, last, r.source);
    if init.contains(r.source) {
        lemma_related_are_joined(projects, relations, init, r);
    }
    let here = edges_from(
        projects,
        last,
        with_source(relations, last),
        targets_in(with_source(relations, last)),
    );
    crate::semantic::reference_laws::lemma_in_sum(before, here, e);
    if last == r.source {
        lemma_source_holds(relations, r);
        let i = choose|i: int| 0 <= i < group.len() && group[i] == r;
        assert(group[i].target == r.target);
        lemma_ends(group, r.target);
        lemma_edge_from(projects, last, group, targets_in(group), r.target);
    }
}

proof fn lemma_source_holds(relations: Seq<RelationView>, r: RelationView)
    requires
        relations.contains(r),
    ensures
        with_source(relations, r.source).contains(r),
    decreases relations.len(),
{
    let init = relations.drop_last();
    let last = relations.last();
    assert(relations =~= init.push(last));
    lemma_push_contains(init, last, r);
    if init.contains(r) {
        lemma_source_holds(init, r);
    }
    lemma_push_contains(with_source(init, r.source), last, r);
}

/// Every source of a relation is looked at.
pub proof fn lemma_sources(relations: Seq<RelationView>, r: RelationView)
    requires
        relations.contains(r),
    ensures
        sources_in(relations).contains(r.source),
{
    let i = choose|i: int| 0 <= i < relations.len() && relations[i] == r;
    assert(relations[i].source == r.source);
    lemma_ends(relations, r.source);
}

/// The label of an edge counts the imports, one of them in the singular.
pub proof fn lemma_imports_label(n: nat)
    ensures
        n == 1 ==> imports_label(n) == "1 import"@,
        n != 1 ==> imports_label(n) == decimal(n) + " imports"@,
        n == 1 ==> plural(n) == ""@,
        n != 1 ==> plural(n) == "s"@,
{
}

// ---------------------------------------------------------------------------
// Escaping
// ---------------------------------------------------------------------------

/// Escaping goes character by character.
pub proof fn lemma_escaped_in_parts(a: Text, b: Text)
    ensures
        html_escaped(a + b) == html_escaped(a) + html_escaped(b),
        url_encoded(a + b) == url_encoded(a) + url_encoded(b),
        node_id(a + b) == node_id(a) + node_id(b),
    decreases b.len(),
{
    if b.len() == 0 {
        assert(a + b =~= a);
        assert(html_escaped(a) + html_escaped(b) =~= html_escaped(a));
        assert(url_encoded(a) + url_encoded(b) =~= url_encoded(a));
        assert(node_id(a) + node_id(b) =~= node_id(a));
    } else {
        lemma_escaped_in_parts(a, b.drop_last());
        assert((a + b).drop_last() =~= a + b.drop_last());
        assert((a + b).last() == b.last());
        assert(html_escaped(a + b) =~= html_escaped(a) + html_escaped(b));
        assert(url_encoded(a + b) =~= url_encoded(a) + url_encoded(b));
        assert(node_id(a + b) =~= node_id(a) + node_id(b));
    }
}

/// The characters that mean something in HTML are written out, and no other changes.
pub proof fn lemma_escaped_chars(c: char)
    ensures
        c == '&' ==> html_escaped(seq![c]) == "&amp;"@,
        c == '<' ==> html_escaped(seq![c]) == "&lt;"@,
        c == '>' ==> html_escaped(seq![c]) == "&gt;"@,
        c == '"' ==> html_escaped(seq![c]) == "&quot;"@,
        c == '\'' ==> html_escaped(seq![c]) == "&#39;"@,
        c != '&' && c != '<' && c != '>' && c != '"' && c != '\'' ==> html_escaped(seq![c])
            == seq![c],
        c == '%' ==> url_encoded(seq![c]) == "%25"@,
        c == '#' ==> url_encoded(seq![c]) == "%23"@,
        c == '<' ==> url_encoded(seq![c]) == "%3C"@,
        c == '>' ==> url_encoded(seq![c]) == "%3E"@,
        c == '"' ==> url_encoded(seq![c]) == "%22"@,
        c != '%' && c != '#' && c != '<' && c != '>' && c != '"' ==> url_encoded(seq![c])
            == seq![c],
        c == '-' || c == '/' ==> node_id(seq![c]) == seq!['_'],
        c == '@' ==> node_id(seq![c]).len() == 0,
        c != '-' && c != '/' && c != '@' ==> node_id(seq![c]) == seq![c],
{
    let one = seq![c];
    reveal_with_fuel(html_escaped, 2);
    reveal_with_fuel(url_encoded, 2);
    reveal_with_fuel(node_id, 2);
    assert(one.drop_last() =~= Seq::<char>::empty());
    assert(one.last() == c);
    assert(html_escaped(one) =~= html_char(c));
    assert(url_encoded(one) =~= url_char(c));
    assert(node_id(one) =~= id_char(c));
}

// ---------------------------------------------------------------------------
// Numbers and times
// ---------------------------------------------------------------------------

/// The causes of some projects are counted one by one.
pub proof fn lemma_causes_are_counted(a: Seq<AffectedProjectView>, p: AffectedProjectView)
    ensures
        causes_in(Seq::<AffectedProjectView>::empty()) == 0,
        causes_in(a.push(p)) == causes_in(a) + p.causes.len(),
{
    assert(a.push(p).drop_last() =~= a);
}

/// A time is told by how long it is ago: in whole minutes, hours or days, with words for one of them,
/// and as it is where it is a week or more.
pub proof fn lemma_relative_time(then: int, d: int)
    ensures
        d < 45 ==> relative_time(then, then + d) == "just now"@,
        45 <= d < 90 ==> relative_time(then, then + d) == "a minute ago"@,
        90 <= d < 2700 ==> relative_time(then, then + d) == decimal((d / 60) as nat)
            + " minutes ago"@,
        2700 <= d < 5400 ==> relative_time(then, then + d) == "an hour ago"@,
        5400 <= d < 79200 ==> relative_time(then, then + d) == decimal((d / 3600) as nat)
            + " hours ago"@,
        79200 <= d < 129600 ==> relative_time(then, then + d) == "yesterday"@,
        129600 <= d < 604800 ==> relative_time(then, then + d) == decimal((d / 86400) as nat)
            + " days ago"@,
        604800 <= d && then >= 0 ==> relative_time(then, then + d) == decimal(then as nat)
            + " (run timestamp)"@,
        604800 <= d && then < 0 ==> relative_time(then, then + d) == "-"@ + decimal((-then) as nat)
            + " (run timestamp)"@,
{
}

/// The time of the clock is the seconds that it shows; a clock before the epoch shows none.
pub proof fn lemma_clock_time(seconds: u64)
    ensures
        seconds <= i64::MAX ==> clock_time(Some(seconds)) == seconds,
        seconds > i64::MAX ==> clock_time(Some(seconds)) == i64::MAX,
        clock_time(None) == 0,
{
}

} // verus!
