//! The graph of affected projects, as data for the script that draws it.

use crate::collections::StringSet;
use crate::report::escape;
use crate::report::escape::{node_id, script_string};
use crate::text;
use crate::text::{decimal, joined, Text};
use crate::types::{
    AffectCause, AffectCauseView, AffectedProjectInfo, AffectedProjectView, AffectedReport,
};
use vstd::prelude::*;

verus! {

/// That a project is affected through another one.
pub struct Relation {
    pub source: String,
    pub target: String,
    /// The project depends on the other without importing from it.
    pub implicit: bool,
}

/// The view of a [`Relation`].
pub struct RelationView {
    pub source: Text,
    pub target: Text,
    pub implicit: bool,
}

impl DeepView for Relation {
    type V = RelationView;

    open spec fn deep_view(&self) -> RelationView {
        RelationView { source: self.source@, target: self.target@, implicit: self.implicit }
    }
}

/// The relations that the causes of a project give, in order.
pub open spec fn relations_of(name: Text, causes: Seq<AffectCauseView>) -> Seq<RelationView>
    decreases causes.len(),
{
    if causes.len() == 0 {
        Seq::empty()
    } else {
        let before = relations_of(name, causes.drop_last());
        match causes.last() {
            AffectCauseView::ImportedSymbol { source_project, .. } => before.push(
                RelationView { source: source_project, target: name, implicit: false },
            ),
            AffectCauseView::ImplicitDependency { depends_on } => before.push(
                RelationView { source: depends_on, target: name, implicit: true },
            ),
            _ => before,
        }
    }
}

/// The relations between projects.
pub open spec fn relations_in(projects: Seq<AffectedProjectView>) -> Seq<RelationView>
    decreases projects.len(),
{
    if projects.len() == 0 {
        Seq::empty()
    } else {
        relations_in(projects.drop_last()) + relations_of(
            projects.last().name,
            projects.last().causes,
        )
    }
}

/// The cause lies in the project itself.
pub open spec fn is_own_cause(c: AffectCauseView) -> bool {
    c is DirectChange || c is AssetChange || c is LockfileChange || c is GlobalInvalidation
}

/// A cause among some lies in the project itself.
pub open spec fn has_own_cause(causes: Seq<AffectCauseView>) -> bool {
    exists|i: int| 0 <= i < causes.len() && is_own_cause(#[trigger] causes[i])
}

/// A project of that name has a cause of its own.
pub open spec fn is_direct_name(projects: Seq<AffectedProjectView>, name: Text) -> bool {
    exists|i: int|
        0 <= i < projects.len() && (#[trigger] projects[i]).name == name && has_own_cause(
            projects[i].causes,
        )
}

/// The node of a project.
pub open spec fn node_text(name: Text, direct: bool) -> Text {
    "{ data: { id: "@ + script_string(node_id(name)) + ", label: "@ + script_string(name)
        + ", type: "@ + script_string(
        if direct {
            "direct"@
        } else {
            "affected"@
        },
    ) + " } }"@
}

/// The nodes of all projects.
pub open spec fn nodes_of(projects: Seq<AffectedProjectView>) -> Seq<Text> {
    Seq::new(
        projects.len(),
        |i: int| node_text(projects[i].name, is_direct_name(projects, projects[i].name)),
    )
}

/// A project has the node id.
pub open spec fn is_node(projects: Seq<AffectedProjectView>, id: Text) -> bool {
    exists|i: int| 0 <= i < projects.len() && id == node_id((#[trigger] projects[i]).name)
}

/// The sources of relations, each once, in order.
pub open spec fn sources_in(relations: Seq<RelationView>) -> Seq<Text>
    decreases relations.len(),
{
    if relations.len() == 0 {
        Seq::empty()
    } else {
        let before = sources_in(relations.drop_last());
        if before.contains(relations.last().source) {
            before
        } else {
            before.push(relations.last().source)
        }
    }
}

/// The targets of relations, each once, in order.
pub open spec fn targets_in(relations: Seq<RelationView>) -> Seq<Text>
    decreases relations.len(),
{
    if relations.len() == 0 {
        Seq::empty()
    } else {
        let before = targets_in(relations.drop_last());
        if before.contains(relations.last().target) {
            before
        } else {
            before.push(relations.last().target)
        }
    }
}

/// The relations with the source.
pub open spec fn with_source(relations: Seq<RelationView>, source: Text) -> Seq<RelationView>
    decreases relations.len(),
{
    if relations.len() == 0 {
        Seq::empty()
    } else if relations.last().source == source {
        with_source(relations.drop_last(), source).push(relations.last())
    } else {
        with_source(relations.drop_last(), source)
    }
}

/// How many relations have the target, and are implicit or not.
pub open spec fn count_to(relations: Seq<RelationView>, target: Text, implicit: bool) -> nat
    decreases relations.len(),
{
    if relations.len() == 0 {
        0
    } else {
        count_to(relations.drop_last(), target, implicit) + if relations.last().target == target
            && relations.last().implicit == implicit {
            1nat
        } else {
            0
        }
    }
}

/// The label for a number of imports.
pub open spec fn imports_label(n: nat) -> Text {
    if n == 1 {
        "1 import"@
    } else {
        decimal(n) + " imports"@
    }
}

/// The edge between two projects.
pub open spec fn edge_text(source: Text, target: Text, implicit: nat, imports: nat) -> Text {
    if implicit > 0 {
        "{ data: { source: "@ + script_string(node_id(source)) + ", target: "@ + script_string(
            node_id(target),
        ) + ", label: \"implicit\", type: \"implicit\" } }"@
    } else {
        "{ data: { source: "@ + script_string(node_id(source)) + ", target: "@ + script_string(
            node_id(target),
        ) + ", label: "@ + script_string(imports_label(imports)) + " } }"@
    }
}

/// The edges from one source to some targets that have nodes.
pub open spec fn edges_from(
    projects: Seq<AffectedProjectView>,
    source: Text,
    group: Seq<RelationView>,
    targets: Seq<Text>,
) -> Seq<Text>
    decreases targets.len(),
{
    if targets.len() == 0 {
        Seq::empty()
    } else {
        let before = edges_from(projects, source, group, targets.drop_last());
        let target = targets.last();
        if is_node(projects, node_id(target)) {
            before.push(
                edge_text(
                    source,
                    target,
                    count_to(group, target, true),
                    count_to(group, target, false),
                ),
            )
        } else {
            before
        }
    }
}

/// The edges from some sources that have nodes.
pub open spec fn edges_of(
    projects: Seq<AffectedProjectView>,
    relations: Seq<RelationView>,
    sources: Seq<Text>,
) -> Seq<Text>
    decreases sources.len(),
{
    if sources.len() == 0 {
        Seq::empty()
    } else {
        let before = edges_of(projects, relations, sources.drop_last());
        let source = sources.last();
        if is_node(projects, node_id(source)) {
            let group = with_source(relations, source);
            before + edges_from(projects, source, group, targets_in(group))
        } else {
            before
        }
    }
}

/// The graph of the projects.
pub open spec fn graph_text(projects: Seq<AffectedProjectView>) -> Text {
    let relations = relations_in(projects);
    "{ nodes: ["@ + joined(nodes_of(projects), ", "@) + "], edges: ["@ + joined(
        edges_of(projects, relations, sources_in(relations)),
        ", "@,
    ) + "] }"@
}

// ---------------------------------------------------------------------------
// Executable
// ---------------------------------------------------------------------------

/// Whether the cause lies in the project itself.
fn is_own(c: &AffectCause) -> (r: bool)
    ensures
        r == is_own_cause(c.deep_view()),
{
    match c {
        AffectCause::DirectChange { .. } => true,
        AffectCause::AssetChange { .. } => true,
        AffectCause::LockfileChange { .. } => true,
        AffectCause::GlobalInvalidation { .. } => true,
        AffectCause::ImportedSymbol { .. } => false,
        AffectCause::ReExported { .. } => false,
        AffectCause::ImplicitDependency { .. } => false,
    }
}

fn has_own(causes: &Vec<AffectCause>) -> (r: bool)
    ensures
        r == has_own_cause(causes.deep_view()),
{
    let ghost all = causes.deep_view();
    let mut i: usize = 0;
    while i < causes.len()
        invariant
            i <= causes.len(),
            all == causes.deep_view(),
            forall|j: int| 0 <= j < i ==> !is_own_cause(#[trigger] all[j]),
        decreases causes.len() - i,
    {
        assert(all[i as int] == causes@[i as int].deep_view());
        if is_own(&causes[i]) {
            return true;
        }
        i += 1;
    }
    false
}

/// The names of the projects with causes of their own.
fn direct_names(projects: &Vec<AffectedProjectInfo>) -> (r: StringSet)
    ensures
        forall|n: Text| #[trigger] r@.contains(n) <==> is_direct_name(projects.deep_view(), n),
{
    let ghost all = projects.deep_view();
    let mut out = StringSet::new();
    let mut i: usize = 0;
    while i < projects.len()
        invariant
            i <= projects.len(),
            all == projects.deep_view(),
            forall|n: Text| #[trigger]
                out@.contains(n) <==> exists|j: int|
                    0 <= j < i && (#[trigger] all[j]).name == n && has_own_cause(all[j].causes),
        decreases projects.len() - i,
    {
        let ghost before = out@;
        assert(all[i as int] == projects@[i as int].deep_view());
        let p = &projects[i];
        if has_own(&p.causes) {
            out.insert(p.name.clone());
            assert forall|n: Text| #[trigger] out@.contains(n) <==> exists|j: int|
                0 <= j < i + 1 && (#[trigger] all[j]).name == n && has_own_cause(
                    all[j].causes,
                ) by {
                assert(before.contains(n) ==> out@.contains(n));
                if n == p.name@ {
                    assert(all[i as int].name == n);
                }
            }
        } else {
            assert forall|n: Text| #[trigger] out@.contains(n) <==> exists|j: int|
                0 <= j < i + 1 && (#[trigger] all[j]).name == n && has_own_cause(
                    all[j].causes,
                ) by {
                assert(before.contains(n) <==> out@.contains(n));
            }
        }
        i += 1;
    }
    out
}

/// Appends the relations that the causes of a project give.
fn push_relations(name: &str, causes: &Vec<AffectCause>, out: &mut Vec<Relation>)
    ensures
        final(out).deep_view() == old(out).deep_view() + relations_of(name@, causes.deep_view()),
{
    let ghost start = out.deep_view();
    let ghost all = causes.deep_view();
    let mut i: usize = 0;
    assert(all.take(0) =~= Seq::<AffectCauseView>::empty());
    assert(out.deep_view() =~= start + Seq::<RelationView>::empty());
    while i < causes.len()
        invariant
            i <= causes.len(),
            all == causes.deep_view(),
            out.deep_view() == start + relations_of(name@, all.take(i as int)),
        decreases causes.len() - i,
    {
        assert(all.take(i + 1).drop_last() =~= all.take(i as int));
        assert(all.take(i + 1).last() == causes@[i as int].deep_view());
        let ghost before = out.deep_view();
        let ghost done = relations_of(name@, all.take(i as int));
        match &causes[i] {
            AffectCause::ImportedSymbol { source_project, .. } => {
                let relation = Relation {
                    source: source_project.clone(),
                    target: name.to_owned(),
                    implicit: false,
                };
                let ghost view = relation.deep_view();
                out.push(relation);
                assert(out.deep_view() =~= before.push(view));
                assert(out.deep_view() =~= start + done.push(view));
            },
            AffectCause::ImplicitDependency { depends_on } => {
                let relation = Relation {
                    source: depends_on.clone(),
                    target: name.to_owned(),
                    implicit: true,
                };
                let ghost view = relation.deep_view();
                out.push(relation);
                assert(out.deep_view() =~= before.push(view));
                assert(out.deep_view() =~= start + done.push(view));
            },
            _ => {},
        }
        i += 1;
    }
    assert(all.take(i as int) =~= all);
}

/// The relations between projects.
fn collect_relations(projects: &Vec<AffectedProjectInfo>) -> (r: Vec<Relation>)
    ensures
        r.deep_view() == relations_in(projects.deep_view()),
{
    let ghost all = projects.deep_view();
    let mut out: Vec<Relation> = Vec::new();
    let mut i: usize = 0;
    assert(all.take(0) =~= Seq::<AffectedProjectView>::empty());
    assert(out.deep_view() =~= Seq::<RelationView>::empty());
    while i < projects.len()
        invariant
            i <= projects.len(),
            all == projects.deep_view(),
            out.deep_view() == relations_in(all.take(i as int)),
        decreases projects.len() - i,
    {
        assert(all.take(i + 1).drop_last() =~= all.take(i as int));
        assert(all.take(i + 1).last() == projects@[i as int].deep_view());
        push_relations(projects[i].name.as_str(), &projects[i].causes, &mut out);
        i += 1;
    }
    assert(all.take(i as int) =~= all);
    out
}

/// The node of a project.
fn write_node(name: &str, direct: bool) -> (r: String)
    ensures
        r@ == node_text(name@, direct),
{
    let mut out = "{ data: { id: ".to_owned();
    out.append(escape::js_str(escape::sanitize_node_id(name).as_str()).as_str());
    out.append(", label: ");
    out.append(escape::js_str(name).as_str());
    out.append(", type: ");
    if direct {
        out.append(escape::js_str("direct").as_str());
    } else {
        out.append(escape::js_str("affected").as_str());
    }
    out.append(" } }");
    out
}

/// The nodes of all projects.
fn write_nodes(projects: &Vec<AffectedProjectInfo>) -> (r: Vec<String>)
    ensures
        r.deep_view() == nodes_of(projects.deep_view()),
{
    let ghost all = projects.deep_view();
    let direct = direct_names(projects);
    let mut out: Vec<String> = Vec::new();
    let mut i: usize = 0;
    assert(out.deep_view() =~= nodes_of(all).take(0));
    while i < projects.len()
        invariant
            i <= projects.len(),
            all == projects.deep_view(),
            forall|n: Text| #[trigger] direct@.contains(n) <==> is_direct_name(all, n),
            out.deep_view() == nodes_of(all).take(i as int),
        decreases projects.len() - i,
    {
        let ghost before = out.deep_view();
        assert(all[i as int] == projects@[i as int].deep_view());
        let name = projects[i].name.as_str();
        let node = write_node(name, direct.contains(name));
        let ghost view = node@;
        out.push(node);
        assert(out.deep_view() =~= before.push(view));
        assert(nodes_of(all).take(i + 1) =~= nodes_of(all).take(i as int).push(view));
        i += 1;
    }
    assert(nodes_of(all).take(i as int) =~= nodes_of(all));
    out
}

/// The ids of the nodes.
fn node_ids(projects: &Vec<AffectedProjectInfo>) -> (r: StringSet)
    ensures
        forall|id: Text| #[trigger] r@.contains(id) <==> is_node(projects.deep_view(), id),
{
    let ghost all = projects.deep_view();
    let mut out = StringSet::new();
    let mut i: usize = 0;
    while i < projects.len()
        invariant
            i <= projects.len(),
            all == projects.deep_view(),
            forall|id: Text| #[trigger]
                out@.contains(id) <==> exists|j: int|
                    0 <= j < i && id == node_id((#[trigger] all[j]).name),
        decreases projects.len() - i,
    {
        let ghost before = out@;
        assert(all[i as int] == projects@[i as int].deep_view());
        let id = escape::sanitize_node_id(projects[i].name.as_str());
        let ghost view = id@;
        out.insert(id);
        assert forall|x: Text| #[trigger] out@.contains(x) <==> exists|j: int|
            0 <= j < i + 1 && x == node_id((#[trigger] all[j]).name) by {
            assert(before.contains(x) ==> out@.contains(x));
            if x == view {
                assert(x == node_id(all[i as int].name));
            }
        }
        i += 1;
    }
    out
}

/// The sources of relations, each once, in order.
fn distinct_sources(relations: &Vec<Relation>) -> (r: StringSet)
    ensures
        r.order() == sources_in(relations.deep_view()),
{
    let ghost all = relations.deep_view();
    let mut out = StringSet::new();
    let mut i: usize = 0;
    assert(all.take(0) =~= Seq::<RelationView>::empty());
    while i < relations.len()
        invariant
            i <= relations.len(),
            all == relations.deep_view(),
            out.order() == sources_in(all.take(i as int)),
        decreases relations.len() - i,
    {
        assert(all.take(i + 1).drop_last() =~= all.take(i as int));
        assert(all.take(i + 1).last() == relations@[i as int].deep_view());
        out.check_order();
        assert(out@.contains(relations@[i as int].source@) <==> out.order().contains(
            relations@[i as int].source@,
        ));
        out.insert(relations[i].source.clone());
        i += 1;
    }
    assert(all.take(i as int) =~= all);
    out
}

/// The targets of relations, each once, in order.
fn distinct_targets(relations: &Vec<Relation>) -> (r: StringSet)
    ensures
        r.order() == targets_in(relations.deep_view()),
{
    let ghost all = relations.deep_view();
    let mut out = StringSet::new();
    let mut i: usize = 0;
    assert(all.take(0) =~= Seq::<RelationView>::empty());
    while i < relations.len()
        invariant
            i <= relations.len(),
            all == relations.deep_view(),
            out.order() == targets_in(all.take(i as int)),
        decreases relations.len() - i,
    {
        assert(all.take(i + 1).drop_last() =~= all.take(i as int));
        assert(all.take(i + 1).last() == relations@[i as int].deep_view());
        out.check_order();
        assert(out@.contains(relations@[i as int].target@) <==> out.order().contains(
            relations@[i as int].target@,
        ));
        out.insert(relations[i].target.clone());
        i += 1;
    }
    assert(all.take(i as int) =~= all);
    out
}

/// The relations with the source.
fn group_of(relations: &Vec<Relation>, source: &str) -> (r: Vec<Relation>)
    ensures
        r.deep_view() == with_source(relations.deep_view(), source@),
{
    let ghost all = relations.deep_view();
    let mut out: Vec<Relation> = Vec::new();
    let mut i: usize = 0;
    assert(all.take(0) =~= Seq::<RelationView>::empty());
    assert(out.deep_view() =~= Seq::<RelationView>::empty());
    while i < relations.len()
        invariant
            i <= relations.len(),
            all == relations.deep_view(),
            out.deep_view() == with_source(all.take(i as int), source@),
        decreases relations.len() - i,
    {
        assert(all.take(i + 1).drop_last() =~= all.take(i as int));
        assert(all.take(i + 1).last() == relations@[i as int].deep_view());
        let relation = &relations[i];
        if text::same(relation.source.as_str(), source) {
            let ghost before = out.deep_view();
            out.push(
                Relation {
                    source: relation.source.clone(),
                    target: relation.target.clone(),
                    implicit: relation.implicit,
                },
            );
            assert(out.deep_view() =~= before.push(relation.deep_view()));
        }
        i += 1;
    }
    assert(all.take(i as int) =~= all);
    out
}

/// How many relations have the target, and are implicit or not.
fn count_relations(relations: &Vec<Relation>, target: &str, implicit: bool) -> (r: usize)
    ensures
        r == count_to(relations.deep_view(), target@, implicit),
{
    let ghost all = relations.deep_view();
    let mut n: usize = 0;
    let mut i: usize = 0;
    assert(all.take(0) =~= Seq::<RelationView>::empty());
    while i < relations.len()
        invariant
            i <= relations.len(),
            n <= i,
            all == relations.deep_view(),
            n == count_to(all.take(i as int), target@, implicit),
        decreases relations.len() - i,
    {
        assert(all.take(i + 1).drop_last() =~= all.take(i as int));
        assert(all.take(i + 1).last() == relations@[i as int].deep_view());
        if text::same(relations[i].target.as_str(), target) && relations[i].implicit == implicit {
            n += 1;
        }
        i += 1;
    }
    assert(all.take(i as int) =~= all);
    n
}

/// The edge between two projects.
fn write_edge(source: &str, target: &str, implicit: usize, imports: usize) -> (r: String)
    ensures
        r@ == edge_text(source@, target@, implicit as nat, imports as nat),
{
    let mut out = "{ data: { source: ".to_owned();
    out.append(escape::js_str(escape::sanitize_node_id(source).as_str()).as_str());
    out.append(", target: ");
    out.append(escape::js_str(escape::sanitize_node_id(target).as_str()).as_str());
    if implicit > 0 {
        out.append(", label: \"implicit\", type: \"implicit\" } }");
    } else {
        out.append(", label: ");
        let label = if imports == 1 {
            "1 import".to_owned()
        } else {
            text::cat(text::decimal_of(imports as u64).as_str(), " imports")
        };
        out.append(escape::js_str(label.as_str()).as_str());
        out.append(" } }");
    }
    out
}

/// Appends the edges from one source to targets that have nodes.
fn push_edges(
    projects: &Vec<AffectedProjectInfo>,
    ids: &StringSet,
    relations: &Vec<Relation>,
    source: &str,
    out: &mut Vec<String>,
)
    requires
        forall|id: Text| #[trigger] ids@.contains(id) <==> is_node(projects.deep_view(), id),
    ensures
        final(out).deep_view() == old(out).deep_view() + edges_from(
            projects.deep_view(),
            source@,
            with_source(relations.deep_view(), source@),
            targets_in(with_source(relations.deep_view(), source@)),
        ),
{
    let ghost start = out.deep_view();
    let ghost all = projects.deep_view();
    let group = group_of(relations, source);
    let ghost group_view = group.deep_view();
    let targets = distinct_targets(&group);
    let ghost names = targets.order();
    let mut i: usize = 0;
    assert(names.take(0) =~= Seq::<Text>::empty());
    assert(out.deep_view() =~= start + Seq::<Text>::empty());
    while i < targets.len()
        invariant
            i <= names.len(),
            names == targets.order(),
            all == projects.deep_view(),
            group_view == group.deep_view(),
            forall|id: Text| #[trigger] ids@.contains(id) <==> is_node(all, id),
            out.deep_view() == start + edges_from(
                all,
                source@,
                group_view,
                names.take(i as int),
            ),
        decreases names.len() - i,
    {
        assert(names.take(i + 1).drop_last() =~= names.take(i as int));
        let target = targets.at(i);
        let ghost before = out.deep_view();
        let ghost done = edges_from(all, source@, group_view, names.take(i as int));
        if ids.contains(escape::sanitize_node_id(target).as_str()) {
            let imports: usize = count_relations(&group, target, false);
            let implicit: usize = count_relations(&group, target, true);
            let edge = write_edge(source, target, implicit, imports);
            let ghost view = edge@;
            out.push(edge);
            assert(out.deep_view() =~= before.push(view));
            assert(out.deep_view() =~= start + done.push(view));
        }
        i += 1;
    }
    assert(names.take(i as int) =~= names);
}

/// The edges between projects that have nodes.
fn write_edges(projects: &Vec<AffectedProjectInfo>) -> (r: Vec<String>)
    ensures
        r.deep_view() == edges_of(
            projects.deep_view(),
            relations_in(projects.deep_view()),
            sources_in(relations_in(projects.deep_view())),
        ),
{
    let ghost all = projects.deep_view();
    let ids = node_ids(projects);
    let relations = collect_relations(projects);
    let ghost relations_view = relations.deep_view();
    let sources = distinct_sources(&relations);
    let ghost names = sources.order();
    let mut out: Vec<String> = Vec::new();
    let mut i: usize = 0;
    assert(names.take(0) =~= Seq::<Text>::empty());
    assert(out.deep_view() =~= Seq::<Text>::empty());
    while i < sources.len()
        invariant
            i <= names.len(),
            names == sources.order(),
            all == projects.deep_view(),
            relations_view == relations.deep_view(),
            forall|id: Text| #[trigger] ids@.contains(id) <==> is_node(all, id),
            out.deep_view() == edges_of(all, relations_view, names.take(i as int)),
        decreases names.len() - i,
    {
        assert(names.take(i + 1).drop_last() =~= names.take(i as int));
        let source = sources.at(i);
        if ids.contains(escape::sanitize_node_id(source).as_str()) {
            push_edges(projects, &ids, &relations, source, &mut out);
        }
        i += 1;
    }
    assert(names.take(i as int) =~= names);
    out
}

/// The graph of the affected projects.
pub fn generate_cytoscape_data(report: &AffectedReport) -> (r: String)
    ensures
        r@ == graph_text(report.projects.deep_view()),
{
    let nodes = write_nodes(&report.projects);
    let edges = write_edges(&report.projects);
    let mut out = "{ nodes: [".to_owned();
    out.append(text::join(&nodes, ", ").as_str());
    out.append("], edges: [");
    out.append(text::join(&edges, ", ").as_str());
    out.append("] }");
    out
}

// ---------------------------------------------------------------------------
// What holds of all graphs
// ---------------------------------------------------------------------------

/// The edge joins two projects that both have nodes.
pub open spec fn joins_nodes(projects: Seq<AffectedProjectView>, edge: Text) -> bool {
    exists|source: Text, target: Text, implicit: nat, imports: nat|
        is_node(projects, node_id(source)) && is_node(projects, node_id(target)) && edge
            == #[trigger] edge_text(source, target, implicit, imports)
}

/// No edge leads out of the graph: both ends are affected projects.
pub proof fn lemma_edges_within(
    projects: Seq<AffectedProjectView>,
    relations: Seq<RelationView>,
    sources: Seq<Text>,
    i: int,
)
    requires
        0 <= i < edges_of(projects, relations, sources).len(),
    ensures
        joins_nodes(projects, edges_of(projects, relations, sources)[i]),
    decreases sources.len(),
{
    let before = edges_of(projects, relations, sources.drop_last());
    let source = sources.last();
    let group = with_source(relations, source);
    if i < before.len() {
        lemma_edges_within(projects, relations, sources.drop_last(), i);
        assert(edges_of(projects, relations, sources)[i] == before[i]);
    } else {
        lemma_edges_from_within(projects, source, group, targets_in(group), i - before.len());
    }
}

proof fn lemma_edges_from_within(
    projects: Seq<AffectedProjectView>,
    source: Text,
    group: Seq<RelationView>,
    targets: Seq<Text>,
    i: int,
)
    requires
        is_node(projects, node_id(source)),
        0 <= i < edges_from(projects, source, group, targets).len(),
    ensures
        joins_nodes(projects, edges_from(projects, source, group, targets)[i]),
    decreases targets.len(),
{
    let before = edges_from(projects, source, group, targets.drop_last());
    if i < before.len() {
        lemma_edges_from_within(projects, source, group, targets.drop_last(), i);
        assert(edges_from(projects, source, group, targets)[i] == before[i]);
    } else {
        let target = targets.last();
        assert(edges_from(projects, source, group, targets)[i] == edge_text(
            source,
            target,
            count_to(group, target, true),
            count_to(group, target, false),
        ));
    }
}

} // verus!
