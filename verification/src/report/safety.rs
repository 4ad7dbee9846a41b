//! What is put inside a script cannot end it.

use crate::json::json_quoted;
use crate::report::escape;
use crate::report::escape::{script_safe, script_string};
use crate::report::graph::{
    count_to, edge_text, edges_from, edges_of, graph_text, imports_label, is_direct_name, node_text,
    nodes_of, relations_in, sources_in, targets_in, with_source, RelationView,
};
use crate::report::metadata::{metadata_text, report_json};
use crate::text::{contains_text, joined, occurs_at, Text};
use crate::types::{AffectedProjectView, AffectedReportView};
use vstd::prelude::*;

verus! {

/// The text holds no `</`, nor can one arise where it meets another such text.
pub open spec fn is_tame(s: Text) -> bool {
    !contains_text(s, "</"@) && (s.len() > 0 ==> s[0] != '/' && s.last() != '<')
}

proof fn lemma_tame_add(a: Text, b: Text)
    requires
        is_tame(a),
        is_tame(b),
    ensures
        is_tame(a + b),
{
    let p = "</"@;
    reveal_strlit("</");
    let all = a + b;
    assert forall|k: int| !#[trigger] occurs_at(all, p, k) by {
        if occurs_at(all, p, k) {
            assert(all[k] == all.subrange(k, k + 2)[0]);
            assert(all[k + 1] == all.subrange(k, k + 2)[1]);
            if k + 1 < a.len() {
                assert(a.subrange(k, k + 2) =~= p);
                assert(occurs_at(a, p, k));
            } else if k >= a.len() {
                assert(b.subrange(k - a.len(), k - a.len() + 2) =~= p);
                assert(occurs_at(b, p, k - a.len()));
            } else {
                assert(a.last() == '<');
            }
        }
    }
    if all.len() > 0 {
        if a.len() > 0 {
            assert(all[0] == a[0]);
        } else {
            assert(all[0] == b[0]);
        }
        if b.len() > 0 {
            assert(all.last() == b.last());
        } else {
            assert(all.last() == a.last());
        }
    }
}

/// A text without `<` and without a slash at its start is tame.
proof fn lemma_plain_tame(s: Text)
    requires
        forall|i: int| 0 <= i < s.len() ==> #[trigger] s[i] != '<',
        s.len() > 0 ==> s[0] != '/',
    ensures
        is_tame(s),
{
    let p = "</"@;
    reveal_strlit("</");
    assert forall|k: int| !#[trigger] occurs_at(s, p, k) by {
        if occurs_at(s, p, k) {
            assert(s[k] == s.subrange(k, k + 2)[0]);
        }
    }
}

proof fn lemma_script_safe_last(s: Text)
    requires
        s.len() > 0,
    ensures
        script_safe(s).len() > 0,
        script_safe(s).last() == s.last(),
    decreases s.len(),
{
    reveal_strlit("</");
    reveal_strlit("<\\/");
    let p = "</"@;
    if s.len() < 2 {
    } else if s.subrange(0, 2) == p {
        assert(s.subrange(0, 2)[1] == s[1]);
        let tail = s.skip(2);
        if tail.len() > 0 {
            lemma_script_safe_last(tail);
            assert(tail.last() == s.last());
        } else {
            assert(script_safe(tail) =~= tail);
        }
    } else {
        lemma_script_safe_last(s.skip(1));
        assert(s.skip(1).last() == s.last());
    }
}

/// A string literal inside a script is tame.
pub proof fn lemma_script_string_tame(s: Text)
    ensures
        is_tame(script_string(s)),
{
    let quoted = json_quoted(s);
    assert(quoted[0] == '"');
    assert(quoted.last() == '"');
    escape::lemma_script_safe(quoted);
    lemma_script_safe_last(quoted);
}

proof fn lemma_joined_tame(parts: Seq<Text>)
    requires
        forall|i: int| 0 <= i < parts.len() ==> is_tame(#[trigger] parts[i]),
    ensures
        is_tame(joined(parts, ", "@)),
    decreases parts.len(),
{
    reveal_strlit(", ");
    lemma_plain_tame(", "@);
    if parts.len() == 0 {
        lemma_plain_tame(joined(parts, ", "@));
    } else if parts.len() == 1 {
        assert(is_tame(parts[0]));
    } else {
        let init = parts.drop_last();
        assert forall|i: int| 0 <= i < init.len() implies is_tame(#[trigger] init[i]) by {
            assert(init[i] == parts[i]);
        }
        lemma_joined_tame(init);
        assert(is_tame(parts[parts.len() - 1]));
        lemma_tame_add(joined(init, ", "@), ", "@);
        lemma_tame_add(joined(init, ", "@) + ", "@, parts.last());
    }
}

proof fn lemma_node_tame(name: Text, direct: bool)
    ensures
        is_tame(node_text(name, direct)),
{
    let id = escape::node_id(name);
    let kind = if direct {
        "direct"@
    } else {
        "affected"@
    };
    reveal_strlit("{ data: { id: ");
    reveal_strlit(", label: ");
    reveal_strlit(", type: ");
    reveal_strlit(" } }");
    lemma_plain_tame("{ data: { id: "@);
    lemma_plain_tame(", label: "@);
    lemma_plain_tame(", type: "@);
    lemma_plain_tame(" } }"@);
    lemma_script_string_tame(id);
    lemma_script_string_tame(name);
    lemma_script_string_tame(kind);
    let a = "{ data: { id: "@ + script_string(id);
    lemma_tame_add("{ data: { id: "@, script_string(id));
    lemma_tame_add(a, ", label: "@);
    let b = a + ", label: "@;
    lemma_tame_add(b, script_string(name));
    let c = b + script_string(name);
    lemma_tame_add(c, ", type: "@);
    let d = c + ", type: "@;
    lemma_tame_add(d, script_string(kind));
    lemma_tame_add(d + script_string(kind), " } }"@);
}

proof fn lemma_edge_tame(source: Text, target: Text, implicit: nat, imports: nat)
    ensures
        is_tame(edge_text(source, target, implicit, imports)),
{
    let from = escape::node_id(source);
    let to = escape::node_id(target);
    reveal_strlit("{ data: { source: ");
    reveal_strlit(", target: ");
    reveal_strlit(", label: ");
    reveal_strlit(" } }");
    reveal_strlit(", label: \"implicit\", type: \"implicit\" } }");
    lemma_plain_tame("{ data: { source: "@);
    lemma_plain_tame(", target: "@);
    lemma_plain_tame(", label: "@);
    lemma_plain_tame(" } }"@);
    lemma_plain_tame(", label: \"implicit\", type: \"implicit\" } }"@);
    lemma_script_string_tame(from);
    lemma_script_string_tame(to);
    lemma_script_string_tame(imports_label(imports));
    let a = "{ data: { source: "@ + script_string(from);
    lemma_tame_add("{ data: { source: "@, script_string(from));
    lemma_tame_add(a, ", target: "@);
    let b = a + ", target: "@;
    lemma_tame_add(b, script_string(to));
    let c = b + script_string(to);
    lemma_tame_add(c, ", label: \"implicit\", type: \"implicit\" } }"@);
    lemma_tame_add(c, ", label: "@);
    let d = c + ", label: "@;
    lemma_tame_add(d, script_string(imports_label(imports)));
    lemma_tame_add(d + script_string(imports_label(imports)), " } }"@);
}

proof fn lemma_edges_from_tame(
    projects: Seq<AffectedProjectView>,
    source: Text,
    group: Seq<RelationView>,
    targets: Seq<Text>,
)
    ensures
        forall|i: int|
            0 <= i < edges_from(projects, source, group, targets).len() ==> is_tame(
                #[trigger] edges_from(projects, source, group, targets)[i],
            ),
    decreases targets.len(),
{
    if targets.len() > 0 {
        lemma_edges_from_tame(projects, source, group, targets.drop_last());
        let target = targets.last();
        lemma_edge_tame(
            source,
            target,
            count_to(group, target, true),
            count_to(group, target, false),
        );
        let all = edges_from(projects, source, group, targets);
        let before = edges_from(projects, source, group, targets.drop_last());
        assert forall|i: int| 0 <= i < all.len() implies is_tame(#[trigger] all[i]) by {
            if i < before.len() {
                assert(all[i] == before[i]);
            }
        }
    }
}

proof fn lemma_edges_of_tame(
    projects: Seq<AffectedProjectView>,
    relations: Seq<RelationView>,
    sources: Seq<Text>,
)
    ensures
        forall|i: int|
            0 <= i < edges_of(projects, relations, sources).len() ==> is_tame(
                #[trigger] edges_of(projects, relations, sources)[i],
            ),
    decreases sources.len(),
{
    if sources.len() > 0 {
        let init = sources.drop_last();
        lemma_edges_of_tame(projects, relations, init);
        let group = with_source(relations, sources.last());
        let more = edges_from(projects, sources.last(), group, targets_in(group));
        lemma_edges_from_tame(projects, sources.last(), group, targets_in(group));
        let all = edges_of(projects, relations, sources);
        let before = edges_of(projects, relations, init);
        assert forall|i: int| 0 <= i < all.len() implies is_tame(#[trigger] all[i]) by {
            if i < before.len() {
                assert(all[i] == before[i]);
            } else {
                assert(all[i] == more[i - before.len()]);
            }
        }
    }
}

/// The graph cannot end the script that it stands in, whatever the projects are named.
pub proof fn lemma_graph_safe(projects: Seq<AffectedProjectView>)
    ensures
        !contains_text(graph_text(projects), "</"@),
{
    let relations = relations_in(projects);
    let nodes = nodes_of(projects);
    let edges = edges_of(projects, relations, sources_in(relations));
    assert forall|i: int| 0 <= i < nodes.len() implies is_tame(#[trigger] nodes[i]) by {
        lemma_node_tame(
            projects[i].name,
            is_direct_name(projects, projects[i].name),
        );
    }
    lemma_edges_of_tame(projects, relations, sources_in(relations));
    lemma_joined_tame(nodes);
    lemma_joined_tame(edges);
    reveal_strlit("{ nodes: [");
    reveal_strlit("], edges: [");
    reveal_strlit("] }");
    lemma_plain_tame("{ nodes: ["@);
    lemma_plain_tame("], edges: ["@);
    lemma_plain_tame("] }"@);
    let a = "{ nodes: ["@ + joined(nodes, ", "@);
    lemma_tame_add("{ nodes: ["@, joined(nodes, ", "@));
    lemma_tame_add(a, "], edges: ["@);
    let b = a + "], edges: ["@;
    lemma_tame_add(b, joined(edges, ", "@));
    lemma_tame_add(b + joined(edges, ", "@), "] }"@);
}

/// The report inside its element cannot end it: between the tags there is no `</`.
pub proof fn lemma_metadata_safe(r: AffectedReportView)
    ensures
        exists|inside: Text|
            metadata_text(r) == "<script type=\"application/json\" id=\"domino-meta\">"@ + inside
                + "</script>"@ && !#[trigger] contains_text(inside, "</"@),
{
    let inside = script_safe(report_json(r));
    escape::lemma_script_safe(report_json(r));
    assert(!contains_text(inside, "</"@));
}

} // verus!
