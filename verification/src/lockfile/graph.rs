//! Who depends on whom, and what changed.

use crate::collections::{StringMap, StringSet};
use crate::lockfile::data::{package_views, LockfileData, LockfileView, PackageInfo, PackageView};
use crate::lockfile::keys;
use crate::lockfile::keys::package_name;
use crate::text;
use crate::text::Text;
use vstd::prelude::*;

verus! {

// ---------------------------------------------------------------------------
// The reverse dependency graph
// ---------------------------------------------------------------------------

/// A graph as seen by the views of its sets.
pub open spec fn parents_of(graph: Map<Text, StringSet>) -> Map<Text, Set<Text>> {
    graph.map_values(|s: StringSet| s@)
}

/// `b` is a parent of `a`.
pub open spec fn is_parent(graph: Map<Text, Set<Text>>, a: Text, b: Text) -> bool {
    graph.contains_key(a) && graph[a].contains(b)
}

/// Every package that the graph holds has a parent.
pub open spec fn all_have_parents(graph: Map<Text, StringSet>) -> bool {
    forall|a: Text| #[trigger]
        graph.contains_key(a) ==> exists|b: Text| is_parent(parents_of(graph), a, b)
}

/// Some package named `b` in the lockfile depends on `a`.
pub open spec fn depends(packages: Map<Text, PackageView>, b: Text, a: Text) -> bool {
    exists|key: Text|
        packages.contains_key(key) && package_name(key) == b
            && #[trigger] packages[key].dependencies.contains_key(a)
}

/// Adds `parent` to the parents of `child`.
fn add_parent(graph: &mut StringMap<StringSet>, child: &str, parent: &str)
    ensures
        forall|a: Text, b: Text| #[trigger]
            is_parent(parents_of(final(graph)@), a, b) <==> is_parent(
                parents_of(old(graph)@),
                a,
                b,
            ) || (a == child@ && b == parent@),
        all_have_parents(old(graph)@) ==> all_have_parents(final(graph)@),
{
    let ghost before = graph@;
    let mut parents = match graph.insert(child.to_owned(), StringSet::new()) {
        Some(set) => set,
        None => StringSet::new(),
    };
    let ghost known = parents@;
    parents.insert(parent.to_owned());
    graph.insert(child.to_owned(), parents);
    proof {
        assert forall|a: Text, b: Text| #[trigger] is_parent(parents_of(graph@), a, b) <==> is_parent(
            parents_of(before),
            a,
            b,
        ) || (a == child@ && b == parent@) by {
            if a == child@ {
                assert(parents_of(graph@)[a] == known.insert(parent@));
                if before.contains_key(a) {
                    assert(known == before[a]@);
                } else {
                    assert(known =~= Set::<Text>::empty());
                }
            } else {
                assert(parents_of(graph@).contains_key(a) == parents_of(before).contains_key(a));
            }
        }
        if all_have_parents(before) {
            assert forall|a: Text| #[trigger] graph@.contains_key(a) implies exists|b: Text|
                is_parent(parents_of(graph@), a, b) by {
                if a == child@ {
                    assert(is_parent(parents_of(graph@), a, parent@));
                } else {
                    assert(before.contains_key(a));
                    let b = choose|b: Text| is_parent(parents_of(before), a, b);
                    assert(is_parent(parents_of(graph@), a, b));
                }
            }
        }
    }
}

/// For each package the packages that depend on it, all by their bare names.
pub fn build_reverse_dep_graph(data: &LockfileData) -> (r: StringMap<StringSet>)
    ensures
        forall|a: Text, b: Text| #[trigger]
            is_parent(parents_of(r@), a, b) <==> depends(package_views(data.packages@), b, a),
        all_have_parents(r@),
{
    let packages = &data.packages;
    packages.check_order();
    let ghost views = package_views(packages@);
    let ghost order = packages.order();
    let mut reverse: StringMap<StringSet> = StringMap::new();
    let mut i: usize = 0;
    while i < packages.len()
        invariant
            i <= order.len(),
            order == packages.order(),
            packages.ordered(),
            views == package_views(packages@),
            all_have_parents(reverse@),
            forall|a: Text, b: Text| #[trigger]
                is_parent(parents_of(reverse@), a, b) <==> exists|k: int|
                    0 <= k < i && package_name(order[k]) == b
                        && #[trigger] views[order[k]].dependencies.contains_key(a),
        decreases order.len() - i,
    {
        let key = packages.key_at(i);
        let parent_name = keys::package_name_from_key(key);
        let info = packages.value_at(i);
        let deps = &info.dependencies;
        deps.check_order();
        let ghost names = deps.order();
        let ghost before = parents_of(reverse@);
        assert(views[order[i as int]] == info.deep_view());
        let mut j: usize = 0;
        while j < deps.len()
            invariant
                j <= names.len(),
                names == deps.order(),
                all_have_parents(reverse@),
                forall|a: Text, b: Text| #[trigger]
                    is_parent(parents_of(reverse@), a, b) <==> is_parent(before, a, b) || (b
                        == parent_name@ && exists|m: int| 0 <= m < j && #[trigger] names[m] == a),
            decreases names.len() - j,
        {
            let ghost mid = parents_of(reverse@);
            let dep_name = deps.key_at(j);
            add_parent(&mut reverse, dep_name, parent_name);
            proof {
                assert forall|a: Text, b: Text| #[trigger]
                    is_parent(parents_of(reverse@), a, b) <==> is_parent(before, a, b) || (b
                        == parent_name@ && exists|m: int|
                        0 <= m < j + 1 && #[trigger] names[m] == a) by {
                    assert(is_parent(mid, a, b) <==> is_parent(before, a, b) || (b == parent_name@
                        && exists|m: int| 0 <= m < j && #[trigger] names[m] == a));
                    if a == dep_name@ && b == parent_name@ {
                        assert(names[j as int] == a);
                    }
                }
            }
            j += 1;
        }
        proof {
            assert forall|a: Text, b: Text| #[trigger]
                is_parent(parents_of(reverse@), a, b) <==> exists|k: int|
                    0 <= k < i + 1 && package_name(order[k]) == b
                        && #[trigger] views[order[k]].dependencies.contains_key(a) by {
                assert(is_parent(before, a, b) <==> exists|k: int|
                    0 <= k < i && package_name(order[k]) == b
                        && #[trigger] views[order[k]].dependencies.contains_key(a));
                let here = views[order[i as int]].dependencies;
                assert(here.contains_key(a) <==> names.contains(a));
                if b == parent_name@ && exists|m: int| 0 <= m < j && #[trigger] names[m] == a {
                    let m = choose|m: int| 0 <= m < j && #[trigger] names[m] == a;
                    assert(names.contains(a));
                    assert(package_name(order[i as int]) == b);
                }
                if exists|k: int|
                    0 <= k < i + 1 && package_name(order[k]) == b
                        && #[trigger] views[order[k]].dependencies.contains_key(a) {
                    let k = choose|k: int|
                        0 <= k < i + 1 && package_name(order[k]) == b
                            && #[trigger] views[order[k]].dependencies.contains_key(a);
                    if k == i {
                        assert(names.contains(a));
                    }
                }
            }
        }
        i += 1;
    }
    proof {
        assert forall|a: Text, b: Text| #[trigger]
            is_parent(parents_of(reverse@), a, b) <==> depends(views, b, a) by {
            if is_parent(parents_of(reverse@), a, b) {
                let k = choose|k: int|
                    0 <= k < i && package_name(order[k]) == b
                        && #[trigger] views[order[k]].dependencies.contains_key(a);
                assert(order.contains(order[k]));
                assert(views.contains_key(order[k]));
            }
            if depends(views, b, a) {
                let key = choose|key: Text|
                    views.contains_key(key) && package_name(key) == b
                        && #[trigger] views[key].dependencies.contains_key(a);
                assert(packages@.contains_key(key));
                assert(order.contains(key));
                let k = choose|k: int| 0 <= k < order.len() && order[k] == key;
                assert(views[order[k]].dependencies.contains_key(a));
            }
        }
    }
    reverse
}

// ---------------------------------------------------------------------------
// From changed packages up to direct dependencies
// ---------------------------------------------------------------------------

/// A way up the graph: each package is a parent of the one before it, and only the last may be a
/// direct dependency.
pub open spec fn climbs(graph: Map<Text, Set<Text>>, direct: Set<Text>, path: Seq<Text>) -> bool {
    &&& path.len() > 0
    &&& forall|i: int|
        0 <= i < path.len() - 1 ==> !direct.contains(#[trigger] path[i]) && is_parent(
            graph,
            path[i],
            path[i + 1],
        )
}

/// There is a way up from `a` to `b`.
pub open spec fn leads_to(
    graph: Map<Text, Set<Text>>,
    direct: Set<Text>,
    a: Text,
    b: Text,
) -> bool {
    exists|path: Seq<Text>| #[trigger]
        climbs(graph, direct, path) && path[0] == a && path.last() == b
}

/// The direct dependencies that a change of some packages affects: those that a way up from a
/// changed package meets first.
pub open spec fn affected_direct(
    changed: Set<Text>,
    graph: Map<Text, Set<Text>>,
    direct: Set<Text>,
) -> Set<Text> {
    Set::new(
        |d: Text|
            direct.contains(d) && exists|p: Text| #[trigger]
                changed.contains(p) && leads_to(graph, direct, p, d),
    )
}

proof fn lemma_leads_to_self(graph: Map<Text, Set<Text>>, direct: Set<Text>, a: Text)
    ensures
        leads_to(graph, direct, a, a),
{
    let path = seq![a];
    assert(climbs(graph, direct, path) && path[0] == a && path.last() == a);
}

proof fn lemma_leads_on(
    graph: Map<Text, Set<Text>>,
    direct: Set<Text>,
    a: Text,
    b: Text,
    c: Text,
)
    requires
        leads_to(graph, direct, a, b),
        !direct.contains(b),
        is_parent(graph, b, c),
    ensures
        leads_to(graph, direct, a, c),
{
    let path = choose|path: Seq<Text>| #[trigger]
        climbs(graph, direct, path) && path[0] == a && path.last() == b;
    let longer = path.push(c);
    assert forall|i: int| 0 <= i < longer.len() - 1 implies !direct.contains(#[trigger] longer[i])
        && is_parent(graph, longer[i], longer[i + 1]) by {
        if i < path.len() - 1 {
            assert(longer[i] == path[i] && longer[i + 1] == path[i + 1]);
        }
    }
    assert(climbs(graph, direct, longer) && longer[0] == a && longer.last() == c);
}

/// The parents of a package in `seen` are in `seen` themselves or, if direct, in `found`.
spec fn settled(
    graph: Map<Text, Set<Text>>,
    direct: Set<Text>,
    found: Set<Text>,
    seen: Set<Text>,
    v: Text,
) -> bool {
    forall|b: Text| #[trigger]
        is_parent(graph, v, b) ==> if direct.contains(b) {
            found.contains(b)
        } else {
            seen.contains(b)
        }
}

/// Once every package that was seen is settled, every way up ends in `found`.
proof fn lemma_settled(
    graph: Map<Text, Set<Text>>,
    direct: Set<Text>,
    found: Set<Text>,
    seen: Set<Text>,
    a: Text,
    d: Text,
)
    requires
        seen.contains(a),
        !direct.contains(a),
        forall|v: Text| #[trigger] seen.contains(v) ==> settled(graph, direct, found, seen, v),
        direct.contains(d),
        leads_to(graph, direct, a, d),
    ensures
        found.contains(d),
{
    let path = choose|path: Seq<Text>| #[trigger]
        climbs(graph, direct, path) && path[0] == a && path.last() == d;
    lemma_path_seen(graph, direct, found, seen, path, path.len() - 2);
    let v = path[path.len() - 2];
    assert(settled(graph, direct, found, seen, v));
    assert(is_parent(graph, v, path[path.len() - 2 + 1]));
}

proof fn lemma_path_seen(
    graph: Map<Text, Set<Text>>,
    direct: Set<Text>,
    found: Set<Text>,
    seen: Set<Text>,
    path: Seq<Text>,
    i: int,
)
    requires
        climbs(graph, direct, path),
        seen.contains(path[0]),
        forall|v: Text| #[trigger] seen.contains(v) ==> settled(graph, direct, found, seen, v),
        0 <= i < path.len() - 1,
    ensures
        seen.contains(path[i]),
    decreases i,
{
    if i > 0 {
        lemma_path_seen(graph, direct, found, seen, path, i - 1);
        let v = path[i - 1];
        assert(settled(graph, direct, found, seen, v));
        assert(is_parent(graph, v, path[i - 1 + 1]));
        assert(!direct.contains(path[i]));
    }
}

/// The parents of the first `n` packages of a graph.
spec fn first_parents(graph: StringMap<StringSet>, n: nat) -> Set<Text>
    decreases n,
{
    if n == 0 {
        Set::empty()
    } else {
        first_parents(graph, (n - 1) as nat).union(graph@[graph.order()[n - 1]]@)
    }
}

proof fn lemma_first_parents(graph: StringMap<StringSet>, n: nat, k: int)
    requires
        0 <= k < n <= graph.order().len(),
    ensures
        graph@[graph.order()[k]]@.subset_of(first_parents(graph, n)),
    decreases n,
{
    if k < n - 1 {
        lemma_first_parents(graph, (n - 1) as nat, k);
    }
}

/// A graph has finitely many parents.
fn check_parents(graph: &StringMap<StringSet>)
    ensures
        first_parents(*graph, graph.order().len()).finite(),
        forall|a: Text, b: Text| #[trigger]
            is_parent(parents_of(graph@), a, b) ==> first_parents(
                *graph,
                graph.order().len(),
            ).contains(b),
{
    graph.check_order();
    let mut i: usize = 0;
    while i < graph.len()
        invariant
            i <= graph.order().len(),
            first_parents(*graph, i as nat).finite(),
        decreases graph.order().len() - i,
    {
        let set = graph.value_at(i);
        set.check_order();
        proof {
            assert(set@ =~= set.order().to_set());
            vstd::seq_lib::seq_to_set_is_finite(set.order());
        }
        i += 1;
    }
    proof {
        assert forall|a: Text, b: Text| #[trigger]
            is_parent(parents_of(graph@), a, b) implies first_parents(
            *graph,
            graph.order().len(),
        ).contains(b) by {
            assert(graph.order().contains(a));
            let k = choose|k: int| 0 <= k < graph.order().len() && graph.order()[k] == a;
            lemma_first_parents(*graph, graph.order().len(), k);
        }
    }
}

/// Adds the direct dependencies that a change of one package affects.
fn climb_from(
    pkg: &str,
    graph: &StringMap<StringSet>,
    direct: &StringSet,
    found: &mut StringSet,
)
    requires
        !direct@.contains(pkg@),
    ensures
        forall|d: Text| #[trigger]
            final(found)@.contains(d) <==> old(found)@.contains(d) || (direct@.contains(d)
                && leads_to(parents_of(graph@), direct@, pkg@, d)),
{
    let ghost g = parents_of(graph@);
    let ghost dir = direct@;
    let ghost start = found@;
    let ghost all = first_parents(*graph, graph.order().len()).insert(pkg@);
    check_parents(graph);
    let mut queue: Vec<String> = Vec::new();
    queue.push(pkg.to_owned());
    let mut visited = StringSet::new();
    visited.insert(pkg.to_owned());
    let ghost mut done: Set<Text> = Set::empty();
    proof {
        lemma_leads_to_self(g, dir, pkg@);
        assert(queue.deep_view() =~= seq![pkg@]);
        assert(queue.deep_view()[0] == pkg@);
    }
    while queue.len() > 0
        invariant
            g == parents_of(graph@),
            dir == direct@,
            !dir.contains(pkg@),
            all.finite(),
            all.contains(pkg@),
            forall|a: Text, b: Text| #[trigger] is_parent(g, a, b) ==> all.contains(b),
            visited@.contains(pkg@),
            done.finite(),
            done.subset_of(visited@),
            visited@.subset_of(all),
            queue.deep_view().no_duplicates(),
            forall|v: Text| #[trigger]
                visited@.contains(v) ==> !dir.contains(v) && leads_to(g, dir, pkg@, v) && (
                done.contains(v) || queue.deep_view().contains(v)),
            forall|i: int|
                0 <= i < queue.deep_view().len() ==> visited@.contains(
                    #[trigger] queue.deep_view()[i],
                ) && !done.contains(queue.deep_view()[i]),
            forall|v: Text| #[trigger] done.contains(v) ==> settled(g, dir, found@, visited@, v),
            forall|d: Text| #[trigger]
                found@.contains(d) ==> start.contains(d) || (dir.contains(d) && leads_to(
                    g,
                    dir,
                    pkg@,
                    d,
                )),
            start.subset_of(found@),
        decreases all.len() - done.len(),
    {
        let ghost before = queue.deep_view();
        assert(before.len() == queue@.len());
        let current = match queue.pop() {
            Some(c) => c,
            None => {
                return ;
            },
        };
        let ghost cur = current@;
        let ghost rest = queue.deep_view();
        proof {
            assert(cur == before[before.len() - 1]);
            assert(rest =~= before.drop_last());
            assert(visited@.contains(cur) && !done.contains(cur));
            assert(!rest.contains(cur));
            assert forall|v: Text| #[trigger] visited@.contains(v) implies done.contains(v) || v
                == cur || rest.contains(v) by {
                if before.contains(v) {
                    let i = choose|i: int| 0 <= i < before.len() && before[i] == v;
                    if i < before.len() - 1 {
                        assert(rest[i] == v);
                    }
                }
            }
        }
        if let Some(parents) = graph.get(current.as_str()) {
            parents.check_order();
            let ghost ps = parents.order();
            let mut j: usize = 0;
            assert(g[cur] == parents@);
            while j < parents.len()
                invariant
                    j <= ps.len(),
                    ps == parents.order(),
                    parents.ordered(),
                    g == parents_of(graph@),
                    g.contains_key(cur),
                    g[cur] == parents@,
                    dir == direct@,
                    !dir.contains(cur),
                    leads_to(g, dir, pkg@, cur),
                    forall|a: Text, b: Text| #[trigger] is_parent(g, a, b) ==> all.contains(b),
                    visited@.contains(pkg@),
                    visited@.contains(cur),
                    !done.contains(cur),
                    done.subset_of(visited@),
                    visited@.subset_of(all),
                    queue.deep_view().no_duplicates(),
                    !queue.deep_view().contains(cur),
                    forall|v: Text| #[trigger]
                        visited@.contains(v) ==> !dir.contains(v) && leads_to(g, dir, pkg@, v) && (
                        done.contains(v) || v == cur || queue.deep_view().contains(v)),
                    forall|i: int|
                        0 <= i < queue.deep_view().len() ==> visited@.contains(
                            #[trigger] queue.deep_view()[i],
                        ) && !done.contains(queue.deep_view()[i]),
                    forall|v: Text| #[trigger]
                        done.contains(v) ==> settled(g, dir, found@, visited@, v),
                    forall|m: int|
                        0 <= m < j ==> if dir.contains(#[trigger] ps[m]) {
                            found@.contains(ps[m])
                        } else {
                            visited@.contains(ps[m])
                        },
                    forall|d: Text| #[trigger]
                        found@.contains(d) ==> start.contains(d) || (dir.contains(d) && leads_to(
                            g,
                            dir,
                            pkg@,
                            d,
                        )),
                    start.subset_of(found@),
                decreases ps.len() - j,
            {
                let parent = parents.at(j);
                let ghost p = parent@;
                let ghost seen_before = visited@;
                let ghost found_before = found@;
                let ghost queue_before = queue.deep_view();
                proof {
                    assert(is_parent(g, cur, p));
                    lemma_leads_on(g, dir, pkg@, cur, p);
                }
                if direct.contains(parent) {
                    found.insert(parent.to_owned());
                } else if visited.insert(parent.to_owned()) {
                    queue.push(parent.to_owned());
                    proof {
                        assert(queue.deep_view() =~= queue_before.push(p));
                        assert(!seen_before.contains(p));
                        assert(!queue_before.contains(p)) by {
                            if queue_before.contains(p) {
                                let i = choose|i: int|
                                    0 <= i < queue_before.len() && queue_before[i] == p;
                                assert(seen_before.contains(queue_before[i]));
                            }
                        }
                        assert forall|v: Text| #[trigger] visited@.contains(v) implies !dir.contains(
                            v,
                        ) && leads_to(g, dir, pkg@, v) && (done.contains(v) || v == cur
                            || queue.deep_view().contains(v)) by {
                            if v == p {
                                assert(queue.deep_view()[queue_before.len() as int] == p);
                            } else {
                                assert(seen_before.contains(v));
                                if queue_before.contains(v) {
                                    let i = choose|i: int|
                                        0 <= i < queue_before.len() && queue_before[i] == v;
                                    assert(queue.deep_view()[i] == v);
                                }
                            }
                        }
                        assert forall|i: int| 0 <= i < queue.deep_view().len() implies visited@.contains(
                            #[trigger] queue.deep_view()[i],
                        ) && !done.contains(queue.deep_view()[i]) by {
                            if i < queue_before.len() {
                                assert(queue.deep_view()[i] == queue_before[i]);
                            }
                        }
                    }
                }
                proof {
                    assert forall|v: Text| #[trigger] done.contains(v) implies settled(
                        g,
                        dir,
                        found@,
                        visited@,
                        v,
                    ) by {
                        assert(settled(g, dir, found_before, seen_before, v));
                    }
                }
                j += 1;
            }
            proof {
                assert(settled(g, dir, found@, visited@, cur)) by {
                    assert forall|b: Text| #[trigger] is_parent(g, cur, b) implies if dir.contains(
                        b,
                    ) {
                        found@.contains(b)
                    } else {
                        visited@.contains(b)
                    } by {
                        assert(ps.contains(b));
                        let m = choose|m: int| 0 <= m < ps.len() && ps[m] == b;
                        assert(dir.contains(ps[m]) || visited@.contains(ps[m]));
                    }
                }
            }
        } else {
            assert(settled(g, dir, found@, visited@, cur));
        }
        proof {
            let done_before = done;
            done = done.insert(cur);
            assert forall|i: int| 0 <= i < queue.deep_view().len() implies !done.contains(
                #[trigger] queue.deep_view()[i],
            ) by {
                assert(queue.deep_view().contains(queue.deep_view()[i]));
            }
            vstd::set_lib::lemma_len_subset(done, all);
        }
    }
    proof {
        assert forall|v: Text| #[trigger] visited@.contains(v) implies settled(
            g,
            dir,
            found@,
            visited@,
            v,
        ) by {
            assert(queue.deep_view().len() == 0);
            assert(done.contains(v));
        }
        assert forall|d: Text| dir.contains(d) && leads_to(g, dir, pkg@, d) implies #[trigger] found@.contains(
            d,
        ) by {
            lemma_settled(g, dir, found@, visited@, pkg@, d);
        }
    }
}

/// The direct dependencies that a change of some packages affects: for each changed package, the
/// direct dependencies that a walk up the reverse graph meets first.
pub fn resolve_to_direct_deps(
    changed_packages: &StringSet,
    reverse_graph: &StringMap<StringSet>,
    direct_deps: &StringSet,
) -> (r: StringSet)
    ensures
        r@ == affected_direct(changed_packages@, parents_of(reverse_graph@), direct_deps@),
{
    changed_packages.check_order();
    let ghost g = parents_of(reverse_graph@);
    let ghost dir = direct_deps@;
    let ghost order = changed_packages.order();
    let mut result = StringSet::new();
    let mut i: usize = 0;
    while i < changed_packages.len()
        invariant
            i <= order.len(),
            order == changed_packages.order(),
            g == parents_of(reverse_graph@),
            dir == direct_deps@,
            forall|d: Text| #[trigger]
                result@.contains(d) <==> dir.contains(d) && exists|k: int|
                    0 <= k < i && leads_to(g, dir, #[trigger] order[k], d),
        decreases order.len() - i,
    {
        let pkg = changed_packages.at(i);
        let ghost before = result@;
        if direct_deps.contains(pkg) {
            result.insert(pkg.to_owned());
            proof {
                assert forall|d: Text| dir.contains(d) implies (leads_to(g, dir, pkg@, d) <==> d
                    == pkg@) by {
                    if leads_to(g, dir, pkg@, d) {
                        let path = choose|path: Seq<Text>| #[trigger]
                            climbs(g, dir, path) && path[0] == pkg@ && path.last() == d;
                        if path.len() > 1 {
                            assert(!dir.contains(path[0]));
                        }
                    }
                    lemma_leads_to_self(g, dir, pkg@);
                }
            }
        } else {
            climb_from(pkg, reverse_graph, direct_deps, &mut result);
        }
        proof {
            assert forall|d: Text| #[trigger] result@.contains(d) <==> dir.contains(d) && exists|
                k: int,
            |
                0 <= k < i + 1 && leads_to(g, dir, #[trigger] order[k], d) by {
                assert(result@.contains(d) <==> before.contains(d) || (dir.contains(d) && leads_to(
                    g,
                    dir,
                    order[i as int],
                    d,
                )));
            }
        }
        i += 1;
    }
    proof {
        assert forall|d: Text| #[trigger] result@.contains(d) <==> affected_direct(
            changed_packages@,
            g,
            dir,
        ).contains(d) by {
            if result@.contains(d) {
                let k = choose|k: int| 0 <= k < i && leads_to(g, dir, #[trigger] order[k], d);
                assert(order.contains(order[k]));
                assert(changed_packages@.contains(order[k]));
            }
            if affected_direct(changed_packages@, g, dir).contains(d) {
                let p = choose|p: Text| #[trigger]
                    changed_packages@.contains(p) && leads_to(g, dir, p, d);
                assert(order.contains(p));
                let k = choose|k: int| 0 <= k < order.len() && order[k] == p;
                assert(leads_to(g, dir, order[k], d));
            }
        }
        assert(result@ =~= affected_direct(changed_packages@, g, dir));
    }
    result
}

// ---------------------------------------------------------------------------
// Comparing two lockfiles
// ---------------------------------------------------------------------------

/// A key was added, removed, or has another version.
pub open spec fn differs(
    current: Map<Text, PackageView>,
    previous: Map<Text, PackageView>,
    key: Text,
) -> bool {
    if current.contains_key(key) && previous.contains_key(key) {
        current[key].version != previous[key].version
    } else {
        current.contains_key(key) || previous.contains_key(key)
    }
}

/// The names of the packages that were added, removed, or have another version.
pub open spec fn changed_names(
    current: Map<Text, PackageView>,
    previous: Map<Text, PackageView>,
) -> Set<Text> {
    Set::new(
        |n: Text|
            exists|key: Text| #[trigger] differs(current, previous, key) && package_name(key) == n,
    )
}

/// The names of the packages that were added, removed, or have another version.
pub fn diff_lockfile_packages(
    current: &StringMap<PackageInfo>,
    previous: &StringMap<PackageInfo>,
) -> (r: StringSet)
    ensures
        r@ == changed_names(package_views(current@), package_views(previous@)),
{
    current.check_order();
    previous.check_order();
    let ghost cur = package_views(current@);
    let ghost prev = package_views(previous@);
    let ghost order = current.order();
    let mut changed = StringSet::new();
    let mut i: usize = 0;
    while i < current.len()
        invariant
            i <= order.len(),
            order == current.order(),
            cur == package_views(current@),
            prev == package_views(previous@),
            forall|n: Text| #[trigger]
                changed@.contains(n) <==> exists|k: int|
                    0 <= k < i && differs(cur, prev, #[trigger] order[k]) && package_name(order[k])
                        == n,
        decreases order.len() - i,
    {
        let key = current.key_at(i);
        let info = current.value_at(i);
        let ghost before = changed@;
        let is_changed = match previous.get(key) {
            Some(prev_info) => !text::same(prev_info.version.as_str(), info.version.as_str()),
            None => true,
        };
        assert(is_changed == differs(cur, prev, order[i as int]));
        if is_changed {
            changed.insert(keys::package_name_from_key(key).to_owned());
        }
        proof {
            assert forall|n: Text| #[trigger] changed@.contains(n) <==> exists|k: int|
                0 <= k < i + 1 && differs(cur, prev, #[trigger] order[k]) && package_name(order[k])
                    == n by {
                assert(changed@.contains(n) <==> before.contains(n) || (is_changed && package_name(
                    order[i as int],
                ) == n));
            }
        }
        i += 1;
    }
    let ghost first = changed@;
    let ghost old_order = previous.order();
    let mut j: usize = 0;
    while j < previous.len()
        invariant
            j <= old_order.len(),
            old_order == previous.order(),
            cur == package_views(current@),
            prev == package_views(previous@),
            forall|n: Text| #[trigger]
                changed@.contains(n) <==> first.contains(n) || exists|k: int|
                    0 <= k < j && !cur.contains_key(#[trigger] old_order[k]) && package_name(
                        old_order[k],
                    ) == n,
        decreases old_order.len() - j,
    {
        let key = previous.key_at(j);
        let ghost before = changed@;
        let gone = !current.contains_key(key);
        if gone {
            changed.insert(keys::package_name_from_key(key).to_owned());
        }
        proof {
            assert forall|n: Text| #[trigger] changed@.contains(n) <==> first.contains(n) || exists|
                k: int,
            |
                0 <= k < j + 1 && !cur.contains_key(#[trigger] old_order[k]) && package_name(
                    old_order[k],
                ) == n by {
                assert(changed@.contains(n) <==> before.contains(n) || (gone && package_name(
                    old_order[j as int],
                ) == n));
            }
        }
        j += 1;
    }
    proof {
        assert forall|n: Text| #[trigger] changed@.contains(n) <==> changed_names(
            cur,
            prev,
        ).contains(n) by {
            if changed@.contains(n) {
                if first.contains(n) {
                    let k = choose|k: int|
                        0 <= k < i && differs(cur, prev, #[trigger] order[k]) && package_name(
                            order[k],
                        ) == n;
                    assert(differs(cur, prev, order[k]));
                } else {
                    let k = choose|k: int|
                        0 <= k < j && !cur.contains_key(#[trigger] old_order[k]) && package_name(
                            old_order[k],
                        ) == n;
                    assert(old_order.contains(old_order[k]));
                    assert(previous@.contains_key(old_order[k]));
                    assert(differs(cur, prev, old_order[k]));
                }
            }
            if changed_names(cur, prev).contains(n) {
                let key = choose|key: Text| #[trigger]
                    differs(cur, prev, key) && package_name(key) == n;
                if cur.contains_key(key) {
                    assert(order.contains(key));
                    let k = choose|k: int| 0 <= k < order.len() && order[k] == key;
                    assert(differs(cur, prev, order[k]));
                    assert(first.contains(n));
                } else {
                    assert(previous@.contains_key(key));
                    assert(old_order.contains(key));
                    let k = choose|k: int| 0 <= k < old_order.len() && old_order[k] == key;
                    assert(!cur.contains_key(old_order[k]));
                }
            }
        }
        assert(changed@ =~= changed_names(cur, prev));
    }
    changed
}

/// Adds the edges of one graph to another.
fn merge_graph(into: &mut StringMap<StringSet>, from: &StringMap<StringSet>)
    ensures
        forall|a: Text, b: Text| #[trigger]
            is_parent(parents_of(final(into)@), a, b) <==> is_parent(parents_of(old(into)@), a, b)
                || is_parent(parents_of(from@), a, b),
{
    from.check_order();
    let ghost start = parents_of(into@);
    let ghost g = parents_of(from@);
    let ghost order = from.order();
    let mut i: usize = 0;
    while i < from.len()
        invariant
            i <= order.len(),
            order == from.order(),
            g == parents_of(from@),
            from.ordered(),
            forall|a: Text, b: Text| #[trigger]
                is_parent(parents_of(into@), a, b) <==> is_parent(start, a, b) || exists|k: int|
                    0 <= k < i && a == #[trigger] order[k] && g[a].contains(b),
        decreases order.len() - i,
    {
        let child = from.key_at(i);
        let parents = from.value_at(i);
        parents.check_order();
        let ghost ps = parents.order();
        let ghost before = parents_of(into@);
        assert(g[order[i as int]] == parents@);
        let mut j: usize = 0;
        while j < parents.len()
            invariant
                j <= ps.len(),
                ps == parents.order(),
                forall|a: Text, b: Text| #[trigger]
                    is_parent(parents_of(into@), a, b) <==> is_parent(before, a, b) || (a == child@
                        && exists|m: int| 0 <= m < j && #[trigger] ps[m] == b),
            decreases ps.len() - j,
        {
            let ghost mid = parents_of(into@);
            let parent = parents.at(j);
            add_parent(into, child, parent);
            proof {
                assert forall|a: Text, b: Text| #[trigger]
                    is_parent(parents_of(into@), a, b) <==> is_parent(before, a, b) || (a == child@
                        && exists|m: int| 0 <= m < j + 1 && #[trigger] ps[m] == b) by {
                    assert(is_parent(mid, a, b) <==> is_parent(before, a, b) || (a == child@
                        && exists|m: int| 0 <= m < j && #[trigger] ps[m] == b));
                    if a == child@ && b == parent@ {
                        assert(ps[j as int] == b);
                    }
                }
            }
            j += 1;
        }
        proof {
            assert forall|a: Text, b: Text| #[trigger]
                is_parent(parents_of(into@), a, b) <==> is_parent(start, a, b) || exists|k: int|
                    0 <= k < i + 1 && a == #[trigger] order[k] && g[a].contains(b) by {
                assert(is_parent(before, a, b) <==> is_parent(start, a, b) || exists|k: int|
                    0 <= k < i && a == #[trigger] order[k] && g[a].contains(b));
                assert(parents@.contains(b) <==> ps.contains(b));
                if a == child@ && g[a].contains(b) {
                    assert(ps.contains(b));
                    assert(order[i as int] == a);
                }
                if a == child@ && exists|m: int| 0 <= m < j && #[trigger] ps[m] == b {
                    assert(ps.contains(b));
                    assert(order[i as int] == a);
                }
            }
        }
        i += 1;
    }
    proof {
        assert forall|a: Text, b: Text| #[trigger]
            is_parent(parents_of(into@), a, b) <==> is_parent(start, a, b) || is_parent(g, a, b) by {
            if is_parent(g, a, b) {
                assert(order.contains(a));
                let k = choose|k: int| 0 <= k < order.len() && order[k] == a;
                assert(a == order[k] && g[a].contains(b));
            }
            if exists|k: int| 0 <= k < i && a == #[trigger] order[k] && g[a].contains(b) {
                let k = choose|k: int| 0 <= k < i && a == #[trigger] order[k] && g[a].contains(b);
                assert(order.contains(a));
                assert(from@.contains_key(a));
            }
        }
    }
}

/// The graph in which `b` is a parent of `a` where some package named `b` depends on `a`, in one
/// lockfile or the other.
pub open spec fn joint_parents(
    current: Map<Text, PackageView>,
    previous: Map<Text, PackageView>,
) -> Map<Text, Set<Text>> {
    Map::new(
        |a: Text| true,
        |a: Text|
            Set::new(|b: Text| depends(current, b, a) || depends(previous, b, a)),
    )
}

/// The direct dependencies, of one lockfile or the other, that the differences between the two
/// affect.
pub open spec fn affected_dependencies(current: LockfileView, previous: LockfileView) -> Set<
    Text,
> {
    affected_direct(
        changed_names(current.packages, previous.packages),
        joint_parents(current.packages, previous.packages),
        current.direct_dependencies.union(previous.direct_dependencies),
    )
}

/// Ways up depend on the parents alone.
proof fn lemma_leads_to_same(
    g1: Map<Text, Set<Text>>,
    g2: Map<Text, Set<Text>>,
    direct: Set<Text>,
    a: Text,
    b: Text,
)
    requires
        forall|x: Text, y: Text| #[trigger] is_parent(g1, x, y) ==> is_parent(g2, x, y),
        leads_to(g1, direct, a, b),
    ensures
        leads_to(g2, direct, a, b),
{
    let path = choose|path: Seq<Text>| #[trigger]
        climbs(g1, direct, path) && path[0] == a && path.last() == b;
    assert(climbs(g2, direct, path)) by {
        assert forall|i: int| 0 <= i < path.len() - 1 implies !direct.contains(#[trigger] path[i])
            && is_parent(g2, path[i], path[i + 1]) by {
            assert(is_parent(g1, path[i], path[i + 1]));
        }
    }
}

/// Two graphs with the same parents affect the same direct dependencies.
proof fn lemma_affected_same(
    changed: Set<Text>,
    g1: Map<Text, Set<Text>>,
    g2: Map<Text, Set<Text>>,
    direct: Set<Text>,
)
    requires
        forall|x: Text, y: Text| #[trigger] is_parent(g1, x, y) <==> is_parent(g2, x, y),
    ensures
        affected_direct(changed, g1, direct) == affected_direct(changed, g2, direct),
{
    assert forall|d: Text| #[trigger] affected_direct(changed, g1, direct).contains(d)
        <==> affected_direct(changed, g2, direct).contains(d) by {
        if affected_direct(changed, g1, direct).contains(d) {
            let p = choose|p: Text| #[trigger] changed.contains(p) && leads_to(g1, direct, p, d);
            lemma_leads_to_same(g1, g2, direct, p, d);
        }
        if affected_direct(changed, g2, direct).contains(d) {
            let p = choose|p: Text| #[trigger] changed.contains(p) && leads_to(g2, direct, p, d);
            assert forall|x: Text, y: Text| #[trigger] is_parent(g2, x, y) implies is_parent(
                g1,
                x,
                y,
            ) by {
                assert(is_parent(g1, x, y) <==> is_parent(g2, x, y));
            }
            lemma_leads_to_same(g2, g1, direct, p, d);
        }
    }
    assert(affected_direct(changed, g1, direct) =~= affected_direct(changed, g2, direct));
}

/// Adds the texts of one set to another.
fn add_all(into: &mut StringSet, from: &StringSet)
    ensures
        final(into)@ == old(into)@.union(from@),
{
    from.check_order();
    let ghost start = into@;
    let ghost order = from.order();
    let mut i: usize = 0;
    while i < from.len()
        invariant
            i <= order.len(),
            order == from.order(),
            from.ordered(),
            start.subset_of(into@),
            into@.subset_of(start.union(from@)),
            forall|k: int| 0 <= k < i ==> into@.contains(#[trigger] order[k]),
        decreases order.len() - i,
    {
        into.insert(from.at(i).to_owned());
        i += 1;
    }
    proof {
        assert forall|x: Text| from@.contains(x) implies #[trigger] into@.contains(x) by {
            assert(order.contains(x));
            let k = choose|k: int| 0 <= k < order.len() && order[k] == x;
            assert(into@.contains(order[k]));
        }
        assert(into@ =~= start.union(from@));
    }
}

/// The direct dependencies that the differences between two lockfiles affect. Removed packages
/// count too: the graph and the direct dependencies are those of both lockfiles together.
pub fn affected_between(current: &LockfileData, previous: &LockfileData) -> (r: StringSet)
    ensures
        r@ == affected_dependencies(current.deep_view(), previous.deep_view()),
{
    let changed = diff_lockfile_packages(&current.packages, &previous.packages);
    if changed.len() == 0 {
        changed.check_order();
        proof {
            assert forall|d: Text| !affected_dependencies(
                current.deep_view(),
                previous.deep_view(),
            ).contains(d) by {
                if affected_dependencies(current.deep_view(), previous.deep_view()).contains(d) {
                    let p = choose|p: Text| #[trigger]
                        changed@.contains(p) && leads_to(
                            joint_parents(
                                current.deep_view().packages,
                                previous.deep_view().packages,
                            ),
                            current.deep_view().direct_dependencies.union(
                                previous.deep_view().direct_dependencies,
                            ),
                            p,
                            d,
                        );
                    assert(changed.order().contains(p));
                }
            }
            assert(affected_dependencies(current.deep_view(), previous.deep_view()) =~= Set::<
                Text,
            >::empty());
        }
        return StringSet::new();
    }
    let mut merged = build_reverse_dep_graph(current);
    let previous_reverse = build_reverse_dep_graph(previous);
    merge_graph(&mut merged, &previous_reverse);
    let mut direct = StringSet::new();
    add_all(&mut direct, &current.direct_dependencies);
    add_all(&mut direct, &previous.direct_dependencies);
    let r = resolve_to_direct_deps(&changed, &merged, &direct);
    proof {
        let joint = joint_parents(current.deep_view().packages, previous.deep_view().packages);
        assert(direct@ =~= current.deep_view().direct_dependencies.union(
            previous.deep_view().direct_dependencies,
        ));
        assert forall|x: Text, y: Text| #[trigger] is_parent(parents_of(merged@), x, y)
            <==> is_parent(joint, x, y) by {
            assert(is_parent(parents_of(previous_reverse@), x, y) <==> depends(
                previous.deep_view().packages,
                y,
                x,
            ));
            assert(joint.contains_key(x));
        }
        lemma_affected_same(changed@, parents_of(merged@), joint, direct@);
    }
    r
}

} // verus!
