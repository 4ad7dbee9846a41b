//! What holds of the comparison of any two lockfiles.

use crate::lockfile::data::{LockfileView, PackageView};
use crate::lockfile::graph::{
    affected_dependencies, affected_direct, changed_names, climbs, depends, differs, is_parent,
    joint_parents, leads_to,
};
use crate::lockfile::keys::package_name;
use crate::text::Text;
use vstd::prelude::*;

verus! {

/// A lockfile does not differ from itself.
pub proof fn lemma_same_lockfile(lockfile: LockfileView)
    ensures
        changed_names(lockfile.packages, lockfile.packages) == Set::<Text>::empty(),
        affected_dependencies(lockfile, lockfile) == Set::<Text>::empty(),
{
    assert(changed_names(lockfile.packages, lockfile.packages) =~= Set::<Text>::empty());
    assert(affected_dependencies(lockfile, lockfile) =~= Set::<Text>::empty());
}

/// It makes no difference which of two lockfiles is the newer one: what one change affects, taking
/// it back affects too.
pub proof fn lemma_both_ways(a: LockfileView, b: LockfileView)
    ensures
        changed_names(a.packages, b.packages) == changed_names(b.packages, a.packages),
        affected_dependencies(a, b) == affected_dependencies(b, a),
{
    assert forall|n: Text| changed_names(a.packages, b.packages).contains(n) == changed_names(
        b.packages,
        a.packages,
    ).contains(n) by {
        if changed_names(a.packages, b.packages).contains(n) {
            let key = choose|key: Text| #[trigger]
                differs(a.packages, b.packages, key) && package_name(key) == n;
            assert(differs(b.packages, a.packages, key));
        }
        if changed_names(b.packages, a.packages).contains(n) {
            let key = choose|key: Text| #[trigger]
                differs(b.packages, a.packages, key) && package_name(key) == n;
            assert(differs(a.packages, b.packages, key));
        }
    }
    assert(changed_names(a.packages, b.packages) =~= changed_names(b.packages, a.packages));
    let ab = joint_parents(a.packages, b.packages);
    let ba = joint_parents(b.packages, a.packages);
    assert forall|x: Text| #[trigger] ab[x] == ba[x] by {
        assert(ab.contains_key(x) && ba.contains_key(x));
        assert(ab[x] =~= ba[x]);
    }
    assert(ab =~= ba);
    assert(a.direct_dependencies.union(b.direct_dependencies) =~= b.direct_dependencies.union(
        a.direct_dependencies,
    ));
}

/// Only direct dependencies are affected, those of one lockfile or the other.
pub proof fn lemma_affected_are_direct(current: LockfileView, previous: LockfileView, d: Text)
    requires
        affected_dependencies(current, previous).contains(d),
    ensures
        current.direct_dependencies.contains(d) || previous.direct_dependencies.contains(d),
{
}

/// A direct dependency with a change of its own is affected.
pub proof fn lemma_changed_direct(current: LockfileView, previous: LockfileView, key: Text)
    requires
        differs(current.packages, previous.packages, key),
        current.direct_dependencies.contains(package_name(key))
            || previous.direct_dependencies.contains(package_name(key)),
    ensures
        affected_dependencies(current, previous).contains(package_name(key)),
{
    let n = package_name(key);
    let graph = joint_parents(current.packages, previous.packages);
    let direct = current.direct_dependencies.union(previous.direct_dependencies);
    let path = seq![n];
    assert(climbs(graph, direct, path) && path[0] == n && path.last() == n);
    assert(leads_to(graph, direct, n, n));
    assert(changed_names(current.packages, previous.packages).contains(n));
}

/// What is affected through a package is affected through everything below it, too: where `b`
/// depends on `a`, and `a` is no direct dependency, a change of `a` affects what a change of `b`
/// would.
pub proof fn lemma_affected_from_below(
    graph: Map<Text, Set<Text>>,
    direct: Set<Text>,
    a: Text,
    b: Text,
    d: Text,
)
    requires
        !direct.contains(a),
        is_parent(graph, a, b),
        affected_direct(set![b], graph, direct).contains(d),
    ensures
        affected_direct(set![a], graph, direct).contains(d),
{
    let p = choose|p: Text| #[trigger]
        set![b].contains(p) && leads_to(graph, direct, p, d);
    assert(p == b);
    let path = choose|path: Seq<Text>| #[trigger]
        climbs(graph, direct, path) && path[0] == b && path.last() == d;
    let longer = seq![a] + path;
    assert forall|i: int| 0 <= i < longer.len() - 1 implies !direct.contains(#[trigger] longer[i])
        && is_parent(graph, longer[i], longer[i + 1]) by {
        if i > 0 {
            assert(longer[i] == path[i - 1] && longer[i + 1] == path[i - 1 + 1]);
        } else {
            assert(longer[1] == path[0]);
        }
    }
    assert(longer.last() == d);
    assert(climbs(graph, direct, longer) && longer[0] == a && longer.last() == d);
    assert(leads_to(graph, direct, a, d));
    assert(set![a].contains(a));
}

/// Nested dependencies count at any depth: where each of some packages depends on the one before
/// it, the first has a change, and only the last is a direct dependency, the last is affected.
pub proof fn lemma_transitive(
    current: LockfileView,
    previous: LockfileView,
    key: Text,
    chain: Seq<Text>,
)
    requires
        differs(current.packages, previous.packages, key),
        chain.len() > 0,
        chain[0] == package_name(key),
        forall|i: int|
            0 <= i < chain.len() - 1 ==> !current.direct_dependencies.contains(#[trigger] chain[i])
                && !previous.direct_dependencies.contains(chain[i]) && (depends(
                current.packages,
                chain[i + 1],
                chain[i],
            ) || depends(previous.packages, chain[i + 1], chain[i])),
        current.direct_dependencies.contains(chain.last())
            || previous.direct_dependencies.contains(chain.last()),
    ensures
        affected_dependencies(current, previous).contains(chain.last()),
{
    let graph = joint_parents(current.packages, previous.packages);
    let direct = current.direct_dependencies.union(previous.direct_dependencies);
    assert forall|i: int| 0 <= i < chain.len() - 1 implies !direct.contains(#[trigger] chain[i])
        && is_parent(graph, chain[i], chain[i + 1]) by {
        assert(graph.contains_key(chain[i]));
    }
    assert(climbs(graph, direct, chain) && chain[0] == chain[0] && chain.last() == chain.last());
    assert(leads_to(graph, direct, chain[0], chain.last()));
    assert(changed_names(current.packages, previous.packages).contains(chain[0]));
}

/// The more packages change, the more is affected.
pub proof fn lemma_more_changes(
    fewer: Set<Text>,
    more: Set<Text>,
    graph: Map<Text, Set<Text>>,
    direct: Set<Text>,
)
    requires
        fewer.subset_of(more),
    ensures
        affected_direct(fewer, graph, direct).subset_of(affected_direct(more, graph, direct)),
{
    assert forall|d: Text| affected_direct(fewer, graph, direct).contains(
        d,
    ) implies affected_direct(more, graph, direct).contains(d) by {
        let p = choose|p: Text| #[trigger] fewer.contains(p) && leads_to(graph, direct, p, d);
        assert(more.contains(p));
    }
}

/// Where nothing was installed before, every direct dependency that the lockfile lists is affected.
pub proof fn lemma_new_lockfile(current: LockfileView, key: Text)
    requires
        current.packages.contains_key(key),
        current.direct_dependencies.contains(package_name(key)),
    ensures
        affected_dependencies(
            current,
            (LockfileView {
                direct_dependencies: Set::empty(),
                packages: Map::<Text, PackageView>::empty(),
            }),
        ).contains(package_name(key)),
{
    let previous = LockfileView {
        direct_dependencies: Set::<Text>::empty(),
        packages: Map::<Text, PackageView>::empty(),
    };
    lemma_changed_direct(current, previous, key);
}

/// A package of the lockfile has the name and lists the other among its dependencies.
pub open spec fn lists_dependency(packages: Map<Text, PackageView>, key: Text, name: Text, other: Text) -> bool {
    packages.contains_key(key) && package_name(key) == name
        && packages[key].dependencies.contains_key(other)
}

/// The key is in one lockfile alone, or in both with two versions.
pub open spec fn is_changed(current: LockfileView, previous: LockfileView, key: Text) -> bool {
    ||| current.packages.contains_key(key) && !previous.packages.contains_key(key)
    ||| previous.packages.contains_key(key) && !current.packages.contains_key(key)
    ||| current.packages.contains_key(key) && previous.packages.contains_key(key)
        && current.packages[key].version != previous.packages[key].version
}

/// A package of one lockfile or the other has the name and lists `below` among its dependencies.
pub open spec fn is_above(current: LockfileView, previous: LockfileView, name: Text, below: Text) -> bool {
    ||| exists|key: Text| lists_dependency(current.packages, key, name, below)
    ||| exists|key: Text| lists_dependency(previous.packages, key, name, below)
}

/// Of two neighbours on the way, the upper lists the lower among its dependencies, in one lockfile or
/// the other, and the lower is nothing that the workspace asks for.
pub open spec fn is_dependency_chain(current: LockfileView, previous: LockfileView, chain: Seq<Text>) -> bool {
    &&& chain.len() > 0
    &&& forall|i: int|
        0 <= i < chain.len() - 1 ==> {
            &&& !current.direct_dependencies.contains(#[trigger] chain[i])
            &&& !previous.direct_dependencies.contains(chain[i])
            &&& is_above(current, previous, chain[i + 1], chain[i])
        }
}

proof fn lemma_depends(packages: Map<Text, PackageView>, b: Text, a: Text)
    ensures
        depends(packages, b, a) <==> exists|key: Text| lists_dependency(packages, key, b, a),
{
    if depends(packages, b, a) {
        let key = choose|key: Text|
            packages.contains_key(key) && package_name(key) == b
                && #[trigger] packages[key].dependencies.contains_key(a);
        assert(lists_dependency(packages, key, b, a));
    }
    if exists|key: Text| lists_dependency(packages, key, b, a) {
        let key = choose|key: Text| lists_dependency(packages, key, b, a);
        assert(packages[key].dependencies.contains_key(a));
    }
}

/// What a change affects is what the workspace asks for and a chain of dependencies leads to from a
/// package that was added, removed or has another version; and nothing else.
pub proof fn lemma_affected(current: LockfileView, previous: LockfileView, d: Text)
    ensures
        affected_dependencies(current, previous).contains(d) <==> {
            &&& current.direct_dependencies.contains(d) || previous.direct_dependencies.contains(d)
            &&& exists|key: Text, chain: Seq<Text>|
                #![trigger is_changed(current, previous, key), is_dependency_chain(current, previous, chain)]
                is_changed(current, previous, key) && is_dependency_chain(current, previous, chain)
                    && chain[0] == package_name(key) && chain.last() == d
        },
{
    let graph = joint_parents(current.packages, previous.packages);
    let direct = current.direct_dependencies.union(previous.direct_dependencies);
    assert forall|a: Text, b: Text| #[trigger] is_parent(graph, a, b) <==> is_above(
        current,
        previous,
        b,
        a,
    ) by {
        lemma_depends(current.packages, b, a);
        lemma_depends(previous.packages, b, a);
        assert(graph.contains_key(a));
    }
    if affected_dependencies(current, previous).contains(d) {
        let p = choose|p: Text| #[trigger]
            changed_names(current.packages, previous.packages).contains(p) && leads_to(
                graph,
                direct,
                p,
                d,
            );
        let key = choose|key: Text| #[trigger]
            differs(current.packages, previous.packages, key) && package_name(key) == p;
        let chain = choose|path: Seq<Text>| #[trigger]
            climbs(graph, direct, path) && path[0] == p && path.last() == d;
        assert(is_changed(current, previous, key));
        assert forall|i: int| 0 <= i < chain.len() - 1 implies {
            &&& !current.direct_dependencies.contains(#[trigger] chain[i])
            &&& !previous.direct_dependencies.contains(chain[i])
            &&& is_above(current, previous, chain[i + 1], chain[i])
        } by {
            assert(!direct.contains(chain[i]));
            assert(is_parent(graph, chain[i], chain[i + 1]));
        }
        assert(is_dependency_chain(current, previous, chain));
    }
    if (current.direct_dependencies.contains(d) || previous.direct_dependencies.contains(d))
        && exists|key: Text, chain: Seq<Text>|
        #![trigger is_changed(current, previous, key), is_dependency_chain(current, previous, chain)]
        is_changed(current, previous, key) && is_dependency_chain(current, previous, chain)
            && chain[0] == package_name(key) && chain.last() == d {
        let (key, chain) = choose|key: Text, chain: Seq<Text>|
            #![trigger is_changed(current, previous, key), is_dependency_chain(current, previous, chain)]
            is_changed(current, previous, key) && is_dependency_chain(current, previous, chain)
                && chain[0] == package_name(key) && chain.last() == d;
        assert(differs(current.packages, previous.packages, key));
        assert(changed_names(current.packages, previous.packages).contains(chain[0]));
        assert forall|i: int| 0 <= i < chain.len() - 1 implies !direct.contains(
            #[trigger] chain[i],
        ) && is_parent(graph, chain[i], chain[i + 1]) by {}
        assert(climbs(graph, direct, chain) && chain[0] == chain[0] && chain.last() == d);
        assert(leads_to(graph, direct, chain[0], d));
    }
}

} // verus!
