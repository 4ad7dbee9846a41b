//! Finding edges by the files at their ends.

use crate::collections;
use crate::collections::{lemma_positions, positions_of, TextIndex};
use crate::semantic::edges::{ImportEdge, ImportEdgeView, ReexportEdge, ReexportEdgeView};
use crate::text;
use crate::text::Text;
use vstd::prelude::*;

verus! {

/// The files that import edges lead to.
pub open spec fn import_targets(edges: Seq<ImportEdgeView>) -> Seq<Text> {
    Seq::new(edges.len(), |i: int| edges[i].target)
}

/// The files that re-export edges lead to.
pub open spec fn reexport_targets(edges: Seq<ReexportEdgeView>) -> Seq<Text> {
    Seq::new(edges.len(), |i: int| edges[i].target)
}

/// The files that re-export edges begin in.
pub open spec fn reexport_sources(edges: Seq<ReexportEdgeView>) -> Seq<Text> {
    Seq::new(edges.len(), |i: int| edges[i].reexporting_file)
}

/// The edges that lead to the file.
pub open spec fn edges_to(edges: Seq<ImportEdgeView>, file: Text) -> Seq<ImportEdgeView>
    decreases edges.len(),
{
    if edges.len() == 0 {
        Seq::empty()
    } else if edges.last().target == file {
        edges_to(edges.drop_last(), file).push(edges.last())
    } else {
        edges_to(edges.drop_last(), file)
    }
}

/// The edges that bring in the symbol.
pub open spec fn edges_with(edges: Seq<ImportEdgeView>, symbol: Text) -> Seq<ImportEdgeView>
    decreases edges.len(),
{
    if edges.len() == 0 {
        Seq::empty()
    } else if edges.last().symbol == symbol {
        edges_with(edges.drop_last(), symbol).push(edges.last())
    } else {
        edges_with(edges.drop_last(), symbol)
    }
}

/// The imports of the file's symbol.
pub open spec fn importers_in(
    edges: Seq<ImportEdgeView>,
    file: Text,
    symbol: Text,
) -> Seq<ImportEdgeView> {
    edges_with(edges_to(edges, file), symbol)
}

/// The re-exports from the file.
pub open spec fn barrels_in(edges: Seq<ReexportEdgeView>, file: Text) -> Seq<ReexportEdgeView>
    decreases edges.len(),
{
    if edges.len() == 0 {
        Seq::empty()
    } else if edges.last().target == file {
        barrels_in(edges.drop_last(), file).push(edges.last())
    } else {
        barrels_in(edges.drop_last(), file)
    }
}

/// The re-exports that the file makes.
pub open spec fn reexports_by(edges: Seq<ReexportEdgeView>, file: Text) -> Seq<ReexportEdgeView>
    decreases edges.len(),
{
    if edges.len() == 0 {
        Seq::empty()
    } else if edges.last().reexporting_file == file {
        reexports_by(edges.drop_last(), file).push(edges.last())
    } else {
        reexports_by(edges.drop_last(), file)
    }
}

/// The items at some positions.
spec fn at_positions<T>(items: Seq<T>, positions: Seq<usize>) -> Seq<T> {
    Seq::new(positions.len(), |i: int| items[positions[i] as int])
}

proof fn lemma_edges_to(edges: Seq<ImportEdgeView>, file: Text)
    requires
        edges.len() <= usize::MAX,
    ensures
        at_positions(edges, positions_of(import_targets(edges), file)) == edges_to(edges, file),
    decreases edges.len(),
{
    let keys = import_targets(edges);
    let found = at_positions(edges, positions_of(keys, file));
    if edges.len() > 0 {
        let init = edges.drop_last();
        lemma_edges_to(init, file);
        assert(keys.drop_last() =~= import_targets(init));
        lemma_positions(keys.drop_last(), file);
        let before = at_positions(init, positions_of(keys.drop_last(), file));
        if edges.last().target == file {
            assert(found =~= before.push(edges.last()));
        } else {
            assert(found =~= before);
        }
    } else {
        assert(found =~= Seq::<ImportEdgeView>::empty());
    }
}

proof fn lemma_barrels_in(edges: Seq<ReexportEdgeView>, file: Text)
    requires
        edges.len() <= usize::MAX,
    ensures
        at_positions(edges, positions_of(reexport_targets(edges), file)) == barrels_in(edges, file),
    decreases edges.len(),
{
    let keys = reexport_targets(edges);
    let found = at_positions(edges, positions_of(keys, file));
    if edges.len() > 0 {
        let init = edges.drop_last();
        lemma_barrels_in(init, file);
        assert(keys.drop_last() =~= reexport_targets(init));
        lemma_positions(keys.drop_last(), file);
        let before = at_positions(init, positions_of(keys.drop_last(), file));
        if edges.last().target == file {
            assert(found =~= before.push(edges.last()));
        } else {
            assert(found =~= before);
        }
    } else {
        assert(found =~= Seq::<ReexportEdgeView>::empty());
    }
}

proof fn lemma_reexports_by(edges: Seq<ReexportEdgeView>, file: Text)
    requires
        edges.len() <= usize::MAX,
    ensures
        at_positions(edges, positions_of(reexport_sources(edges), file)) == reexports_by(
            edges,
            file,
        ),
    decreases edges.len(),
{
    let keys = reexport_sources(edges);
    let found = at_positions(edges, positions_of(keys, file));
    if edges.len() > 0 {
        let init = edges.drop_last();
        lemma_reexports_by(init, file);
        assert(keys.drop_last() =~= reexport_sources(init));
        lemma_positions(keys.drop_last(), file);
        let before = at_positions(init, positions_of(keys.drop_last(), file));
        if edges.last().reexporting_file == file {
            assert(found =~= before.push(edges.last()));
        } else {
            assert(found =~= before);
        }
    } else {
        assert(found =~= Seq::<ReexportEdgeView>::empty());
    }
}

/// The edges that lead to the file, found by the index of their targets.
pub fn find_edges_to(edges: &Vec<ImportEdge>, index: &TextIndex, file: &str) -> (r: Vec<ImportEdge>)
    requires
        index@ == import_targets(edges.deep_view()),
    ensures
        r.deep_view() == edges_to(edges.deep_view(), file@),
{
    let ghost keys = import_targets(edges.deep_view());
    proof {
        assert(edges.deep_view().len() == edges.len());
        lemma_edges_to(edges.deep_view(), file@);
        lemma_positions(keys, file@);
    }
    let mut out: Vec<ImportEdge> = Vec::new();
    if let Some(found) = index.get(file) {
        let mut i: usize = 0;
        assert(out.deep_view() =~= at_positions(edges.deep_view(), found@.take(0)));
        while i < found.len()
            invariant
                i <= found.len(),
                forall|j: int|
                    0 <= j < found@.len() ==> #[trigger] found@[j] < edges.deep_view().len(),
                edges.deep_view().len() == edges.len(),
                out.deep_view() == at_positions(edges.deep_view(), found@.take(i as int)),
            decreases found.len() - i,
        {
            let ghost before = out.deep_view();
            out.push(edges[found[i]].clone());
            assert(out.deep_view() =~= before.push(edges.deep_view()[found@[i as int] as int]));
            assert(at_positions(edges.deep_view(), found@.take(i + 1)) =~= at_positions(
                edges.deep_view(),
                found@.take(i as int),
            ).push(edges.deep_view()[found@[i as int] as int]));
            i += 1;
        }
        assert(found@.take(i as int) =~= found@);
    } else {
        assert(out.deep_view() =~= at_positions(edges.deep_view(), Seq::<usize>::empty()));
    }
    out
}

/// The imports of the file's symbol, found by the index of their targets.
pub fn find_importers(edges: &Vec<ImportEdge>, index: &TextIndex, file: &str, symbol: &str) -> (r:
    Vec<ImportEdge>)
    requires
        index@ == import_targets(edges.deep_view()),
    ensures
        r.deep_view() == importers_in(edges.deep_view(), file@, symbol@),
{
    let all = find_edges_to(edges, index, file);
    let ghost view = all.deep_view();
    let mut out: Vec<ImportEdge> = Vec::new();
    let mut i: usize = 0;
    assert(view.take(0) =~= Seq::<ImportEdgeView>::empty());
    assert(out.deep_view() =~= Seq::<ImportEdgeView>::empty());
    while i < all.len()
        invariant
            i <= all.len(),
            view == all.deep_view(),
            out.deep_view() == edges_with(view.take(i as int), symbol@),
        decreases all.len() - i,
    {
        assert(view.take(i + 1).drop_last() =~= view.take(i as int));
        assert(view.take(i + 1).last() == all@[i as int].deep_view());
        if text::same(all[i].symbol.as_str(), symbol) {
            let ghost before = out.deep_view();
            out.push(all[i].clone());
            assert(out.deep_view() =~= before.push(view[i as int]));
        }
        i += 1;
    }
    assert(view.take(i as int) =~= view);
    out
}

/// The edges at the positions that an index gives.
fn pick(edges: &Vec<ReexportEdge>, index: &TextIndex, file: &str) -> (r: Vec<ReexportEdge>)
    requires
        index@.len() == edges.len(),
    ensures
        r.deep_view() == at_positions(edges.deep_view(), positions_of(index@, file@)),
{
    proof {
        lemma_positions(index@, file@);
    }
    let mut out: Vec<ReexportEdge> = Vec::new();
    if let Some(found) = index.get(file) {
        let mut i: usize = 0;
        assert(out.deep_view() =~= at_positions(edges.deep_view(), found@.take(0)));
        while i < found.len()
            invariant
                i <= found.len(),
                forall|j: int| 0 <= j < found@.len() ==> #[trigger] found@[j] < edges.len(),
                out.deep_view() == at_positions(edges.deep_view(), found@.take(i as int)),
            decreases found.len() - i,
        {
            let ghost before = out.deep_view();
            out.push(edges[found[i]].clone());
            assert(out.deep_view() =~= before.push(edges.deep_view()[found@[i as int] as int]));
            assert(at_positions(edges.deep_view(), found@.take(i + 1)) =~= at_positions(
                edges.deep_view(),
                found@.take(i as int),
            ).push(edges.deep_view()[found@[i as int] as int]));
            i += 1;
        }
        assert(found@.take(i as int) =~= found@);
    } else {
        assert(out.deep_view() =~= at_positions(edges.deep_view(), Seq::<usize>::empty()));
    }
    out
}

/// The re-exports from the file, found by the index of their targets.
pub fn find_barrels(edges: &Vec<ReexportEdge>, index: &TextIndex, file: &str) -> (r: Vec<
    ReexportEdge,
>)
    requires
        index@ == reexport_targets(edges.deep_view()),
    ensures
        r.deep_view() == barrels_in(edges.deep_view(), file@),
{
    proof {
        assert(edges.deep_view().len() == edges.len());
        lemma_barrels_in(edges.deep_view(), file@);
    }
    pick(edges, index, file)
}

/// The re-exports that the file makes, found by the index of their sources.
pub fn find_reexports(edges: &Vec<ReexportEdge>, index: &TextIndex, file: &str) -> (r: Vec<
    ReexportEdge,
>)
    requires
        index@ == reexport_sources(edges.deep_view()),
    ensures
        r.deep_view() == reexports_by(edges.deep_view(), file@),
{
    proof {
        assert(edges.deep_view().len() == edges.len());
        lemma_reexports_by(edges.deep_view(), file@);
    }
    pick(edges, index, file)
}

/// The imports of a file's symbol are edges of the graph that say so.
pub proof fn lemma_importers_in(edges: Seq<ImportEdgeView>, file: Text, symbol: Text)
    ensures
        forall|e: ImportEdgeView| #[trigger]
            importers_in(edges, file, symbol).contains(e) <==> edges.contains(e) && e.target == file
                && e.symbol == symbol,
{
    lemma_edges_to_members(edges, file);
    lemma_edges_with_members(edges_to(edges, file), symbol);
}

/// The edges that lead to a file are edges of the graph that say so.
pub proof fn lemma_edges_to_members(edges: Seq<ImportEdgeView>, file: Text)
    ensures
        forall|e: ImportEdgeView| #[trigger]
            edges_to(edges, file).contains(e) <==> edges.contains(e) && e.target == file,
    decreases edges.len(),
{
    if edges.len() > 0 {
        let init = edges.drop_last();
        let last = edges.last();
        lemma_edges_to_members(init, file);
        assert(edges =~= init.push(last));
        let r = edges_to(edges, file);
        let before = edges_to(init, file);
        assert forall|e: ImportEdgeView| #[trigger] r.contains(e) <==> edges.contains(e)
            && e.target == file by {
            assert(init.push(last).contains(e) <==> init.contains(e) || e == last) by {
                collections::lemma_push_contains(init, last, e);
            }
            collections::lemma_push_contains(before, last, e);
            assert(before.contains(e) <==> init.contains(e) && e.target == file);
        }
    }
}

proof fn lemma_edges_with_members(edges: Seq<ImportEdgeView>, symbol: Text)
    ensures
        forall|e: ImportEdgeView| #[trigger]
            edges_with(edges, symbol).contains(e) <==> edges.contains(e) && e.symbol == symbol,
    decreases edges.len(),
{
    if edges.len() > 0 {
        let init = edges.drop_last();
        let last = edges.last();
        lemma_edges_with_members(init, symbol);
        assert(edges =~= init.push(last));
        let r = edges_with(edges, symbol);
        let before = edges_with(init, symbol);
        assert forall|e: ImportEdgeView| #[trigger] r.contains(e) <==> edges.contains(e)
            && e.symbol == symbol by {
            collections::lemma_push_contains(init, last, e);
            collections::lemma_push_contains(before, last, e);
            assert(before.contains(e) <==> init.contains(e) && e.symbol == symbol);
        }
    }
}

/// The re-exports from a file are edges of the graph that lead there.
pub proof fn lemma_barrels_members(edges: Seq<ReexportEdgeView>, file: Text)
    ensures
        forall|e: ReexportEdgeView| #[trigger]
            barrels_in(edges, file).contains(e) <==> edges.contains(e) && e.target == file,
    decreases edges.len(),
{
    if edges.len() > 0 {
        let init = edges.drop_last();
        let last = edges.last();
        lemma_barrels_members(init, file);
        assert(edges =~= init.push(last));
        let r = barrels_in(edges, file);
        let before = barrels_in(init, file);
        assert forall|e: ReexportEdgeView| #[trigger] r.contains(e) <==> edges.contains(e)
            && e.target == file by {
            collections::lemma_push_contains(init, last, e);
            collections::lemma_push_contains(before, last, e);
            assert(before.contains(e) <==> init.contains(e) && e.target == file);
        }
    }
}

/// The re-exports that a file makes are edges of the graph that begin there.
pub proof fn lemma_reexports_members(edges: Seq<ReexportEdgeView>, file: Text)
    ensures
        forall|e: ReexportEdgeView| #[trigger]
            reexports_by(edges, file).contains(e) <==> edges.contains(e) && e.reexporting_file
                == file,
    decreases edges.len(),
{
    if edges.len() > 0 {
        let init = edges.drop_last();
        let last = edges.last();
        lemma_reexports_members(init, file);
        assert(edges =~= init.push(last));
        let r = reexports_by(edges, file);
        let before = reexports_by(init, file);
        assert forall|e: ReexportEdgeView| #[trigger] r.contains(e) <==> edges.contains(e)
            && e.reexporting_file == file by {
            collections::lemma_push_contains(init, last, e);
            collections::lemma_push_contains(before, last, e);
            assert(before.contains(e) <==> init.contains(e) && e.reexporting_file == file);
        }
    }
}

} // verus!
