//! What holds of every graph of modules.

use crate::collections::lemma_push_contains;
use crate::paths::components;
use crate::semantic::edges::{
    edge_for, edge_less, import_requests, reexport_requests, requests_of, sorted_edges,
    ImportEdgeView, ReexportEdgeView,
};
use crate::semantic::lookup::{barrels_in, edges_to, edges_with, importers_in, reexports_by};
use crate::semantic::reference_laws::lemma_in_sum;
use crate::text::{text_less, Text};
use crate::types::{ExportView, ImportView};
use vstd::prelude::*;

verus! {

/// The edge of an import leads to the file that its module stands for, with the name that is imported
/// from there and the name that the importing file gives it.
pub proof fn lemma_edge_fields(file: Text, i: ImportView, target: Text)
    ensures
        edge_for(file, i, target).target == target,
        edge_for(file, i, target).importing_file == file,
        edge_for(file, i, target).symbol == i.imported_name,
        edge_for(file, i, target).local_name == i.local_name,
        edge_for(file, i, target).from_module == i.from_module,
        edge_for(file, i, target).is_dynamic == i.is_dynamic,
{
}

/// The edges to a file, in order, and those of them that bring in a symbol.
pub proof fn lemma_edges_to(edges: Seq<ImportEdgeView>, file: Text, symbol: Text)
    ensures
        edges_to(edges, file) == edges.filter(|e: ImportEdgeView| e.target == file),
        importers_in(edges, file, symbol) == edges.filter(
            |e: ImportEdgeView| e.target == file && e.symbol == symbol,
        ),
    decreases edges.len(),
{
    reveal(Seq::filter);
    reveal_with_fuel(edges_with, 2);
    if edges.len() > 0 {
        let init = edges.drop_last();
        let last = edges.last();
        lemma_edges_to(init, file, symbol);
        if last.target == file {
            assert(edges_to(edges, file).drop_last() =~= edges_to(init, file));
            assert(edges_to(edges, file).last() == last);
        }
    }
}

/// The re-exports from a file and those that a file makes, in order.
pub proof fn lemma_reexports(edges: Seq<ReexportEdgeView>, file: Text)
    ensures
        barrels_in(edges, file) == edges.filter(|e: ReexportEdgeView| e.target == file),
        reexports_by(edges, file) == edges.filter(
            |e: ReexportEdgeView| e.reexporting_file == file,
        ),
    decreases edges.len(),
{
    reveal(Seq::filter);
    if edges.len() > 0 {
        lemma_reexports(edges.drop_last(), file);
    }
}

proof fn lemma_reexport_requests(file: Text, exports: Seq<ExportView>, r: (Text, Text))
    ensures
        reexport_requests(file, exports).contains(r) <==> r.0 == file && exists|i: int|
            0 <= i < exports.len() && (#[trigger] exports[i]).re_export_from == Some(r.1),
    decreases exports.len(),
{
    if exports.len() > 0 {
        let init = exports.drop_last();
        let n = exports.len() - 1;
        let last = exports.last();
        lemma_reexport_requests(file, init, r);
        assert(exports[n] == last);
        if let Some(module) = last.re_export_from {
            lemma_push_contains(reexport_requests(file, init), (file, module), r);
        }
        if reexport_requests(file, init).contains(r) {
            let i = choose|i: int|
                0 <= i < init.len() && (#[trigger] init[i]).re_export_from == Some(r.1);
            assert(exports[i] == init[i]);
        }
        if exists|i: int|
            0 <= i < exports.len() && (#[trigger] exports[i]).re_export_from == Some(r.1) {
            let i = choose|i: int|
                0 <= i < exports.len() && (#[trigger] exports[i]).re_export_from == Some(r.1);
            if i < n {
                assert(init[i] == exports[i]);
            }
        }
    }
}

/// A file names the module: in an import or in a re-export.
pub open spec fn names_module(
    imports: Seq<ImportView>,
    exports: Seq<ExportView>,
    module: Text,
) -> bool {
    ||| exists|i: int| 0 <= i < imports.len() && (#[trigger] imports[i]).from_module == module
    ||| exists|i: int|
        0 <= i < exports.len() && (#[trigger] exports[i]).re_export_from == Some(module)
}

/// What is to be resolved is each module that a file names, together with that file.
pub proof fn lemma_requests(
    files: Seq<Text>,
    imports: Map<Text, Seq<ImportView>>,
    exports: Map<Text, Seq<ExportView>>,
    r: (Text, Text),
)
    ensures
        requests_of(files, imports, exports).contains(r) <==> files.contains(r.0) && names_module(
            imports[r.0],
            exports[r.0],
            r.1,
        ),
    decreases files.len(),
{
    if files.len() > 0 {
        let init = files.drop_last();
        let last = files.last();
        let before = requests_of(init, imports, exports);
        let ours = import_requests(last, imports[last]);
        let theirs = reexport_requests(last, exports[last]);
        lemma_requests(init, imports, exports, r);
        assert(files =~= init.push(last));
        lemma_push_contains(init, last, r.0);
        lemma_in_sum(before, ours, r);
        lemma_in_sum(before + ours, theirs, r);
        lemma_reexport_requests(last, exports[last], r);
        if ours.contains(r) {
            let i = choose|i: int| 0 <= i < ours.len() && ours[i] == r;
            assert(imports[last][i].from_module == r.1);
        }
        if r.0 == last && exists|i: int|
            0 <= i < imports[last].len() && (#[trigger] imports[last][i]).from_module == r.1 {
            let i = choose|i: int|
                0 <= i < imports[last].len() && (#[trigger] imports[last][i]).from_module == r.1;
            assert(ours[i] == r);
        }
    }
}

/// Edges are ordered by the paths of the importing files, and those of one file by the local names.
pub proof fn lemma_edge_order(a: ImportEdgeView, b: ImportEdgeView)
    ensures
        a.importing_file == b.importing_file ==> (edge_less(a, b) <==> text_less(
            a.local_name,
            b.local_name,
        )),
        components(a.importing_file) != components(b.importing_file) ==> (edge_less(a, b)
            <==> crate::paths::components_less(
            components(a.importing_file),
            components(b.importing_file),
        )),
{
    let x = components(a.importing_file);
    let y = components(b.importing_file);
    if x == y {
        lemma_not_less(x);
    }
}

proof fn lemma_not_less(a: Seq<Text>)
    ensures
        !crate::paths::components_less(a, a),
    decreases a.len(),
{
    if a.len() > 0 {
        lemma_not_less(a.drop_first());
    }
}

/// The edges of one file with one local name stay in the order in which they were found.
pub proof fn lemma_two_edges_sorted(a: ImportEdgeView, b: ImportEdgeView)
    ensures
        edge_less(b, a) ==> sorted_edges(seq![a, b]) == seq![b, a],
        !edge_less(b, a) ==> sorted_edges(seq![a, b]) == seq![a, b],
{
    reveal_with_fuel(sorted_edges, 3);
    reveal_with_fuel(crate::semantic::edges::inserted, 3);
    assert(seq![a, b].drop_last() =~= seq![a]);
    assert(seq![a].drop_last() =~= Seq::<ImportEdgeView>::empty());
    assert(sorted_edges(seq![a]) =~= seq![a]);
    if edge_less(b, a) {
        assert(sorted_edges(seq![a, b]) =~= seq![b, a]);
    } else {
        assert(sorted_edges(seq![a, b]) =~= seq![a, b]);
    }
}

} // verus!
