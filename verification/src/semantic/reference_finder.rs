//! Who uses a symbol, in all files of a workspace.

use crate::collections;
use crate::collections::{PairSet, StringSet};
use crate::error::DominoError;
use crate::paths;
use crate::paths::{absolute, tidy};
use crate::profiler;
use crate::profiler::{is_tally, nothing, Profiler, Tally};
use crate::semantic::analyzer::WorkspaceAnalyzer;
use crate::semantic::collect::from_workspace;
use crate::semantic::edges::{ImportEdge, ImportEdgeView, ReexportEdgeView};
use crate::semantic::lookup;
use crate::semantic::lookup::{barrels_in, edges_to, importers_in, reexports_by};
use crate::semantic::queries::{member_uses, own_name, uses_of};
use crate::semantic::questions;
use crate::semantic::questions::{
    answered, question_tally, questions_of_all, questions_on_imports, Question,
};
use crate::text;
use crate::text::Text;
use crate::types::{Export, ExportView, Reference, ReferenceView};
use vstd::prelude::*;

verus! {

/// A symbol of a file: the file and the name.
pub type Symbol = (Text, Text);

// ---------------------------------------------------------------------------
// Where a symbol goes
// ---------------------------------------------------------------------------

/// The file hands on a name of its own or one that it imports.
pub open spec fn is_handed_on(exports: Seq<ExportView>, name: Text) -> bool {
    exists|i: int| 0 <= i < exports.len() && hands_on(#[trigger] exports[i], name)
}

/// The export is of the name.
pub open spec fn hands_on(e: ExportView, name: Text) -> bool {
    e.local_name == Some(name) || (e.exported_name == name && e.local_name is None)
}

/// The symbol is the default export of its file.
pub open spec fn is_default(exports: Seq<ExportView>, symbol: Text) -> bool {
    symbol == "default"@ || exists|i: int|
        0 <= i < exports.len() && (#[trigger] exports[i]).exported_name == "default"@
            && exports[i].local_name == Some(symbol)
}

/// The path as the module graph writes it.
pub open spec fn graph_path(p: Text, cwd: Text) -> Text {
    tidy(
        if absolute(p) {
            from_workspace(p, cwd)
        } else {
            p
        },
    )
}

/// The imports that are handed on, as symbols of the importing files.
pub open spec fn handed_on(a: WorkspaceAnalyzer, edges: Seq<ImportEdgeView>) -> Seq<Symbol>
    decreases edges.len(),
{
    if edges.len() == 0 {
        Seq::empty()
    } else {
        let before = handed_on(a, edges.drop_last());
        let e = edges.last();
        if is_handed_on(a.exports_of(e.importing_file), e.local_name) {
            before.push((e.importing_file, e.local_name))
        } else {
            before
        }
    }
}

/// The symbols that a file's re-exports of the name stand for.
pub open spec fn stands_for(edges: Seq<ReexportEdgeView>, symbol: Text) -> Seq<Symbol>
    decreases edges.len(),
{
    if edges.len() == 0 {
        Seq::empty()
    } else {
        let before = stands_for(edges.drop_last(), symbol);
        let e = edges.last();
        if e.export.exported_name == symbol || e.export.local_name == Some(symbol) {
            before.push((e.target, symbol))
        } else {
            before
        }
    }
}

/// The symbols under which re-exports from a file pass its symbol on.
pub open spec fn passed_on(edges: Seq<ReexportEdgeView>, symbol: Text) -> Seq<Symbol>
    decreases edges.len(),
{
    if edges.len() == 0 {
        Seq::empty()
    } else {
        let before = passed_on(edges.drop_last(), symbol);
        let e = edges.last();
        if e.export.exported_name == "*"@ {
            before.push((e.reexporting_file, symbol))
        } else if own_name(e.export) == symbol {
            before.push((e.reexporting_file, e.export.exported_name))
        } else {
            before
        }
    }
}

/// The symbols that re-exports tie a symbol to.
pub open spec fn tied(a: WorkspaceAnalyzer, cwd: Text, s: Symbol) -> Seq<Symbol> {
    stands_for(reexports_by(a.reexport_graph(), tidy(s.0)), s.1) + passed_on(
        barrels_in(a.reexport_graph(), graph_path(s.0, cwd)),
        s.1,
    )
}

/// The symbols that a symbol leads to in one step.
pub open spec fn next_symbols(a: WorkspaceAnalyzer, cwd: Text, s: Symbol) -> Seq<Symbol> {
    handed_on(a, importers_in(a.import_graph(), tidy(s.0), s.1)) + tied(a, cwd, s)
}

/// Each symbol leads to the one after it.
pub open spec fn is_way(a: WorkspaceAnalyzer, cwd: Text, way: Seq<Symbol>) -> bool {
    &&& way.len() > 0
    &&& forall|i: int|
        0 <= i < way.len() - 1 ==> #[trigger] next_symbols(a, cwd, way[i]).contains(way[i + 1])
}

/// A symbol leads to another, in any number of steps.
pub open spec fn leads_to(a: WorkspaceAnalyzer, cwd: Text, from: Symbol, to: Symbol) -> bool {
    exists|way: Seq<Symbol>| #[trigger]
        is_way(a, cwd, way) && way[0] == from && way.last() == to
}

// ---------------------------------------------------------------------------
// Where a symbol is used
// ---------------------------------------------------------------------------

/// The uses of imported names in the importing files.
pub open spec fn uses_by_name(a: WorkspaceAnalyzer, edges: Seq<ImportEdgeView>) -> Seq<ReferenceView>
    decreases edges.len(),
{
    if edges.len() == 0 {
        Seq::empty()
    } else {
        let e = edges.last();
        uses_by_name(a, edges.drop_last()) + uses_of(
            e.importing_file,
            a.text_of(e.importing_file),
            a.syntax_of_file(e.importing_file).symbols@,
            e.local_name,
        )
    }
}

/// The uses of a symbol through one import of its whole module.
pub open spec fn uses_by_module(
    a: WorkspaceAnalyzer,
    e: ImportEdgeView,
    symbol: Text,
    default: bool,
) -> Seq<ReferenceView> {
    if e.is_dynamic {
        if default {
            seq![whole_file(e.importing_file)]
        } else {
            Seq::empty()
        }
    } else {
        member_uses(
            e.importing_file,
            a.text_of(e.importing_file),
            a.syntax_of_file(e.importing_file).nodes@,
            e.local_name,
            symbol,
        )
    }
}

/// The uses of a symbol through imports of its whole module.
pub open spec fn uses_by_modules(
    a: WorkspaceAnalyzer,
    edges: Seq<ImportEdgeView>,
    symbol: Text,
    default: bool,
) -> Seq<ReferenceView>
    decreases edges.len(),
{
    if edges.len() == 0 {
        Seq::empty()
    } else {
        uses_by_modules(a, edges.drop_last(), symbol, default) + uses_by_module(
            a,
            edges.last(),
            symbol,
            default,
        )
    }
}

/// The uses of a symbol through imports from its own file.
pub open spec fn direct_uses(a: WorkspaceAnalyzer, s: Symbol) -> Seq<ReferenceView> {
    uses_by_name(a, importers_in(a.import_graph(), tidy(s.0), s.1)) + uses_by_modules(
        a,
        importers_in(a.import_graph(), tidy(s.0), "*"@),
        s.1,
        is_default(a.exports_of(s.0), s.1),
    )
}

/// The direct uses of some symbols.
pub open spec fn uses_of_all(a: WorkspaceAnalyzer, symbols: Seq<Symbol>) -> Seq<ReferenceView>
    decreases symbols.len(),
{
    if symbols.len() == 0 {
        Seq::empty()
    } else {
        uses_of_all(a, symbols.drop_last()) + direct_uses(a, symbols.last())
    }
}

/// How many imports by name there are of some symbols: each takes a search inside a file.
pub open spec fn searches_of_all(a: WorkspaceAnalyzer, symbols: Seq<Symbol>) -> nat
    decreases symbols.len(),
{
    if symbols.len() == 0 {
        0
    } else {
        let s = symbols.last();
        searches_of_all(a, symbols.drop_last()) + importers_in(a.import_graph(), tidy(s.0), s.1).len()
    }
}

/// The files that edges begin in, each once, in the order of the edges.
pub open spec fn importing_files(edges: Seq<ImportEdgeView>) -> Seq<Text>
    decreases edges.len(),
{
    if edges.len() == 0 {
        Seq::empty()
    } else {
        let before = importing_files(edges.drop_last());
        if before.contains(edges.last().importing_file) {
            before
        } else {
            before.push(edges.last().importing_file)
        }
    }
}

/// The reference that stands for a whole file.
pub open spec fn whole_file(f: Text) -> ReferenceView {
    ReferenceView { file_path: f, line: 0, column: 0 }
}

/// The list holds each symbol that `from` leads to, once, and no other.
pub open spec fn lists_all(a: WorkspaceAnalyzer, cwd: Text, from: Symbol, list: Seq<Symbol>) -> bool {
    &&& list.no_duplicates()
    &&& forall|s: Symbol| #[trigger] list.contains(s) <==> leads_to(a, cwd, from, s)
}

/// The references are the direct uses of all symbols that `from` leads to, in some order.
pub open spec fn are_all_uses(
    a: WorkspaceAnalyzer,
    cwd: Text,
    from: Symbol,
    refs: Seq<ReferenceView>,
) -> bool {
    exists|list: Seq<Symbol>| #[trigger]
        lists_all(a, cwd, from, list) && refs.to_multiset() == uses_of_all(a, list).to_multiset()
}

/// A tally of lookups of symbols and of searches inside files.
pub open spec fn walk_tally(lookups: int, searches: nat) -> Tally {
    Tally { lookups: lookups as nat, searches, ..nothing() }
}

/// The tally of a search that visits some symbols, where some questions have an answer: a lookup for
/// each symbol, a search for each import of it by name, and the questions.
pub open spec fn search_tally(
    a: WorkspaceAnalyzer,
    known: Seq<Question>,
    symbols: Seq<Symbol>,
) -> Tally {
    walk_tally(symbols.len() as int, searches_of_all(a, symbols)).plus(
        question_tally(known, questions_of_all(a, symbols)),
    )
}

/// The references are those of [`are_all_uses`], the profiler has counted the visits of the symbols
/// with all that they ask, and the answers are known from then on.
pub open spec fn are_counted_uses(
    a: WorkspaceAnalyzer,
    cwd: Text,
    from: Symbol,
    refs: Seq<ReferenceView>,
    before: Profiler,
    after: Profiler,
    known_before: Seq<Question>,
    known_after: Seq<Question>,
) -> bool {
    exists|list: Seq<Symbol>| #[trigger]
        lists_all(a, cwd, from, list) && refs.to_multiset() == uses_of_all(a, list).to_multiset()
            && is_tally(before, after, search_tally(a, known_before, list)) && known_after
            == answered(known_before, questions_of_all(a, list))
}

// ---------------------------------------------------------------------------
// The walk
// ---------------------------------------------------------------------------

/// The sequence begins with `base`.
spec fn extends(seen: Seq<Symbol>, base: Seq<Symbol>) -> bool {
    base.len() <= seen.len() && seen.take(base.len() as int) == base
}

/// All that a symbol leads to in one step has been seen.
spec fn is_settled(a: WorkspaceAnalyzer, cwd: Text, s: Symbol, seen: Seq<Symbol>) -> bool {
    forall|t: Symbol| #[trigger] next_symbols(a, cwd, s).contains(t) ==> seen.contains(t)
}

/// The symbols that came `from`-th or later are settled.
spec fn all_settled(a: WorkspaceAnalyzer, cwd: Text, seen: Seq<Symbol>, from: int) -> bool {
    forall|i: int| from <= i < seen.len() ==> is_settled(a, cwd, #[trigger] seen[i], seen)
}

/// The start leads to all that has been seen.
spec fn all_reached(a: WorkspaceAnalyzer, cwd: Text, start: Symbol, seen: Seq<Symbol>) -> bool {
    forall|s: Symbol| #[trigger] seen.contains(s) ==> leads_to(a, cwd, start, s)
}

/// What one visit does to the symbols seen and the references found.
spec fn is_visit(
    a: WorkspaceAnalyzer,
    cwd: Text,
    start: Symbol,
    before: Seq<Symbol>,
    after: Seq<Symbol>,
    refs_before: Seq<ReferenceView>,
    refs_after: Seq<ReferenceView>,
) -> bool {
    &&& extends(after, before)
    &&& all_settled(a, cwd, after, before.len() as int)
    &&& all_reached(a, cwd, start, after)
    &&& after.no_duplicates()
    &&& refs_after.to_multiset() == refs_before.to_multiset().add(
        uses_of_all(a, after.skip(before.len() as int)).to_multiset(),
    )
}

/// How far a visit has come: `base` ends with the symbol that is visited, `done` are those of its
/// direct uses that have been found.
spec fn is_under_way(
    a: WorkspaceAnalyzer,
    cwd: Text,
    start: Symbol,
    base: Seq<Symbol>,
    seen: Seq<Symbol>,
    first: Seq<ReferenceView>,
    done: Seq<ReferenceView>,
    refs: Seq<ReferenceView>,
) -> bool {
    &&& extends(seen, base)
    &&& all_settled(a, cwd, seen, base.len() as int)
    &&& all_reached(a, cwd, start, seen)
    &&& seen.no_duplicates()
    &&& refs.to_multiset() == first.to_multiset().add(done.to_multiset()).add(
        uses_of_all(a, seen.skip(base.len() as int)).to_multiset(),
    )
}

proof fn lemma_uses_of_all_add(a: WorkspaceAnalyzer, x: Seq<Symbol>, y: Seq<Symbol>)
    ensures
        uses_of_all(a, x + y) == uses_of_all(a, x) + uses_of_all(a, y),
    decreases y.len(),
{
    if y.len() == 0 {
        assert(x + y =~= x);
        assert(uses_of_all(a, x) + uses_of_all(a, y) =~= uses_of_all(a, x));
    } else {
        lemma_uses_of_all_add(a, x, y.drop_last());
        assert((x + y).drop_last() =~= x + y.drop_last());
        assert((x + y).last() == y.last());
        assert(uses_of_all(a, x + y) =~= uses_of_all(a, x) + uses_of_all(a, y));
    }
}

proof fn lemma_searches_of_all_add(a: WorkspaceAnalyzer, x: Seq<Symbol>, y: Seq<Symbol>)
    ensures
        searches_of_all(a, x + y) == searches_of_all(a, x) + searches_of_all(a, y),
    decreases y.len(),
{
    if y.len() == 0 {
        assert(x + y =~= x);
    } else {
        lemma_searches_of_all_add(a, x, y.drop_last());
        assert((x + y).drop_last() =~= x + y.drop_last());
        assert((x + y).last() == y.last());
    }
}

/// What comes behind a place in a longer list: what came there before, and what was added.
proof fn lemma_searches_on(a: WorkspaceAnalyzer, from: int, seen: Seq<Symbol>, after: Seq<Symbol>)
    requires
        0 <= from <= seen.len(),
        extends(after, seen),
    ensures
        searches_of_all(a, after.skip(from)) == searches_of_all(a, seen.skip(from))
            + searches_of_all(a, after.skip(seen.len() as int)),
{
    let x = seen.skip(from);
    let y = after.skip(seen.len() as int);
    assert(after.skip(from) =~= x + y) by {
        assert forall|i: int| 0 <= i < x.len() implies after.skip(from)[i] == (x + y)[i] by {
            assert(after.take(seen.len() as int)[from + i] == after[from + i]);
        }
    }
    lemma_searches_of_all_add(a, x, y);
}

proof fn lemma_extends_contains(seen: Seq<Symbol>, base: Seq<Symbol>, s: Symbol)
    requires
        extends(seen, base),
        base.contains(s),
    ensures
        seen.contains(s),
{
    let i = choose|i: int| 0 <= i < base.len() && base[i] == s;
    assert(seen.take(base.len() as int)[i] == seen[i]);
}

/// A visit within a visit.
proof fn lemma_visit_within(
    a: WorkspaceAnalyzer,
    cwd: Text,
    start: Symbol,
    base: Seq<Symbol>,
    seen: Seq<Symbol>,
    after: Seq<Symbol>,
    first: Seq<ReferenceView>,
    done: Seq<ReferenceView>,
    refs: Seq<ReferenceView>,
    refs_after: Seq<ReferenceView>,
)
    requires
        is_under_way(a, cwd, start, base, seen, first, done, refs),
        is_visit(a, cwd, start, seen, after, refs, refs_after),
    ensures
        is_under_way(a, cwd, start, base, after, first, done, refs_after),
{
    let n = base.len() as int;
    assert(after.take(n) =~= seen.take(n)) by {
        assert(after.take(seen.len() as int).take(n) =~= after.take(n));
    }
    assert forall|i: int| n <= i < after.len() implies is_settled(
        a,
        cwd,
        #[trigger] after[i],
        after,
    ) by {
        if i < seen.len() {
            assert(after.take(seen.len() as int)[i] == after[i]);
            assert(is_settled(a, cwd, seen[i], seen));
            assert forall|t: Symbol| #[trigger]
                next_symbols(a, cwd, after[i]).contains(t) implies after.contains(t) by {
                lemma_extends_contains(after, seen, t);
            }
        }
    }
    let x = seen.skip(n);
    let y = after.skip(seen.len() as int);
    assert(after.skip(n) =~= x + y) by {
        assert forall|i: int| 0 <= i < x.len() implies after.skip(n)[i] == (x + y)[i] by {
            assert(after.take(seen.len() as int)[n + i] == after[n + i]);
        }
    }
    lemma_uses_of_all_add(a, x, y);
    vstd::seq_lib::lemma_multiset_commutative(uses_of_all(a, x), uses_of_all(a, y));
    assert(refs_after.to_multiset() =~= first.to_multiset().add(done.to_multiset()).add(
        uses_of_all(a, after.skip(n)).to_multiset(),
    ));
}

/// More direct uses are found.
proof fn lemma_uses_found(
    a: WorkspaceAnalyzer,
    cwd: Text,
    start: Symbol,
    base: Seq<Symbol>,
    seen: Seq<Symbol>,
    first: Seq<ReferenceView>,
    done: Seq<ReferenceView>,
    refs: Seq<ReferenceView>,
    more: Seq<ReferenceView>,
)
    requires
        is_under_way(a, cwd, start, base, seen, first, done, refs),
    ensures
        is_under_way(a, cwd, start, base, seen, first, done + more, refs + more),
{
    vstd::seq_lib::lemma_multiset_commutative(done, more);
    vstd::seq_lib::lemma_multiset_commutative(refs, more);
    assert((refs + more).to_multiset() =~= first.to_multiset().add(
        (done + more).to_multiset(),
    ).add(uses_of_all(a, seen.skip(base.len() as int)).to_multiset()));
}

/// The end of a visit.
proof fn lemma_visit_ends(
    a: WorkspaceAnalyzer,
    cwd: Text,
    start: Symbol,
    before: Seq<Symbol>,
    s: Symbol,
    seen: Seq<Symbol>,
    first: Seq<ReferenceView>,
    refs: Seq<ReferenceView>,
)
    requires
        is_under_way(a, cwd, start, before.push(s), seen, first, direct_uses(a, s), refs),
        is_settled(a, cwd, s, seen),
    ensures
        is_visit(a, cwd, start, before, seen, first, refs),
        seen.contains(s),
{
    let base = before.push(s);
    let n = before.len() as int;
    assert(seen.take(n) =~= before) by {
        assert(seen.take(n + 1).take(n) =~= seen.take(n));
        assert(base.take(n) =~= before);
    }
    assert(seen[n] == s) by {
        assert(seen.take(n + 1)[n] == seen[n]);
    }
    let y = seen.skip(n + 1);
    assert(seen.skip(n) =~= seq![s] + y);
    lemma_uses_of_all_add(a, seq![s], y);
    let one = seq![s];
    assert(one.drop_last() =~= Seq::<Symbol>::empty());
    assert(one.last() == s);
    assert(uses_of_all(a, one.drop_last()) =~= Seq::<ReferenceView>::empty());
    assert(uses_of_all(a, seq![s]) =~= direct_uses(a, s));
    vstd::seq_lib::lemma_multiset_commutative(direct_uses(a, s), uses_of_all(a, y));
    assert(refs.to_multiset() =~= first.to_multiset().add(
        uses_of_all(a, seen.skip(n)).to_multiset(),
    ));
}

// ---------------------------------------------------------------------------
// The walk ends
// ---------------------------------------------------------------------------

/// The files in the module graph.
spec fn graph_files(a: WorkspaceAnalyzer) -> Seq<Text> {
    Seq::new(a.import_graph().len(), |i: int| a.import_graph()[i].importing_file) + Seq::new(
        a.reexport_graph().len(),
        |i: int| a.reexport_graph()[i].reexporting_file,
    ) + Seq::new(a.reexport_graph().len(), |i: int| a.reexport_graph()[i].target)
}

/// The names in the module graph.
spec fn graph_names(a: WorkspaceAnalyzer) -> Seq<Text> {
    Seq::new(a.import_graph().len(), |i: int| a.import_graph()[i].local_name) + Seq::new(
        a.reexport_graph().len(),
        |i: int| a.reexport_graph()[i].export.exported_name,
    )
}

/// All pairs of a file and a name.
spec fn pairs_of(files: Seq<Text>, names: Seq<Text>) -> Set<Symbol>
    decreases files.len(),
{
    if files.len() == 0 {
        Set::empty()
    } else {
        pairs_of(files.drop_last(), names).union(
            Seq::new(names.len(), |i: int| (files.last(), names[i])).to_set(),
        )
    }
}

proof fn lemma_pairs_of(files: Seq<Text>, names: Seq<Text>)
    ensures
        pairs_of(files, names).finite(),
        forall|f: Text, n: Text|
            files.contains(f) && names.contains(n) ==> #[trigger] pairs_of(files, names).contains(
                (f, n),
            ),
    decreases files.len(),
{
    if files.len() > 0 {
        let init = files.drop_last();
        lemma_pairs_of(init, names);
        let row = Seq::new(names.len(), |i: int| (files.last(), names[i]));
        vstd::seq_lib::seq_to_set_is_finite(row);
        assert forall|f: Text, n: Text| files.contains(f) && names.contains(n) implies #[trigger] pairs_of(
            files,
            names,
        ).contains((f, n)) by {
            let k = choose|k: int| 0 <= k < files.len() && files[k] == f;
            if k < init.len() {
                assert(init[k] == f);
                assert(pairs_of(init, names).contains((f, n)));
            } else {
                let j = choose|j: int| 0 <= j < names.len() && names[j] == n;
                assert(row[j] == (f, n));
                assert(row.to_set().contains((f, n)));
            }
        }
    }
}

/// The symbols that a walk can come by.
spec fn universe(a: WorkspaceAnalyzer, start: Symbol) -> Set<Symbol> {
    pairs_of(graph_files(a).push(start.0), graph_names(a).push(start.1))
}

/// How many of them are left.
spec fn left(a: WorkspaceAnalyzer, start: Symbol, seen: Seq<Symbol>) -> nat {
    universe(a, start).difference(seen.to_set()).len()
}

proof fn lemma_left(
    a: WorkspaceAnalyzer,
    start: Symbol,
    before: Seq<Symbol>,
    s: Symbol,
    seen: Seq<Symbol>,
)
    requires
        universe(a, start).contains(s),
        !before.contains(s),
        extends(seen, before.push(s)),
    ensures
        left(a, start, seen) < left(a, start, before),
{
    let files = graph_files(a).push(start.0);
    let names = graph_names(a).push(start.1);
    lemma_pairs_of(files, names);
    let u = universe(a, start);
    let big = u.difference(before.to_set());
    let small = u.difference(seen.to_set());
    assert forall|t: Symbol| small.contains(t) implies #[trigger] big.remove(s).contains(t) by {
        assert(!seen.contains(t));
        if before.contains(t) {
            collections::lemma_push_contains(before, s, t);
            lemma_extends_contains(seen, before.push(s), t);
        }
        if t == s {
            collections::lemma_push_contains(before, s, s);
            lemma_extends_contains(seen, before.push(s), s);
        }
    }
    assert(small.subset_of(big.remove(s)));
    vstd::set_lib::lemma_len_subset(small, big.remove(s));
    assert(big.contains(s));
}

proof fn lemma_handed_on_members(a: WorkspaceAnalyzer, edges: Seq<ImportEdgeView>)
    ensures
        forall|t: Symbol| #[trigger]
            handed_on(a, edges).contains(t) ==> exists|i: int|
                0 <= i < edges.len() && t == ((#[trigger] edges[i]).importing_file, edges[i].local_name),
    decreases edges.len(),
{
    if edges.len() > 0 {
        let init = edges.drop_last();
        lemma_handed_on_members(a, init);
        let before = handed_on(a, init);
        let last = edges.last();
        assert forall|t: Symbol| #[trigger] handed_on(a, edges).contains(t) implies exists|i: int|
            0 <= i < edges.len() && t == (
            (#[trigger] edges[i]).importing_file, edges[i].local_name) by {
            collections::lemma_push_contains(before, (last.importing_file, last.local_name), t);
            if before.contains(t) {
                let i = choose|i: int|
                    0 <= i < init.len() && t == (
                    (#[trigger] init[i]).importing_file, init[i].local_name);
                assert(edges[i] == init[i]);
            } else {
                assert(edges[edges.len() - 1] == last);
            }
        }
    }
}

proof fn lemma_stands_for_members(edges: Seq<ReexportEdgeView>, symbol: Text)
    ensures
        forall|t: Symbol| #[trigger]
            stands_for(edges, symbol).contains(t) ==> t.1 == symbol && exists|i: int|
                0 <= i < edges.len() && t.0 == (#[trigger] edges[i]).target,
    decreases edges.len(),
{
    if edges.len() > 0 {
        let init = edges.drop_last();
        lemma_stands_for_members(init, symbol);
        let before = stands_for(init, symbol);
        let last = edges.last();
        assert forall|t: Symbol| #[trigger] stands_for(edges, symbol).contains(t) implies t.1
            == symbol && exists|i: int|
            0 <= i < edges.len() && t.0 == (#[trigger] edges[i]).target by {
            collections::lemma_push_contains(before, (last.target, symbol), t);
            if before.contains(t) {
                let i = choose|i: int| 0 <= i < init.len() && t.0 == (#[trigger] init[i]).target;
                assert(edges[i] == init[i]);
            } else {
                assert(edges[edges.len() - 1] == last);
            }
        }
    }
}

proof fn lemma_passed_on_members(edges: Seq<ReexportEdgeView>, symbol: Text)
    ensures
        forall|t: Symbol| #[trigger]
            passed_on(edges, symbol).contains(t) ==> exists|i: int|
                0 <= i < edges.len() && t.0 == (#[trigger] edges[i]).reexporting_file && (t.1
                    == symbol || t.1 == edges[i].export.exported_name),
    decreases edges.len(),
{
    if edges.len() > 0 {
        let init = edges.drop_last();
        lemma_passed_on_members(init, symbol);
        let before = passed_on(init, symbol);
        let last = edges.last();
        assert forall|t: Symbol| #[trigger]
            passed_on(edges, symbol).contains(t) implies exists|i: int|
            0 <= i < edges.len() && t.0 == (#[trigger] edges[i]).reexporting_file && (t.1 == symbol
                || t.1 == edges[i].export.exported_name) by {
            collections::lemma_push_contains(before, (last.reexporting_file, symbol), t);
            collections::lemma_push_contains(
                before,
                (last.reexporting_file, last.export.exported_name),
                t,
            );
            if before.contains(t) {
                let i = choose|i: int|
                    0 <= i < init.len() && t.0 == (#[trigger] init[i]).reexporting_file && (t.1
                        == symbol || t.1 == init[i].export.exported_name);
                assert(edges[i] == init[i]);
            } else {
                assert(edges[edges.len() - 1] == last);
            }
        }
    }
}

/// What a symbol leads to is in the module graph, but for a name that stays the same.
proof fn lemma_next_in_graph(a: WorkspaceAnalyzer, cwd: Text, s: Symbol, t: Symbol)
    requires
        next_symbols(a, cwd, s).contains(t),
    ensures
        graph_files(a).contains(t.0),
        t.1 == s.1 || graph_names(a).contains(t.1),
{
    let g = a.import_graph();
    let h = a.reexport_graph();
    let fs = graph_files(a);
    let ns = graph_names(a);
    let importers = importers_in(g, tidy(s.0), s.1);
    let own = reexports_by(h, tidy(s.0));
    let barrels = barrels_in(h, graph_path(s.0, cwd));
    lookup::lemma_importers_in(g, tidy(s.0), s.1);
    lookup::lemma_reexports_members(h, tidy(s.0));
    lookup::lemma_barrels_members(h, graph_path(s.0, cwd));
    lemma_handed_on_members(a, importers);
    lemma_stands_for_members(own, s.1);
    lemma_passed_on_members(barrels, s.1);
    let all = next_symbols(a, cwd, s);
    let x = handed_on(a, importers);
    let y = stands_for(own, s.1);
    let z = passed_on(barrels, s.1);
    let k = choose|k: int| 0 <= k < all.len() && all[k] == t;
    assert(all =~= x + y + z);
    if k < x.len() {
        assert(x[k] == t);
        assert(x.contains(t));
        let i = choose|i: int|
            0 <= i < importers.len() && t == (
            (#[trigger] importers[i]).importing_file, importers[i].local_name);
        assert(importers.contains(importers[i]));
        let j = choose|j: int| 0 <= j < g.len() && g[j] == importers[i];
        assert(fs[j] == t.0);
        assert(ns[j] == t.1);
    } else if k < x.len() + y.len() {
        assert(y[k - x.len()] == t);
        assert(y.contains(t));
        let i = choose|i: int| 0 <= i < own.len() && t.0 == (#[trigger] own[i]).target;
        assert(own.contains(own[i]));
        let j = choose|j: int| 0 <= j < h.len() && h[j] == own[i];
        assert(fs[g.len() + h.len() + j] == t.0);
    } else {
        assert(z[k - x.len() - y.len()] == t);
        assert(z.contains(t));
        let i = choose|i: int|
            0 <= i < barrels.len() && t.0 == (#[trigger] barrels[i]).reexporting_file && (t.1
                == s.1 || t.1 == barrels[i].export.exported_name);
        assert(barrels.contains(barrels[i]));
        let j = choose|j: int| 0 <= j < h.len() && h[j] == barrels[i];
        assert(fs[g.len() + j] == t.0);
        assert(ns[g.len() + j] == h[j].export.exported_name);
    }
}

/// A symbol of the graph, or the start.
spec fn is_known(a: WorkspaceAnalyzer, start: Symbol, s: Symbol) -> bool {
    graph_files(a).push(start.0).contains(s.0) && graph_names(a).push(start.1).contains(s.1)
}

proof fn lemma_next_known(a: WorkspaceAnalyzer, cwd: Text, start: Symbol, s: Symbol, t: Symbol)
    requires
        is_known(a, start, s),
        next_symbols(a, cwd, s).contains(t),
    ensures
        is_known(a, start, t),
{
    lemma_next_in_graph(a, cwd, s, t);
    collections::lemma_push_contains(graph_files(a), start.0, t.0);
    collections::lemma_push_contains(graph_names(a), start.1, t.1);
}

proof fn lemma_known_in_universe(a: WorkspaceAnalyzer, start: Symbol, s: Symbol)
    requires
        is_known(a, start, s),
    ensures
        universe(a, start).contains(s),
{
    lemma_pairs_of(graph_files(a).push(start.0), graph_names(a).push(start.1));
    assert(universe(a, start).contains((s.0, s.1)));
}

// ---------------------------------------------------------------------------
// Ways
// ---------------------------------------------------------------------------

/// Every symbol leads to itself.
pub proof fn lemma_leads_to_itself(a: WorkspaceAnalyzer, cwd: Text, s: Symbol)
    ensures
        leads_to(a, cwd, s, s),
{
    let way = seq![s];
    assert(is_way(a, cwd, way));
}

/// A step more.
pub proof fn lemma_leads_on(a: WorkspaceAnalyzer, cwd: Text, from: Symbol, s: Symbol, t: Symbol)
    requires
        leads_to(a, cwd, from, s),
        next_symbols(a, cwd, s).contains(t),
    ensures
        leads_to(a, cwd, from, t),
{
    let way = choose|way: Seq<Symbol>| #[trigger]
        is_way(a, cwd, way) && way[0] == from && way.last() == s;
    let longer = way.push(t);
    assert forall|i: int| 0 <= i < longer.len() - 1 implies #[trigger] next_symbols(
        a,
        cwd,
        longer[i],
    ).contains(longer[i + 1]) by {
        if i < way.len() - 1 {
            assert(longer[i] == way[i] && longer[i + 1] == way[i + 1]);
            assert(next_symbols(a, cwd, way[i]).contains(way[i + 1]));
        } else {
            assert(longer[i] == s && longer[i + 1] == t);
        }
    }
    assert(is_way(a, cwd, longer));
    assert(longer.last() == t);
}

/// A way that begins in a settled list stays in it.
proof fn lemma_way_stays(
    a: WorkspaceAnalyzer,
    cwd: Text,
    seen: Seq<Symbol>,
    way: Seq<Symbol>,
    i: int,
)
    requires
        all_settled(a, cwd, seen, 0),
        is_way(a, cwd, way),
        seen.contains(way[0]),
        0 <= i < way.len(),
    ensures
        seen.contains(way[i]),
    decreases i,
{
    if i > 0 {
        lemma_way_stays(a, cwd, seen, way, i - 1);
        let k = choose|k: int| 0 <= k < seen.len() && seen[k] == way[i - 1];
        assert(is_settled(a, cwd, seen[k], seen));
        assert(next_symbols(a, cwd, way[i - 1]).contains(way[i - 1 + 1]));
    }
}

// ---------------------------------------------------------------------------
// The finder
// ---------------------------------------------------------------------------

/// Finds references to symbols across files.
pub struct ReferenceFinder<'a> {
    analyzer: &'a WorkspaceAnalyzer,
    cwd: String,
    resolved: PairSet,
}

/// Whether the file hands on the name.
fn hands_on_name(exports: &Vec<Export>, name: &str) -> (r: bool)
    ensures
        r == is_handed_on(exports.deep_view(), name@),
{
    let ghost all = exports.deep_view();
    let mut i: usize = 0;
    while i < exports.len()
        invariant
            i <= exports.len(),
            all == exports.deep_view(),
            forall|j: int| 0 <= j < i ==> !hands_on(#[trigger] all[j], name@),
        decreases exports.len() - i,
    {
        let e = &exports[i];
        assert(all[i as int] == e.deep_view());
        let found = match &e.local_name {
            Some(local) => text::same(local.as_str(), name),
            None => text::same(e.exported_name.as_str(), name),
        };
        if found {
            assert(hands_on(all[i as int], name@));
            return true;
        }
        i += 1;
    }
    false
}

/// Whether the symbol is the default export of the file.
fn is_default_export(exports: &Vec<Export>, symbol: &str) -> (r: bool)
    ensures
        r == is_default(exports.deep_view(), symbol@),
{
    if text::same(symbol, "default") {
        return true;
    }
    let ghost all = exports.deep_view();
    let mut i: usize = 0;
    while i < exports.len()
        invariant
            i <= exports.len(),
            all == exports.deep_view(),
            symbol@ != "default"@,
            forall|j: int|
                0 <= j < i ==> !((#[trigger] all[j]).exported_name == "default"@
                    && all[j].local_name == Some(symbol@)),
        decreases exports.len() - i,
    {
        let e = &exports[i];
        assert(all[i as int] == e.deep_view());
        if text::same(e.exported_name.as_str(), "default") {
            if let Some(local) = &e.local_name {
                if text::same(local.as_str(), symbol) {
                    return true;
                }
            }
        }
        i += 1;
    }
    false
}

impl<'a> ReferenceFinder<'a> {
    /// The workspace that is searched.
    pub closed spec fn workspace(&self) -> WorkspaceAnalyzer {
        *self.analyzer
    }

    /// The workspace root.
    pub closed spec fn root(&self) -> Text {
        self.cwd@
    }

    /// The questions to the module resolver that profiled searches have asked, each once: their
    /// answers are known.
    pub closed spec fn known(&self) -> Seq<Question> {
        self.resolved@
    }

    /// A finder for the workspace at `cwd`.
    pub fn new(analyzer: &'a WorkspaceAnalyzer, cwd: &str) -> (r: Self)
        ensures
            r.workspace() == *analyzer,
            r.root() == cwd@,
            r.known() == Seq::<Question>::empty(),
    {
        ReferenceFinder { analyzer, cwd: cwd.to_owned(), resolved: PairSet::new() }
    }

    /// The path as the module graph writes it.
    fn normalize_path(&self, path: &str) -> (r: String)
        ensures
            r@ == graph_path(path@, self.root()),
            tidy(r@) == r@,
    {
        let short = if paths::is_absolute(path) {
            paths::strip_prefix_or_self(path, self.cwd.as_str())
        } else {
            path.to_owned()
        };
        proof {
            paths::lemma_tidy(short@);
        }
        paths::tidied(short.as_str())
    }

    /// Whether a file hands on a name of its own or one that it imports.
    fn is_re_exported(&self, file: &str, symbol_name: &str) -> (r: bool)
        ensures
            r == is_handed_on(self.workspace().exports_of(file@), symbol_name@),
    {
        match self.analyzer.exports(file) {
            Some(exports) => hands_on_name(exports, symbol_name),
            None => false,
        }
    }

    /// The symbols that re-exports tie a symbol to.
    fn reexport_steps(&self, file: &str, symbol: &str) -> (r: Vec<(String, String)>)
        ensures
            r.deep_view() == tied(self.workspace(), self.root(), (file@, symbol@)),
    {
        let ghost a = self.workspace();
        let mut out: Vec<(String, String)> = Vec::new();
        let own = self.analyzer.reexports(file);
        let ghost mine = own.deep_view();
        let mut i: usize = 0;
        assert(mine.take(0) =~= Seq::<ReexportEdgeView>::empty());
        assert(out.deep_view() =~= Seq::<Symbol>::empty());
        while i < own.len()
            invariant
                i <= own.len(),
                mine == own.deep_view(),
                out.deep_view() == stands_for(mine.take(i as int), symbol@),
            decreases own.len() - i,
        {
            assert(mine.take(i + 1).drop_last() =~= mine.take(i as int));
            assert(mine.take(i + 1).last() == own@[i as int].deep_view());
            let e = &own[i];
            let named = text::same(e.export.exported_name.as_str(), symbol)
                || match &e.export.local_name {
                Some(local) => text::same(local.as_str(), symbol),
                None => false,
            };
            if named {
                let ghost before = out.deep_view();
                out.push((e.target.clone(), symbol.to_owned()));
                assert(out.deep_view() =~= before.push((e.target@, symbol@)));
            }
            i += 1;
        }
        assert(mine.take(i as int) =~= mine);
        let ghost head = out.deep_view();
        let path = self.normalize_path(file);
        let barrels = self.analyzer.barrels(path.as_str());
        let ghost others = barrels.deep_view();
        let mut j: usize = 0;
        assert(others.take(0) =~= Seq::<ReexportEdgeView>::empty());
        assert(out.deep_view() =~= head + Seq::<Symbol>::empty());
        while j < barrels.len()
            invariant
                j <= barrels.len(),
                others == barrels.deep_view(),
                out.deep_view() == head + passed_on(others.take(j as int), symbol@),
            decreases barrels.len() - j,
        {
            assert(others.take(j + 1).drop_last() =~= others.take(j as int));
            assert(others.take(j + 1).last() == barrels@[j as int].deep_view());
            let e = &barrels[j];
            let ghost before = out.deep_view();
            let ghost done = passed_on(others.take(j as int), symbol@);
            if text::same(e.export.exported_name.as_str(), "*") {
                out.push((e.reexporting_file.clone(), symbol.to_owned()));
                assert(out.deep_view() =~= before.push((e.reexporting_file@, symbol@)));
                assert(out.deep_view() =~= head + done.push((e.reexporting_file@, symbol@)));
            } else {
                let own = match &e.export.local_name {
                    Some(local) => local.as_str(),
                    None => e.export.exported_name.as_str(),
                };
                if text::same(own, symbol) {
                    out.push((e.reexporting_file.clone(), e.export.exported_name.clone()));
                    assert(out.deep_view() =~= before.push(
                        (e.reexporting_file@, e.export.exported_name@),
                    ));
                    assert(out.deep_view() =~= head + done.push(
                        (e.reexporting_file@, e.export.exported_name@),
                    ));
                }
            }
            j += 1;
        }
        assert(others.take(j as int) =~= others);
        out
    }

    /// Appends the uses of an imported name.
    fn push_uses(&self, e: &ImportEdge, refs: &mut Vec<Reference>, profiler: &mut Profiler)
        requires
            self.workspace().has_file(e.importing_file@),
        ensures
            final(refs).deep_view() == old(refs).deep_view() + uses_of(
                e.importing_file@,
                self.workspace().text_of(e.importing_file@),
                self.workspace().syntax_of_file(e.importing_file@).symbols@,
                e.local_name@,
            ),
            is_tally(*old(profiler), *final(profiler), (Tally { searches: 1, ..nothing() })),
    {
        match self.analyzer.profile_local_references(
            e.importing_file.as_str(),
            e.local_name.as_str(),
            profiler,
        ) {
            Ok(mut found) => {
                append(refs, &mut found);
            },
            Err(_) => {
                proof {
                    assert(false);
                }
            },
        }
    }

    /// Appends the uses of a symbol through imports of its whole module.
    fn push_module_uses(&self, file: &str, symbol: &str, refs: &mut Vec<Reference>)
        ensures
            final(refs).deep_view() == old(refs).deep_view() + uses_by_modules(
                self.workspace(),
                importers_in(self.workspace().import_graph(), tidy(file@), "*"@),
                symbol@,
                is_default(self.workspace().exports_of(file@), symbol@),
            ),
    {
        let ghost a = self.workspace();
        self.analyzer.check();
        let importers = self.analyzer.importers(file, "*");
        let ghost all = importers.deep_view();
        proof {
            lookup::lemma_importers_in(a.import_graph(), tidy(file@), "*"@);
        }
        let default = match self.analyzer.exports(file) {
            Some(exports) => is_default_export(exports, symbol),
            None => text::same(symbol, "default"),
        };
        assert(default == is_default(a.exports_of(file@), symbol@));
        let ghost start = refs.deep_view();
        let mut i: usize = 0;
        assert(all.take(0) =~= Seq::<ImportEdgeView>::empty());
        assert(refs.deep_view() =~= start + Seq::<ReferenceView>::empty());
        while i < importers.len()
            invariant
                i <= importers.len(),
                all == importers.deep_view(),
                a == self.workspace(),
                a.edges_within(),
                forall|e: ImportEdgeView| #[trigger]
                    all.contains(e) ==> a.import_graph().contains(e),
                refs.deep_view() == start + uses_by_modules(
                    a,
                    all.take(i as int),
                    symbol@,
                    default,
                ),
            decreases importers.len() - i,
        {
            let e = &importers[i];
            let ghost ev = all[i as int];
            let ghost before = refs.deep_view();
            let ghost done = uses_by_modules(a, all.take(i as int), symbol@, default);
            proof {
                assert(ev == e.deep_view());
                assert(all.contains(ev));
                let k = choose|k: int| 0 <= k < a.import_graph().len() && a.import_graph()[k] == ev;
                assert(a.has_file(a.import_graph()[k].importing_file));
                assert(all.take(i + 1).drop_last() =~= all.take(i as int));
            }
            if e.is_dynamic {
                if default {
                    let r = Reference { file_path: e.importing_file.clone(), line: 0, column: 0 };
                    let ghost rv = r.deep_view();
                    refs.push(r);
                    assert(refs.deep_view() =~= before.push(rv));
                    assert(refs.deep_view() =~= start + (done + seq![rv]));
                } else {
                    assert(done + Seq::<ReferenceView>::empty() =~= done);
                }
            } else {
                match self.analyzer.find_namespace_member_access(
                    e.importing_file.as_str(),
                    e.local_name.as_str(),
                    symbol,
                ) {
                    Ok(mut found) => {
                        let ghost more = found.deep_view();
                        append(refs, &mut found);
                        assert(refs.deep_view() =~= start + (done + more));
                    },
                    Err(_) => {
                        proof {
                            assert(false);
                        }
                    },
                }
            }
            i += 1;
        }
        assert(all.take(i as int) =~= all);
    }

    /// Visits a symbol: finds its direct uses, and visits what it leads to.
    #[verifier::rlimit(60)]
    fn find_refs_recursive(
        &self,
        symbol_name: &str,
        current_file: &str,
        refs: &mut Vec<Reference>,
        visited: PairSet,
        profiler: &mut Profiler,
        Ghost(start): Ghost<Symbol>,
    ) -> (r: PairSet)
        requires
            is_known(self.workspace(), start, (current_file@, symbol_name@)),
            leads_to(self.workspace(), self.root(), start, (current_file@, symbol_name@)),
            all_reached(self.workspace(), self.root(), start, visited@),
        ensures
            is_visit(
                self.workspace(),
                self.root(),
                start,
                visited@,
                r@,
                old(refs).deep_view(),
                final(refs).deep_view(),
            ),
            r@.contains((current_file@, symbol_name@)),
            is_tally(
                *old(profiler),
                *final(profiler),
                walk_tally(
                    r@.len() - visited@.len(),
                    searches_of_all(self.workspace(), r@.skip(visited@.len() as int)),
                ),
            ),
        decreases left(self.workspace(), start, visited@),
    {
        let ghost a = self.workspace();
        let ghost cwd = self.root();
        let ghost s = (current_file@, symbol_name@);
        let ghost before = visited@;
        let ghost first = refs.deep_view();
        let ghost idle = *profiler;
        proof {
            profiler::lemma_no_tally(idle);
        }
        let (seen, fresh) = visited.with(current_file, symbol_name);
        let mut seen = seen;
        if !fresh {
            proof {
                assert(before.take(before.len() as int) =~= before);
                assert(before.skip(before.len() as int) =~= Seq::<Symbol>::empty());
                assert(first.to_multiset() =~= first.to_multiset().add(
                    Seq::<ReferenceView>::empty().to_multiset(),
                )) by {
                    vstd::seq_lib::lemma_multiset_commutative(
                        first,
                        Seq::<ReferenceView>::empty(),
                    );
                    assert(first + Seq::<ReferenceView>::empty() =~= first);
                }
            }
            return seen;
        }
        profiler.tally_lookup();
        let ghost base = before.push(s);
        let ghost importers_view = importers_in(a.import_graph(), tidy(s.0), s.1);
        self.analyzer.check();
        let importers = self.analyzer.importers(current_file, symbol_name);
        let mut i: usize = 0;
        proof {
            lemma_known_in_universe(a, start, s);
            lookup::lemma_importers_in(a.import_graph(), tidy(s.0), s.1);
            assert(importers_view.take(0) =~= Seq::<ImportEdgeView>::empty());
            assert(base.take(base.len() as int) =~= base);
            assert(base.skip(base.len() as int) =~= Seq::<Symbol>::empty());
            let none = Seq::<ReferenceView>::empty();
            vstd::seq_lib::lemma_multiset_commutative(first, none);
            assert(first + none =~= first);
            assert(first.to_multiset() =~= first.to_multiset().add(none.to_multiset()).add(
                none.to_multiset(),
            ));
            assert forall|t: Symbol| #[trigger] base.contains(t) implies leads_to(
                a,
                cwd,
                start,
                t,
            ) by {
                collections::lemma_push_contains(before, s, t);
            }
            assert(is_under_way(a, cwd, start, base, seen@, first, none, refs.deep_view()));
        }
        while i < importers.len()
            invariant
                i <= importers.len(),
                importers.deep_view() == importers_view,
                importers_view == importers_in(a.import_graph(), tidy(s.0), s.1),
                a == self.workspace(),
                cwd == self.root(),
                s == (current_file@, symbol_name@),
                base == before.push(s),
                !before.contains(s),
                before == visited@,
                universe(a, start).contains(s),
                is_known(a, start, s),
                leads_to(a, cwd, start, s),
                a.edges_within(),
                forall|e: ImportEdgeView| #[trigger]
                    importers_view.contains(e) ==> a.import_graph().contains(e),
                is_under_way(
                    a,
                    cwd,
                    start,
                    base,
                    seen@,
                    first,
                    uses_by_name(a, importers_view.take(i as int)),
                    refs.deep_view(),
                ),
                forall|t: Symbol| #[trigger]
                    handed_on(a, importers_view.take(i as int)).contains(t) ==> seen@.contains(t),
                is_tally(
                    idle,
                    *profiler,
                    walk_tally(
                        seen@.len() - before.len(),
                        i as nat + searches_of_all(a, seen@.skip(base.len() as int)),
                    ),
                ),
            decreases importers.len() - i,
        {
            let e = &importers[i];
            let ghost ev = importers_view[i as int];
            let ghost done = uses_by_name(a, importers_view.take(i as int));
            let ghost mid = refs.deep_view();
            let ghost so_far = handed_on(a, importers_view.take(i as int));
            proof {
                assert(ev == e.deep_view());
                assert(importers_view.contains(ev));
                let k = choose|k: int| 0 <= k < a.import_graph().len() && a.import_graph()[k] == ev;
                assert(a.has_file(a.import_graph()[k].importing_file));
                assert(importers_view.take(i + 1).drop_last() =~= importers_view.take(i as int));
                assert(importers_view.take(i + 1).last() == ev);
            }
            let ghost counted = *profiler;
            self.push_uses(e, refs, profiler);
            proof {
                profiler::lemma_tally_on(
                    idle,
                    counted,
                    *profiler,
                    walk_tally(
                        seen@.len() - before.len(),
                        i as nat + searches_of_all(a, seen@.skip(base.len() as int)),
                    ),
                    Tally { searches: 1, ..nothing() },
                );
                let more = uses_of(
                    ev.importing_file,
                    a.text_of(ev.importing_file),
                    a.syntax_of_file(ev.importing_file).symbols@,
                    ev.local_name,
                );
                lemma_uses_found(a, cwd, start, base, seen@, first, done, mid, more);
                assert(uses_by_name(a, importers_view.take(i + 1)) == done + more);
            }
            if self.is_re_exported(e.importing_file.as_str(), e.local_name.as_str()) {
                let ghost t = (ev.importing_file, ev.local_name);
                let ghost seen_before = seen@;
                let ghost refs_before = refs.deep_view();
                proof {
                    lemma_handed_on_next(a, cwd, s, i as int);
                    lemma_next_known(a, cwd, start, s, t);
                    lemma_leads_on(a, cwd, start, s, t);
                    lemma_left(a, start, before, s, seen@);
                }
                let ghost counted = *profiler;
                seen = self.find_refs_recursive(
                    e.local_name.as_str(),
                    e.importing_file.as_str(),
                    refs,
                    seen,
                    profiler,
                    Ghost(start),
                );
                proof {
                    lemma_searches_on(a, base.len() as int, seen_before, seen@);
                    profiler::lemma_tally_on(
                        idle,
                        counted,
                        *profiler,
                        walk_tally(
                            seen_before.len() - before.len(),
                            (i + 1) as nat + searches_of_all(
                                a,
                                seen_before.skip(base.len() as int),
                            ),
                        ),
                        walk_tally(
                            seen@.len() - seen_before.len(),
                            searches_of_all(a, seen@.skip(seen_before.len() as int)),
                        ),
                    );
                    lemma_visit_within(
                        a,
                        cwd,
                        start,
                        base,
                        seen_before,
                        seen@,
                        first,
                        uses_by_name(a, importers_view.take(i + 1)),
                        refs_before,
                        refs.deep_view(),
                    );
                    assert forall|u: Symbol| #[trigger]
                        handed_on(a, importers_view.take(i + 1)).contains(u) implies seen@.contains(
                        u,
                    ) by {
                        collections::lemma_push_contains(so_far, t, u);
                        if so_far.contains(u) {
                            lemma_extends_contains(seen@, seen_before, u);
                        }
                    }
                }
            }
            i += 1;
        }
        proof {
            assert(importers_view.take(i as int) =~= importers_view);
        }
        let ghost mid = refs.deep_view();
        self.push_module_uses(current_file, symbol_name, refs);
        let ghost total = direct_uses(a, s);
        proof {
            let more = uses_by_modules(
                a,
                importers_in(a.import_graph(), tidy(s.0), "*"@),
                s.1,
                is_default(a.exports_of(s.0), s.1),
            );
            lemma_uses_found(
                a,
                cwd,
                start,
                base,
                seen@,
                first,
                uses_by_name(a, importers_view),
                mid,
                more,
            );
        }
        let steps = self.reexport_steps(current_file, symbol_name);
        let ghost steps_view = steps.deep_view();
        let mut j: usize = 0;
        while j < steps.len()
            invariant
                j <= steps.len(),
                steps.deep_view() == steps_view,
                steps_view == tied(a, cwd, s),
                a == self.workspace(),
                cwd == self.root(),
                s == (current_file@, symbol_name@),
                base == before.push(s),
                !before.contains(s),
                before == visited@,
                universe(a, start).contains(s),
                is_known(a, start, s),
                leads_to(a, cwd, start, s),
                is_under_way(a, cwd, start, base, seen@, first, total, refs.deep_view()),
                forall|t: Symbol| #[trigger]
                    handed_on(a, importers_view).contains(t) ==> seen@.contains(t),
                forall|k: int| 0 <= k < j ==> seen@.contains(#[trigger] steps_view[k]),
                is_tally(
                    idle,
                    *profiler,
                    walk_tally(
                        seen@.len() - before.len(),
                        importers_view.len() + searches_of_all(a, seen@.skip(base.len() as int)),
                    ),
                ),
            decreases steps.len() - j,
        {
            let ghost t = steps_view[j as int];
            let ghost seen_before = seen@;
            let ghost refs_before = refs.deep_view();
            proof {
                assert(t == (steps@[j as int].0@, steps@[j as int].1@));
                let all = next_symbols(a, cwd, s);
                let head = handed_on(a, importers_in(a.import_graph(), tidy(s.0), s.1));
                assert(all[head.len() + j] == t);
                assert(all.contains(t));
                lemma_next_known(a, cwd, start, s, t);
                lemma_leads_on(a, cwd, start, s, t);
                lemma_left(a, start, before, s, seen@);
            }
            let ghost counted = *profiler;
            seen = self.find_refs_recursive(
                steps[j].1.as_str(),
                steps[j].0.as_str(),
                refs,
                seen,
                profiler,
                Ghost(start),
            );
            proof {
                lemma_searches_on(a, base.len() as int, seen_before, seen@);
                profiler::lemma_tally_on(
                    idle,
                    counted,
                    *profiler,
                    walk_tally(
                        seen_before.len() - before.len(),
                        importers_view.len() + searches_of_all(
                            a,
                            seen_before.skip(base.len() as int),
                        ),
                    ),
                    walk_tally(
                        seen@.len() - seen_before.len(),
                        searches_of_all(a, seen@.skip(seen_before.len() as int)),
                    ),
                );
                lemma_visit_within(
                    a,
                    cwd,
                    start,
                    base,
                    seen_before,
                    seen@,
                    first,
                    total,
                    refs_before,
                    refs.deep_view(),
                );
                assert forall|u: Symbol| #[trigger]
                    handed_on(a, importers_view).contains(u) implies seen@.contains(u) by {
                    lemma_extends_contains(seen@, seen_before, u);
                }
                assert forall|k: int| 0 <= k < j + 1 implies seen@.contains(
                    #[trigger] steps_view[k],
                ) by {
                    if k < j {
                        lemma_extends_contains(seen@, seen_before, steps_view[k]);
                    }
                }
            }
            j += 1;
        }
        proof {
            assert forall|t: Symbol| #[trigger] next_symbols(a, cwd, s).contains(
                t,
            ) implies seen@.contains(t) by {
                let all = next_symbols(a, cwd, s);
                let head = handed_on(a, importers_view);
                let k = choose|k: int| 0 <= k < all.len() && all[k] == t;
                if k < head.len() {
                    assert(head[k] == t);
                    assert(head.contains(t));
                } else {
                    assert(steps_view[k - head.len()] == t);
                }
            }
            lemma_visit_ends(a, cwd, start, before, s, seen@, first, refs.deep_view());
            lemma_searches_on(a, before.len() as int, base, seen@);
            assert(base.skip(before.len() as int) =~= seq![s]);
            reveal_with_fuel(searches_of_all, 2);
            assert(seq![s].last() == s);
        }
        seen
    }

    /// The files that import anything from a file.
    pub fn find_files_importing_from(&self, file_path: &str) -> (r: Result<
        Vec<Reference>,
        DominoError,
    >)
        ensures
            r is Ok,
            r->Ok_0.deep_view() == importing_files(
                edges_to(
                    self.workspace().import_graph(),
                    graph_path(file_path@, self.root()),
                ),
            ).map_values(|f: Text| whole_file(f)),
    {
        let path = self.normalize_path(file_path);
        let edges = self.analyzer.importers_of_file(path.as_str());
        let ghost all = edges.deep_view();
        let mut files = StringSet::new();
        let mut out: Vec<Reference> = Vec::new();
        let mut i: usize = 0;
        assert(all.take(0) =~= Seq::<ImportEdgeView>::empty());
        assert(out.deep_view() =~= Seq::<Text>::empty().map_values(|f: Text| whole_file(f)));
        while i < edges.len()
            invariant
                i <= edges.len(),
                all == edges.deep_view(),
                files.order() == importing_files(all.take(i as int)),
                out.deep_view() == importing_files(all.take(i as int)).map_values(
                    |f: Text| whole_file(f),
                ),
            decreases edges.len() - i,
        {
            files.check_order();
            let ghost before = out.deep_view();
            let ghost names = files.order();
            proof {
                assert(all.take(i + 1).drop_last() =~= all.take(i as int));
                assert(all.take(i + 1).last() == edges@[i as int].deep_view());
            }
            let file = &edges[i].importing_file;
            assert(files@.contains(file@) <==> names.contains(file@));
            if files.insert(file.clone()) {
                out.push(Reference { file_path: file.clone(), line: 0, column: 0 });
                assert(out.deep_view() =~= before.push(whole_file(file@)));
                assert(names.push(file@).map_values(|f: Text| whole_file(f)) =~= names.map_values(
                    |f: Text| whole_file(f),
                ).push(whole_file(file@)));
            }
            i += 1;
        }
        assert(all.take(i as int) =~= all);
        Ok(out)
    }

    /// The files that import anything from a file, with a tally of the questions about imports: those
    /// of each file up to the first that leads there.
    pub fn profile_files_importing_from(&mut self, file_path: &str, profiler: &mut Profiler) -> (r:
        Result<Vec<Reference>, DominoError>)
        ensures
            r is Ok,
            final(self).workspace() == old(self).workspace(),
            final(self).root() == old(self).root(),
            ({
                let a = old(self).workspace();
                let edges = edges_to(a.import_graph(), graph_path(file_path@, old(self).root()));
                let asked = questions_on_imports(a, edges, a.order());
                &&& r->Ok_0.deep_view() == importing_files(edges).map_values(
                    |f: Text| whole_file(f),
                )
                &&& is_tally(
                    *old(profiler),
                    *final(profiler),
                    question_tally(old(self).known(), asked),
                )
                &&& final(self).known() == answered(old(self).known(), asked)
            }),
    {
        let r = self.find_files_importing_from(file_path);
        let path = self.normalize_path(file_path);
        let edges = self.analyzer.importers_of_file(path.as_str());
        let mut known = PairSet::new();
        std::mem::swap(&mut known, &mut self.resolved);
        self.resolved = questions::ask_on_imports(self.analyzer, &edges, known, profiler);
        r
    }

    /// All references to a symbol in other files: its direct uses, and those of every symbol that
    /// imports and re-exports lead to from it.
    pub fn find_cross_file_references(&self, symbol_name: &str, declaring_file: &str) -> (r: Result<
        Vec<Reference>,
        DominoError,
    >)
        ensures
            r is Ok,
            are_all_uses(
                self.workspace(),
                self.root(),
                (tidy(declaring_file@), symbol_name@),
                r->Ok_0.deep_view(),
            ),
    {
        let mut idle = Profiler::new(false);
        let (refs, _) = self.search(symbol_name, declaring_file, &mut idle);
        Ok(refs)
    }

    /// All references to a symbol in other files, with a tally of the search.
    pub fn profile_cross_file_references(
        &mut self,
        symbol_name: &str,
        declaring_file: &str,
        profiler: &mut Profiler,
    ) -> (r: Result<Vec<Reference>, DominoError>)
        ensures
            r is Ok,
            final(self).workspace() == old(self).workspace(),
            final(self).root() == old(self).root(),
            are_counted_uses(
                old(self).workspace(),
                old(self).root(),
                (tidy(declaring_file@), symbol_name@),
                r->Ok_0.deep_view(),
                *old(profiler),
                *final(profiler),
                old(self).known(),
                final(self).known(),
            ),
    {
        let ghost a = self.workspace();
        let ghost cwd = self.root();
        let ghost start = (tidy(declaring_file@), symbol_name@);
        let ghost idle = *profiler;
        let ghost before = self.known();
        let (refs, seen) = self.search(symbol_name, declaring_file, profiler);
        let ghost counted = *profiler;
        let mut known = PairSet::new();
        std::mem::swap(&mut known, &mut self.resolved);
        self.resolved = questions::ask_all(self.analyzer, &seen, known, profiler);
        proof {
            profiler::lemma_tally_on(
                idle,
                counted,
                *profiler,
                walk_tally(seen@.len() as int, searches_of_all(a, seen@)),
                question_tally(before, questions_of_all(a, seen@)),
            );
            assert(lists_all(a, cwd, start, seen@));
        }
        Ok(refs)
    }

    /// The references to a symbol in other files, and the symbols that were visited, with a tally of
    /// the visits.
    fn search(&self, symbol_name: &str, declaring_file: &str, profiler: &mut Profiler) -> (r: (
        Vec<Reference>,
        PairSet,
    ))
        ensures
            lists_all(self.workspace(), self.root(), (tidy(declaring_file@), symbol_name@), r.1@),
            r.0.deep_view().to_multiset() == uses_of_all(
                self.workspace(),
                r.1@,
            ).to_multiset(),
            is_tally(
                *old(profiler),
                *final(profiler),
                walk_tally(r.1@.len() as int, searches_of_all(self.workspace(), r.1@)),
            ),
    {
        let ghost a = self.workspace();
        let ghost cwd = self.root();
        let ghost start = (tidy(declaring_file@), symbol_name@);
        let mut refs: Vec<Reference> = Vec::new();
        proof {
            collections::lemma_push_contains(graph_files(a), start.0, start.0);
            collections::lemma_push_contains(graph_names(a), start.1, start.1);
            lemma_leads_to_itself(a, cwd, start);
            assert(refs.deep_view() =~= Seq::<ReferenceView>::empty());
        }
        let visited = PairSet::new();
        let file = paths::tidied(declaring_file);
        let seen = self.find_refs_recursive(
            symbol_name,
            file.as_str(),
            &mut refs,
            visited,
            profiler,
            Ghost(start),
        );
        proof {
            let list = seen@;
            assert(list.skip(0) =~= list);
            let found = uses_of_all(a, list);
            vstd::seq_lib::lemma_multiset_commutative(Seq::<ReferenceView>::empty(), found);
            assert(Seq::<ReferenceView>::empty() + found =~= found);
            assert forall|s: Symbol| #[trigger] list.contains(s) <==> leads_to(a, cwd, start, s) by {
                if leads_to(a, cwd, start, s) {
                    let way = choose|way: Seq<Symbol>| #[trigger]
                        is_way(a, cwd, way) && way[0] == start && way.last() == s;
                    lemma_way_stays(a, cwd, list, way, way.len() - 1);
                }
            }
            assert(lists_all(a, cwd, start, list));
        }
        (refs, seen)
    }
}

/// The `i`-th import, where it is handed on, is what the symbol leads to.
proof fn lemma_handed_on_next(a: WorkspaceAnalyzer, cwd: Text, s: Symbol, i: int)
    requires
        0 <= i < importers_in(a.import_graph(), tidy(s.0), s.1).len(),
        is_handed_on(
            a.exports_of(importers_in(a.import_graph(), tidy(s.0), s.1)[i].importing_file),
            importers_in(a.import_graph(), tidy(s.0), s.1)[i].local_name,
        ),
    ensures
        next_symbols(a, cwd, s).contains(
            (
                importers_in(a.import_graph(), tidy(s.0), s.1)[i].importing_file,
                importers_in(a.import_graph(), tidy(s.0), s.1)[i].local_name,
            ),
        ),
{
    let edges = importers_in(a.import_graph(), tidy(s.0), s.1);
    let t = (edges[i].importing_file, edges[i].local_name);
    lemma_handed_on_holds(a, edges, i);
    let head = handed_on(a, edges);
    let k = choose|k: int| 0 <= k < head.len() && head[k] == t;
    assert(next_symbols(a, cwd, s)[k] == t);
}

proof fn lemma_handed_on_holds(a: WorkspaceAnalyzer, edges: Seq<ImportEdgeView>, i: int)
    requires
        0 <= i < edges.len(),
        is_handed_on(a.exports_of(edges[i].importing_file), edges[i].local_name),
    ensures
        handed_on(a, edges).contains((edges[i].importing_file, edges[i].local_name)),
    decreases edges.len(),
{
    let init = edges.drop_last();
    let t = (edges[i].importing_file, edges[i].local_name);
    let last = (edges.last().importing_file, edges.last().local_name);
    collections::lemma_push_contains(handed_on(a, init), last, t);
    if i < init.len() {
        assert(init[i] == edges[i]);
        lemma_handed_on_holds(a, init, i);
    }
}

/// Moves all references to the end of a list.
fn append(refs: &mut Vec<Reference>, more: &mut Vec<Reference>)
    ensures
        final(refs).deep_view() == old(refs).deep_view() + old(more).deep_view(),
{
    let ghost x = refs.deep_view();
    let ghost y = more.deep_view();
    refs.append(more);
    assert(refs.deep_view() =~= x + y);
}

} // verus!
