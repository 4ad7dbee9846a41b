//! Imports and re-exports as edges between files.

use crate::collections::StringMap;
use crate::paths;
use crate::paths::{components, components_less, tidy};
use crate::text;
use crate::text::{text_less, Text};
use crate::types::{Export, ExportView, ImportView};
use vstd::prelude::*;

verus! {

// ---------------------------------------------------------------------------
// Resolutions
// ---------------------------------------------------------------------------

/// What imports resolve to: for a file and a module that it names, the file that is meant, if any.
/// Files go by their paths in tidy form.
pub struct ResolutionTable {
    map: StringMap<StringMap<Option<String>>>,
}

impl ResolutionTable {
    /// The file that a module named in `from` stands for, where `from` is in tidy form.
    pub closed spec fn target(&self, from: Text, specifier: Text) -> Option<Text> {
        if self.map@.contains_key(from) && self.map@[from]@.contains_key(specifier) {
            self.map@[from]@[specifier].deep_view()
        } else {
            None
        }
    }

    /// The table in which nothing resolves.
    pub fn new() -> (r: Self)
        ensures
            forall|f: Text, s: Text| #[trigger] r.target(f, s) is None,
    {
        ResolutionTable { map: StringMap::new() }
    }

    /// Enters what a module named in `from` stands for.
    pub fn insert(&mut self, from: &str, specifier: &str, to: Option<String>)
        ensures
            forall|f: Text, s: Text| #[trigger]
                final(self).target(f, s) == if f == tidy(from@) && s == specifier@ {
                    match to.deep_view() {
                        Some(path) => Some(tidy(path)),
                        None => None,
                    }
                } else {
                    old(self).target(f, s)
                },
    {
        let ghost before = *self;
        let from = paths::tidied(from);
        let to = match to {
            Some(path) => Some(paths::tidied(path.as_str())),
            None => None,
        };
        let mut inner = match self.map.insert(from.clone(), StringMap::new()) {
            Some(m) => m,
            None => StringMap::new(),
        };
        inner.insert(specifier.to_owned(), to);
        self.map.insert(from.clone(), inner);
        proof {
            assert forall|f: Text, s: Text| #[trigger] self.target(f, s) == if f == from@ && s
                == specifier@ {
                to.deep_view()
            } else {
                before.target(f, s)
            } by {
                if f != from@ {
                    assert(self.map@.contains_key(f) == before.map@.contains_key(f));
                }
            }
        }
    }

    /// The file that a module named in `from` stands for.
    pub fn resolve(&self, from: &str, specifier: &str) -> (r: Option<&str>)
        ensures
            r.deep_view() == self.target(tidy(from@), specifier@),
    {
        match self.map.get(paths::tidied(from).as_str()) {
            Some(inner) => match inner.get(specifier) {
                Some(Some(to)) => Some(to.as_str()),
                _ => None,
            },
            None => None,
        }
    }
}

// ---------------------------------------------------------------------------
// Edges
// ---------------------------------------------------------------------------

/// A name of a file that another file imports.
#[derive(Debug, PartialEq, Eq)]
pub struct ImportEdge {
    /// The file that the name comes from.
    pub target: String,
    /// The name there.
    pub symbol: String,
    pub importing_file: String,
    pub local_name: String,
    pub from_module: String,
    pub is_dynamic: bool,
}

/// The view of an [`ImportEdge`].
pub struct ImportEdgeView {
    pub target: Text,
    pub symbol: Text,
    pub importing_file: Text,
    pub local_name: Text,
    pub from_module: Text,
    pub is_dynamic: bool,
}

impl Clone for ImportEdge {
    fn clone(&self) -> (r: Self)
        ensures
            r.deep_view() == self.deep_view(),
    {
        ImportEdge {
            target: self.target.clone(),
            symbol: self.symbol.clone(),
            importing_file: self.importing_file.clone(),
            local_name: self.local_name.clone(),
            from_module: self.from_module.clone(),
            is_dynamic: self.is_dynamic,
        }
    }
}

impl DeepView for ImportEdge {
    type V = ImportEdgeView;

    open spec fn deep_view(&self) -> ImportEdgeView {
        ImportEdgeView {
            target: self.target@,
            symbol: self.symbol@,
            importing_file: self.importing_file@,
            local_name: self.local_name@,
            from_module: self.from_module@,
            is_dynamic: self.is_dynamic,
        }
    }
}

/// A file that another file re-exports from.
#[derive(Debug, PartialEq, Eq)]
pub struct ReexportEdge {
    /// The file that is re-exported from.
    pub target: String,
    pub reexporting_file: String,
    pub export: Export,
}

/// The view of a [`ReexportEdge`].
pub struct ReexportEdgeView {
    pub target: Text,
    pub reexporting_file: Text,
    pub export: ExportView,
}

impl Clone for ReexportEdge {
    fn clone(&self) -> (r: Self)
        ensures
            r.deep_view() == self.deep_view(),
    {
        ReexportEdge {
            target: self.target.clone(),
            reexporting_file: self.reexporting_file.clone(),
            export: self.export.clone(),
        }
    }
}

impl DeepView for ReexportEdge {
    type V = ReexportEdgeView;

    open spec fn deep_view(&self) -> ReexportEdgeView {
        ReexportEdgeView {
            target: self.target@,
            reexporting_file: self.reexporting_file@,
            export: self.export.deep_view(),
        }
    }
}

/// The edges that the imports of one file make: one for each import that resolves.
pub open spec fn edges_of_file(
    file: Text,
    imports: Seq<ImportView>,
    table: ResolutionTable,
) -> Seq<ImportEdgeView>
    decreases imports.len(),
{
    if imports.len() == 0 {
        Seq::empty()
    } else {
        let before = edges_of_file(file, imports.drop_last(), table);
        let i = imports.last();
        match table.target(file, i.from_module) {
            Some(target) => before.push(
                ImportEdgeView {
                    target,
                    symbol: i.imported_name,
                    importing_file: file,
                    local_name: i.local_name,
                    from_module: i.from_module,
                    is_dynamic: i.is_dynamic,
                },
            ),
            None => before,
        }
    }
}

/// The edges that the imports of some files make.
pub open spec fn import_edges_of(
    files: Seq<Text>,
    imports: Map<Text, Seq<ImportView>>,
    table: ResolutionTable,
) -> Seq<ImportEdgeView>
    decreases files.len(),
{
    if files.len() == 0 {
        Seq::empty()
    } else {
        import_edges_of(files.drop_last(), imports, table) + edges_of_file(
            files.last(),
            imports[files.last()],
            table,
        )
    }
}

/// The edges that the re-exports of one file make: one for each that resolves.
pub open spec fn reexports_of_file(
    file: Text,
    exports: Seq<ExportView>,
    table: ResolutionTable,
) -> Seq<ReexportEdgeView>
    decreases exports.len(),
{
    if exports.len() == 0 {
        Seq::empty()
    } else {
        let before = reexports_of_file(file, exports.drop_last(), table);
        let e = exports.last();
        match e.re_export_from {
            Some(module) => match table.target(file, module) {
                Some(target) => before.push(
                    ReexportEdgeView { target, reexporting_file: file, export: e },
                ),
                None => before,
            },
            None => before,
        }
    }
}

/// The edges that the re-exports of some files make.
pub open spec fn reexport_edges_of(
    files: Seq<Text>,
    exports: Map<Text, Seq<ExportView>>,
    table: ResolutionTable,
) -> Seq<ReexportEdgeView>
    decreases files.len(),
{
    if files.len() == 0 {
        Seq::empty()
    } else {
        reexport_edges_of(files.drop_last(), exports, table) + reexports_of_file(
            files.last(),
            exports[files.last()],
            table,
        )
    }
}

// ---------------------------------------------------------------------------
// Sorting
// ---------------------------------------------------------------------------

/// The modules that some imports name, with the file.
pub open spec fn import_requests(file: Text, imports: Seq<ImportView>) -> Seq<(Text, Text)> {
    Seq::new(imports.len(), |i: int| (file, imports[i].from_module))
}

/// The modules that some exports re-export from, with the file.
pub open spec fn reexport_requests(file: Text, exports: Seq<ExportView>) -> Seq<(Text, Text)>
    decreases exports.len(),
{
    if exports.len() == 0 {
        Seq::empty()
    } else {
        let before = reexport_requests(file, exports.drop_last());
        match exports.last().re_export_from {
            Some(module) => before.push((file, module)),
            None => before,
        }
    }
}

/// The modules that some files name: all that is to be resolved for their edges.
pub open spec fn requests_of(
    files: Seq<Text>,
    imports: Map<Text, Seq<ImportView>>,
    exports: Map<Text, Seq<ExportView>>,
) -> Seq<(Text, Text)>
    decreases files.len(),
{
    if files.len() == 0 {
        Seq::empty()
    } else {
        requests_of(files.drop_last(), imports, exports) + import_requests(
            files.last(),
            imports[files.last()],
        ) + reexport_requests(files.last(), exports[files.last()])
    }
}

/// The order of import edges: by importing file, as paths are ordered, then by local name.
pub open spec fn edge_less(a: ImportEdgeView, b: ImportEdgeView) -> bool {
    components_less(components(a.importing_file), components(b.importing_file)) || (components(
        a.importing_file,
    ) == components(b.importing_file) && text_less(a.local_name, b.local_name))
}

/// `list` with `e` put in: behind all but those at the end that it comes before.
pub open spec fn inserted(list: Seq<ImportEdgeView>, e: ImportEdgeView) -> Seq<ImportEdgeView>
    decreases list.len(),
{
    if list.len() > 0 && edge_less(e, list.last()) {
        inserted(list.drop_last(), e).push(list.last())
    } else {
        list.push(e)
    }
}

/// The edges in order; those that the order does not tell apart stay as they are.
pub open spec fn sorted_edges(list: Seq<ImportEdgeView>) -> Seq<ImportEdgeView>
    decreases list.len(),
{
    if list.len() == 0 {
        Seq::empty()
    } else {
        inserted(sorted_edges(list.drop_last()), list.last())
    }
}

/// Each edge of the list stands behind all that come before it.
pub open spec fn in_order(list: Seq<ImportEdgeView>) -> bool {
    forall|i: int, j: int|
        0 <= i < j < list.len() ==> !edge_less(#[trigger] list[j], #[trigger] list[i])
}

proof fn lemma_edge_less_total(a: ImportEdgeView, b: ImportEdgeView)
    ensures
        edge_less(a, b) ==> !edge_less(b, a),
{
    paths::lemma_components_less_total(
        components(a.importing_file),
        components(b.importing_file),
    );
    text::lemma_text_less_total(a.local_name, b.local_name);
}

proof fn lemma_inserted(list: Seq<ImportEdgeView>, e: ImportEdgeView)
    requires
        in_order(list),
    ensures
        in_order(inserted(list, e)),
        inserted(list, e).len() == list.len() + 1,
        forall|x: ImportEdgeView| #[trigger]
            inserted(list, e).contains(x) <==> x == e || list.contains(x),
        inserted(list, e).to_multiset() == list.to_multiset().insert(e),
    decreases list.len(),
{
    broadcast use vstd::seq_lib::group_to_multiset_ensures;

    let r = inserted(list, e);
    if list.len() > 0 && edge_less(e, list.last()) {
        let init = list.drop_last();
        assert(in_order(init));
        lemma_inserted(init, e);
        let front = inserted(init, e);
        let l = list.last();
        assert(list =~= init.push(l));
        assert forall|x: ImportEdgeView| #[trigger] r.contains(x) <==> x == e || list.contains(
            x,
        ) by {
            if r.contains(x) {
                let i = choose|i: int| 0 <= i < r.len() && r[i] == x;
                if i < front.len() {
                    assert(front.contains(front[i]));
                    if init.contains(x) {
                        let k = choose|k: int| 0 <= k < init.len() && init[k] == x;
                        assert(list[k] == x);
                    }
                } else {
                    assert(list[list.len() - 1] == x);
                }
            }
            if list.contains(x) {
                let k = choose|k: int| 0 <= k < list.len() && list[k] == x;
                if k < init.len() {
                    assert(init[k] == x);
                    assert(front.contains(x));
                    let i = choose|i: int| 0 <= i < front.len() && front[i] == x;
                    assert(r[i] == x);
                } else {
                    assert(r[r.len() - 1] == x);
                }
            }
            if x == e {
                assert(front.contains(x));
                let i = choose|i: int| 0 <= i < front.len() && front[i] == x;
                assert(r[i] == x);
            }
        }
        assert forall|i: int, j: int| 0 <= i < j < r.len() implies !edge_less(
            #[trigger] r[j],
            #[trigger] r[i],
        ) by {
            if j == r.len() - 1 {
                assert(front.contains(front[i]));
                if front[i] == e {
                    lemma_edge_less_total(e, l);
                } else {
                    let k = choose|k: int| 0 <= k < init.len() && init[k] == front[i];
                    assert(list[k] == front[i]);
                    assert(!edge_less(list[list.len() - 1], list[k]));
                }
            }
        }
        assert(r.to_multiset() =~= list.to_multiset().insert(e)) by {
            assert(list.to_multiset() =~= init.to_multiset().insert(l));
        }
    } else {
        assert forall|i: int, j: int| 0 <= i < j < r.len() implies !edge_less(
            #[trigger] r[j],
            #[trigger] r[i],
        ) by {
            if j == list.len() {
                let l = list.last();
                if i < list.len() - 1 {
                    assert(!edge_less(list[list.len() - 1], list[i]));
                    if edge_less(e, list[i]) {
                        lemma_not_before(list[i], l, e);
                    }
                }
            }
        }
        assert forall|x: ImportEdgeView| #[trigger] r.contains(x) <==> x == e || list.contains(
            x,
        ) by {
            if list.contains(x) {
                let k = choose|k: int| 0 <= k < list.len() && list[k] == x;
                assert(r[k] == x);
            }
            if x == e {
                assert(r[list.len() as int] == x);
            }
            if r.contains(x) {
                let k = choose|k: int| 0 <= k < r.len() && r[k] == x;
                if k < list.len() {
                    assert(list[k] == x);
                }
            }
        }
    }
}

/// An edge that is put in joins those that are there.
pub proof fn lemma_inserted_members(list: Seq<ImportEdgeView>, e: ImportEdgeView)
    ensures
        forall|x: ImportEdgeView| #[trigger]
            inserted(list, e).contains(x) ==> x == e || list.contains(x),
    decreases list.len(),
{
    if list.len() > 0 && edge_less(e, list.last()) {
        let init = list.drop_last();
        lemma_inserted_members(init, e);
        let front = inserted(init, e);
        let r = inserted(list, e);
        assert forall|x: ImportEdgeView| #[trigger] r.contains(x) implies x == e || list.contains(
            x,
        ) by {
            let i = choose|i: int| 0 <= i < r.len() && r[i] == x;
            if i < front.len() {
                assert(front.contains(front[i]));
                if x != e {
                    let k = choose|k: int| 0 <= k < init.len() && init[k] == x;
                    assert(list[k] == x);
                }
            } else {
                assert(list[list.len() - 1] == x);
            }
        }
    } else {
        let r = inserted(list, e);
        assert forall|x: ImportEdgeView| #[trigger] r.contains(x) implies x == e || list.contains(
            x,
        ) by {
            let i = choose|i: int| 0 <= i < r.len() && r[i] == x;
            if i < list.len() {
                assert(list[i] == x);
            }
        }
    }
}

/// Nothing comes before `a` that does not come before `l`, where `l` does not come before `a`.
proof fn lemma_not_before(a: ImportEdgeView, l: ImportEdgeView, e: ImportEdgeView)
    requires
        !edge_less(l, a),
        !edge_less(e, l),
    ensures
        !edge_less(e, a),
{
    if edge_less(e, a) {
        let x = components(a.importing_file);
        let y = components(l.importing_file);
        let z = components(e.importing_file);
        paths::lemma_components_less_total(z, y);
        paths::lemma_components_less_total(y, x);
        paths::lemma_components_less_total(z, x);
        text::lemma_text_less_total(e.local_name, l.local_name);
        text::lemma_text_less_total(l.local_name, a.local_name);
        text::lemma_text_less_total(e.local_name, a.local_name);
        if components_less(y, z) {
            if components_less(z, x) {
                paths::lemma_components_less_transitive(y, z, x);
            }
        } else {
            assert(y == z);
            if !components_less(z, x) {
                assert(z == x);
                if text_less(l.local_name, e.local_name) {
                    text::lemma_text_less_transitive(l.local_name, e.local_name, a.local_name);
                } else {
                    assert(l.local_name == e.local_name);
                }
            }
        }
    }
}

/// The sorted edges are in order, and are the same edges.
pub proof fn lemma_sorted_edges(list: Seq<ImportEdgeView>)
    ensures
        in_order(sorted_edges(list)),
        sorted_edges(list).len() == list.len(),
        forall|x: ImportEdgeView| #[trigger] sorted_edges(list).contains(x) <==> list.contains(x),
        sorted_edges(list).to_multiset() == list.to_multiset(),
    decreases list.len(),
{
    broadcast use vstd::seq_lib::group_to_multiset_ensures;

    if list.len() > 0 {
        let init = list.drop_last();
        lemma_sorted_edges(init);
        lemma_inserted(sorted_edges(init), list.last());
        assert(list =~= init.push(list.last()));
        assert forall|x: ImportEdgeView| #[trigger] sorted_edges(list).contains(x)
            <==> list.contains(x) by {
            if list.contains(x) {
                let k = choose|k: int| 0 <= k < list.len() && list[k] == x;
                if k < init.len() {
                    assert(init[k] == x);
                }
            }
            if init.contains(x) {
                let k = choose|k: int| 0 <= k < init.len() && init[k] == x;
                assert(list[k] == x);
            }
            if x == list.last() {
                assert(list[list.len() - 1] == x);
            }
        }
    } else {
        assert(list =~= sorted_edges(list));
    }
}

/// Where an edge goes: the positions behind `pos` are those that it comes before.
proof fn lemma_inserted_at(list: Seq<ImportEdgeView>, e: ImportEdgeView, pos: int)
    requires
        0 <= pos <= list.len(),
        forall|k: int| pos <= k < list.len() ==> edge_less(e, #[trigger] list[k]),
        pos > 0 ==> !edge_less(e, list[pos - 1]),
    ensures
        inserted(list, e) == list.insert(pos, e),
    decreases list.len() - pos,
{
    if pos == list.len() {
        assert(list.insert(pos, e) =~= list.push(e));
    } else {
        let init = list.drop_last();
        assert forall|k: int| pos <= k < init.len() implies edge_less(e, #[trigger] init[k]) by {
            assert(init[k] == list[k]);
        }
        lemma_inserted_at(init, e, pos);
        assert(edge_less(e, list[list.len() - 1]));
        assert(init.insert(pos, e).push(list.last()) =~= list.insert(pos, e));
    }
}

/// Whether one edge comes before another.
fn edge_is_less(a: &ImportEdge, b: &ImportEdge) -> (r: bool)
    ensures
        r == edge_less(a.deep_view(), b.deep_view()),
{
    let x = paths::split_components(a.importing_file.as_str());
    let y = paths::split_components(b.importing_file.as_str());
    if paths::are_components_less(&x, &y) {
        return true;
    }
    if paths::are_components_less(&y, &x) {
        proof {
            paths::lemma_components_less_total(x.deep_view(), y.deep_view());
        }
        return false;
    }
    proof {
        paths::lemma_components_less_total(x.deep_view(), y.deep_view());
    }
    text::is_less(a.local_name.as_str(), b.local_name.as_str())
}

/// Puts an edge into a list in order.
pub fn insert_edge(list: &mut Vec<ImportEdge>, edge: ImportEdge)
    requires
        in_order(old(list).deep_view()),
    ensures
        final(list).deep_view() == inserted(old(list).deep_view(), edge.deep_view()),
        in_order(final(list).deep_view()),
{
    let ghost before = list.deep_view();
    let ghost e = edge.deep_view();
    let mut low: usize = 0;
    let mut high: usize = list.len();
    assert(before.len() == list.len());
    while low < high
        invariant
            low <= high <= list.len(),
            before == list.deep_view(),
            before.len() == list.len(),
            in_order(before),
            e == edge.deep_view(),
            forall|k: int| high <= k < before.len() ==> edge_less(e, #[trigger] before[k]),
            low > 0 ==> !edge_less(e, before[low - 1]),
        decreases high - low,
    {
        let mid: usize = low + (high - low) / 2;
        assert(before[mid as int] == list@[mid as int].deep_view());
        if edge_is_less(&edge, &list[mid]) {
            proof {
                assert forall|k: int| mid <= k < before.len() implies edge_less(
                    e,
                    #[trigger] before[k],
                ) by {
                    if k > mid && !edge_less(e, before[k]) {
                        lemma_not_before(before[mid as int], before[k], e);
                    }
                }
            }
            high = mid;
        } else {
            low = mid + 1;
        }
    }
    proof {
        lemma_inserted_at(before, e, low as int);
        lemma_inserted(before, e);
    }
    list.insert(low, edge);
    assert(list.deep_view() =~= before.insert(low as int, e));
}

// ---------------------------------------------------------------------------
// What holds of all edges
// ---------------------------------------------------------------------------

/// The edge that an import makes.
pub open spec fn edge_for(file: Text, i: ImportView, target: Text) -> ImportEdgeView {
    ImportEdgeView {
        target,
        symbol: i.imported_name,
        importing_file: file,
        local_name: i.local_name,
        from_module: i.from_module,
        is_dynamic: i.is_dynamic,
    }
}

/// An import that resolves makes its edge.
pub proof fn lemma_import_makes_edge(
    files: Seq<Text>,
    imports: Map<Text, Seq<ImportView>>,
    table: ResolutionTable,
    f: int,
    i: int,
)
    requires
        0 <= f < files.len(),
        0 <= i < imports[files[f]].len(),
        table.target(files[f], imports[files[f]][i].from_module) is Some,
    ensures
        import_edges_of(files, imports, table).contains(
            edge_for(
                files[f],
                imports[files[f]][i],
                table.target(files[f], imports[files[f]][i].from_module)->0,
            ),
        ),
    decreases files.len(),
{
    let init = files.drop_last();
    let last = files.last();
    let before = import_edges_of(init, imports, table);
    let here = edges_of_file(last, imports[last], table);
    let e = edge_for(
        files[f],
        imports[files[f]][i],
        table.target(files[f], imports[files[f]][i].from_module)->0,
    );
    if f < init.len() {
        assert(init[f] == files[f]);
        lemma_import_makes_edge(init, imports, table, f, i);
        let k = choose|k: int| 0 <= k < before.len() && before[k] == e;
        assert((before + here)[k] == e);
    } else {
        lemma_edge_in_file(last, imports[last], table, i);
        let k = choose|k: int| 0 <= k < here.len() && here[k] == e;
        assert((before + here)[before.len() + k] == e);
    }
}

/// An import of a file that resolves makes its edge.
proof fn lemma_edge_in_file(file: Text, imports: Seq<ImportView>, table: ResolutionTable, i: int)
    requires
        0 <= i < imports.len(),
        table.target(file, imports[i].from_module) is Some,
    ensures
        edges_of_file(file, imports, table).contains(
            edge_for(file, imports[i], table.target(file, imports[i].from_module)->0),
        ),
    decreases imports.len(),
{
    let init = imports.drop_last();
    let before = edges_of_file(file, init, table);
    let all = edges_of_file(file, imports, table);
    let e = edge_for(file, imports[i], table.target(file, imports[i].from_module)->0);
    if i < init.len() {
        assert(init[i] == imports[i]);
        lemma_edge_in_file(file, init, table, i);
        let k = choose|k: int| 0 <= k < before.len() && before[k] == e;
        assert(all[k] == e);
    } else {
        assert(all[all.len() - 1] == e);
    }
}

/// Every edge comes from an import that resolves to where the edge leads.
pub proof fn lemma_edge_has_import(
    files: Seq<Text>,
    imports: Map<Text, Seq<ImportView>>,
    table: ResolutionTable,
    e: ImportEdgeView,
)
    requires
        import_edges_of(files, imports, table).contains(e),
    ensures
        files.contains(e.importing_file),
        table.target(e.importing_file, e.from_module) == Some(e.target),
        exists|i: int|
            0 <= i < imports[e.importing_file].len() && e == edge_for(
                e.importing_file,
                #[trigger] imports[e.importing_file][i],
                e.target,
            ),
    decreases files.len(),
{
    let init = files.drop_last();
    let last = files.last();
    let before = import_edges_of(init, imports, table);
    let here = edges_of_file(last, imports[last], table);
    let k = choose|k: int| 0 <= k < (before + here).len() && (before + here)[k] == e;
    if k < before.len() {
        assert(before[k] == e);
        assert(before.contains(e));
        lemma_edge_has_import(init, imports, table, e);
        let f = choose|f: int| 0 <= f < init.len() && init[f] == e.importing_file;
        assert(files[f] == e.importing_file);
    } else {
        assert(here[k - before.len()] == e);
        lemma_edge_of_file(last, imports[last], table, k - before.len());
        assert(files[files.len() - 1] == e.importing_file);
    }
}

/// Every edge of a file comes from an import of it.
proof fn lemma_edge_of_file(file: Text, imports: Seq<ImportView>, table: ResolutionTable, k: int)
    requires
        0 <= k < edges_of_file(file, imports, table).len(),
    ensures
        edges_of_file(file, imports, table)[k].importing_file == file,
        exists|i: int|
            0 <= i < imports.len() && edges_of_file(file, imports, table)[k] == edge_for(
                file,
                #[trigger] imports[i],
                edges_of_file(file, imports, table)[k].target,
            ) && table.target(file, imports[i].from_module) == Some(
                edges_of_file(file, imports, table)[k].target,
            ),
    decreases imports.len(),
{
    let init = imports.drop_last();
    let before = edges_of_file(file, init, table);
    let all = edges_of_file(file, imports, table);
    if k < before.len() {
        lemma_edge_of_file(file, init, table, k);
        assert(all[k] == before[k]);
        let i = choose|i: int|
            0 <= i < init.len() && before[k] == edge_for(file, #[trigger] init[i], before[k].target)
                && table.target(file, init[i].from_module) == Some(before[k].target);
        assert(imports[i] == init[i]);
    } else {
        assert(imports[imports.len() - 1] == imports.last());
    }
}

/// The edges depend on nothing but the answers to the requests: two tables that agree on these make
/// the same edges.
pub proof fn lemma_requests_suffice(
    files: Seq<Text>,
    imports: Map<Text, Seq<ImportView>>,
    exports: Map<Text, Seq<ExportView>>,
    a: ResolutionTable,
    b: ResolutionTable,
)
    requires
        forall|i: int|
            0 <= i < requests_of(files, imports, exports).len() ==> a.target(
                (#[trigger] requests_of(files, imports, exports)[i]).0,
                requests_of(files, imports, exports)[i].1,
            ) == b.target(
                requests_of(files, imports, exports)[i].0,
                requests_of(files, imports, exports)[i].1,
            ),
    ensures
        import_edges_of(files, imports, a) == import_edges_of(files, imports, b),
        reexport_edges_of(files, exports, a) == reexport_edges_of(files, exports, b),
    decreases files.len(),
{
    if files.len() > 0 {
        let init = files.drop_last();
        let last = files.last();
        let before = requests_of(init, imports, exports);
        let ours = import_requests(last, imports[last]);
        let theirs = reexport_requests(last, exports[last]);
        let all = requests_of(files, imports, exports);
        assert forall|i: int| 0 <= i < before.len() implies a.target(
            (#[trigger] before[i]).0,
            before[i].1,
        ) == b.target(before[i].0, before[i].1) by {
            assert(all[i] == before[i]);
        }
        lemma_requests_suffice(init, imports, exports, a, b);
        assert forall|i: int| 0 <= i < imports[last].len() implies a.target(
            last,
            (#[trigger] imports[last][i]).from_module,
        ) == b.target(last, imports[last][i].from_module) by {
            assert(all[before.len() + i] == ours[i]);
        }
        lemma_same_import_edges(last, imports[last], a, b);
        assert forall|i: int| 0 <= i < theirs.len() implies a.target(
            (#[trigger] theirs[i]).0,
            theirs[i].1,
        ) == b.target(theirs[i].0, theirs[i].1) by {
            assert(all[before.len() + ours.len() + i] == theirs[i]);
        }
        lemma_same_reexport_edges(last, exports[last], a, b);
    }
}

proof fn lemma_same_import_edges(
    file: Text,
    imports: Seq<ImportView>,
    a: ResolutionTable,
    b: ResolutionTable,
)
    requires
        forall|i: int|
            0 <= i < imports.len() ==> a.target(file, (#[trigger] imports[i]).from_module)
                == b.target(file, imports[i].from_module),
    ensures
        edges_of_file(file, imports, a) == edges_of_file(file, imports, b),
    decreases imports.len(),
{
    if imports.len() > 0 {
        let init = imports.drop_last();
        assert forall|i: int| 0 <= i < init.len() implies a.target(
            file,
            (#[trigger] init[i]).from_module,
        ) == b.target(file, init[i].from_module) by {
            assert(imports[i] == init[i]);
        }
        lemma_same_import_edges(file, init, a, b);
        assert(imports[imports.len() - 1] == imports.last());
    }
}

proof fn lemma_same_reexport_edges(
    file: Text,
    exports: Seq<ExportView>,
    a: ResolutionTable,
    b: ResolutionTable,
)
    requires
        forall|i: int|
            0 <= i < reexport_requests(file, exports).len() ==> a.target(
                (#[trigger] reexport_requests(file, exports)[i]).0,
                reexport_requests(file, exports)[i].1,
            ) == b.target(
                reexport_requests(file, exports)[i].0,
                reexport_requests(file, exports)[i].1,
            ),
    ensures
        reexports_of_file(file, exports, a) == reexports_of_file(file, exports, b),
    decreases exports.len(),
{
    if exports.len() > 0 {
        let init = exports.drop_last();
        let before = reexport_requests(file, init);
        let all = reexport_requests(file, exports);
        assert forall|i: int| 0 <= i < before.len() implies a.target(
            (#[trigger] before[i]).0,
            before[i].1,
        ) == b.target(before[i].0, before[i].1) by {
            assert(all[i] == before[i]);
        }
        lemma_same_reexport_edges(file, init, a, b);
        if exports.last().re_export_from is Some {
            assert(all[all.len() - 1] == (file, exports.last().re_export_from->0));
        }
    }
}

} // verus!
