//! What holds of every search for references.

use crate::collections::lemma_push_contains;
use crate::paths::{absolute, tidy};
use crate::semantic::analyzer::WorkspaceAnalyzer;
use crate::semantic::edges::{ImportEdgeView, ReexportEdgeView};
use crate::semantic::lookup;
use crate::semantic::lookup::{barrels_in, edges_to, importers_in, reexports_by};
use crate::semantic::positions::position_of;
use crate::semantic::queries::{member_uses, places, uses_of};
use crate::semantic::reference_finder;
use crate::semantic::reference_finder::{
    are_all_uses, direct_uses, graph_path, handed_on, importing_files, is_default, is_handed_on,
    is_way, leads_to, lists_all, next_symbols, passed_on, stands_for, tied, uses_by_module,
    uses_by_modules, uses_by_name, uses_of_all, Symbol,
};
use crate::semantic::syntax::{NodeKind, SymbolUses, SyntaxNode};
use crate::text::Text;
use crate::types::{ExportView, ReferenceView};
use vstd::prelude::*;
use vstd::utf8::encode_utf8;

verus! {

// ---------------------------------------------------------------------------
// One step
// ---------------------------------------------------------------------------

/// The file exports something that is called `name` in it: an export says so, or it has no name of
/// its own inside the file and is called `name` outside.
pub open spec fn exports_local(exports: Seq<ExportView>, name: Text) -> bool {
    exists|i: int|
        0 <= i < exports.len() && ((#[trigger] exports[i]).local_name == Some(name) || (
        exports[i].local_name is None && exports[i].exported_name == name))
}

/// The edge brings the symbol into a file that exports it again, there as `t`.
pub open spec fn is_handing_import(
    a: WorkspaceAnalyzer,
    s: Symbol,
    e: ImportEdgeView,
    t: Symbol,
) -> bool {
    &&& e.target == tidy(s.0)
    &&& e.symbol == s.1
    &&& t.0 == e.importing_file
    &&& t.1 == e.local_name
    &&& exports_local(a.exports_of(e.importing_file), e.local_name)
}

/// The edge is a re-export that the symbol's file makes of the name; `t` is what it stands for.
pub open spec fn is_own_reexport(s: Symbol, e: ReexportEdgeView, t: Symbol) -> bool {
    &&& e.reexporting_file == tidy(s.0)
    &&& e.export.exported_name == s.1 || e.export.local_name == Some(s.1)
    &&& t.0 == e.target
    &&& t.1 == s.1
}

/// The edge is a re-export from the symbol's file: all names under their own, or the name under the
/// one that the re-export gives it.
pub open spec fn is_barrel(cwd: Text, s: Symbol, e: ReexportEdgeView, t: Symbol) -> bool {
    &&& e.target == graph_path(s.0, cwd)
    &&& t.0 == e.reexporting_file
    &&& if e.export.exported_name == "*"@ {
        t.1 == s.1
    } else {
        &&& t.1 == e.export.exported_name
        &&& e.export.local_name == Some(s.1) || (e.export.local_name is None
            && e.export.exported_name == s.1)
    }
}

/// A symbol leads in one step to what an import of it is exported as by the importing file, to what
/// its own file re-exports it from, and to what other files re-export it as; and to nothing else.
pub proof fn lemma_one_step(a: WorkspaceAnalyzer, cwd: Text, s: Symbol, t: Symbol)
    ensures
        next_symbols(a, cwd, s).contains(t) <==> {
            ||| exists|e: ImportEdgeView| #[trigger]
                a.import_graph().contains(e) && is_handing_import(a, s, e, t)
            ||| exists|e: ReexportEdgeView| #[trigger]
                a.reexport_graph().contains(e) && is_own_reexport(s, e, t)
            ||| exists|e: ReexportEdgeView| #[trigger]
                a.reexport_graph().contains(e) && is_barrel(cwd, s, e, t)
        },
{
    let imports = importers_in(a.import_graph(), tidy(s.0), s.1);
    let own = reexports_by(a.reexport_graph(), tidy(s.0));
    let barrels = barrels_in(a.reexport_graph(), graph_path(s.0, cwd));
    lookup::lemma_importers_in(a.import_graph(), tidy(s.0), s.1);
    lookup::lemma_reexports_members(a.reexport_graph(), tidy(s.0));
    lookup::lemma_barrels_members(a.reexport_graph(), graph_path(s.0, cwd));
    lemma_handed_on(a, imports, t);
    lemma_stands_for(own, s.1, t);
    lemma_passed_on(barrels, s.1, t);
    lemma_in_sum(stands_for(own, s.1), passed_on(barrels, s.1), t);
    lemma_in_sum(handed_on(a, imports), tied(a, cwd, s), t);
    if handed_on(a, imports).contains(t) {
        let e = choose|e: ImportEdgeView| #[trigger]
            imports.contains(e) && t == (e.importing_file, e.local_name) && exports_local(
                a.exports_of(e.importing_file),
                e.local_name,
            );
        assert(a.import_graph().contains(e) && is_handing_import(a, s, e, t));
    }
    if stands_for(own, s.1).contains(t) {
        let e = choose|e: ReexportEdgeView| #[trigger]
            own.contains(e) && t == (e.target, s.1) && (e.export.exported_name == s.1
                || e.export.local_name == Some(s.1));
        assert(a.reexport_graph().contains(e) && is_own_reexport(s, e, t));
    }
    if passed_on(barrels, s.1).contains(t) {
        let e = choose|e: ReexportEdgeView| #[trigger] barrels.contains(e) && is_passing(e, s.1, t);
        assert(a.reexport_graph().contains(e) && is_barrel(cwd, s, e, t));
    }
    if exists|e: ImportEdgeView| #[trigger]
        a.import_graph().contains(e) && is_handing_import(a, s, e, t) {
        let e = choose|e: ImportEdgeView| #[trigger]
            a.import_graph().contains(e) && is_handing_import(a, s, e, t);
        assert(imports.contains(e));
    }
    if exists|e: ReexportEdgeView| #[trigger]
        a.reexport_graph().contains(e) && is_own_reexport(s, e, t) {
        let e = choose|e: ReexportEdgeView| #[trigger]
            a.reexport_graph().contains(e) && is_own_reexport(s, e, t);
        assert(own.contains(e));
    }
    if exists|e: ReexportEdgeView| #[trigger]
        a.reexport_graph().contains(e) && is_barrel(cwd, s, e, t) {
        let e = choose|e: ReexportEdgeView| #[trigger]
            a.reexport_graph().contains(e) && is_barrel(cwd, s, e, t);
        assert(barrels.contains(e) && is_passing(e, s.1, t));
    }
}

/// The re-export hands the symbol on as `t`.
spec fn is_passing(e: ReexportEdgeView, symbol: Text, t: Symbol) -> bool {
    &&& t.0 == e.reexporting_file
    &&& if e.export.exported_name == "*"@ {
        t.1 == symbol
    } else {
        &&& t.1 == e.export.exported_name
        &&& e.export.local_name == Some(symbol) || (e.export.local_name is None
            && e.export.exported_name == symbol)
    }
}

/// What stands in two lists together stands in one of them.
pub proof fn lemma_in_sum<T>(x: Seq<T>, y: Seq<T>, t: T)
    ensures
        (x + y).contains(t) <==> x.contains(t) || y.contains(t),
{
    if x.contains(t) {
        let i = choose|i: int| 0 <= i < x.len() && x[i] == t;
        assert((x + y)[i] == t);
    }
    if y.contains(t) {
        let i = choose|i: int| 0 <= i < y.len() && y[i] == t;
        assert((x + y)[x.len() + i] == t);
    }
    if (x + y).contains(t) {
        let i = choose|i: int| 0 <= i < (x + y).len() && (x + y)[i] == t;
        if i < x.len() {
            assert(x[i] == t);
        } else {
            assert(y[i - x.len()] == t);
        }
    }
}

proof fn lemma_handed_on(a: WorkspaceAnalyzer, edges: Seq<ImportEdgeView>, t: Symbol)
    ensures
        handed_on(a, edges).contains(t) <==> exists|e: ImportEdgeView| #[trigger]
            edges.contains(e) && t == (e.importing_file, e.local_name) && exports_local(
                a.exports_of(e.importing_file),
                e.local_name,
            ),
    decreases edges.len(),
{
    if edges.len() > 0 {
        let init = edges.drop_last();
        let last = edges.last();
        lemma_handed_on(a, init, t);
        assert(edges =~= init.push(last));
        assert forall|e: ImportEdgeView| #[trigger] edges.contains(e) <==> init.contains(e) || e
            == last by {
            lemma_push_contains(init, last, e);
        }
        assert forall|e: ImportEdgeView| #[trigger] init.contains(e) implies edges.contains(e) by {}
        assert(edges.contains(last));
        let exports = a.exports_of(last.importing_file);
        assert(is_handed_on(exports, last.local_name) <==> exports_local(
            exports,
            last.local_name,
        )) by {
            if is_handed_on(exports, last.local_name) {
                let i = choose|i: int|
                    0 <= i < exports.len() && reference_finder::hands_on(
                        #[trigger] exports[i],
                        last.local_name,
                    );
                assert(exports[i].local_name == Some(last.local_name) || (
                exports[i].local_name is None && exports[i].exported_name == last.local_name));
            }
            if exports_local(exports, last.local_name) {
                let i = choose|i: int|
                    0 <= i < exports.len() && ((#[trigger] exports[i]).local_name == Some(
                        last.local_name,
                    ) || (exports[i].local_name is None && exports[i].exported_name
                        == last.local_name));
                assert(reference_finder::hands_on(exports[i], last.local_name));
            }
        }
        lemma_push_contains(handed_on(a, init), (last.importing_file, last.local_name), t);
    } else {
        assert forall|e: ImportEdgeView| !(#[trigger] edges.contains(e)) by {}
    }
}

proof fn lemma_stands_for(edges: Seq<ReexportEdgeView>, symbol: Text, t: Symbol)
    ensures
        stands_for(edges, symbol).contains(t) <==> exists|e: ReexportEdgeView| #[trigger]
            edges.contains(e) && t == (e.target, symbol) && (e.export.exported_name == symbol
                || e.export.local_name == Some(symbol)),
    decreases edges.len(),
{
    if edges.len() > 0 {
        let init = edges.drop_last();
        let last = edges.last();
        lemma_stands_for(init, symbol, t);
        assert(edges =~= init.push(last));
        assert forall|e: ReexportEdgeView| #[trigger] edges.contains(e) <==> init.contains(e) || e
            == last by {
            lemma_push_contains(init, last, e);
        }
        assert forall|e: ReexportEdgeView| #[trigger] init.contains(e) implies edges.contains(
            e,
        ) by {}
        assert(edges.contains(last));
        lemma_push_contains(stands_for(init, symbol), (last.target, symbol), t);
    }
}

proof fn lemma_passed_on(edges: Seq<ReexportEdgeView>, symbol: Text, t: Symbol)
    ensures
        passed_on(edges, symbol).contains(t) <==> exists|e: ReexportEdgeView| #[trigger]
            edges.contains(e) && is_passing(e, symbol, t),
    decreases edges.len(),
{
    if edges.len() > 0 {
        let init = edges.drop_last();
        let last = edges.last();
        lemma_passed_on(init, symbol, t);
        assert(edges =~= init.push(last));
        assert forall|e: ReexportEdgeView| #[trigger] edges.contains(e) <==> init.contains(e) || e
            == last by {
            lemma_push_contains(init, last, e);
        }
        assert forall|e: ReexportEdgeView| #[trigger] init.contains(e) implies edges.contains(
            e,
        ) by {}
        assert(edges.contains(last));
        let before = passed_on(init, symbol);
        lemma_push_contains(before, (last.reexporting_file, symbol), t);
        lemma_push_contains(before, (last.reexporting_file, last.export.exported_name), t);
    }
}

// ---------------------------------------------------------------------------
// Any number of steps
// ---------------------------------------------------------------------------

/// A file that imports a symbol and exports it again hands it on: the symbol leads to the name that
/// the file has for it. The export may name it as its local name, or have no other name for it.
pub proof fn lemma_import_is_handed_on(
    a: WorkspaceAnalyzer,
    cwd: Text,
    s: Symbol,
    e: ImportEdgeView,
    export: ExportView,
)
    requires
        a.import_graph().contains(e),
        e.target == tidy(s.0),
        e.symbol == s.1,
        a.exports_of(e.importing_file).contains(export),
        export.local_name == Some(e.local_name) || (export.local_name is None
            && export.exported_name == e.local_name),
    ensures
        leads_to(a, cwd, s, (e.importing_file, e.local_name)),
{
    let exports = a.exports_of(e.importing_file);
    let i = choose|i: int| 0 <= i < exports.len() && exports[i] == export;
    assert(exports[i].local_name == Some(e.local_name) || (exports[i].local_name is None
        && exports[i].exported_name == e.local_name));
    let t = (e.importing_file, e.local_name);
    assert(is_handing_import(a, s, e, t));
    lemma_one_step(a, cwd, s, t);
    reference_finder::lemma_leads_to_itself(a, cwd, s);
    reference_finder::lemma_leads_on(a, cwd, s, s, t);
}

/// A file that re-exports a symbol from its own file hands it on: all names with `*`, each as it is
/// called there, or one name under the name that the re-export gives it.
pub proof fn lemma_reexport_is_followed(
    a: WorkspaceAnalyzer,
    cwd: Text,
    s: Symbol,
    e: ReexportEdgeView,
)
    requires
        !absolute(s.0),
        a.reexport_graph().contains(e),
        e.target == tidy(s.0),
    ensures
        e.export.exported_name == "*"@ ==> leads_to(a, cwd, s, (e.reexporting_file, s.1)),
        e.export.exported_name != "*"@ && (e.export.local_name == Some(s.1) || (
        e.export.local_name is None && e.export.exported_name == s.1)) ==> leads_to(
            a,
            cwd,
            s,
            (e.reexporting_file, e.export.exported_name),
        ),
{
    let t = if e.export.exported_name == "*"@ {
        (e.reexporting_file, s.1)
    } else {
        (e.reexporting_file, e.export.exported_name)
    };
    lemma_one_step(a, cwd, s, t);
    reference_finder::lemma_leads_to_itself(a, cwd, s);
    if next_symbols(a, cwd, s).contains(t) {
        reference_finder::lemma_leads_on(a, cwd, s, s, t);
    }
    assert(is_barrel(cwd, s, e, t) ==> a.reexport_graph().contains(e) && is_barrel(cwd, s, e, t));
}

/// A name that a file re-exports leads to the file that it comes from.
pub proof fn lemma_reexport_stands_for_source(
    a: WorkspaceAnalyzer,
    cwd: Text,
    s: Symbol,
    e: ReexportEdgeView,
)
    requires
        a.reexport_graph().contains(e),
        e.reexporting_file == tidy(s.0),
        e.export.exported_name == s.1 || e.export.local_name == Some(s.1),
    ensures
        leads_to(a, cwd, s, (e.target, s.1)),
{
    let t = (e.target, s.1);
    assert(a.reexport_graph().contains(e) && is_own_reexport(s, e, t));
    lemma_one_step(a, cwd, s, t);
    reference_finder::lemma_leads_to_itself(a, cwd, s);
    reference_finder::lemma_leads_on(a, cwd, s, s, t);
}

/// What a symbol leads to leads on: the search goes as far as imports and re-exports go.
pub proof fn lemma_leads_far(a: WorkspaceAnalyzer, cwd: Text, s: Symbol, t: Symbol, u: Symbol)
    requires
        leads_to(a, cwd, s, t),
        leads_to(a, cwd, t, u),
    ensures
        leads_to(a, cwd, s, u),
{
    let way = choose|way: Seq<Symbol>| #[trigger]
        is_way(a, cwd, way) && way[0] == t && way.last() == u;
    lemma_along(a, cwd, s, way, way.len() - 1);
}

proof fn lemma_along(a: WorkspaceAnalyzer, cwd: Text, s: Symbol, way: Seq<Symbol>, i: int)
    requires
        is_way(a, cwd, way),
        leads_to(a, cwd, s, way[0]),
        0 <= i < way.len(),
    ensures
        leads_to(a, cwd, s, way[i]),
    decreases i,
{
    if i > 0 {
        lemma_along(a, cwd, s, way, i - 1);
        assert(next_symbols(a, cwd, way[i - 1]).contains(way[i - 1 + 1]));
        reference_finder::lemma_leads_on(a, cwd, s, way[i - 1], way[i]);
    }
}

/// A symbol leads nowhere but by single steps: to itself, or to what something that it leads to leads
/// to in one step.
pub proof fn lemma_last_step(a: WorkspaceAnalyzer, cwd: Text, s: Symbol, t: Symbol)
    requires
        leads_to(a, cwd, s, t),
        t != s,
    ensures
        exists|m: Symbol| #[trigger]
            leads_to(a, cwd, s, m) && next_symbols(a, cwd, m).contains(t),
{
    let way = choose|way: Seq<Symbol>| #[trigger]
        is_way(a, cwd, way) && way[0] == s && way.last() == t;
    let n = way.len() - 2;
    assert(n >= 0);
    reference_finder::lemma_leads_to_itself(a, cwd, s);
    lemma_along(a, cwd, s, way, n);
    assert(next_symbols(a, cwd, way[n]).contains(way[n + 1]));
    assert(leads_to(a, cwd, s, way[n]) && next_symbols(a, cwd, way[n]).contains(t));
}

// ---------------------------------------------------------------------------
// The references
// ---------------------------------------------------------------------------

/// The reference is where a name is used in a file: a symbol of the file is called so, and the
/// reference is the line and column of one of its uses.
pub open spec fn is_use(
    file: Text,
    source: Text,
    symbols: Seq<SymbolUses>,
    name: Text,
    r: ReferenceView,
) -> bool {
    exists|k: int, u: int|
        0 <= k < symbols.len() && symbols[k].name@ == name && 0 <= u < symbols[k].uses@.len()
            && r.file_path == file && (r.line, r.column) == position_of(
            encode_utf8(source),
            #[trigger] symbols[k].uses@[u] as nat,
        )
}

/// The reference is where `namespace.property` begins in a file, in an expression or in a type.
pub open spec fn is_member_use(
    file: Text,
    source: Text,
    nodes: Seq<SyntaxNode>,
    namespace: Text,
    property: Text,
    r: ReferenceView,
) -> bool {
    exists|k: int|
        0 <= k < nodes.len() && (match (#[trigger] nodes[k]).kind {
            NodeKind::Member { object: Some(o), property: p } => o@ == namespace && p@ == property,
            NodeKind::Qualified { left: Some(l), right: p } => l@ == namespace && p@ == property,
            _ => false,
        }) && r.file_path == file && (r.line, r.column) == position_of(
            encode_utf8(source),
            nodes[k].start as nat,
        )
}

/// The uses of a name in a file are those of the symbols that are called so.
pub proof fn lemma_uses_of(
    file: Text,
    source: Text,
    symbols: Seq<SymbolUses>,
    name: Text,
    r: ReferenceView,
)
    ensures
        uses_of(file, source, symbols, name).contains(r) <==> is_use(file, source, symbols, name, r),
    decreases symbols.len(),
{
    if symbols.len() > 0 {
        let init = symbols.drop_last();
        let last = symbols.last();
        lemma_uses_of(file, source, init, name, r);
        let here = places(file, source, last.uses@);
        lemma_in_sum(uses_of(file, source, init, name), here, r);
        assert(symbols[symbols.len() - 1] == last);
        if here.contains(r) {
            let u = choose|u: int| 0 <= u < here.len() && here[u] == r;
            assert((r.line, r.column) == position_of(
                encode_utf8(source),
                symbols[symbols.len() - 1].uses@[u] as nat,
            ));
        }
        if is_use(file, source, init, name, r) {
            let (k, u) = choose|k: int, u: int|
                0 <= k < init.len() && init[k].name@ == name && 0 <= u < init[k].uses@.len()
                    && r.file_path == file && (r.line, r.column) == position_of(
                    encode_utf8(source),
                    #[trigger] init[k].uses@[u] as nat,
                );
            assert(symbols[k] == init[k]);
            assert((r.line, r.column) == position_of(
                encode_utf8(source),
                symbols[k].uses@[u] as nat,
            ));
        }
        if is_use(file, source, symbols, name, r) {
            let (k, u) = choose|k: int, u: int|
                0 <= k < symbols.len() && symbols[k].name@ == name && 0 <= u
                    < symbols[k].uses@.len() && r.file_path == file && (r.line, r.column)
                    == position_of(encode_utf8(source), #[trigger] symbols[k].uses@[u] as nat);
            if k < init.len() {
                assert((r.line, r.column) == position_of(
                    encode_utf8(source),
                    init[k].uses@[u] as nat,
                ));
            } else {
                assert(here[u] == r);
            }
        }
    }
}

/// The uses of a member of a namespace are the places where the two are written together.
pub proof fn lemma_member_uses(
    file: Text,
    source: Text,
    nodes: Seq<SyntaxNode>,
    namespace: Text,
    property: Text,
    r: ReferenceView,
)
    ensures
        member_uses(file, source, nodes, namespace, property).contains(r) <==> is_member_use(
            file,
            source,
            nodes,
            namespace,
            property,
            r,
        ),
    decreases nodes.len(),
{
    if nodes.len() > 0 {
        let init = nodes.drop_last();
        let last = nodes.last();
        lemma_member_uses(file, source, init, namespace, property, r);
        let position = position_of(encode_utf8(source), last.start as nat);
        lemma_push_contains(
            member_uses(file, source, init, namespace, property),
            ReferenceView { file_path: file, line: position.0, column: position.1 },
            r,
        );
        assert(nodes[nodes.len() - 1] == last);
        assert forall|k: int| 0 <= k < init.len() implies init[k] == #[trigger] nodes[k] by {}
        if is_member_use(file, source, init, namespace, property, r) {
            let k = choose|k: int|
                0 <= k < init.len() && (match (#[trigger] init[k]).kind {
                    NodeKind::Member { object: Some(o), property: p } => o@ == namespace && p@
                        == property,
                    NodeKind::Qualified { left: Some(l), right: p } => l@ == namespace && p@
                        == property,
                    _ => false,
                }) && r.file_path == file && (r.line, r.column) == position_of(
                    encode_utf8(source),
                    init[k].start as nat,
                );
            assert(nodes[k] == init[k]);
        }
    }
}

/// The reference is a use of the symbol through an import of it by its name.
pub open spec fn is_named_use(a: WorkspaceAnalyzer, s: Symbol, e: ImportEdgeView, r: ReferenceView) -> bool {
    &&& e.target == tidy(s.0)
    &&& e.symbol == s.1
    &&& is_use(
        e.importing_file,
        a.text_of(e.importing_file),
        a.syntax_of_file(e.importing_file).symbols@,
        e.local_name,
        r,
    )
}

/// The reference is a use of the symbol through an import of its whole module: the member of the
/// namespace, or, where the module is loaded at run time and the symbol is its default export, the
/// importing file as a whole.
pub open spec fn is_module_use(
    a: WorkspaceAnalyzer,
    s: Symbol,
    e: ImportEdgeView,
    r: ReferenceView,
) -> bool {
    &&& e.target == tidy(s.0)
    &&& e.symbol == "*"@
    &&& if e.is_dynamic {
        is_default(a.exports_of(s.0), s.1) && r.file_path == e.importing_file && r.line == 0
            && r.column == 0
    } else {
        is_member_use(
            e.importing_file,
            a.text_of(e.importing_file),
            a.syntax_of_file(e.importing_file).nodes@,
            e.local_name,
            s.1,
            r,
        )
    }
}

/// A symbol is the default export of its file where it is called `default`, or where an export of the
/// file says that it is.
pub proof fn lemma_default_export(exports: Seq<ExportView>, symbol: Text)
    ensures
        symbol == "default"@ ==> is_default(exports, symbol),
        forall|e: ExportView| #[trigger]
            exports.contains(e) && e.exported_name == "default"@ && e.local_name == Some(symbol)
                ==> is_default(exports, symbol),
        is_default(exports, symbol) && symbol != "default"@ ==> exists|e: ExportView| #[trigger]
            exports.contains(e) && e.exported_name == "default"@ && e.local_name == Some(symbol),
{
    assert forall|e: ExportView| #[trigger]
        exports.contains(e) && e.exported_name == "default"@ && e.local_name == Some(
            symbol,
        ) implies is_default(exports, symbol) by {
        let i = choose|i: int| 0 <= i < exports.len() && exports[i] == e;
        assert(exports[i].exported_name == "default"@);
    }
    if is_default(exports, symbol) && symbol != "default"@ {
        let i = choose|i: int|
            0 <= i < exports.len() && (#[trigger] exports[i]).exported_name == "default"@
                && exports[i].local_name == Some(symbol);
        assert(exports.contains(exports[i]));
    }
}

/// The direct uses of a symbol are its uses through imports from its own file, by name or of the
/// whole module, and no other.
pub proof fn lemma_direct_uses(a: WorkspaceAnalyzer, s: Symbol, r: ReferenceView)
    ensures
        direct_uses(a, s).contains(r) <==> {
            ||| exists|e: ImportEdgeView| #[trigger]
                a.import_graph().contains(e) && is_named_use(a, s, e, r)
            ||| exists|e: ImportEdgeView| #[trigger]
                a.import_graph().contains(e) && is_module_use(a, s, e, r)
        },
{
    let named = importers_in(a.import_graph(), tidy(s.0), s.1);
    let whole = importers_in(a.import_graph(), tidy(s.0), "*"@);
    let default = is_default(a.exports_of(s.0), s.1);
    lookup::lemma_importers_in(a.import_graph(), tidy(s.0), s.1);
    lookup::lemma_importers_in(a.import_graph(), tidy(s.0), "*"@);
    lemma_uses_by_name(a, named, s, r);
    lemma_uses_by_modules(a, whole, s, r);
    lemma_in_sum(uses_by_name(a, named), uses_by_modules(a, whole, s.1, default), r);
    if exists|e: ImportEdgeView| #[trigger] named.contains(e) && is_named_use(a, s, e, r) {
        let e = choose|e: ImportEdgeView| #[trigger] named.contains(e) && is_named_use(a, s, e, r);
        assert(a.import_graph().contains(e));
    }
    if exists|e: ImportEdgeView| #[trigger] whole.contains(e) && is_module_use(a, s, e, r) {
        let e = choose|e: ImportEdgeView| #[trigger] whole.contains(e) && is_module_use(a, s, e, r);
        assert(a.import_graph().contains(e));
    }
    if exists|e: ImportEdgeView| #[trigger]
        a.import_graph().contains(e) && is_named_use(a, s, e, r) {
        let e = choose|e: ImportEdgeView| #[trigger]
            a.import_graph().contains(e) && is_named_use(a, s, e, r);
        assert(named.contains(e));
    }
    if exists|e: ImportEdgeView| #[trigger]
        a.import_graph().contains(e) && is_module_use(a, s, e, r) {
        let e = choose|e: ImportEdgeView| #[trigger]
            a.import_graph().contains(e) && is_module_use(a, s, e, r);
        assert(whole.contains(e));
    }
}

proof fn lemma_uses_by_name(
    a: WorkspaceAnalyzer,
    edges: Seq<ImportEdgeView>,
    s: Symbol,
    r: ReferenceView,
)
    requires
        forall|e: ImportEdgeView| #[trigger]
            edges.contains(e) ==> e.target == tidy(s.0) && e.symbol == s.1,
    ensures
        uses_by_name(a, edges).contains(r) <==> exists|e: ImportEdgeView| #[trigger]
            edges.contains(e) && is_named_use(a, s, e, r),
    decreases edges.len(),
{
    if edges.len() > 0 {
        let init = edges.drop_last();
        let last = edges.last();
        assert(edges =~= init.push(last));
        assert forall|e: ImportEdgeView| #[trigger] edges.contains(e) <==> init.contains(e) || e
            == last by {
            lemma_push_contains(init, last, e);
        }
        assert forall|e: ImportEdgeView| #[trigger] init.contains(e) implies edges.contains(e) by {}
        assert(edges.contains(last));
        lemma_uses_by_name(a, init, s, r);
        let file = last.importing_file;
        let symbols = a.syntax_of_file(file).symbols@;
        lemma_uses_of(file, a.text_of(file), symbols, last.local_name, r);
        lemma_in_sum(
            uses_by_name(a, init),
            uses_of(file, a.text_of(file), symbols, last.local_name),
            r,
        );
    }
}

proof fn lemma_uses_by_modules(
    a: WorkspaceAnalyzer,
    edges: Seq<ImportEdgeView>,
    s: Symbol,
    r: ReferenceView,
)
    requires
        forall|e: ImportEdgeView| #[trigger]
            edges.contains(e) ==> e.target == tidy(s.0) && e.symbol == "*"@,
    ensures
        uses_by_modules(a, edges, s.1, is_default(a.exports_of(s.0), s.1)).contains(r)
            <==> exists|e: ImportEdgeView| #[trigger]
            edges.contains(e) && is_module_use(a, s, e, r),
    decreases edges.len(),
{
    let default = is_default(a.exports_of(s.0), s.1);
    if edges.len() > 0 {
        let init = edges.drop_last();
        let last = edges.last();
        assert(edges =~= init.push(last));
        assert forall|e: ImportEdgeView| #[trigger] edges.contains(e) <==> init.contains(e) || e
            == last by {
            lemma_push_contains(init, last, e);
        }
        assert forall|e: ImportEdgeView| #[trigger] init.contains(e) implies edges.contains(e) by {}
        assert(edges.contains(last));
        lemma_uses_by_modules(a, init, s, r);
        let file = last.importing_file;
        let nodes = a.syntax_of_file(file).nodes@;
        lemma_member_uses(file, a.text_of(file), nodes, last.local_name, s.1, r);
        let here = uses_by_module(a, last, s.1, default);
        lemma_in_sum(uses_by_modules(a, init, s.1, default), here, r);
        if last.is_dynamic && default {
            let one = ReferenceView { file_path: file, line: 0, column: 0 };
            assert(here =~= seq![one]);
            if here.contains(r) {
                assert(r == one);
            }
            if r == one {
                assert(here[0] == r);
            }
        }
    }
}

/// The references found are the direct uses of the symbol and of all that it leads to, each of them
/// and no other.
pub proof fn lemma_references(
    a: WorkspaceAnalyzer,
    cwd: Text,
    from: Symbol,
    refs: Seq<ReferenceView>,
    r: ReferenceView,
)
    requires
        are_all_uses(a, cwd, from, refs),
    ensures
        refs.contains(r) <==> exists|s: Symbol| #[trigger]
            leads_to(a, cwd, from, s) && direct_uses(a, s).contains(r),
{
    let list = choose|list: Seq<Symbol>| #[trigger]
        lists_all(a, cwd, from, list) && refs.to_multiset() == uses_of_all(a, list).to_multiset();
    lemma_uses_of_all(a, list, r);
    refs.to_multiset_ensures();
    uses_of_all(a, list).to_multiset_ensures();
    assert(refs.to_multiset().count(r) == uses_of_all(a, list).to_multiset().count(r));
    assert(refs.contains(r) <==> uses_of_all(a, list).contains(r));
    if exists|s: Symbol| #[trigger] list.contains(s) && direct_uses(a, s).contains(r) {
        let s = choose|s: Symbol| #[trigger] list.contains(s) && direct_uses(a, s).contains(r);
        assert(leads_to(a, cwd, from, s));
    }
    if exists|s: Symbol| #[trigger] leads_to(a, cwd, from, s) && direct_uses(a, s).contains(r) {
        let s = choose|s: Symbol| #[trigger]
            leads_to(a, cwd, from, s) && direct_uses(a, s).contains(r);
        assert(list.contains(s));
    }
}

proof fn lemma_uses_of_all(a: WorkspaceAnalyzer, list: Seq<Symbol>, r: ReferenceView)
    ensures
        uses_of_all(a, list).contains(r) <==> exists|s: Symbol| #[trigger]
            list.contains(s) && direct_uses(a, s).contains(r),
    decreases list.len(),
{
    if list.len() > 0 {
        let init = list.drop_last();
        let last = list.last();
        lemma_uses_of_all(a, init, r);
        assert(list =~= init.push(last));
        assert forall|s: Symbol| #[trigger] list.contains(s) <==> init.contains(s) || s == last by {
            lemma_push_contains(init, last, s);
        }
        assert forall|s: Symbol| #[trigger] init.contains(s) implies list.contains(s) by {}
        assert(list.contains(last));
        lemma_in_sum(uses_of_all(a, init), direct_uses(a, last), r);
    }
}

/// Every direct use of a name under which a file hands an imported symbol on is among the references
/// found for the symbol.
pub proof fn lemma_handed_on_uses_are_found(
    a: WorkspaceAnalyzer,
    cwd: Text,
    s: Symbol,
    e: ImportEdgeView,
    export: ExportView,
    refs: Seq<ReferenceView>,
    r: ReferenceView,
)
    requires
        are_all_uses(a, cwd, s, refs),
        a.import_graph().contains(e),
        e.target == tidy(s.0),
        e.symbol == s.1,
        a.exports_of(e.importing_file).contains(export),
        export.local_name == Some(e.local_name) || (export.local_name is None
            && export.exported_name == e.local_name),
        direct_uses(a, (e.importing_file, e.local_name)).contains(r),
    ensures
        refs.contains(r),
{
    lemma_import_is_handed_on(a, cwd, s, e, export);
    lemma_references(a, cwd, s, refs, r);
    assert(leads_to(a, cwd, s, (e.importing_file, e.local_name)));
}

/// Every place where an imported name is used is among the references found for the symbol that the
/// name stands for.
pub proof fn lemma_import_uses_are_found(
    a: WorkspaceAnalyzer,
    cwd: Text,
    s: Symbol,
    e: ImportEdgeView,
    refs: Seq<ReferenceView>,
    r: ReferenceView,
)
    requires
        are_all_uses(a, cwd, s, refs),
        a.import_graph().contains(e),
        e.target == tidy(s.0),
        e.symbol == s.1,
        is_use(
            e.importing_file,
            a.text_of(e.importing_file),
            a.syntax_of_file(e.importing_file).symbols@,
            e.local_name,
            r,
        ),
    ensures
        refs.contains(r),
{
    reference_finder::lemma_leads_to_itself(a, cwd, s);
    lemma_references(a, cwd, s, refs, r);
    lemma_direct_uses(a, s, r);
    assert(is_named_use(a, s, e, r));
    assert(leads_to(a, cwd, s, s) && direct_uses(a, s).contains(r));
}

// ---------------------------------------------------------------------------
// The files that import from a file
// ---------------------------------------------------------------------------

/// The files that edges begin in are each listed once, and no other.
pub proof fn lemma_importing_files(edges: Seq<ImportEdgeView>, file: Text)
    ensures
        importing_files(edges).no_duplicates(),
        importing_files(edges).contains(file) <==> exists|e: ImportEdgeView| #[trigger]
            edges.contains(e) && e.importing_file == file,
    decreases edges.len(),
{
    if edges.len() > 0 {
        let init = edges.drop_last();
        let last = edges.last();
        let before = importing_files(init);
        lemma_importing_files(init, file);
        lemma_importing_files(init, last.importing_file);
        assert(edges =~= init.push(last));
        assert forall|e: ImportEdgeView| #[trigger] edges.contains(e) <==> init.contains(e) || e
            == last by {
            lemma_push_contains(init, last, e);
        }
        assert forall|e: ImportEdgeView| #[trigger] init.contains(e) implies edges.contains(e) by {}
        assert(edges.contains(last));
        lemma_push_contains(before, last.importing_file, file);
    }
}

/// A file imports from another exactly where an import edge leads from the one to the other.
pub proof fn lemma_importers_of_file(edges: Seq<ImportEdgeView>, target: Text, file: Text)
    ensures
        importing_files(edges_to(edges, target)).contains(file) <==> exists|e: ImportEdgeView|
            #[trigger]
            edges.contains(e) && e.target == target && e.importing_file == file,
{
    lookup::lemma_edges_to_members(edges, target);
    lemma_importing_files(edges_to(edges, target), file);
    if exists|e: ImportEdgeView| #[trigger]
        edges.contains(e) && e.target == target && e.importing_file == file {
        let e = choose|e: ImportEdgeView| #[trigger]
            edges.contains(e) && e.target == target && e.importing_file == file;
        assert(edges_to(edges, target).contains(e));
    }
    if importing_files(edges_to(edges, target)).contains(file) {
        let e = choose|e: ImportEdgeView| #[trigger]
            edges_to(edges, target).contains(e) && e.importing_file == file;
        assert(edges.contains(e));
    }
}

} // verus!
