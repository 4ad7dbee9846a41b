//! What holds of the imports and exports of every file.

use crate::semantic::edges::{
    reexport_edges_of, reexports_of_file, ReexportEdgeView, ResolutionTable,
};
use crate::semantic::modules::{
    declared_exports, dynamic_imports, exports_in, exports_of, import_of, imports_in, imports_of,
    named_exports, own_export, own_export_list, own_exports, static_imports,
};
use crate::semantic::syntax::{Declared, ExportSpecifier, ImportSpecifier, NodeKind, SyntaxNode};
use crate::text::{decimal, Text};
use crate::types::{ExportView, ImportView};
use vstd::prelude::*;

verus! {

// ---------------------------------------------------------------------------
// Imports
// ---------------------------------------------------------------------------

/// The import is what the specifier says: a name under a local one, `default`, or `*` for all of the
/// module; for types only where the declaration or the specifier says so.
pub open spec fn is_import_of(
    i: ImportView,
    s: ImportSpecifier,
    source: Text,
    type_only: bool,
) -> bool {
    &&& i.from_module == source
    &&& i.resolved_file is None
    &&& !i.is_dynamic
    &&& match s {
        ImportSpecifier::Named { imported, local, type_only: own } => i.imported_name == imported@
            && i.local_name == local@ && (i.is_type_only <==> type_only || own),
        ImportSpecifier::Default { local } => i.imported_name == "default"@ && i.local_name
            == local@ && i.is_type_only == type_only,
        ImportSpecifier::Namespace { local } => i.imported_name == "*"@ && i.local_name == local@
            && i.is_type_only == type_only,
    }
}

/// The import comes from an import declaration at the top of the file.
pub open spec fn is_declared_import(nodes: Seq<SyntaxNode>, i: ImportView) -> bool {
    exists|k: int| 0 < k < nodes.len() && declares_import(#[trigger] nodes[k], i)
}

/// The node is an import declaration of the file itself, and the import is one of its specifiers.
pub open spec fn declares_import(node: SyntaxNode, i: ImportView) -> bool {
    node.parent == 0 && (node.kind matches NodeKind::Import { source, type_only, specifiers }
        && exists|j: int|
        0 <= j < specifiers@.len() && is_import_of(
            i,
            #[trigger] specifiers@[j],
            source@,
            type_only,
        ))
}

/// The node is a call of `import(..)` with the module.
pub open spec fn calls_import(kind: NodeKind, module: Text) -> bool {
    kind matches NodeKind::ImportCall(Some(m)) && m@ == module
}

/// The import comes from a call of `import(..)`, wherever it stands: it is of all of the module, at
/// run time.
pub open spec fn is_called_import(nodes: Seq<SyntaxNode>, i: ImportView) -> bool {
    &&& i.imported_name == "*"@
    &&& i.resolved_file is None
    &&& !i.is_type_only
    &&& i.is_dynamic
    &&& exists|k: int|
        0 <= k < nodes.len() && calls_import((#[trigger] nodes[k]).kind, i.from_module)
}

proof fn lemma_either<T>(x: Seq<T>, y: Seq<T>, t: T)
    ensures
        (x + y).contains(t) <==> x.contains(t) || y.contains(t),
{
    if x.contains(t) {
        let i = choose|i: int| 0 <= i < x.len() && x[i] == t;
        assert((x + y)[i] == t);
    }
    if y.contains(t) {
        let i = choose|i: int| 0 <= i < y.len() && y[i] == t;
        assert((x + y)[x.len() + i] == t);
    }
    if (x + y).contains(t) {
        let i = choose|i: int| 0 <= i < (x + y).len() && (x + y)[i] == t;
        if i < x.len() {
            assert(x[i] == t);
        } else {
            assert(y[i - x.len()] == t);
        }
    }
}

proof fn lemma_imports_of(
    specifiers: Seq<ImportSpecifier>,
    source: Text,
    type_only: bool,
    i: ImportView,
)
    ensures
        imports_of(specifiers, source, type_only).contains(i) <==> exists|j: int|
            0 <= j < specifiers.len() && is_import_of(
                i,
                #[trigger] specifiers[j],
                source,
                type_only,
            ),
{
    let all = imports_of(specifiers, source, type_only);
    if all.contains(i) {
        let j = choose|j: int| 0 <= j < all.len() && all[j] == i;
        assert(is_import_of(i, specifiers[j], source, type_only));
    }
    if exists|j: int|
        0 <= j < specifiers.len() && is_import_of(i, #[trigger] specifiers[j], source, type_only) {
        let j = choose|j: int|
            0 <= j < specifiers.len() && is_import_of(
                i,
                #[trigger] specifiers[j],
                source,
                type_only,
            );
        assert(all[j] == i);
    }
}

/// The imports by declaration are those of the import declarations of the file itself, each of them
/// and no other.
pub proof fn lemma_static_imports(nodes: Seq<SyntaxNode>, i: ImportView)
    ensures
        static_imports(nodes).contains(i) <==> is_declared_import(nodes, i),
    decreases nodes.len(),
{
    if nodes.len() > 0 {
        let init = nodes.drop_last();
        let n = nodes.len() - 1;
        let last = nodes.last();
        lemma_static_imports(init, i);
        assert(nodes[n] == last);
        if let NodeKind::Import { source, type_only, specifiers } = last.kind {
            let here = imports_of(specifiers@, source@, type_only);
            lemma_either(static_imports(init), here, i);
            lemma_imports_of(specifiers@, source@, type_only, i);
        }
        assert(static_imports(nodes).contains(i) <==> static_imports(init).contains(i) || (n > 0
            && declares_import(last, i)));
        if is_declared_import(init, i) {
            let k = choose|k: int| 0 < k < init.len() && declares_import(#[trigger] init[k], i);
            assert(nodes[k] == init[k]);
        }
        if is_declared_import(nodes, i) {
            let k = choose|k: int| 0 < k < nodes.len() && declares_import(#[trigger] nodes[k], i);
            if k < n {
                assert(init[k] == nodes[k]);
            }
        }
    }
}

/// Every call of `import(..)` with a module is an import of all of it at run time, under a name that
/// no other has; nothing else is one.
pub proof fn lemma_dynamic_imports(nodes: Seq<SyntaxNode>, k: int, module: Text)
    ensures
        forall|j: int|
            0 <= j < dynamic_imports(nodes).len() ==> is_called_import(
                nodes,
                #[trigger] dynamic_imports(nodes)[j],
            ) && dynamic_imports(nodes)[j].local_name == "__dynamic_import_"@ + decimal(j as nat),
        0 <= k < nodes.len() && calls_import(nodes[k].kind, module) ==> exists|j: int|
            0 <= j < dynamic_imports(nodes).len() && #[trigger] dynamic_imports(nodes)[j].from_module
                == module,
    decreases nodes.len(),
{
    if nodes.len() > 0 {
        let init = nodes.drop_last();
        let n = nodes.len() - 1;
        let before = dynamic_imports(init);
        let all = dynamic_imports(nodes);
        lemma_dynamic_imports(init, k, module);
        assert(nodes[n] == nodes.last());
        assert forall|j: int| 0 <= j < all.len() implies is_called_import(nodes, #[trigger] all[j])
            && all[j].local_name == "__dynamic_import_"@ + decimal(j as nat) by {
            if j < before.len() {
                assert(all[j] == before[j]);
                assert(is_called_import(init, before[j]));
                let k = choose|k: int|
                    0 <= k < init.len() && calls_import(
                        (#[trigger] init[k]).kind,
                        before[j].from_module,
                    );
                assert(nodes[k] == init[k]);
            }
        }
        if 0 <= k < nodes.len() && calls_import(nodes[k].kind, module) {
            if k < n {
                assert(init[k] == nodes[k]);
                let j = choose|j: int|
                    0 <= j < before.len() && #[trigger] before[j].from_module == module;
                assert(all[j] == before[j]);
            } else {
                assert(all[all.len() - 1].from_module == module);
            }
        }
    }
}

/// What a file imports is what its import declarations and its calls of `import(..)` import; those of
/// the declarations come first.
pub proof fn lemma_imports(nodes: Seq<SyntaxNode>, i: ImportView, k: int, module: Text)
    ensures
        is_declared_import(nodes, i) ==> imports_in(nodes).contains(i),
        imports_in(nodes).contains(i) ==> is_declared_import(nodes, i) || is_called_import(nodes, i),
        0 <= k < nodes.len() && calls_import(nodes[k].kind, module) ==> exists|j: int|
            0 <= j < imports_in(nodes).len() && (#[trigger] imports_in(nodes)[j]).from_module
                == module && imports_in(nodes)[j].imported_name == "*"@ && imports_in(
                nodes,
            )[j].is_dynamic,
{
    let x = static_imports(nodes);
    let y = dynamic_imports(nodes);
    lemma_static_imports(nodes, i);
    lemma_dynamic_imports(nodes, k, module);
    lemma_either(x, y, i);
    if y.contains(i) {
        let j = choose|j: int| 0 <= j < y.len() && y[j] == i;
        assert(is_called_import(nodes, y[j]));
    }
    if 0 <= k < nodes.len() && calls_import(nodes[k].kind, module) {
        let j = choose|j: int| 0 <= j < y.len() && #[trigger] y[j].from_module == module;
        assert(is_called_import(nodes, y[j]));
        assert(imports_in(nodes)[x.len() + j] == y[j]);
    }
}

// ---------------------------------------------------------------------------
// Exports
// ---------------------------------------------------------------------------

/// The export is of a name that the file declares: under that name, from nowhere else.
pub open spec fn is_own(e: ExportView, name: Text) -> bool {
    e.exported_name == name && e.local_name is None && e.re_export_from is None
}

/// The declaration gives the name: that of a function or a class, or that of any of its variables.
pub open spec fn declares(d: Declared, name: Text) -> bool {
    match d {
        Declared::Function(Some(n)) => n@ == name,
        Declared::Class(Some(n)) => n@ == name,
        Declared::Variables(names) => exists|i: int|
            0 <= i < names@.len() && (#[trigger] names@[i] matches Some(n) && n@ == name),
        _ => false,
    }
}

/// The statement makes the export: a name in braces, from this file or another; what it declares;
/// `default`; or `*` for all that another file exports.
pub open spec fn makes_export(kind: NodeKind, e: ExportView) -> bool {
    match kind {
        NodeKind::ExportNamed { from, names, declaration } => {
            ||| e.re_export_from == from.deep_view() && exists|i: int|
                0 <= i < names@.len() && (#[trigger] names@[i]).exported@ == e.exported_name
                    && e.local_name == Some(names@[i].local@)
            ||| declaration matches Some(d) && declares(d, e.exported_name) && is_own(
                e,
                e.exported_name,
            )
        },
        NodeKind::ExportDefault => is_own(e, "default"@),
        NodeKind::ExportAll { source } => e.exported_name == "*"@ && e.local_name is None
            && e.re_export_from == Some(source@),
        _ => false,
    }
}

proof fn lemma_own_exports(names: Seq<Option<String>>, e: ExportView)
    ensures
        own_exports(names).contains(e) <==> is_own(e, e.exported_name) && exists|i: int|
            0 <= i < names.len() && (#[trigger] names[i] matches Some(n) && n@ == e.exported_name),
    decreases names.len(),
{
    if names.len() > 0 {
        let init = names.drop_last();
        let n = names.len() - 1;
        lemma_own_exports(init, e);
        assert(names[n] == names.last());
        if let Some(name) = names.last() {
            crate::collections::lemma_push_contains(own_exports(init), own_export(name@), e);
        }
        if own_exports(init).contains(e) {
            let i = choose|i: int|
                0 <= i < init.len() && (#[trigger] init[i] matches Some(n) && n@
                    == e.exported_name);
            assert(names[i] == init[i]);
        }
        if exists|i: int|
            0 <= i < names.len() && (#[trigger] names[i] matches Some(n) && n@
                == e.exported_name) {
            let i = choose|i: int|
                0 <= i < names.len() && (#[trigger] names[i] matches Some(n) && n@
                    == e.exported_name);
            if i < n {
                assert(init[i] == names[i]);
            }
        }
    }
}

proof fn lemma_one_own(name: Option<Text>, e: ExportView)
    ensures
        own_export_list(name).contains(e) <==> is_own(e, e.exported_name) && name == Some(
            e.exported_name,
        ),
{
    if let Some(n) = name {
        assert(own_export_list(name) =~= seq![own_export(n)]);
        if is_own(e, n) {
            assert(own_export_list(name)[0] == e);
        }
    }
}

/// A statement makes the exports that it says, and no other.
pub proof fn lemma_exports_of(kind: NodeKind, e: ExportView)
    ensures
        exports_of(kind).contains(e) <==> makes_export(kind, e),
{
    match kind {
        NodeKind::ExportNamed { from, names, declaration } => {
            let source = from.deep_view();
            let braces = Seq::new(
                names@.len(),
                |i: int| crate::semantic::modules::export_of(names@[i], source),
            );
            lemma_either(braces, declared_exports(declaration), e);
            if braces.contains(e) {
                let i = choose|i: int| 0 <= i < braces.len() && braces[i] == e;
                assert(names@[i].exported@ == e.exported_name);
            }
            if e.re_export_from == source && exists|i: int|
                0 <= i < names@.len() && (#[trigger] names@[i]).exported@ == e.exported_name
                    && e.local_name == Some(names@[i].local@) {
                let i = choose|i: int|
                    0 <= i < names@.len() && (#[trigger] names@[i]).exported@ == e.exported_name
                        && e.local_name == Some(names@[i].local@);
                assert(braces[i] == e);
            }
            match declaration {
                Some(Declared::Variables(vars)) => {
                    lemma_own_exports(vars@, e);
                },
                Some(Declared::Function(name)) => {
                    lemma_one_own(name.deep_view(), e);
                },
                Some(Declared::Class(name)) => {
                    lemma_one_own(name.deep_view(), e);
                },
                _ => {},
            }
        },
        NodeKind::ExportDefault => {
            assert(exports_of(kind) =~= seq![own_export("default"@)]);
            if is_own(e, "default"@) {
                assert(exports_of(kind)[0] == e);
            }
        },
        NodeKind::ExportAll { source } => {
            let all = ExportView {
                exported_name: "*"@,
                local_name: None,
                re_export_from: Some(source@),
            };
            assert(exports_of(kind) =~= seq![all]);
            if e == all {
                assert(exports_of(kind)[0] == e);
            }
        },
        _ => {},
    }
}

/// What a file exports is what its own statements export, each of them and no other.
pub proof fn lemma_exports(nodes: Seq<SyntaxNode>, e: ExportView)
    ensures
        exports_in(nodes).contains(e) <==> exists|k: int|
            0 < k < nodes.len() && (#[trigger] nodes[k]).parent == 0 && makes_export(
                nodes[k].kind,
                e,
            ),
    decreases nodes.len(),
{
    if nodes.len() > 0 {
        let init = nodes.drop_last();
        let n = nodes.len() - 1;
        let last = nodes.last();
        lemma_exports(init, e);
        lemma_exports_of(last.kind, e);
        lemma_either(exports_in(init), exports_of(last.kind), e);
        assert(nodes[n] == last);
        if exists|k: int|
            0 < k < init.len() && (#[trigger] init[k]).parent == 0 && makes_export(
                init[k].kind,
                e,
            ) {
            let k = choose|k: int|
                0 < k < init.len() && (#[trigger] init[k]).parent == 0 && makes_export(
                    init[k].kind,
                    e,
                );
            assert(nodes[k] == init[k]);
        }
        if exists|k: int|
            0 < k < nodes.len() && (#[trigger] nodes[k]).parent == 0 && makes_export(
                nodes[k].kind,
                e,
            ) {
            let k = choose|k: int|
                0 < k < nodes.len() && (#[trigger] nodes[k]).parent == 0 && makes_export(
                    nodes[k].kind,
                    e,
                );
            if k < n {
                assert(init[k] == nodes[k]);
            }
        }
    }
}

// ---------------------------------------------------------------------------
// The edges of re-exports
// ---------------------------------------------------------------------------

/// Each re-export of a file that resolves makes an edge from the file to where it leads, and nothing
/// else makes one.
pub proof fn lemma_reexports_of_file(
    file: Text,
    exports: Seq<ExportView>,
    table: ResolutionTable,
    e: ReexportEdgeView,
)
    ensures
        reexports_of_file(file, exports, table).contains(e) <==> {
            &&& e.reexporting_file == file
            &&& exports.contains(e.export)
            &&& e.export.re_export_from matches Some(source) && table.target(file, source) == Some(
                e.target,
            )
        },
    decreases exports.len(),
{
    if exports.len() > 0 {
        let init = exports.drop_last();
        let last = exports.last();
        lemma_reexports_of_file(file, init, table, e);
        assert(exports =~= init.push(last));
        crate::collections::lemma_push_contains(init, last, e.export);
        if let Some(source) = last.re_export_from {
            if let Some(target) = table.target(file, source) {
                crate::collections::lemma_push_contains(
                    reexports_of_file(file, init, table),
                    ReexportEdgeView { target, reexporting_file: file, export: last },
                    e,
                );
            }
        }
    }
}

/// The edges of the re-exports of a workspace are those of its files.
pub proof fn lemma_reexport_edges(
    files: Seq<Text>,
    exports: Map<Text, Seq<ExportView>>,
    table: ResolutionTable,
    e: ReexportEdgeView,
)
    ensures
        reexport_edges_of(files, exports, table).contains(e) <==> {
            &&& files.contains(e.reexporting_file)
            &&& exports[e.reexporting_file].contains(e.export)
            &&& e.export.re_export_from matches Some(source) && table.target(
                e.reexporting_file,
                source,
            ) == Some(e.target)
        },
    decreases files.len(),
{
    if files.len() > 0 {
        let init = files.drop_last();
        let last = files.last();
        lemma_reexport_edges(init, exports, table, e);
        lemma_reexports_of_file(last, exports[last], table, e);
        lemma_either(
            reexport_edges_of(init, exports, table),
            reexports_of_file(last, exports[last], table),
            e,
        );
        assert(files =~= init.push(last));
        crate::collections::lemma_push_contains(init, last, e.reexporting_file);
    }
}

} // verus!
