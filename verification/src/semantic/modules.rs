//! What a file imports and exports.

use crate::semantic::syntax::{Declared, ExportSpecifier, ImportSpecifier, NodeKind, SyntaxNode};
use crate::text;
use crate::text::{decimal, Text};
use crate::types::{copy_text, Export, ExportView, Import, ImportView};
use vstd::prelude::*;

verus! {

// ---------------------------------------------------------------------------
// Imports
// ---------------------------------------------------------------------------

/// The node is a statement of the file itself, not of a block inside it.
pub open spec fn is_statement(node: SyntaxNode, at: int) -> bool {
    at > 0 && node.parent == 0
}

/// What one import specifier imports.
pub open spec fn import_of(s: ImportSpecifier, source: Text, type_only: bool) -> ImportView {
    match s {
        ImportSpecifier::Named { imported, local, type_only: own } => ImportView {
            imported_name: imported@,
            local_name: local@,
            from_module: source,
            resolved_file: None,
            is_type_only: type_only || own,
            is_dynamic: false,
        },
        ImportSpecifier::Default { local } => ImportView {
            imported_name: "default"@,
            local_name: local@,
            from_module: source,
            resolved_file: None,
            is_type_only: type_only,
            is_dynamic: false,
        },
        ImportSpecifier::Namespace { local } => ImportView {
            imported_name: "*"@,
            local_name: local@,
            from_module: source,
            resolved_file: None,
            is_type_only: type_only,
            is_dynamic: false,
        },
    }
}

/// What one import declaration imports.
pub open spec fn imports_of(
    specifiers: Seq<ImportSpecifier>,
    source: Text,
    type_only: bool,
) -> Seq<ImportView> {
    Seq::new(specifiers.len(), |i: int| import_of(specifiers[i], source, type_only))
}

/// What the import declarations among the statements of a file import, in order.
pub open spec fn static_imports(nodes: Seq<SyntaxNode>) -> Seq<ImportView>
    decreases nodes.len(),
{
    if nodes.len() == 0 {
        Seq::empty()
    } else {
        let before = static_imports(nodes.drop_last());
        match nodes.last().kind {
            NodeKind::Import { source, type_only, specifiers } => if is_statement(
                nodes.last(),
                nodes.len() - 1,
            ) {
                before + imports_of(specifiers@, source@, type_only)
            } else {
                before
            },
            _ => before,
        }
    }
}

/// What `import(..)` imports: all of the module, under a name of its own.
pub open spec fn dynamic_import(module: Text, count: nat) -> ImportView {
    ImportView {
        imported_name: "*"@,
        local_name: "__dynamic_import_"@ + decimal(count),
        from_module: module,
        resolved_file: None,
        is_type_only: false,
        is_dynamic: true,
    }
}

/// What the calls of `import(..)` with a string literal import, wherever they stand, in order.
pub open spec fn dynamic_imports(nodes: Seq<SyntaxNode>) -> Seq<ImportView>
    decreases nodes.len(),
{
    if nodes.len() == 0 {
        Seq::empty()
    } else {
        let before = dynamic_imports(nodes.drop_last());
        match nodes.last().kind {
            NodeKind::ImportCall(Some(module)) => before.push(
                dynamic_import(module@, before.len()),
            ),
            _ => before,
        }
    }
}

/// What a file imports: by declarations first, then by calls.
pub open spec fn imports_in(nodes: Seq<SyntaxNode>) -> Seq<ImportView> {
    static_imports(nodes) + dynamic_imports(nodes)
}

/// What one import declaration imports.
fn process_import(
    specifiers: &Vec<ImportSpecifier>,
    source: &str,
    is_type_only: bool,
    out: &mut Vec<Import>,
)
    ensures
        final(out).deep_view() == old(out).deep_view() + imports_of(
            specifiers@,
            source@,
            is_type_only,
        ),
{
    let ghost start = out.deep_view();
    let ghost all = imports_of(specifiers@, source@, is_type_only);
    let mut i: usize = 0;
    assert(out.deep_view() =~= start + all.take(0));
    while i < specifiers.len()
        invariant
            i <= specifiers.len(),
            all == imports_of(specifiers@, source@, is_type_only),
            out.deep_view() == start + all.take(i as int),
        decreases specifiers.len() - i,
    {
        let ghost before = out.deep_view();
        let (imported_name, local_name, own) = match &specifiers[i] {
            ImportSpecifier::Named { imported, local, type_only } => (
                imported.clone(),
                local.clone(),
                *type_only,
            ),
            ImportSpecifier::Default { local } => ("default".to_owned(), local.clone(), false),
            ImportSpecifier::Namespace { local } => ("*".to_owned(), local.clone(), false),
        };
        let import = Import {
            imported_name,
            local_name,
            from_module: source.to_owned(),
            resolved_file: None,
            is_type_only: is_type_only || own,
            is_dynamic: false,
        };
        assert(import.deep_view() == all[i as int]);
        out.push(import);
        assert(out.deep_view() =~= before.push(import.deep_view()));
        assert(all.take(i + 1) =~= all.take(i as int).push(all[i as int]));
        assert(out.deep_view() =~= start + all.take(i + 1));
        i += 1;
    }
    assert(all.take(i as int) =~= all);
}

/// What a file imports: by declarations first, then by calls.
pub fn extract_imports(nodes: &Vec<SyntaxNode>) -> (r: Vec<Import>)
    ensures
        r.deep_view() == imports_in(nodes@),
{
    let mut imports: Vec<Import> = Vec::new();
    let mut i: usize = 0;
    assert(nodes@.take(0) =~= Seq::<SyntaxNode>::empty());
    assert(imports.deep_view() =~= Seq::<ImportView>::empty());
    while i < nodes.len()
        invariant
            i <= nodes.len(),
            imports.deep_view() == static_imports(nodes@.take(i as int)),
        decreases nodes.len() - i,
    {
        assert(nodes@.take(i + 1).drop_last() =~= nodes@.take(i as int));
        let node = &nodes[i];
        if i > 0 && node.parent == 0 {
            match &node.kind {
                NodeKind::Import { source, type_only, specifiers } => {
                    process_import(specifiers, source.as_str(), *type_only, &mut imports);
                },
                _ => {},
            }
        }
        i += 1;
    }
    assert(nodes@.take(i as int) =~= nodes@);
    let ghost fixed = imports.deep_view();
    let mut count: usize = 0;
    let mut j: usize = 0;
    assert(imports.deep_view() =~= fixed + Seq::<ImportView>::empty());
    assert(nodes@.take(0) =~= Seq::<SyntaxNode>::empty());
    while j < nodes.len()
        invariant
            j <= nodes.len(),
            count <= j,
            count == dynamic_imports(nodes@.take(j as int)).len(),
            imports.deep_view() == fixed + dynamic_imports(nodes@.take(j as int)),
        decreases nodes.len() - j,
    {
        let ghost before = imports.deep_view();
        let ghost calls = dynamic_imports(nodes@.take(j as int));
        assert(nodes@.take(j + 1).drop_last() =~= nodes@.take(j as int));
        match &nodes[j].kind {
            NodeKind::ImportCall(Some(module)) => {
                let import = Import {
                    imported_name: "*".to_owned(),
                    local_name: text::cat(
                        "__dynamic_import_",
                        text::decimal_of(count as u64).as_str(),
                    ),
                    from_module: module.clone(),
                    resolved_file: None,
                    is_type_only: false,
                    is_dynamic: true,
                };
                imports.push(import);
                assert(imports.deep_view() =~= before.push(import.deep_view()));
                assert(imports.deep_view() =~= fixed + calls.push(import.deep_view()));
                count += 1;
            },
            _ => {},
        }
        j += 1;
    }
    assert(nodes@.take(j as int) =~= nodes@);
    imports
}

// ---------------------------------------------------------------------------
// Exports
// ---------------------------------------------------------------------------

/// The export of one name in braces.
pub open spec fn export_of(s: ExportSpecifier, from: Option<Text>) -> ExportView {
    ExportView { exported_name: s.exported@, local_name: Some(s.local@), re_export_from: from }
}

/// The export of a declared name.
pub open spec fn own_export(name: Text) -> ExportView {
    ExportView { exported_name: name, local_name: None, re_export_from: None }
}

/// The exports of the declared names that are there, in order.
pub open spec fn own_exports(names: Seq<Option<String>>) -> Seq<ExportView>
    decreases names.len(),
{
    if names.len() == 0 {
        Seq::empty()
    } else {
        match names.last() {
            Some(n) => own_exports(names.drop_last()).push(own_export(n@)),
            None => own_exports(names.drop_last()),
        }
    }
}

/// The export of a declared name, where it is there.
pub open spec fn own_export_list(name: Option<Text>) -> Seq<ExportView> {
    match name {
        Some(n) => seq![own_export(n)],
        None => Seq::empty(),
    }
}

/// The exports that the declaration inside a named export makes: types are not counted.
pub open spec fn declared_exports(declaration: Option<Declared>) -> Seq<ExportView> {
    match declaration {
        Some(Declared::Variables(names)) => own_exports(names@),
        Some(Declared::Function(name)) => own_export_list(name.deep_view()),
        Some(Declared::Class(name)) => own_export_list(name.deep_view()),
        _ => Seq::empty(),
    }
}

/// The exports of a named export: the names in braces, then what is declared.
pub open spec fn named_exports(
    names: Seq<ExportSpecifier>,
    from: Option<Text>,
    declaration: Option<Declared>,
) -> Seq<ExportView> {
    Seq::new(names.len(), |i: int| export_of(names[i], from)) + declared_exports(declaration)
}

/// The exports that a statement makes.
pub open spec fn exports_of(kind: NodeKind) -> Seq<ExportView> {
    match kind {
        NodeKind::ExportNamed { from, names, declaration } => named_exports(
            names@,
            from.deep_view(),
            declaration,
        ),
        NodeKind::ExportDefault => seq![own_export("default"@)],
        NodeKind::ExportAll { source } => seq![
            ExportView {
                exported_name: "*"@,
                local_name: None,
                re_export_from: Some(source@),
            },
        ],
        _ => Seq::empty(),
    }
}

/// What the statements of a file export, in order.
pub open spec fn exports_in(nodes: Seq<SyntaxNode>) -> Seq<ExportView>
    decreases nodes.len(),
{
    if nodes.len() == 0 {
        Seq::empty()
    } else if is_statement(nodes.last(), nodes.len() - 1) {
        exports_in(nodes.drop_last()) + exports_of(nodes.last().kind)
    } else {
        exports_in(nodes.drop_last())
    }
}

/// Appends the export of a declared name.
fn push_own(out: &mut Vec<Export>, name: &str)
    ensures
        final(out).deep_view() == old(out).deep_view().push(own_export(name@)),
{
    let ghost before = out.deep_view();
    let export = Export {
        exported_name: name.to_owned(),
        local_name: None,
        re_export_from: None,
    };
    out.push(export);
    assert(out.deep_view() =~= before.push(export.deep_view()));
}

/// Appends the export of a declared name, where it is there.
fn push_own_option(out: &mut Vec<Export>, name: &Option<String>)
    ensures
        final(out).deep_view() == old(out).deep_view() + own_export_list(name.deep_view()),
{
    let ghost before = out.deep_view();
    match name {
        Some(n) => {
            push_own(out, n.as_str());
        },
        None => {},
    }
    assert(out.deep_view() =~= before + own_export_list(name.deep_view()));
}

/// Appends the exports of a named export.
fn process_named_export(
    names: &Vec<ExportSpecifier>,
    from: &Option<String>,
    declaration: &Option<Declared>,
    out: &mut Vec<Export>,
)
    ensures
        final(out).deep_view() == old(out).deep_view() + named_exports(
            names@,
            from.deep_view(),
            *declaration,
        ),
{
    let ghost start = out.deep_view();
    let ghost listed = Seq::new(names@.len(), |i: int| export_of(names@[i], from.deep_view()));
    let mut i: usize = 0;
    assert(out.deep_view() =~= start + listed.take(0));
    while i < names.len()
        invariant
            i <= names.len(),
            listed == Seq::new(names@.len(), |i: int| export_of(names@[i], from.deep_view())),
            out.deep_view() == start + listed.take(i as int),
        decreases names.len() - i,
    {
        let ghost before = out.deep_view();
        let export = Export {
            exported_name: names[i].exported.clone(),
            local_name: Some(names[i].local.clone()),
            re_export_from: copy_text(from),
        };
        out.push(export);
        assert(export.deep_view() == listed[i as int]);
        assert(out.deep_view() =~= before.push(export.deep_view()));
        assert(out.deep_view() =~= start + listed.take(i + 1));
        i += 1;
    }
    assert(out.deep_view() =~= start + listed);
    let ghost middle = out.deep_view();
    match declaration {
        Some(Declared::Variables(variables)) => {
            let mut j: usize = 0;
            assert(variables@.take(0) =~= Seq::<Option<String>>::empty());
            assert(out.deep_view() =~= middle + Seq::<ExportView>::empty());
            while j < variables.len()
                invariant
                    j <= variables.len(),
                    out.deep_view() == middle + own_exports(variables@.take(j as int)),
                decreases variables.len() - j,
            {
                let ghost done = own_exports(variables@.take(j as int));
                assert(variables@.take(j + 1).drop_last() =~= variables@.take(j as int));
                if let Some(n) = &variables[j] {
                    push_own(out, n.as_str());
                    assert(out.deep_view() =~= middle + done.push(own_export(n@)));
                }
                j += 1;
            }
            assert(variables@.take(j as int) =~= variables@);
        },
        Some(Declared::Function(name)) => {
            push_own_option(out, name);
        },
        Some(Declared::Class(name)) => {
            push_own_option(out, name);
        },
        _ => {},
    }
    assert(out.deep_view() =~= start + named_exports(names@, from.deep_view(), *declaration));
}

/// What the statements of a file export, in order.
pub fn extract_exports(nodes: &Vec<SyntaxNode>) -> (r: Vec<Export>)
    ensures
        r.deep_view() == exports_in(nodes@),
{
    let mut exports: Vec<Export> = Vec::new();
    let mut i: usize = 0;
    assert(nodes@.take(0) =~= Seq::<SyntaxNode>::empty());
    assert(exports.deep_view() =~= Seq::<ExportView>::empty());
    while i < nodes.len()
        invariant
            i <= nodes.len(),
            exports.deep_view() == exports_in(nodes@.take(i as int)),
        decreases nodes.len() - i,
    {
        let ghost before = exports.deep_view();
        assert(nodes@.take(i + 1).drop_last() =~= nodes@.take(i as int));
        let node = &nodes[i];
        if i > 0 && node.parent == 0 {
            match &node.kind {
                NodeKind::ExportNamed { from, names, declaration } => {
                    process_named_export(names, from, declaration, &mut exports);
                },
                NodeKind::ExportDefault => {
                    push_own(&mut exports, "default");
                    assert(exports.deep_view() =~= before + exports_of(node.kind));
                },
                NodeKind::ExportAll { source } => {
                    let export = Export {
                        exported_name: "*".to_owned(),
                        local_name: None,
                        re_export_from: Some(source.clone()),
                    };
                    exports.push(export);
                    assert(exports.deep_view() =~= before.push(export.deep_view()));
                    assert(exports.deep_view() =~= before + exports_of(node.kind));
                },
                _ => {
                    assert(before + exports_of(node.kind) =~= before);
                },
            }
        }
        i += 1;
    }
    assert(nodes@.take(i as int) =~= nodes@);
    exports
}

} // verus!
