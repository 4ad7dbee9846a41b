//! Questions to one parsed file: where is a name used, which symbols stand where.

use crate::collections;
use crate::collections::StringSet;
use crate::profiler;
use crate::profiler::{is_tally, nothing, Profiler, Tally};
use crate::semantic::positions;
use crate::semantic::positions::{line_start, position_of};
use crate::semantic::symbols;
use crate::semantic::symbols::{symbols_at, FileSemanticData};
use crate::semantic::syntax::{NodeKind, SymbolUses, SyntaxNode, SyntaxTree};
use crate::text;
use crate::text::Text;
use crate::types::{Export, ExportView, Reference, ReferenceView};
use vstd::prelude::*;
use vstd::utf8::encode_utf8;

verus! {

/// The place of an offset in a file.
pub open spec fn place(file: Text, source: Text, offset: nat) -> ReferenceView {
    let position = position_of(encode_utf8(source), offset);
    ReferenceView { file_path: file, line: position.0, column: position.1 }
}

/// The places of some offsets in a file.
pub open spec fn places(file: Text, source: Text, offsets: Seq<u32>) -> Seq<ReferenceView> {
    Seq::new(offsets.len(), |i: int| place(file, source, offsets[i] as nat))
}

/// The uses of the symbols that have a name, in order.
pub open spec fn uses_of(
    file: Text,
    source: Text,
    symbols: Seq<SymbolUses>,
    name: Text,
) -> Seq<ReferenceView>
    decreases symbols.len(),
{
    if symbols.len() == 0 {
        Seq::empty()
    } else {
        let before = uses_of(file, source, symbols.drop_last(), name);
        if symbols.last().name@ == name {
            before + places(file, source, symbols.last().uses@)
        } else {
            before
        }
    }
}

/// The node is `namespace.property`, in an expression or in a type.
pub open spec fn is_member_access(kind: NodeKind, namespace: Text, property: Text) -> bool {
    match kind {
        NodeKind::Member { object: Some(o), property: p } => o@ == namespace && p@ == property,
        NodeKind::Qualified { left: Some(l), right: r } => l@ == namespace && r@ == property,
        _ => false,
    }
}

/// The places where `namespace.property` begins, in order.
pub open spec fn member_uses(
    file: Text,
    source: Text,
    nodes: Seq<SyntaxNode>,
    namespace: Text,
    property: Text,
) -> Seq<ReferenceView>
    decreases nodes.len(),
{
    if nodes.len() == 0 {
        Seq::empty()
    } else {
        let before = member_uses(file, source, nodes.drop_last(), namespace, property);
        if is_member_access(nodes.last().kind, namespace, property) {
            before.push(place(file, source, nodes.last().start as nat))
        } else {
            before
        }
    }
}

/// Appends the place of an offset in a file.
fn push_place(out: &mut Vec<Reference>, file: &str, source: &str, offset: u32)
    requires
        encode_utf8(source@).len() <= isize::MAX,
    ensures
        final(out).deep_view() == old(out).deep_view().push(
            place(file@, source@, offset as nat),
        ),
{
    let ghost before = out.deep_view();
    let (line, column) = positions::offset_to_line_col(source, offset as usize);
    let reference = Reference { file_path: file.to_owned(), line, column };
    out.push(reference);
    assert(out.deep_view() =~= before.push(reference.deep_view()));
}

/// The uses of the symbols of a file that have a name.
pub fn local_references(file_path: &str, file_data: &FileSemanticData, symbol_name: &str) -> (r: Vec<
    Reference,
>)
    ensures
        r.deep_view() == uses_of(
            file_path@,
            file_data.text(),
            file_data.syntax().symbols@,
            symbol_name@,
        ),
{
    let source = file_data.source();
    let tree = file_data.semantic();
    let symbols = &tree.symbols;
    let mut references: Vec<Reference> = Vec::new();
    let mut i: usize = 0;
    assert(symbols@.take(0) =~= Seq::<SymbolUses>::empty());
    assert(references.deep_view() =~= Seq::<ReferenceView>::empty());
    while i < symbols.len()
        invariant
            i <= symbols.len(),
            encode_utf8(source@).len() <= isize::MAX,
            references.deep_view() == uses_of(
                file_path@,
                source@,
                symbols@.take(i as int),
                symbol_name@,
            ),
        decreases symbols.len() - i,
    {
        assert(symbols@.take(i + 1).drop_last() =~= symbols@.take(i as int));
        if text::same(symbols[i].name.as_str(), symbol_name) {
            let uses = &symbols[i].uses;
            let ghost start = references.deep_view();
            let ghost all = places(file_path@, source@, uses@);
            let mut j: usize = 0;
            assert(references.deep_view() =~= start + all.take(0));
            while j < uses.len()
                invariant
                    j <= uses.len(),
                    encode_utf8(source@).len() <= isize::MAX,
                    all == places(file_path@, source@, uses@),
                    references.deep_view() == start + all.take(j as int),
                decreases uses.len() - j,
            {
                push_place(&mut references, file_path, source, uses[j]);
                assert(references.deep_view() =~= start + all.take(j + 1));
                j += 1;
            }
            assert(all.take(j as int) =~= all);
        }
        i += 1;
    }
    assert(symbols@.take(i as int) =~= symbols@);
    references
}

/// Whether the node is `namespace.property`.
fn accesses_member(kind: &NodeKind, namespace: &str, property: &str) -> (r: bool)
    ensures
        r == is_member_access(*kind, namespace@, property@),
{
    match kind {
        NodeKind::Member { object: Some(o), property: p } => text::same(p.as_str(), property)
            && text::same(o.as_str(), namespace),
        NodeKind::Qualified { left: Some(l), right: r } => text::same(r.as_str(), property)
            && text::same(l.as_str(), namespace),
        _ => false,
    }
}

/// The places in a file where `namespace.property` begins.
pub fn member_references(
    file_path: &str,
    file_data: &FileSemanticData,
    namespace_name: &str,
    property_name: &str,
) -> (r: Vec<Reference>)
    ensures
        r.deep_view() == member_uses(
            file_path@,
            file_data.text(),
            file_data.syntax().nodes@,
            namespace_name@,
            property_name@,
        ),
{
    let source = file_data.source();
    let tree = file_data.semantic();
    let nodes = &tree.nodes;
    let mut references: Vec<Reference> = Vec::new();
    let mut i: usize = 0;
    assert(nodes@.take(0) =~= Seq::<SyntaxNode>::empty());
    assert(references.deep_view() =~= Seq::<ReferenceView>::empty());
    while i < nodes.len()
        invariant
            i <= nodes.len(),
            encode_utf8(source@).len() <= isize::MAX,
            references.deep_view() == member_uses(
                file_path@,
                source@,
                nodes@.take(i as int),
                namespace_name@,
                property_name@,
            ),
        decreases nodes.len() - i,
    {
        assert(nodes@.take(i + 1).drop_last() =~= nodes@.take(i as int));
        if accesses_member(&nodes[i].kind, namespace_name, property_name) {
            push_place(&mut references, file_path, source, nodes[i].start);
        }
        i += 1;
    }
    assert(nodes@.take(i as int) =~= nodes@);
    references
}

// ---------------------------------------------------------------------------
// Exports that use a symbol
// ---------------------------------------------------------------------------

/// A symbol of the file is used inside the top-level symbol `container`.
pub open spec fn used_in(
    file: Text,
    source: Text,
    tree: SyntaxTree,
    symbol: Text,
    container: Text,
) -> bool {
    exists|i: int|
        0 <= i < uses_of(file, source, tree.symbols@, symbol).len() && names_contain(
            symbols_at(
                source,
                tree,
                (#[trigger] uses_of(file, source, tree.symbols@, symbol)[i]).line,
                uses_of(file, source, tree.symbols@, symbol)[i].column,
            ),
            container,
        )
}

/// A search found the name.
pub open spec fn names_contain(
    found: Result<Seq<Text>, crate::error::ErrorView>,
    name: Text,
) -> bool {
    found is Ok && found->Ok_0.contains(name)
}

/// The name of an export in its own file.
pub open spec fn own_name(e: ExportView) -> Text {
    match e.local_name {
        Some(n) => n,
        None => e.exported_name,
    }
}

/// The export is defined in the file, under another name than `symbol`, and uses it.
pub open spec fn export_uses(
    e: ExportView,
    file: Text,
    source: Text,
    tree: SyntaxTree,
    symbol: Text,
) -> bool {
    e.re_export_from is None && own_name(e) != symbol && used_in(
        file,
        source,
        tree,
        symbol,
        own_name(e),
    )
}

/// The names of the exports that use a symbol of the file, in order.
pub open spec fn exports_using(
    exports: Seq<ExportView>,
    file: Text,
    source: Text,
    tree: SyntaxTree,
    symbol: Text,
) -> Seq<Text>
    decreases exports.len(),
{
    if exports.len() == 0 {
        Seq::empty()
    } else {
        let before = exports_using(exports.drop_last(), file, source, tree, symbol);
        if export_uses(exports.last(), file, source, tree, symbol) {
            before.push(exports.last().exported_name)
        } else {
            before
        }
    }
}

/// A use lies on a line of the file.
proof fn lemma_use_position(
    file: Text,
    source: Text,
    symbols: Seq<SymbolUses>,
    symbol: Text,
    i: int,
)
    requires
        0 <= i < uses_of(file, source, symbols, symbol).len(),
    ensures
        ({
            let u = uses_of(file, source, symbols, symbol)[i];
            let bytes = encode_utf8(source);
            &&& u.line <= bytes.len() + 1
            &&& line_start(bytes, u.line) is Some
            &&& line_start(bytes, u.line)->0 + u.column <= bytes.len()
        }),
    decreases symbols.len(),
{
    let before = uses_of(file, source, symbols.drop_last(), symbol);
    if i < before.len() {
        lemma_use_position(file, source, symbols.drop_last(), symbol, i);
    } else {
        let offset = symbols.last().uses@[i - before.len()] as nat;
        let bytes = encode_utf8(source);
        assert(uses_of(file, source, symbols, symbol)[i] == place(file, source, offset));
        if offset <= bytes.len() {
            positions::lemma_position_round_trip(bytes, offset);
        } else {
            positions::lemma_position_round_trip(bytes, bytes.len());
            assert(bytes.take(bytes.len() as int) =~= bytes);
        }
    }
}

/// The top-level symbols in which a symbol of the file is used, with a tally of the search and of an
/// extraction for each use.
fn find_containers(
    file_path: &str,
    file_data: &FileSemanticData,
    symbol: &str,
    profiler: &mut Profiler,
) -> (r: StringSet)
    ensures
        is_tally(
            *old(profiler),
            *final(profiler),
            (Tally {
                searches: 1,
                extractions: uses_of(
                    file_path@,
                    file_data.text(),
                    file_data.syntax().symbols@,
                    symbol@,
                ).len(),
                ..nothing()
            }),
        ),
        forall|c: Text| #[trigger]
            r@.contains(c) <==> used_in(
                file_path@,
                file_data.text(),
                file_data.syntax(),
                symbol@,
                c,
            ),
{
    let ghost idle = *profiler;
    let begin = profiler.start();
    let refs = local_references(file_path, file_data, symbol);
    profiler.tally_search(begin);
    let _tree = file_data.semantic();
    let ghost source = file_data.text();
    let ghost tree = file_data.syntax();
    let ghost all = uses_of(file_path@, source, tree.symbols@, symbol@);
    let mut containers = StringSet::new();
    let mut i: usize = 0;
    assert(all.len() == refs.len());
    while i < refs.len()
        invariant
            i <= refs.len(),
            all.len() == refs.len(),
            refs.deep_view() == all,
            source == file_data.text(),
            tree == file_data.syntax(),
            encode_utf8(source).len() <= isize::MAX,
            all == uses_of(file_path@, source, tree.symbols@, symbol@),
            is_tally(
                idle,
                *profiler,
                (Tally { searches: 1, extractions: i as nat, ..nothing() }),
            ),
            forall|c: Text| #[trigger]
                containers@.contains(c) <==> exists|k: int|
                    0 <= k < i && names_contain(
                        symbols_at(source, tree, (#[trigger] all[k]).line, all[k].column),
                        c,
                    ),
        decreases refs.len() - i,
    {
        let line: usize = refs[i].line;
        let column: usize = refs[i].column;
        proof {
            assert(all[i as int] == refs@[i as int].deep_view());
            lemma_use_position(file_path@, source, tree.symbols@, symbol@, i as int);
        }
        let ghost start = containers@;
        let ghost here = symbols_at(source, tree, all[i as int].line, all[i as int].column);
        let ghost counted = *profiler;
        let begin = profiler.start();
        let found = symbols::find_top_level_symbols(file_data, line, column);
        profiler.tally_extraction(begin);
        proof {
            profiler::lemma_tally_on(
                idle,
                counted,
                *profiler,
                Tally { searches: 1, extractions: i as nat, ..nothing() },
                Tally { extractions: 1, ..nothing() },
            );
        }
        match found {
            Ok(names) => {
                let mut j: usize = 0;
                while j < names.len()
                    invariant
                        j <= names.len(),
                        forall|c: Text| #[trigger]
                            containers@.contains(c) <==> start.contains(c) || exists|m: int|
                                0 <= m < j && #[trigger] names.deep_view()[m] == c,
                    decreases names.len() - j,
                {
                    let ghost mid = containers@;
                    containers.insert(names[j].clone());
                    proof {
                        let added = names.deep_view()[j as int];
                        assert(added == names@[j as int]@);
                        assert forall|c: Text| #[trigger] containers@.contains(c)
                            <==> start.contains(c) || exists|m: int|
                            0 <= m < j + 1 && #[trigger] names.deep_view()[m] == c by {
                            assert(containers@.contains(c) <==> mid.contains(c) || c == added);
                        }
                    }
                    j += 1;
                }
                proof {
                    assert(names.deep_view() == here->Ok_0);
                    assert forall|c: Text| #[trigger] containers@.contains(c) <==> start.contains(c)
                        || names_contain(here, c) by {
                        if names_contain(here, c) {
                            let m = choose|m: int|
                                0 <= m < names.deep_view().len() && names.deep_view()[m] == c;
                            assert(names.deep_view()[m] == c);
                        }
                    }
                }
            },
            Err(_) => {},
        }
        proof {
            assert forall|c: Text| #[trigger] containers@.contains(c) <==> exists|k: int|
                0 <= k < i + 1 && names_contain(
                    symbols_at(source, tree, (#[trigger] all[k]).line, all[k].column),
                    c,
                ) by {
                assert(containers@.contains(c) <==> start.contains(c) || names_contain(here, c));
            }
        }
        i += 1;
    }
    containers
}

/// The names of the exports of a file that use one of its symbols, with a tally of the search and of
/// an extraction for each use.
pub fn exported_symbols_using(
    exports: &Vec<Export>,
    file_path: &str,
    file_data: &FileSemanticData,
    local_symbol: &str,
    profiler: &mut Profiler,
) -> (r: Vec<String>)
    ensures
        is_tally(
            *old(profiler),
            *final(profiler),
            (Tally {
                searches: 1,
                extractions: uses_of(
                    file_path@,
                    file_data.text(),
                    file_data.syntax().symbols@,
                    local_symbol@,
                ).len(),
                ..nothing()
            }),
        ),
        r.deep_view() == exports_using(
            exports.deep_view(),
            file_path@,
            file_data.text(),
            file_data.syntax(),
            local_symbol@,
        ),
{
    let containers = find_containers(file_path, file_data, local_symbol, profiler);
    let ghost all = exports.deep_view();
    let mut out: Vec<String> = Vec::new();
    let mut i: usize = 0;
    assert(all.take(0) =~= Seq::<ExportView>::empty());
    assert(out.deep_view() =~= Seq::<Text>::empty());
    while i < exports.len()
        invariant
            i <= exports.len(),
            all == exports.deep_view(),
            forall|c: Text| #[trigger]
                containers@.contains(c) <==> used_in(
                    file_path@,
                    file_data.text(),
                    file_data.syntax(),
                    local_symbol@,
                    c,
                ),
            out.deep_view() == exports_using(
                all.take(i as int),
                file_path@,
                file_data.text(),
                file_data.syntax(),
                local_symbol@,
            ),
        decreases exports.len() - i,
    {
        let ghost before = out.deep_view();
        assert(all.take(i + 1).drop_last() =~= all.take(i as int));
        assert(all.take(i + 1).last() == exports@[i as int].deep_view());
        let export = &exports[i];
        let local_name = match &export.local_name {
            Some(n) => n.as_str(),
            None => export.exported_name.as_str(),
        };
        if export.re_export_from.is_none() && !text::same(local_name, local_symbol)
            && containers.contains(local_name) {
            out.push(export.exported_name.clone());
            assert(out.deep_view() =~= before.push(export.exported_name@));
        }
        i += 1;
    }
    assert(all.take(i as int) =~= all);
    out
}

// ---------------------------------------------------------------------------
// Deleted symbols
// ---------------------------------------------------------------------------

/// `known` with the names that it lacks, in order of first appearance.
pub open spec fn with_new(known: Seq<Text>, names: Seq<Text>) -> Seq<Text>
    decreases names.len(),
{
    if names.len() == 0 {
        known
    } else {
        let before = with_new(known, names.drop_last());
        if before.contains(names.last()) {
            before
        } else {
            before.push(names.last())
        }
    }
}

/// The top-level symbols at the beginnings of some lines, each once, in order of first appearance.
pub open spec fn symbols_on_lines(source: Text, tree: SyntaxTree, lines: Seq<usize>) -> Seq<Text>
    decreases lines.len(),
{
    if lines.len() == 0 {
        Seq::empty()
    } else {
        let before = symbols_on_lines(source, tree, lines.drop_last());
        match symbols_at(source, tree, lines.last() as nat, 0) {
            Ok(names) => with_new(before, names),
            Err(_) => before,
        }
    }
}

/// Names that are added as new do not repeat.
pub proof fn lemma_with_new(known: Seq<Text>, names: Seq<Text>)
    requires
        known.no_duplicates(),
    ensures
        with_new(known, names).no_duplicates(),
    decreases names.len(),
{
    if names.len() > 0 {
        lemma_with_new(known, names.drop_last());
    }
}

/// The symbols on some lines do not repeat.
pub proof fn lemma_symbols_on_lines_distinct(source: Text, tree: SyntaxTree, lines: Seq<usize>)
    ensures
        symbols_on_lines(source, tree, lines).no_duplicates(),
    decreases lines.len(),
{
    if lines.len() > 0 {
        lemma_symbols_on_lines_distinct(source, tree, lines.drop_last());
        match symbols_at(source, tree, lines.last() as nat, 0) {
            Ok(names) => {
                lemma_with_new(symbols_on_lines(source, tree, lines.drop_last()), names);
            },
            Err(_) => {},
        }
    }
}

/// Whether a text is among some others.
fn is_listed(names: &Vec<String>, name: &str) -> (r: bool)
    ensures
        r == names.deep_view().contains(name@),
{
    let mut i: usize = 0;
    while i < names.len()
        invariant
            i <= names.len(),
            forall|j: int| 0 <= j < i ==> names.deep_view()[j] != name@,
        decreases names.len() - i,
    {
        if text::same(names[i].as_str(), name) {
            assert(names.deep_view()[i as int] == name@);
            return true;
        }
        i += 1;
    }
    false
}

/// The top-level symbols at the beginnings of some lines of a parsed file, each once, in order of
/// first appearance.
pub fn collect_symbols_on_lines(file_data: &FileSemanticData, lines: &[usize]) -> (r: Vec<String>)
    ensures
        r.deep_view() == symbols_on_lines(file_data.text(), file_data.syntax(), lines@),
{
    let _tree = file_data.semantic();
    let ghost source = file_data.text();
    let ghost tree = file_data.syntax();
    let mut symbols: Vec<String> = Vec::new();
    let mut i: usize = 0;
    assert(lines@.take(0) =~= Seq::<usize>::empty());
    assert(symbols.deep_view() =~= Seq::<Text>::empty());
    while i < lines.len()
        invariant
            i <= lines.len(),
            source == file_data.text(),
            tree == file_data.syntax(),
            encode_utf8(source).len() <= isize::MAX,
            symbols.deep_view() == symbols_on_lines(source, tree, lines@.take(i as int)),
        decreases lines.len() - i,
    {
        assert(lines@.take(i + 1).drop_last() =~= lines@.take(i as int));
        let line: usize = lines[i];
        proof {
            positions::lemma_line_start_bound(encode_utf8(source), line as nat);
        }
        match symbols::find_top_level_symbols(file_data, line, 0) {
            Ok(names) => {
                let ghost start = symbols.deep_view();
                let ghost all = names.deep_view();
                let mut j: usize = 0;
                assert(all.take(0) =~= Seq::<Text>::empty());
                while j < names.len()
                    invariant
                        j <= names.len(),
                        all == names.deep_view(),
                        symbols.deep_view() == with_new(start, all.take(j as int)),
                    decreases names.len() - j,
                {
                    let ghost before = symbols.deep_view();
                    assert(all.take(j + 1).drop_last() =~= all.take(j as int));
                    assert(all.take(j + 1).last() == names@[j as int]@);
                    if !is_listed(&symbols, names[j].as_str()) {
                        symbols.push(names[j].clone());
                        assert(symbols.deep_view() =~= before.push(all[j as int]));
                    }
                    j += 1;
                }
                assert(all.take(j as int) =~= all);
            },
            Err(_) => {},
        }
        i += 1;
    }
    assert(lines@.take(i as int) =~= lines@);
    symbols
}

/// What is said to use a symbol is an export of the file itself, under another name, with a use
/// inside it; and every such export is named.
pub proof fn lemma_exports_using(
    exports: Seq<ExportView>,
    file: Text,
    source: Text,
    tree: SyntaxTree,
    symbol: Text,
    name: Text,
)
    ensures
        exports_using(exports, file, source, tree, symbol).contains(name) <==> exists|i: int|
            0 <= i < exports.len() && (#[trigger] exports[i]).exported_name == name && export_uses(
                exports[i],
                file,
                source,
                tree,
                symbol,
            ),
    decreases exports.len(),
{
    if exports.len() > 0 {
        let init = exports.drop_last();
        let last = exports.len() - 1;
        let before = exports_using(init, file, source, tree, symbol);
        lemma_exports_using(init, file, source, tree, symbol, name);
        collections::lemma_push_contains(before, exports.last().exported_name, name);
        if before.contains(name) {
            let i = choose|i: int|
                0 <= i < init.len() && (#[trigger] init[i]).exported_name == name && export_uses(
                    init[i],
                    file,
                    source,
                    tree,
                    symbol,
                );
            assert(exports[i] == init[i]);
        }
        if exists|i: int|
            0 <= i < exports.len() && (#[trigger] exports[i]).exported_name == name && export_uses(
                exports[i],
                file,
                source,
                tree,
                symbol,
            ) {
            let i = choose|i: int|
                0 <= i < exports.len() && (#[trigger] exports[i]).exported_name == name
                    && export_uses(exports[i], file, source, tree, symbol);
            if i < last {
                assert(init[i] == exports[i]);
            }
        }
        if export_uses(exports.last(), file, source, tree, symbol) && exports.last().exported_name
            == name {
            assert(exports[last].exported_name == name);
        }
    }
}

/// The symbols on some lines are those of the single lines, and no others.
pub proof fn lemma_symbols_on_lines(
    source: Text,
    tree: SyntaxTree,
    lines: Seq<usize>,
    name: Text,
)
    ensures
        symbols_on_lines(source, tree, lines).contains(name) <==> exists|i: int|
            0 <= i < lines.len() && names_contain(
                symbols_at(source, tree, #[trigger] lines[i] as nat, 0),
                name,
            ),
    decreases lines.len(),
{
    if lines.len() > 0 {
        let init = lines.drop_last();
        let last = lines.len() - 1;
        let before = symbols_on_lines(source, tree, init);
        lemma_symbols_on_lines(source, tree, init, name);
        match symbols_at(source, tree, lines.last() as nat, 0) {
            Ok(names) => {
                lemma_with_new_members(before, names, name);
            },
            Err(_) => {},
        }
        if before.contains(name) {
            let i = choose|i: int|
                0 <= i < init.len() && names_contain(
                    symbols_at(source, tree, #[trigger] init[i] as nat, 0),
                    name,
                );
            assert(lines[i] == init[i]);
        }
        if exists|i: int|
            0 <= i < lines.len() && names_contain(
                symbols_at(source, tree, #[trigger] lines[i] as nat, 0),
                name,
            ) {
            let i = choose|i: int|
                0 <= i < lines.len() && names_contain(
                    symbols_at(source, tree, #[trigger] lines[i] as nat, 0),
                    name,
                );
            if i < last {
                assert(init[i] == lines[i]);
            }
        }
        if names_contain(symbols_at(source, tree, lines.last() as nat, 0), name) {
            assert(lines[last] == lines.last());
        }
    }
}

/// The names that are there after new ones are added.
proof fn lemma_with_new_members(known: Seq<Text>, names: Seq<Text>, name: Text)
    ensures
        with_new(known, names).contains(name) <==> known.contains(name) || names.contains(name),
    decreases names.len(),
{
    if names.len() > 0 {
        let init = names.drop_last();
        lemma_with_new_members(known, init, name);
        collections::lemma_push_contains(with_new(known, init), names.last(), name);
        collections::lemma_push_contains(init, names.last(), name);
        assert(init.push(names.last()) =~= names);
    }
}

/// The names among some that are not known, in order.
pub open spec fn unknown_among(known: Seq<Text>, names: Seq<Text>) -> Seq<Text>
    decreases names.len(),
{
    if names.len() == 0 {
        Seq::empty()
    } else {
        let before = unknown_among(known, names.drop_last());
        if known.contains(names.last()) {
            before
        } else {
            before.push(names.last())
        }
    }
}

/// Adding new names in two steps or in one is the same.
proof fn lemma_with_new_twice(a: Seq<Text>, b: Seq<Text>, c: Seq<Text>)
    ensures
        with_new(with_new(a, b), c) == with_new(a, with_new(b, c)),
    decreases c.len(),
{
    if c.len() > 0 {
        let init = c.drop_last();
        let x = c.last();
        lemma_with_new_twice(a, b, init);
        let mid = with_new(b, init);
        lemma_with_new_members(a, mid, x);
        if !mid.contains(x) {
            assert(mid.push(x).drop_last() =~= mid);
            assert(mid.push(x).last() == x);
        }
    }
}

/// Adding names that do not repeat adds those that are not known.
proof fn lemma_with_new_distinct(known: Seq<Text>, names: Seq<Text>)
    requires
        names.no_duplicates(),
    ensures
        with_new(known, names) == known + unknown_among(known, names),
    decreases names.len(),
{
    if names.len() > 0 {
        let init = names.drop_last();
        let x = names.last();
        lemma_with_new_distinct(known, init);
        lemma_with_new_members(known, init, x);
        assert(!init.contains(x)) by {
            if init.contains(x) {
                let i = choose|i: int| 0 <= i < init.len() && init[i] == x;
                assert(names[i] == names[names.len() - 1]);
            }
        }
        assert(with_new(known, names) =~= known + unknown_among(known, names));
    } else {
        assert(known + unknown_among(known, names) =~= known);
    }
}

/// The symbols of two lists of lines, one behind the other, are those of the first, followed by those
/// of the second that the first does not have, in their order.
pub proof fn lemma_symbols_on_more_lines(
    source: Text,
    tree: SyntaxTree,
    lines: Seq<usize>,
    more: Seq<usize>,
)
    ensures
        symbols_on_lines(source, tree, lines + more) == symbols_on_lines(source, tree, lines)
            + unknown_among(
            symbols_on_lines(source, tree, lines),
            symbols_on_lines(source, tree, more),
        ),
{
    lemma_symbols_of_both(source, tree, lines, more);
    lemma_symbols_on_lines_distinct(source, tree, more);
    lemma_with_new_distinct(
        symbols_on_lines(source, tree, lines),
        symbols_on_lines(source, tree, more),
    );
}

proof fn lemma_symbols_of_both(
    source: Text,
    tree: SyntaxTree,
    lines: Seq<usize>,
    more: Seq<usize>,
)
    ensures
        symbols_on_lines(source, tree, lines + more) == with_new(
            symbols_on_lines(source, tree, lines),
            symbols_on_lines(source, tree, more),
        ),
    decreases more.len(),
{
    let first = symbols_on_lines(source, tree, lines);
    if more.len() == 0 {
        assert(lines + more =~= lines);
    } else {
        let init = more.drop_last();
        lemma_symbols_of_both(source, tree, lines, init);
        assert((lines + more).drop_last() =~= lines + init);
        assert((lines + more).last() == more.last());
        match symbols_at(source, tree, more.last() as nat, 0) {
            Ok(names) => {
                lemma_with_new_twice(first, symbols_on_lines(source, tree, init), names);
            },
            Err(_) => {},
        }
    }
}

/// No lines have no symbols, and a line that the source does not have adds none.
pub proof fn lemma_symbols_on_missing_lines(
    source: Text,
    tree: SyntaxTree,
    lines: Seq<usize>,
    beyond: usize,
)
    requires
        line_start(encode_utf8(source), beyond as nat) is None,
    ensures
        symbols_on_lines(source, tree, Seq::empty()) == Seq::<Text>::empty(),
        symbols_on_lines(source, tree, lines.push(beyond)) == symbols_on_lines(source, tree, lines),
{
    assert(lines.push(beyond).drop_last() =~= lines);
}

} // verus!
