//! The top-level symbol around a place in a file.

use crate::error::{DominoError, ErrorView};
use crate::semantic::positions;
use crate::semantic::positions::line_start;
use crate::semantic::syntax;
use crate::semantic::syntax::{
    syntax_of, Declared, ExportSpecifier, NodeKind, SyntaxNode, SyntaxTree,
};
use crate::text;
use crate::text::{decimal, Text};
use vstd::prelude::*;
use vstd::utf8::encode_utf8;

verus! {

/// A source file with its syntax.
pub struct FileSemanticData {
    source: String,
    tree: SyntaxTree,
}

impl FileSemanticData {
    #[verifier::type_invariant]
    spec fn valid(self) -> bool {
        self.tree.valid() && encode_utf8(self.source@).len() <= isize::MAX
    }

    /// The source text.
    pub closed spec fn text(&self) -> Text {
        self.source@
    }

    /// The syntax.
    pub closed spec fn syntax(&self) -> SyntaxTree {
        self.tree
    }

    /// A source text with the given syntax.
    pub fn new(source: String, tree: SyntaxTree) -> (r: Self)
        requires
            tree.valid(),
            encode_utf8(source@).len() <= isize::MAX,
        ensures
            r.text() == source@,
            r.syntax() == tree,
    {
        FileSemanticData { source, tree }
    }

    /// A source text with the syntax that it is parsed to. The extension of the path tells the
    /// language.
    pub fn parse(file_path: &str, source: String) -> (r: Self)
        requires
            encode_utf8(source@).len() <= isize::MAX,
        ensures
            r.text() == source@,
            r.syntax() == syntax_of(file_path@, source@),
    {
        let tree = syntax::parse_source(file_path, source.as_str());
        FileSemanticData { source, tree }
    }

    /// The source text.
    pub fn source(&self) -> (r: &str)
        ensures
            r@ == self.text(),
    {
        self.source.as_str()
    }

    /// The syntax.
    pub fn semantic(&self) -> (r: &SyntaxTree)
        ensures
            *r == self.syntax(),
            r.valid(),
            encode_utf8(self.text()).len() <= isize::MAX,
    {
        proof {
            use_type_invariant(self);
        }
        &self.tree
    }
}

// ---------------------------------------------------------------------------
// The innermost node
// ---------------------------------------------------------------------------

/// The node takes up the offset, its end included.
pub open spec fn covers(node: SyntaxNode, offset: int) -> bool {
    node.start <= offset <= node.end
}

/// The number of bytes that a node takes up.
pub open spec fn extent(node: SyntaxNode) -> int {
    node.end - node.start
}

/// The node `a` is to be preferred to `b`: it is smaller, or as small and not the whole program as
/// `b` is.
pub open spec fn is_closer(a: SyntaxNode, b: SyntaxNode) -> bool {
    extent(a) < extent(b) || (extent(a) == extent(b) && !(a.kind is Program) && b.kind is Program)
}

/// The innermost node at an offset: none that covers the offset is closer, and it is the first such.
pub open spec fn innermost(nodes: Seq<SyntaxNode>, offset: int) -> Option<int>
    decreases nodes.len(),
{
    if nodes.len() == 0 {
        None
    } else {
        let before = innermost(nodes.drop_last(), offset);
        if !covers(nodes.last(), offset) {
            before
        } else {
            match before {
                None => Some(nodes.len() - 1),
                Some(j) => if is_closer(nodes.last(), nodes[j]) {
                    Some(nodes.len() - 1)
                } else {
                    before
                },
            }
        }
    }
}

/// The innermost node covers the offset, no node that covers it is closer, and none before it is
/// as close; there is one as soon as any node covers the offset.
pub proof fn lemma_innermost(nodes: Seq<SyntaxNode>, offset: int)
    ensures
        match innermost(nodes, offset) {
            Some(i) => {
                &&& 0 <= i < nodes.len()
                &&& covers(nodes[i], offset)
                &&& forall|j: int|
                    0 <= j < nodes.len() && covers(#[trigger] nodes[j], offset) ==> !is_closer(
                        nodes[j],
                        nodes[i],
                    )
                &&& forall|j: int|
                    0 <= j < i && covers(#[trigger] nodes[j], offset) ==> is_closer(
                        nodes[i],
                        nodes[j],
                    )
            },
            None => forall|j: int| 0 <= j < nodes.len() ==> !covers(#[trigger] nodes[j], offset),
        },
    decreases nodes.len(),
{
    if nodes.len() > 0 {
        let init = nodes.drop_last();
        lemma_innermost(init, offset);
        assert forall|j: int| 0 <= j < init.len() implies init[j] == nodes[j] by {}
        match innermost(nodes, offset) {
            Some(i) => {
                assert forall|j: int|
                    0 <= j < nodes.len() && covers(#[trigger] nodes[j], offset) implies !is_closer(
                    nodes[j],
                    nodes[i],
                ) by {
                    if j < init.len() {
                        assert(covers(init[j], offset));
                    }
                }
                assert forall|j: int| 0 <= j < i && covers(#[trigger] nodes[j], offset) implies is_closer(
                    nodes[i],
                    nodes[j],
                ) by {
                    assert(covers(init[j], offset));
                }
            },
            None => {
                assert forall|j: int| 0 <= j < nodes.len() implies !covers(
                    #[trigger] nodes[j],
                    offset,
                ) by {
                    if j < init.len() {
                        assert(!covers(init[j], offset));
                    }
                }
            },
        }
    }
}

// ---------------------------------------------------------------------------
// Names
// ---------------------------------------------------------------------------

/// The first variable of a declaration that has a name.
pub open spec fn first_name(names: Seq<Option<String>>) -> Option<Text>
    decreases names.len(),
{
    if names.len() == 0 {
        None
    } else {
        match names[0] {
            Some(n) => Some(n@),
            None => first_name(names.drop_first()),
        }
    }
}

/// The name that a declaration inside an export gives.
pub open spec fn declared_name(d: Declared) -> Option<Text> {
    match d {
        Declared::Variables(names) => first_name(names@),
        Declared::Function(name) => name.deep_view(),
        Declared::Class(name) => name.deep_view(),
        Declared::Type(name) => Some(name@),
        Declared::Other => None,
    }
}

/// The exported names that stand, at least in part, between two offsets, both included.
pub open spec fn names_between(names: Seq<ExportSpecifier>, from: int, to: int) -> Seq<Text>
    decreases names.len(),
{
    if names.len() == 0 {
        Seq::empty()
    } else if names.last().start <= to && names.last().end >= from {
        names_between(names.drop_last(), from, to).push(names.last().exported@)
    } else {
        names_between(names.drop_last(), from, to)
    }
}

/// Where the way up from a node to the top-level symbol stands: it has ended with some names, or it
/// goes on. `exported` says that it has passed an export, `name` is the best name so far.
pub enum Way {
    Ended(Seq<Text>),
    Open { exported: bool, name: Option<Text> },
}

/// The way up comes to a named export.
pub open spec fn at_export(
    names: Seq<ExportSpecifier>,
    declaration: Option<Declared>,
    name: Option<Text>,
    from: int,
    to: int,
) -> Way {
    let known = match declaration {
        Some(d) => declared_name(d),
        None => name,
    };
    if known is None && names_between(names, from, to).len() > 0 {
        Way::Ended(names_between(names, from, to))
    } else {
        Way::Open { exported: true, name: known }
    }
}

/// The way up begins at a node.
pub open spec fn at_first(kind: NodeKind, from: int, to: int) -> Way {
    match kind {
        NodeKind::ExportNamed { names, declaration, .. } => at_export(
            names@,
            declaration,
            None,
            from,
            to,
        ),
        NodeKind::ExportDefault => Way::Open { exported: true, name: Some("default"@) },
        NodeKind::Variables(names) => Way::Open { exported: false, name: first_name(names@) },
        _ => Way::Open { exported: false, name: None },
    }
}

/// The way up comes to a node that declares a name, if it has one.
pub open spec fn at_declaration(own: Option<Text>, exported: bool, name: Option<Text>) -> Way {
    Way::Open {
        exported,
        name: if !exported && own is Some {
            own
        } else {
            name
        },
    }
}

/// The way up comes to a node.
pub open spec fn at_node(
    kind: NodeKind,
    exported: bool,
    name: Option<Text>,
    from: int,
    to: int,
) -> Way {
    match kind {
        NodeKind::ExportNamed { names, declaration, .. } => at_export(
            names@,
            declaration,
            name,
            from,
            to,
        ),
        NodeKind::ExportDefault => Way::Open { exported: true, name: Some("default"@) },
        NodeKind::Function(own) => at_declaration(own.deep_view(), exported, name),
        NodeKind::Class(own) => at_declaration(own.deep_view(), exported, name),
        NodeKind::Type(own) => at_declaration(Some(own@), exported, name),
        NodeKind::Variable(own) => at_declaration(own.deep_view(), exported, name),
        NodeKind::Variables(names) => if name is None {
            at_declaration(first_name(names@), exported, name)
        } else {
            Way::Open { exported, name }
        },
        _ => Way::Open { exported, name },
    }
}

/// The names that a name stands for: one or none.
pub open spec fn as_list(name: Option<Text>) -> Seq<Text> {
    match name {
        Some(n) => seq![n],
        None => Seq::empty(),
    }
}

/// The names that the way up from a node gives: the way ends at an export that has a name, or at the
/// root.
pub open spec fn names_above(
    nodes: Seq<SyntaxNode>,
    id: int,
    exported: bool,
    name: Option<Text>,
    from: int,
    to: int,
) -> Seq<Text>
    decreases id,
{
    let parent = nodes[id].parent as int;
    if exported && name is Some {
        as_list(name)
    } else if !(0 <= parent < id) {
        as_list(name)
    } else {
        match at_node(nodes[parent].kind, exported, name, from, to) {
            Way::Ended(names) => names,
            Way::Open { exported: e, name: n } => names_above(nodes, parent, e, n, from, to),
        }
    }
}

/// The top-level symbols around an offset: those that the way up from the innermost node gives.
/// `from` and `to` are the first and the last offset of its line.
pub open spec fn symbols_around(nodes: Seq<SyntaxNode>, offset: int, from: int, to: int) -> Seq<
    Text,
> {
    match innermost(nodes, offset) {
        None => Seq::empty(),
        Some(id) => match at_first(nodes[id].kind, from, to) {
            Way::Ended(names) => names,
            Way::Open { exported, name } => names_above(nodes, id, exported, name, from, to),
        },
    }
}

/// The last offset of a line that begins at `from`; its line feed is the last.
pub open spec fn line_end(bytes: Seq<u8>, line: nat) -> int {
    let end = match line_start(bytes, line + 1) {
        Some(e) => e,
        None => bytes.len() as int,
    };
    if end > 0 {
        end - 1
    } else {
        0
    }
}

/// The top-level symbols at a line and a column; an error where there is no such line.
pub open spec fn symbols_at(source: Text, tree: SyntaxTree, line: nat, column: nat) -> Result<
    Seq<Text>,
    ErrorView,
> {
    let bytes = encode_utf8(source);
    match line_start(bytes, line) {
        Some(from) => Ok(
            symbols_around(tree.nodes@, from + column, from, line_end(bytes, line)),
        ),
        None => Err(ErrorView::Other("Invalid line number: "@ + decimal(line))),
    }
}

// ---------------------------------------------------------------------------
// Executable operations
// ---------------------------------------------------------------------------

/// The first variable of a declaration that has a name.
fn first_binding_name(names: &Vec<Option<String>>) -> (r: Option<String>)
    ensures
        r.deep_view() == first_name(names@),
{
    let mut i: usize = 0;
    assert(names@.skip(0) =~= names@);
    while i < names.len()
        invariant
            i <= names.len(),
            first_name(names@) == first_name(names@.skip(i as int)),
        decreases names.len() - i,
    {
        assert(names@.skip(i as int)[0] == names@[i as int]);
        assert(names@.skip(i as int).drop_first() =~= names@.skip(i + 1));
        if let Some(n) = &names[i] {
            return Some(n.clone());
        }
        i += 1;
    }
    None
}

/// A copy of a name.
fn copy_name(name: &Option<String>) -> (r: Option<String>)
    ensures
        r.deep_view() == name.deep_view(),
{
    match name {
        Some(n) => Some(n.clone()),
        None => None,
    }
}

/// The name that a declaration inside an export gives.
fn extract_symbol_from_export_decl(d: &Declared) -> (r: Option<String>)
    ensures
        r.deep_view() == declared_name(*d),
{
    match d {
        Declared::Variables(names) => first_binding_name(names),
        Declared::Function(name) => copy_name(name),
        Declared::Class(name) => copy_name(name),
        Declared::Type(name) => Some(name.clone()),
        Declared::Other => None,
    }
}

/// The exported names that stand, at least in part, between two offsets.
fn specifier_names_on_line(names: &Vec<ExportSpecifier>, from: usize, to: usize) -> (r: Vec<
    String,
>)
    ensures
        r.deep_view() == names_between(names@, from as int, to as int),
{
    let mut out: Vec<String> = Vec::new();
    let mut i: usize = 0;
    assert(names@.take(0) =~= Seq::<ExportSpecifier>::empty());
    assert(out.deep_view() =~= Seq::<Text>::empty());
    while i < names.len()
        invariant
            i <= names.len(),
            out.deep_view() == names_between(names@.take(i as int), from as int, to as int),
        decreases names.len() - i,
    {
        let ghost before = out.deep_view();
        assert(names@.take(i + 1).drop_last() =~= names@.take(i as int));
        let name = &names[i];
        if name.start as usize <= to && name.end as usize >= from {
            out.push(name.exported.clone());
            assert(out.deep_view() =~= before.push(name.exported@));
        }
        i += 1;
    }
    assert(names@.take(i as int) =~= names@);
    out
}

/// The innermost node at an offset.
fn find_innermost(nodes: &Vec<SyntaxNode>, offset: usize) -> (r: Option<usize>)
    ensures
        match innermost(nodes@, offset as int) {
            Some(i) => r == Some(i as usize) && 0 <= i < nodes.len(),
            None => r is None,
        },
{
    let mut best: Option<usize> = None;
    let mut i: usize = 0;
    assert(nodes@.take(0) =~= Seq::<SyntaxNode>::empty());
    while i < nodes.len()
        invariant
            i <= nodes.len(),
            match innermost(nodes@.take(i as int), offset as int) {
                Some(j) => best == Some(j as usize) && 0 <= j < i,
                None => best is None,
            },
        decreases nodes.len() - i,
    {
        assert(nodes@.take(i + 1).drop_last() =~= nodes@.take(i as int));
        let node = &nodes[i];
        let start: usize = node.start as usize;
        let end: usize = node.end as usize;
        if start <= offset && end >= offset {
            let closer = match best {
                None => true,
                Some(b) => {
                    let size: u32 = node.end - node.start;
                    let other = &nodes[b];
                    proof {
                        lemma_innermost(nodes@.take(i as int), offset as int);
                    }
                    let other_size: u32 = other.end - other.start;
                    let is_program = match node.kind {
                        NodeKind::Program => true,
                        _ => false,
                    };
                    let other_is_program = match other.kind {
                        NodeKind::Program => true,
                        _ => false,
                    };
                    size < other_size || (size == other_size && !is_program && other_is_program)
                },
            };
            if closer {
                best = Some(i);
            }
        }
        i += 1;
    }
    assert(nodes@.take(i as int) =~= nodes@);
    best
}

/// The way up, as it is followed.
enum Path {
    Ended(Vec<String>),
    Open { exported: bool, name: Option<String> },
}

impl Path {
    spec fn way(self) -> Way {
        match self {
            Path::Ended(names) => Way::Ended(names.deep_view()),
            Path::Open { exported, name } => Way::Open { exported, name: name.deep_view() },
        }
    }
}

/// The way up comes to a named export.
fn meet_export(
    names: &Vec<ExportSpecifier>,
    declaration: &Option<Declared>,
    name: Option<String>,
    from: usize,
    to: usize,
) -> (r: Path)
    ensures
        r.way() == at_export(names@, *declaration, name.deep_view(), from as int, to as int),
{
    let known = match declaration {
        Some(d) => extract_symbol_from_export_decl(d),
        None => name,
    };
    if known.is_none() {
        let on_line = specifier_names_on_line(names, from, to);
        assert(on_line.deep_view().len() == on_line.len());
        if on_line.len() > 0 {
            return Path::Ended(on_line);
        }
    }
    Path::Open { exported: true, name: known }
}

/// The way up begins at a node.
fn meet_first(kind: &NodeKind, from: usize, to: usize) -> (r: Path)
    ensures
        r.way() == at_first(*kind, from as int, to as int),
{
    match kind {
        NodeKind::ExportNamed { names, declaration, .. } => meet_export(
            names,
            declaration,
            None,
            from,
            to,
        ),
        NodeKind::ExportDefault => Path::Open {
            exported: true,
            name: Some("default".to_owned()),
        },
        NodeKind::Variables(names) => Path::Open {
            exported: false,
            name: first_binding_name(names),
        },
        _ => Path::Open { exported: false, name: None },
    }
}

/// The way up comes to a node that declares a name, if it has one.
fn meet_declaration(own: Option<String>, exported: bool, name: Option<String>) -> (r: Path)
    ensures
        r.way() == at_declaration(own.deep_view(), exported, name.deep_view()),
{
    if !exported && own.is_some() {
        Path::Open { exported, name: own }
    } else {
        Path::Open { exported, name }
    }
}

/// The way up comes to a node.
fn meet(kind: &NodeKind, exported: bool, name: Option<String>, from: usize, to: usize) -> (r: Path)
    ensures
        r.way() == at_node(*kind, exported, name.deep_view(), from as int, to as int),
{
    match kind {
        NodeKind::ExportNamed { names, declaration, .. } => meet_export(
            names,
            declaration,
            name,
            from,
            to,
        ),
        NodeKind::ExportDefault => Path::Open {
            exported: true,
            name: Some("default".to_owned()),
        },
        NodeKind::Function(own) => meet_declaration(copy_name(own), exported, name),
        NodeKind::Class(own) => meet_declaration(copy_name(own), exported, name),
        NodeKind::Type(own) => meet_declaration(Some(own.clone()), exported, name),
        NodeKind::Variable(own) => meet_declaration(copy_name(own), exported, name),
        NodeKind::Variables(names) => {
            if name.is_none() {
                meet_declaration(first_binding_name(names), exported, name)
            } else {
                Path::Open { exported, name }
            }
        },
        _ => Path::Open { exported, name },
    }
}

/// The names that a name stands for.
fn list_of(name: Option<String>) -> (r: Vec<String>)
    ensures
        r.deep_view() == as_list(name.deep_view()),
{
    let mut out: Vec<String> = Vec::new();
    assert(out.deep_view() =~= Seq::<Text>::empty());
    match name {
        Some(n) => {
            let ghost text = n@;
            out.push(n);
            assert(out.deep_view() =~= seq![text]);
        },
        None => {},
    }
    out
}

/// The top-level symbols around a place in a parsed file: the exported declaration that holds it, or
/// the declaration itself where it is not exported; nothing where the place lies in none.
pub fn find_top_level_symbols(file_data: &FileSemanticData, line: usize, column: usize) -> (r:
    Result<Vec<String>, DominoError>)
    requires
        line_start(encode_utf8(file_data.text()), line as nat) matches Some(s) ==> s + column
            <= usize::MAX,
    ensures
        match symbols_at(file_data.text(), file_data.syntax(), line as nat, column as nat) {
            Ok(names) => r is Ok && r->Ok_0.deep_view() == names,
            Err(e) => r is Err && r->Err_0.deep_view() == e,
        },
{
    let source = file_data.source();
    let tree = file_data.semantic();
    let from: usize = match positions::line_to_offset(source, line) {
        Some(s) => s,
        None => {
            return Err(
                DominoError::Other(
                    text::cat("Invalid line number: ", text::decimal_of(line as u64).as_str()),
                ),
            );
        },
    };
    proof {
        positions::lemma_line_bound(encode_utf8(file_data.text()), line as nat);
        positions::lemma_line_start_bound(encode_utf8(file_data.text()), line as nat);
    }
    let offset: usize = from + column;
    let end: usize = match positions::line_to_offset(source, line + 1) {
        Some(e) => e,
        None => text::byte_len(source),
    };
    let to: usize = if end > 0 {
        end - 1
    } else {
        0
    };
    let nodes = &tree.nodes;
    let first: usize = match find_innermost(nodes, offset) {
        Some(i) => i,
        None => {
            let none: Vec<String> = Vec::new();
            assert(none.deep_view() =~= Seq::<Text>::empty());
            return Ok(none);
        },
    };
    let mut current: usize = first;
    let mut exported: bool = false;
    let mut name: Option<String> = None;
    match meet_first(&nodes[first].kind, from, to) {
        Path::Ended(names) => {
            return Ok(names);
        },
        Path::Open { exported: e, name: n } => {
            exported = e;
            name = n;
        },
    }
    let ghost answer = names_above(
        nodes@,
        first as int,
        exported,
        name.deep_view(),
        from as int,
        to as int,
    );
    while !(exported && name.is_some()) && nodes[current].parent != current
        invariant
            nodes@ == tree.nodes@,
            tree.valid(),
            current < nodes.len(),
            answer == names_above(
                nodes@,
                current as int,
                exported,
                name.deep_view(),
                from as int,
                to as int,
            ),
            symbols_at(file_data.text(), file_data.syntax(), line as nat, column as nat) == Ok::<
                Seq<Text>,
                ErrorView,
            >(answer),
        decreases current,
    {
        assert(nodes@[current as int].parent < current);
        let parent: usize = nodes[current].parent;
        match meet(&nodes[parent].kind, exported, name, from, to) {
            Path::Ended(names) => {
                return Ok(names);
            },
            Path::Open { exported: e, name: n } => {
                exported = e;
                name = n;
            },
        }
        current = parent;
    }
    Ok(list_of(name))
}

// ---------------------------------------------------------------------------
// What holds of all places
// ---------------------------------------------------------------------------

/// The node is an export with a name or the default export.
pub open spec fn is_export(kind: NodeKind) -> bool {
    kind is ExportNamed || kind is ExportDefault
}

/// The name that an export gives to what it declares.
pub open spec fn export_name(kind: NodeKind) -> Option<Text> {
    match kind {
        NodeKind::ExportNamed { declaration: Some(d), .. } => declared_name(d),
        NodeKind::ExportDefault => Some("default"@),
        _ => None,
    }
}

/// The nearest export that holds a node, or is it.
pub open spec fn nearest_export(nodes: Seq<SyntaxNode>, id: int) -> Option<int>
    decreases id,
{
    let parent = nodes[id].parent as int;
    if is_export(nodes[id].kind) {
        Some(id)
    } else if 0 <= parent < id {
        nearest_export(nodes, parent)
    } else {
        None
    }
}

/// The way up ends at the nearest export above, where that has a name.
proof fn lemma_way_to_export(
    nodes: Seq<SyntaxNode>,
    id: int,
    name: Option<Text>,
    from: int,
    to: int,
)
    requires
        !is_export(nodes[id].kind),
        nearest_export(nodes, id) is Some,
        export_name(nodes[nearest_export(nodes, id)->0].kind) is Some,
    ensures
        names_above(nodes, id, false, name, from, to) == seq![
            export_name(nodes[nearest_export(nodes, id)->0].kind)->0,
        ],
    decreases id,
{
    let parent = nodes[id].parent as int;
    if is_export(nodes[parent].kind) {
        let found = export_name(nodes[parent].kind);
        assert(at_node(nodes[parent].kind, false, name, from, to) == (Way::Open {
            exported: true,
            name: found,
        }));
        assert(nearest_export(nodes, parent) == Some(parent));
        assert(names_above(nodes, parent, true, found, from, to) == seq![found->0]);
    } else {
        match at_node(nodes[parent].kind, false, name, from, to) {
            Way::Ended(_) => {},
            Way::Open { exported: e, name: n } => {
                assert(!e);
                lemma_way_to_export(nodes, parent, n, from, to);
            },
        }
    }
}

/// Whatever lies in an exported declaration belongs to the name that is exported, however deep it
/// lies.
pub proof fn lemma_inside_export(
    nodes: Seq<SyntaxNode>,
    offset: int,
    from: int,
    to: int,
    id: int,
)
    requires
        innermost(nodes, offset) == Some(id),
        nearest_export(nodes, id) is Some,
        export_name(nodes[nearest_export(nodes, id)->0].kind) is Some,
    ensures
        symbols_around(nodes, offset, from, to) == seq![
            export_name(nodes[nearest_export(nodes, id)->0].kind)->0,
        ],
{
    if !is_export(nodes[id].kind) {
        match at_first(nodes[id].kind, from, to) {
            Way::Ended(_) => {},
            Way::Open { exported, name } => {
                assert(!exported);
                lemma_way_to_export(nodes, id, name, from, to);
            },
        }
    }
}

/// Outside all exports a place belongs to one symbol at most.
pub proof fn lemma_outside_exports(
    nodes: Seq<SyntaxNode>,
    offset: int,
    from: int,
    to: int,
    id: int,
)
    requires
        innermost(nodes, offset) == Some(id),
        nearest_export(nodes, id) is None,
    ensures
        symbols_around(nodes, offset, from, to).len() <= 1,
{
    match at_first(nodes[id].kind, from, to) {
        Way::Ended(_) => {},
        Way::Open { exported, name } => {
            lemma_way_outside(nodes, id, name, from, to);
        },
    }
}

/// The way up outside all exports gives one name at most.
proof fn lemma_way_outside(
    nodes: Seq<SyntaxNode>,
    id: int,
    name: Option<Text>,
    from: int,
    to: int,
)
    requires
        nearest_export(nodes, id) is None,
    ensures
        names_above(nodes, id, false, name, from, to).len() <= 1,
    decreases id,
{
    let parent = nodes[id].parent as int;
    if 0 <= parent < id {
        assert(nearest_export(nodes, parent) is None);
        match at_node(nodes[parent].kind, false, name, from, to) {
            Way::Ended(_) => {},
            Way::Open { exported: e, name: n } => {
                assert(!e);
                lemma_way_outside(nodes, parent, n, from, to);
            },
        }
    }
}

// ---------------------------------------------------------------------------
// Which declaration a place belongs to
// ---------------------------------------------------------------------------

/// The node `outer` holds the node `inner`, directly or not.
pub open spec fn holds(nodes: Seq<SyntaxNode>, outer: int, inner: int) -> bool
    decreases inner,
{
    let parent = nodes[inner].parent as int;
    0 <= parent < inner && (parent == outer || holds(nodes, outer, parent))
}

/// The name that a function, a class, a type or a variable has.
pub open spec fn declaration_name(kind: NodeKind) -> Option<Text> {
    match kind {
        NodeKind::Function(Some(n)) => Some(n@),
        NodeKind::Class(Some(n)) => Some(n@),
        NodeKind::Variable(Some(n)) => Some(n@),
        NodeKind::Type(n) => Some(n@),
        _ => None,
    }
}

/// No export holds the node, nor is it one.
pub open spec fn is_outside_exports(nodes: Seq<SyntaxNode>, id: int) -> bool {
    !is_export(nodes[id].kind) && forall|k: int| #[trigger]
        holds(nodes, k, id) ==> !is_export(nodes[k].kind)
}

/// No function, class, type or variable with a name holds the node.
pub open spec fn is_outermost(nodes: Seq<SyntaxNode>, id: int) -> bool {
    forall|k: int| #[trigger] holds(nodes, k, id) ==> declaration_name(nodes[k].kind) is None
}

/// What holds a holder of a node holds the node.
pub proof fn lemma_holds_on(nodes: Seq<SyntaxNode>, k: int, outer: int, inner: int)
    requires
        holds(nodes, outer, inner),
        holds(nodes, k, outer),
    ensures
        holds(nodes, k, inner),
    decreases inner,
{
    let parent = nodes[inner].parent as int;
    if parent != outer {
        lemma_holds_on(nodes, k, outer, parent);
    }
}

/// Outside all exports a place belongs to the outermost function, class, type or variable with a name
/// that holds it: what is declared inside that one is not told apart.
pub proof fn lemma_outermost_declaration(
    nodes: Seq<SyntaxNode>,
    offset: int,
    from: int,
    to: int,
    id: int,
    outer: int,
)
    requires
        innermost(nodes, offset) == Some(id),
        is_outside_exports(nodes, id),
        holds(nodes, outer, id),
        declaration_name(nodes[outer].kind) is Some,
        is_outermost(nodes, outer),
    ensures
        symbols_around(nodes, offset, from, to) == seq![declaration_name(nodes[outer].kind)->0],
{
    match at_first(nodes[id].kind, from, to) {
        Way::Ended(_) => {},
        Way::Open { exported, name } => {
            assert(!exported);
            lemma_way_to_outermost(nodes, id, name, from, to, outer);
        },
    }
}

proof fn lemma_way_to_outermost(
    nodes: Seq<SyntaxNode>,
    id: int,
    name: Option<Text>,
    from: int,
    to: int,
    outer: int,
)
    requires
        is_outside_exports(nodes, id),
        holds(nodes, outer, id),
        declaration_name(nodes[outer].kind) is Some,
        is_outermost(nodes, outer),
    ensures
        names_above(nodes, id, false, name, from, to) == seq![
            declaration_name(nodes[outer].kind)->0,
        ],
    decreases id,
{
    let parent = nodes[id].parent as int;
    assert(holds(nodes, parent, id));
    assert(is_outside_exports(nodes, parent)) by {
        assert forall|k: int| #[trigger] holds(nodes, k, parent) implies !is_export(
            nodes[k].kind,
        ) by {
            assert(holds(nodes, k, id));
        }
    }
    let way = at_node(nodes[parent].kind, false, name, from, to);
    if parent == outer {
        assert(way == (Way::Open {
            exported: false,
            name: declaration_name(nodes[outer].kind),
        }));
        lemma_way_stays_named(nodes, parent, declaration_name(nodes[outer].kind)->0, from, to);
    } else {
        match way {
            Way::Ended(_) => {},
            Way::Open { exported: e, name: n } => {
                assert(!e);
                lemma_way_to_outermost(nodes, parent, n, from, to, outer);
            },
        }
    }
}

/// Above the outermost declaration the name stays.
proof fn lemma_way_stays_named(
    nodes: Seq<SyntaxNode>,
    id: int,
    name: Text,
    from: int,
    to: int,
)
    requires
        is_outside_exports(nodes, id),
        is_outermost(nodes, id),
    ensures
        names_above(nodes, id, false, Some(name), from, to) == seq![name],
    decreases id,
{
    let parent = nodes[id].parent as int;
    if 0 <= parent < id {
        assert(holds(nodes, parent, id));
        assert forall|k: int| #[trigger] holds(nodes, k, parent) implies !is_export(nodes[k].kind)
            && declaration_name(nodes[k].kind) is None by {
            assert(holds(nodes, k, id));
        }
        assert(declaration_name(nodes[parent].kind) is None);
        assert(at_node(nodes[parent].kind, false, Some(name), from, to) == (Way::Open {
            exported: false,
            name: Some(name),
        }));
        lemma_way_stays_named(nodes, parent, name, from, to);
    }
}

/// The name that a node gives where none is known yet: that of the first named variable of a
/// declaration of variables.
pub open spec fn is_first_variable(kind: NodeKind, name: Text) -> bool {
    kind matches NodeKind::Variables(names) && exists|k: int|
        0 <= k < names@.len() && (#[trigger] names@[k] matches Some(n) && n@ == name) && forall|j: int|
            0 <= j < k ==> #[trigger] names@[j] is None
}

/// A declaration of variables none of which has a name, or another node.
pub open spec fn names_no_variable(kind: NodeKind) -> bool {
    kind matches NodeKind::Variables(names) ==> forall|k: int|
        0 <= k < names@.len() ==> #[trigger] names@[k] is None
}

/// A place in a declaration of variables that lies in none of them, such as its keyword, belongs to
/// the first of them that has a name, outside exports and other declarations.
pub proof fn lemma_variables_keyword(
    nodes: Seq<SyntaxNode>,
    offset: int,
    from: int,
    to: int,
    id: int,
    name: Text,
)
    requires
        innermost(nodes, offset) == Some(id),
        is_outside_exports(nodes, id),
        is_outermost(nodes, id),
        is_first_variable(nodes[id].kind, name),
    ensures
        symbols_around(nodes, offset, from, to) == seq![name],
{
    lemma_first_variable(nodes[id].kind->Variables_0@, name);
    lemma_way_stays_named(nodes, id, name, from, to);
}

/// The first variable with a name is the first name.
pub proof fn lemma_first_variable(names: Seq<Option<String>>, name: Text)
    requires
        exists|k: int|
            0 <= k < names.len() && (#[trigger] names[k] matches Some(n) && n@ == name) && forall|j:
                int|
                0 <= j < k ==> #[trigger] names[j] is None,
    ensures
        first_name(names) == Some(name),
    decreases names.len(),
{
    let k = choose|k: int|
        0 <= k < names.len() && (#[trigger] names[k] matches Some(n) && n@ == name) && forall|j: int|
            0 <= j < k ==> #[trigger] names[j] is None;
    if k > 0 {
        assert(names[0] is None);
        let rest = names.drop_first();
        assert(rest[k - 1] == names[k]);
        assert forall|j: int| 0 <= j < k - 1 implies #[trigger] rest[j] is None by {
            assert(rest[j] == names[j + 1]);
        }
        lemma_first_variable(rest, name);
    }
}

proof fn lemma_no_variable(names: Seq<Option<String>>)
    requires
        forall|k: int| 0 <= k < names.len() ==> #[trigger] names[k] is None,
    ensures
        first_name(names) is None,
    decreases names.len(),
{
    if names.len() > 0 {
        assert(names[0] is None);
        let rest = names.drop_first();
        assert forall|k: int| 0 <= k < rest.len() implies #[trigger] rest[k] is None by {
            assert(rest[k] == names[k + 1]);
        }
        lemma_no_variable(rest);
    }
}

/// A place that no export and no declaration holds belongs to no symbol.
pub proof fn lemma_no_declaration(
    nodes: Seq<SyntaxNode>,
    offset: int,
    from: int,
    to: int,
    id: int,
)
    requires
        innermost(nodes, offset) == Some(id),
        is_outside_exports(nodes, id),
        is_outermost(nodes, id),
        names_no_variable(nodes[id].kind),
        forall|k: int| #[trigger] holds(nodes, k, id) ==> names_no_variable(nodes[k].kind),
    ensures
        symbols_around(nodes, offset, from, to) == Seq::<Text>::empty(),
{
    if let NodeKind::Variables(names) = nodes[id].kind {
        lemma_no_variable(names@);
    }
    lemma_way_unnamed(nodes, id, from, to);
}

proof fn lemma_way_unnamed(nodes: Seq<SyntaxNode>, id: int, from: int, to: int)
    requires
        is_outside_exports(nodes, id),
        is_outermost(nodes, id),
        forall|k: int| #[trigger] holds(nodes, k, id) ==> names_no_variable(nodes[k].kind),
    ensures
        names_above(nodes, id, false, None, from, to) == Seq::<Text>::empty(),
    decreases id,
{
    let parent = nodes[id].parent as int;
    if 0 <= parent < id {
        assert(holds(nodes, parent, id));
        assert forall|k: int| #[trigger] holds(nodes, k, parent) implies !is_export(nodes[k].kind)
            && declaration_name(nodes[k].kind) is None && names_no_variable(nodes[k].kind) by {
            assert(holds(nodes, k, id));
        }
        assert(declaration_name(nodes[parent].kind) is None);
        assert(names_no_variable(nodes[parent].kind));
        if let NodeKind::Variables(names) = nodes[parent].kind {
            lemma_no_variable(names@);
        }
        assert(at_node(nodes[parent].kind, false, None, from, to) == (Way::Open {
            exported: false,
            name: None,
        }));
        lemma_way_unnamed(nodes, parent, from, to);
    }
}

/// The export is of something that is declared in it, under that name; the default export is called
/// `default`.
pub open spec fn exports_as(kind: NodeKind, name: Text) -> bool {
    match kind {
        NodeKind::ExportDefault => name == "default"@,
        NodeKind::ExportNamed { declaration: Some(d), .. } => match d {
            Declared::Function(Some(n)) => n@ == name,
            Declared::Class(Some(n)) => n@ == name,
            Declared::Type(n) => n@ == name,
            Declared::Variables(names) => is_first_variable(NodeKind::Variables(names), name),
            _ => false,
        },
        _ => false,
    }
}

/// Whatever lies in the declaration of an export, or is the export, belongs to the name that the
/// nearest such export declares: `default` for the default export.
pub proof fn lemma_nearest_export(
    nodes: Seq<SyntaxNode>,
    offset: int,
    from: int,
    to: int,
    id: int,
    export: int,
    name: Text,
)
    requires
        innermost(nodes, offset) == Some(id),
        export == id || holds(nodes, export, id),
        exports_as(nodes[export].kind, name),
        export != id ==> !is_export(nodes[id].kind),
        forall|k: int| #[trigger]
            holds(nodes, k, id) && holds(nodes, export, k) ==> !is_export(nodes[k].kind),
    ensures
        symbols_around(nodes, offset, from, to) == seq![name],
{
    lemma_exports_as(nodes[export].kind, name);
    lemma_nearest_is(nodes, id, export);
    lemma_inside_export(nodes, offset, from, to, id);
}

proof fn lemma_exports_as(kind: NodeKind, name: Text)
    requires
        exports_as(kind, name),
    ensures
        is_export(kind),
        export_name(kind) == Some(name),
{
    if let NodeKind::ExportNamed { declaration: Some(Declared::Variables(names)), .. } = kind {
        lemma_first_variable(names@, name);
    }
}

proof fn lemma_nearest_is(nodes: Seq<SyntaxNode>, id: int, export: int)
    requires
        export == id || holds(nodes, export, id),
        is_export(nodes[export].kind),
        export != id ==> !is_export(nodes[id].kind),
        forall|k: int| #[trigger]
            holds(nodes, k, id) && holds(nodes, export, k) ==> !is_export(nodes[k].kind),
    ensures
        nearest_export(nodes, id) == Some(export),
    decreases id,
{
    if export != id {
        let parent = nodes[id].parent as int;
        assert(holds(nodes, parent, id));
        assert forall|k: int| #[trigger]
            holds(nodes, k, parent) && holds(nodes, export, k) implies !is_export(
            nodes[k].kind,
        ) by {
            assert(holds(nodes, k, id));
        }
        lemma_nearest_is(nodes, parent, export);
    }
}

/// The names in the braces of an export that stand on a line, at least in part: each of them and no
/// other, in order.
pub proof fn lemma_names_between(names: Seq<ExportSpecifier>, from: int, to: int, name: Text)
    ensures
        names_between(names, from, to).contains(name) <==> exists|i: int|
            0 <= i < names.len() && (#[trigger] names[i]).exported@ == name && names[i].start <= to
                && from <= names[i].end,
    decreases names.len(),
{
    if names.len() > 0 {
        let init = names.drop_last();
        let last = names.last();
        lemma_names_between(init, from, to, name);
        let before = names_between(init, from, to);
        crate::collections::lemma_push_contains(before, last.exported@, name);
        if before.contains(name) {
            let i = choose|i: int|
                0 <= i < init.len() && (#[trigger] init[i]).exported@ == name && init[i].start <= to
                    && from <= init[i].end;
            assert(names[i] == init[i]);
        }
        if exists|i: int|
            0 <= i < names.len() && (#[trigger] names[i]).exported@ == name && names[i].start <= to
                && from <= names[i].end {
            let i = choose|i: int|
                0 <= i < names.len() && (#[trigger] names[i]).exported@ == name && names[i].start
                    <= to && from <= names[i].end;
            if i < init.len() {
                assert(init[i] == names[i]);
            }
        }
        assert(names[names.len() - 1] == last);
    }
}

/// A place in the braces of an export without a declaration belongs to the exported names on its
/// line.
pub proof fn lemma_braces(
    nodes: Seq<SyntaxNode>,
    offset: int,
    from: int,
    to: int,
    id: int,
    export: int,
    names: Seq<ExportSpecifier>,
    name: Text,
)
    requires
        innermost(nodes, offset) == Some(id),
        export == id || (nodes[id].parent == export && export < id && nodes[id].kind is Other),
        0 <= export,
        nodes[export].kind matches NodeKind::ExportNamed { names: ns, declaration: None, .. }
            && ns@ == names,
        exists|i: int|
            0 <= i < names.len() && (#[trigger] names[i]).start <= to && from <= names[i].end,
    ensures
        symbols_around(nodes, offset, from, to).contains(name) <==> exists|i: int|
            0 <= i < names.len() && (#[trigger] names[i]).exported@ == name && names[i].start <= to
                && from <= names[i].end,
{
    lemma_names_between(names, from, to, name);
    let i = choose|i: int|
        0 <= i < names.len() && (#[trigger] names[i]).start <= to && from <= names[i].end;
    lemma_names_between(names, from, to, names[i].exported@);
    assert(names_between(names, from, to).contains(names[i].exported@));
    assert(at_first(nodes[export].kind, from, to) == Way::Ended(names_between(names, from, to)));
    assert(at_node(nodes[export].kind, false, None, from, to) == Way::Ended(
        names_between(names, from, to),
    ));
}

/// The innermost node takes up the offset, both ends included; no node that takes it up is smaller, a
/// program is taken only where nothing else is as small, and of nodes alike the first is taken.
pub proof fn lemma_innermost_node(nodes: Seq<SyntaxNode>, offset: int, j: int)
    requires
        0 <= j < nodes.len(),
        nodes[j].start <= offset <= nodes[j].end,
    ensures
        innermost(nodes, offset) matches Some(i) && {
            &&& 0 <= i < nodes.len()
            &&& nodes[i].start <= offset <= nodes[i].end
            &&& nodes[i].end - nodes[i].start <= nodes[j].end - nodes[j].start
            &&& nodes[i].end - nodes[i].start == nodes[j].end - nodes[j].start ==> {
                &&& nodes[i].kind is Program ==> nodes[j].kind is Program
                &&& (nodes[i].kind is Program <==> nodes[j].kind is Program) ==> i <= j
            }
        },
{
    lemma_innermost(nodes, offset);
    assert(covers(nodes[j], offset));
}

/// Where no node takes up the offset there is no symbol.
pub proof fn lemma_nothing_there(nodes: Seq<SyntaxNode>, offset: int, from: int, to: int)
    requires
        forall|j: int|
            0 <= j < nodes.len() ==> offset < (#[trigger] nodes[j]).start || nodes[j].end < offset,
    ensures
        innermost(nodes, offset) is None,
        symbols_around(nodes, offset, from, to) == Seq::<Text>::empty(),
{
    lemma_innermost(nodes, offset);
    if let Some(i) = innermost(nodes, offset) {
        assert(covers(nodes[i], offset));
    }
}

} // verus!
