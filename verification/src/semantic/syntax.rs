//! Source files as lists of syntax nodes and symbols.

use oxc_allocator::Allocator;
use oxc_ast::ast::{
    BindingPattern, BindingPatternKind, Declaration, ExportNamedDeclaration, Expression,
    ImportDeclaration, ImportDeclarationSpecifier, StaticMemberExpression, TSQualifiedName,
    TSTypeName, VariableDeclaration,
};
use oxc_ast::AstKind;
use oxc_parser::Parser;
use oxc_semantic::{AstNode, Semantic, SemanticBuilder, SymbolId};
use oxc_span::{GetSpan, SourceType};
use vstd::prelude::*;

verus! {

/// What one import specifier binds.
#[derive(Debug, PartialEq, Eq)]
pub enum ImportSpecifier {
    Named { imported: String, local: String, type_only: bool },
    Default { local: String },
    Namespace { local: String },
}

/// One name in the braces of an export, with the bytes that it takes up.
#[derive(Debug, PartialEq, Eq)]
pub struct ExportSpecifier {
    pub exported: String,
    pub local: String,
    pub start: u32,
    pub end: u32,
}

/// The declaration inside an export. A variable that is destructured has no name.
#[derive(Debug, PartialEq, Eq)]
pub enum Declared {
    Variables(Vec<Option<String>>),
    Function(Option<String>),
    Class(Option<String>),
    /// An interface, a type alias or an enumeration.
    Type(String),
    Other,
}

/// What a syntax node is, as far as the module graph asks.
#[derive(Debug, PartialEq, Eq)]
pub enum NodeKind {
    Program,
    Import { source: String, type_only: bool, specifiers: Vec<ImportSpecifier> },
    /// `import(..)`, with the module where it is a string literal.
    ImportCall(Option<String>),
    ExportNamed {
        from: Option<String>,
        names: Vec<ExportSpecifier>,
        declaration: Option<Declared>,
    },
    ExportDefault,
    ExportAll { source: String },
    Variables(Vec<Option<String>>),
    Variable(Option<String>),
    Function(Option<String>),
    Class(Option<String>),
    /// An interface, a type alias or an enumeration.
    Type(String),
    /// `object.property`, with the object where it is an identifier.
    Member { object: Option<String>, property: String },
    /// `left.right` in a type, with the left side where it is an identifier.
    Qualified { left: Option<String>, right: String },
    Other,
}

/// A syntax node: what it is, the bytes that it takes up, and the node that holds it.
#[derive(Debug, PartialEq, Eq)]
pub struct SyntaxNode {
    pub kind: NodeKind,
    pub start: u32,
    pub end: u32,
    pub parent: usize,
}

/// A symbol that a file declares, with the offsets at which it is used.
#[derive(Debug, PartialEq, Eq)]
pub struct SymbolUses {
    pub name: String,
    pub uses: Vec<u32>,
}

/// A parsed source file: its nodes, each behind the one that holds it, and its symbols.
#[derive(Debug, PartialEq, Eq)]
pub struct SyntaxTree {
    pub nodes: Vec<SyntaxNode>,
    pub symbols: Vec<SymbolUses>,
}

impl SyntaxTree {
    /// Every node but the first lies behind the node that holds it; the first holds itself.
    pub open spec fn valid(self) -> bool {
        forall|i: int|
            0 <= i < self.nodes@.len() ==> if i == 0 {
                (#[trigger] self.nodes@[i]).parent == 0
            } else {
                self.nodes@[i].parent < i
            }
    }
}

/// The declaration of `oxc_ast::AstKind`.
#[verifier::external_type_specification]
#[verifier::external_body]
pub struct ExAstKind<'a>(AstKind<'a>);

/// The declaration of `oxc_ast::ast::BindingPattern`.
#[verifier::external_type_specification]
#[verifier::external_body]
pub struct ExBindingPattern<'a>(BindingPattern<'a>);

/// The declaration of `oxc_ast::ast::VariableDeclaration`.
#[verifier::external_type_specification]
#[verifier::external_body]
pub struct ExVariableDeclaration<'a>(VariableDeclaration<'a>);

/// The declaration of `oxc_ast::ast::Declaration`.
#[verifier::external_type_specification]
#[verifier::external_body]
pub struct ExDeclaration<'a>(Declaration<'a>);

/// The declaration of `oxc_ast::ast::ImportDeclaration`.
#[verifier::external_type_specification]
#[verifier::external_body]
pub struct ExImportDeclaration<'a>(ImportDeclaration<'a>);

/// The declaration of `oxc_ast::ast::ImportDeclarationSpecifier`.
#[verifier::external_type_specification]
#[verifier::external_body]
pub struct ExImportDeclarationSpecifier<'a>(ImportDeclarationSpecifier<'a>);

/// The declaration of `oxc_ast::ast::ExportNamedDeclaration`.
#[verifier::external_type_specification]
#[verifier::external_body]
pub struct ExExportNamedDeclaration<'a>(ExportNamedDeclaration<'a>);

/// The declaration of `oxc_ast::ast::Expression`.
#[verifier::external_type_specification]
#[verifier::external_body]
pub struct ExExpression<'a>(Expression<'a>);

/// The declaration of `oxc_ast::ast::StaticMemberExpression`.
#[verifier::external_type_specification]
#[verifier::external_body]
pub struct ExStaticMemberExpression<'a>(StaticMemberExpression<'a>);

/// The declaration of `oxc_ast::ast::TSQualifiedName`.
#[verifier::external_type_specification]
#[verifier::external_body]
pub struct ExTSQualifiedName<'a>(TSQualifiedName<'a>);

/// The declaration of `oxc_semantic::Semantic`.
#[verifier::external_type_specification]
#[verifier::external_body]
pub struct ExSemantic<'a>(Semantic<'a>);

/// The declaration of `oxc_semantic::AstNode`.
#[verifier::external_type_specification]
#[verifier::external_body]
pub struct ExAstNode<'a>(AstNode<'a>);

/// The declaration of `oxc_semantic::SymbolId`.
#[verifier::external_type_specification]
#[verifier::external_body]
pub struct ExSymbolId(SymbolId);

/// The name that an `oxc_ast` pattern binds, where it is an identifier.
#[verifier::external_body]
fn binding_name(pattern: &BindingPattern<'_>) -> Option<String> {
    match &pattern.kind {
        BindingPatternKind::BindingIdentifier(id) => Some(id.name.to_string()),
        _ => None,
    }
}

/// The names that an `oxc_ast` variable declaration binds, one for each declarator.
#[verifier::external_body]
fn variable_names(variables: &VariableDeclaration<'_>) -> Vec<Option<String>> {
    variables.declarations.iter().map(|declarator| binding_name(&declarator.id)).collect()
}

/// Turns an `oxc_ast` declaration into a [`Declared`], variant for variant.
#[verifier::external_body]
fn declared(declaration: &Declaration<'_>) -> Declared {
    match declaration {
        Declaration::VariableDeclaration(d) => Declared::Variables(variable_names(d)),
        Declaration::FunctionDeclaration(d) => Declared::Function(d.name().map(|n| n.to_string())),
        Declaration::ClassDeclaration(d) => Declared::Class(d.name().map(|n| n.to_string())),
        Declaration::TSInterfaceDeclaration(d) => Declared::Type(d.id.name.to_string()),
        Declaration::TSTypeAliasDeclaration(d) => Declared::Type(d.id.name.to_string()),
        Declaration::TSEnumDeclaration(d) => Declared::Type(d.id.name.to_string()),
        _ => Declared::Other,
    }
}

/// Turns an `oxc_ast` import specifier into an [`ImportSpecifier`], variant for variant.
#[verifier::external_body]
fn import_specifier(specifier: &ImportDeclarationSpecifier<'_>) -> ImportSpecifier {
    let local = specifier.local().name.to_string();
    match specifier {
        ImportDeclarationSpecifier::ImportSpecifier(s) => ImportSpecifier::Named {
            imported: s.imported.name().to_string(),
            local,
            type_only: s.import_kind.is_type(),
        },
        ImportDeclarationSpecifier::ImportDefaultSpecifier(_) => ImportSpecifier::Default { local },
        ImportDeclarationSpecifier::ImportNamespaceSpecifier(_) => ImportSpecifier::Namespace { local },
    }
}

/// Turns an `oxc_ast` import declaration into a [`NodeKind`].
#[verifier::external_body]
fn import_kind(import: &ImportDeclaration<'_>) -> NodeKind {
    NodeKind::Import {
        source: import.source.value.to_string(),
        type_only: import.import_kind.is_type(),
        specifiers: import.specifiers.iter().flatten().map(import_specifier).collect(),
    }
}

/// Turns an `oxc_ast` named export into a [`NodeKind`].
#[verifier::external_body]
fn export_kind(export: &ExportNamedDeclaration<'_>) -> NodeKind {
    NodeKind::ExportNamed {
        from: export.source.as_ref().map(|s| s.value.to_string()),
        names: export.specifiers.iter().map(|s| ExportSpecifier {
            exported: s.exported.name().to_string(),
            local: s.local.name().to_string(),
            start: s.span.start,
            end: s.span.end,
        }).collect(),
        declaration: export.declaration.as_ref().map(declared),
    }
}

/// The value of an `oxc_ast` expression that is a string literal.
#[verifier::external_body]
fn string_literal(expression: &Expression<'_>) -> Option<String> {
    match expression {
        Expression::StringLiteral(s) => Some(s.value.to_string()),
        _ => None,
    }
}

/// Turns an `oxc_ast` member expression into a [`NodeKind`].
#[verifier::external_body]
fn member_kind(member: &StaticMemberExpression<'_>) -> NodeKind {
    let property = member.property.name.to_string();
    match &member.object {
        Expression::Identifier(id) => NodeKind::Member { object: Some(id.name.to_string()), property },
        _ => NodeKind::Member { object: None, property },
    }
}

/// Turns an `oxc_ast` qualified name into a [`NodeKind`].
#[verifier::external_body]
fn qualified_kind(name: &TSQualifiedName<'_>) -> NodeKind {
    let right = name.right.name.to_string();
    match &name.left {
        TSTypeName::IdentifierReference(id) => NodeKind::Qualified { left: Some(id.name.to_string()), right },
        _ => NodeKind::Qualified { left: None, right },
    }
}

/// Turns an `oxc_ast` node that declares or uses a name into a [`NodeKind`], variant for variant.
#[verifier::external_body]
fn name_kind(kind: AstKind<'_>) -> NodeKind {
    match kind {
        AstKind::Function(it) => NodeKind::Function(it.name().map(|n| n.to_string())),
        AstKind::Class(it) => NodeKind::Class(it.name().map(|n| n.to_string())),
        AstKind::TSInterfaceDeclaration(it) => NodeKind::Type(it.id.name.to_string()),
        AstKind::TSTypeAliasDeclaration(it) => NodeKind::Type(it.id.name.to_string()),
        AstKind::TSEnumDeclaration(it) => NodeKind::Type(it.id.name.to_string()),
        AstKind::StaticMemberExpression(it) => member_kind(it),
        AstKind::TSQualifiedName(it) => qualified_kind(it),
        _ => NodeKind::Other,
    }
}

/// Turns an `oxc_ast` node into a [`NodeKind`], variant for variant.
#[verifier::external_body]
fn node_kind(kind: AstKind<'_>) -> NodeKind {
    match kind {
        AstKind::Program(_) => NodeKind::Program,
        AstKind::ImportDeclaration(it) => import_kind(it),
        AstKind::ImportExpression(it) => NodeKind::ImportCall(string_literal(&it.source)),
        AstKind::ExportNamedDeclaration(it) => export_kind(it),
        AstKind::ExportDefaultDeclaration(_) => NodeKind::ExportDefault,
        AstKind::ExportAllDeclaration(it) => NodeKind::ExportAll { source: it.source.value.to_string() },
        AstKind::VariableDeclaration(it) => NodeKind::Variables(variable_names(it)),
        AstKind::VariableDeclarator(it) => NodeKind::Variable(binding_name(&it.id)),
        other => name_kind(other),
    }
}

/// Turns an `oxc_semantic` node into a [`SyntaxNode`].
#[verifier::external_body]
fn syntax_node(semantic: &Semantic<'_>, node: &AstNode<'_>) -> SyntaxNode {
    let span = node.kind().span();
    SyntaxNode {
        kind: node_kind(node.kind()),
        start: span.start,
        end: span.end,
        parent: semantic.nodes().parent_id(node.id()).index(),
    }
}

/// The name and the uses of an `oxc_semantic` symbol.
#[verifier::external_body]
fn symbol_uses(semantic: &Semantic<'_>, symbol: SymbolId) -> SymbolUses {
    SymbolUses {
        name: semantic.scoping().symbol_name(symbol).to_string(),
        uses: semantic.symbol_references(symbol).map(|r| semantic.reference_span(r).start).collect(),
    }
}

/// What `oxc_parser::Parser` and `oxc_semantic::SemanticBuilder` make of a source text, read as the
/// language that the extension of its path stands for. A text with errors gives what could be read
/// of it.
pub uninterp spec fn syntax_of(path: Seq<char>, source: Seq<char>) -> SyntaxTree;

/// `oxc_parser::Parser::parse` and `oxc_semantic::SemanticBuilder::build`: the nodes of a source
/// text in the order in which they are entered, and its symbols, as `syntax_of` names them. A node is
/// entered after the node that holds it.
#[verifier::external_body]
pub(crate) fn parse_source(path: &str, source: &str) -> (r: SyntaxTree)
    ensures
        r == syntax_of(path@, source@),
        r.valid(),
{
    let allocator = Allocator::default();
    let source_type = SourceType::from_path(path)
        .unwrap_or_else(|_| SourceType::default().with_typescript(true));
    let program = Parser::new(&allocator, source, source_type).parse().program;
    let semantic = SemanticBuilder::new().with_check_syntax_error(false).build(&program).semantic;
    let nodes = semantic.nodes().iter().map(|node| syntax_node(&semantic, node)).collect();
    let symbols = semantic.scoping().symbol_ids().map(|id| symbol_uses(&semantic, id)).collect();
    SyntaxTree { nodes, symbols }
}

} // verus!
