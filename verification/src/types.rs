//! The values that the parts of the library exchange.

use crate::paths;
use crate::text::Text;
use vstd::prelude::*;

verus! {

/// A file that a diff touches, with the lines it adds or modifies (in the new file) and the lines
/// it removes (in the old file).
#[derive(Debug, PartialEq, Eq)]
pub struct ChangedFile {
    pub file_path: String,
    pub changed_lines: Vec<usize>,
    pub deleted_lines: Vec<usize>,
}

/// The view of a [`ChangedFile`].
pub struct ChangedFileView {
    pub file_path: Text,
    pub changed_lines: Seq<usize>,
    pub deleted_lines: Seq<usize>,
}

impl Clone for ChangedFile {
    fn clone(&self) -> (r: Self)
        ensures
            r.deep_view() == self.deep_view(),
    {
        let changed_lines = self.changed_lines.clone();
        let deleted_lines = self.deleted_lines.clone();
        assert(changed_lines@ =~= self.changed_lines@);
        assert(deleted_lines@ =~= self.deleted_lines@);
        ChangedFile { file_path: self.file_path.clone(), changed_lines, deleted_lines }
    }
}

impl DeepView for ChangedFile {
    type V = ChangedFileView;

    open spec fn deep_view(&self) -> ChangedFileView {
        ChangedFileView {
            file_path: self.file_path@,
            changed_lines: self.changed_lines@,
            deleted_lines: self.deleted_lines@,
        }
    }
}

/// A project of the workspace. Paths are relative to the workspace root, except where they were
/// given as absolute.
#[derive(Debug, PartialEq, Eq)]
pub struct Project {
    pub name: String,
    pub root: String,
    pub source_root: String,
    pub ts_config: Option<String>,
    pub implicit_dependencies: Vec<String>,
    pub targets: Vec<String>,
}

/// The view of a [`Project`].
pub struct ProjectView {
    pub name: Text,
    pub root: Text,
    pub source_root: Text,
    pub ts_config: Option<Text>,
    pub implicit_dependencies: Seq<Text>,
    pub targets: Seq<Text>,
}

impl Clone for Project {
    fn clone(&self) -> (r: Self)
        ensures
            r.deep_view() == self.deep_view(),
    {
        let implicit_dependencies = paths::first_texts(
            &self.implicit_dependencies,
            self.implicit_dependencies.len(),
        );
        let targets = paths::first_texts(&self.targets, self.targets.len());
        proof {
            let a = self.implicit_dependencies.deep_view();
            let b = self.targets.deep_view();
            assert(a.take(self.implicit_dependencies.len() as int) =~= a);
            assert(b.take(self.targets.len() as int) =~= b);
        }
        Project {
            name: self.name.clone(),
            root: self.root.clone(),
            source_root: self.source_root.clone(),
            ts_config: copy_text(&self.ts_config),
            implicit_dependencies,
            targets,
        }
    }
}

impl DeepView for Project {
    type V = ProjectView;

    open spec fn deep_view(&self) -> ProjectView {
        ProjectView {
            name: self.name@,
            root: self.root@,
            source_root: self.source_root@,
            ts_config: self.ts_config.deep_view(),
            implicit_dependencies: self.implicit_dependencies.deep_view(),
            targets: self.targets.deep_view(),
        }
    }
}

/// A changed file that invalidates every project, with the input that names it and the pattern of
/// that input that it matches.
#[derive(Debug, PartialEq, Eq)]
pub struct GlobalTrigger {
    pub file: String,
    pub named_input: String,
    pub raw_pattern: String,
}

/// The view of a [`GlobalTrigger`].
pub struct GlobalTriggerView {
    pub file: Text,
    pub named_input: Text,
    pub raw_pattern: Text,
}

impl DeepView for GlobalTrigger {
    type V = GlobalTriggerView;

    open spec fn deep_view(&self) -> GlobalTriggerView {
        GlobalTriggerView {
            file: self.file@,
            named_input: self.named_input@,
            raw_pattern: self.raw_pattern@,
        }
    }
}

/// One name that a file imports.
#[derive(Debug, PartialEq, Eq)]
pub struct Import {
    /// The name in the other module; `default` or `*` for the default export or all of it.
    pub imported_name: String,
    /// The name in this file.
    pub local_name: String,
    /// The module as it is written.
    pub from_module: String,
    /// The file that the module stands for, where it is known.
    pub resolved_file: Option<String>,
    pub is_type_only: bool,
    pub is_dynamic: bool,
}

/// The view of an [`Import`].
pub struct ImportView {
    pub imported_name: Text,
    pub local_name: Text,
    pub from_module: Text,
    pub resolved_file: Option<Text>,
    pub is_type_only: bool,
    pub is_dynamic: bool,
}

impl DeepView for Import {
    type V = ImportView;

    open spec fn deep_view(&self) -> ImportView {
        ImportView {
            imported_name: self.imported_name@,
            local_name: self.local_name@,
            from_module: self.from_module@,
            resolved_file: self.resolved_file.deep_view(),
            is_type_only: self.is_type_only,
            is_dynamic: self.is_dynamic,
        }
    }
}

/// One name that a file exports.
#[derive(Debug, PartialEq, Eq)]
pub struct Export {
    /// The name for other modules; `default` or `*` for the default export or all of a module.
    pub exported_name: String,
    /// The name in this file, where it is given.
    pub local_name: Option<String>,
    /// The module that the name comes from, where this is a re-export.
    pub re_export_from: Option<String>,
}

/// The view of an [`Export`].
pub struct ExportView {
    pub exported_name: Text,
    pub local_name: Option<Text>,
    pub re_export_from: Option<Text>,
}

impl DeepView for Export {
    type V = ExportView;

    open spec fn deep_view(&self) -> ExportView {
        ExportView {
            exported_name: self.exported_name@,
            local_name: self.local_name.deep_view(),
            re_export_from: self.re_export_from.deep_view(),
        }
    }
}

/// A copy of an optional text.
pub fn copy_text(t: &Option<String>) -> (r: Option<String>)
    ensures
        r.deep_view() == t.deep_view(),
{
    match t {
        Some(s) => Some(s.clone()),
        None => None,
    }
}

impl Clone for Export {
    fn clone(&self) -> (r: Self)
        ensures
            r.deep_view() == self.deep_view(),
    {
        Export {
            exported_name: self.exported_name.clone(),
            local_name: copy_text(&self.local_name),
            re_export_from: copy_text(&self.re_export_from),
        }
    }
}

/// A place where a symbol is used. Line 0 and column 0 stand for the whole file.
#[derive(Debug, PartialEq, Eq)]
pub struct Reference {
    pub file_path: String,
    pub line: usize,
    pub column: usize,
}

/// The view of a [`Reference`].
pub struct ReferenceView {
    pub file_path: Text,
    pub line: nat,
    pub column: nat,
}

impl DeepView for Reference {
    type V = ReferenceView;

    open spec fn deep_view(&self) -> ReferenceView {
        ReferenceView {
            file_path: self.file_path@,
            line: self.line as nat,
            column: self.column as nat,
        }
    }
}

/// A place in a source file that names an asset. Lines count from 1, columns from 0.
#[derive(Debug, PartialEq, Eq)]
pub struct AssetReference {
    pub source_file: String,
    pub line: usize,
    pub column: usize,
    pub matched_path: String,
}

/// The view of an [`AssetReference`].
pub struct AssetReferenceView {
    pub source_file: Text,
    pub line: nat,
    pub column: nat,
    pub matched_path: Text,
}

impl DeepView for AssetReference {
    type V = AssetReferenceView;

    open spec fn deep_view(&self) -> AssetReferenceView {
        AssetReferenceView {
            source_file: self.source_file@,
            line: self.line as nat,
            column: self.column as nat,
            matched_path: self.matched_path@,
        }
    }
}

/// Why a project is affected.
#[allow(inconsistent_fields)]
#[derive(Debug, PartialEq, Eq)]
pub enum AffectCause {
    /// A file of the project changed. The line is 0 where there is none in the new file.
    DirectChange { file: String, symbol: Option<String>, line: usize },
    /// The project imports a symbol that is affected.
    ImportedSymbol {
        source_project: String,
        symbol: String,
        via_file: String,
        source_file: String,
    },
    /// An affected symbol is re-exported.
    ReExported { through_file: String, symbol: String, source_file: String },
    /// The project depends on an affected one without importing from it.
    ImplicitDependency { depends_on: String },
    /// A file that is no source changed, and a source refers to it.
    AssetChange { asset_file: String, referenced_in: String, line: usize },
    /// A dependency changed in the lockfile, and a file imports it.
    LockfileChange { dependency: String, importing_file: String },
    /// A file that all projects depend on changed.
    GlobalInvalidation { file: String, named_input: String },
}

/// The view of an [`AffectCause`].
#[allow(inconsistent_fields)]
pub enum AffectCauseView {
    DirectChange { file: Text, symbol: Option<Text>, line: nat },
    ImportedSymbol { source_project: Text, symbol: Text, via_file: Text, source_file: Text },
    ReExported { through_file: Text, symbol: Text, source_file: Text },
    ImplicitDependency { depends_on: Text },
    AssetChange { asset_file: Text, referenced_in: Text, line: nat },
    LockfileChange { dependency: Text, importing_file: Text },
    GlobalInvalidation { file: Text, named_input: Text },
}

impl DeepView for AffectCause {
    type V = AffectCauseView;

    open spec fn deep_view(&self) -> AffectCauseView {
        match self {
            AffectCause::DirectChange { file, symbol, line } => AffectCauseView::DirectChange {
                file: file@,
                symbol: symbol.deep_view(),
                line: *line as nat,
            },
            AffectCause::ImportedSymbol { source_project, symbol, via_file, source_file } => {
                AffectCauseView::ImportedSymbol {
                    source_project: source_project@,
                    symbol: symbol@,
                    via_file: via_file@,
                    source_file: source_file@,
                }
            },
            AffectCause::ReExported { through_file, symbol, source_file } => {
                AffectCauseView::ReExported {
                    through_file: through_file@,
                    symbol: symbol@,
                    source_file: source_file@,
                }
            },
            AffectCause::ImplicitDependency { depends_on } => AffectCauseView::ImplicitDependency {
                depends_on: depends_on@,
            },
            AffectCause::AssetChange { asset_file, referenced_in, line } => {
                AffectCauseView::AssetChange {
                    asset_file: asset_file@,
                    referenced_in: referenced_in@,
                    line: *line as nat,
                }
            },
            AffectCause::LockfileChange { dependency, importing_file } => {
                AffectCauseView::LockfileChange {
                    dependency: dependency@,
                    importing_file: importing_file@,
                }
            },
            AffectCause::GlobalInvalidation { file, named_input } => {
                AffectCauseView::GlobalInvalidation { file: file@, named_input: named_input@ }
            },
        }
    }
}

/// A project that is affected, with the reasons.
#[derive(Debug, PartialEq, Eq)]
pub struct AffectedProjectInfo {
    pub name: String,
    pub causes: Vec<AffectCause>,
}

/// The view of an [`AffectedProjectInfo`].
pub struct AffectedProjectView {
    pub name: Text,
    pub causes: Seq<AffectCauseView>,
}

impl DeepView for AffectedProjectInfo {
    type V = AffectedProjectView;

    open spec fn deep_view(&self) -> AffectedProjectView {
        AffectedProjectView { name: self.name@, causes: self.causes.deep_view() }
    }
}

/// How many projects are affected in which way, and how many files changed.
#[derive(Debug, PartialEq, Eq, Clone, Copy, Default)]
pub struct ReportTotals {
    pub globally_invalidated: usize,
    pub semantically_affected: usize,
    pub overlap: usize,
    pub changed_files: usize,
}

/// The outcome of a run.
#[derive(Debug, PartialEq, Eq)]
pub struct AffectedReport {
    pub projects: Vec<AffectedProjectInfo>,
    pub global_triggers: Vec<GlobalTrigger>,
    pub totals: ReportTotals,
    pub version: &'static str,
    pub run_started_at_unix_secs: i64,
}

/// The view of an [`AffectedReport`].
pub struct AffectedReportView {
    pub projects: Seq<AffectedProjectView>,
    pub global_triggers: Seq<GlobalTriggerView>,
    pub totals: ReportTotals,
    pub version: Text,
    pub run_started_at_unix_secs: int,
}

impl DeepView for AffectedReport {
    type V = AffectedReportView;

    open spec fn deep_view(&self) -> AffectedReportView {
        AffectedReportView {
            projects: self.projects.deep_view(),
            global_triggers: self.global_triggers.deep_view(),
            totals: self.totals,
            version: self.version@,
            run_started_at_unix_secs: self.run_started_at_unix_secs as int,
        }
    }
}

} // verus!
