//! All files of a workspace with their imports and exports.

use crate::collections::{StringMap, TextIndex};
use crate::error::{DominoError, ErrorView};
use crate::files::FileTree;
use crate::paths;
use crate::paths::tidy;
use crate::profiler;
use crate::profiler::{is_tally, nothing, Profiler, Tally};
use crate::semantic::collect;
use crate::semantic::collect::{sources_by_path, sources_of_projects, SourceFile};
use crate::semantic::edges;
use crate::semantic::edges::{
    edges_of_file, import_edges_of, import_requests, in_order, reexport_edges_of,
    reexport_requests, reexports_of_file, requests_of, sorted_edges, ImportEdge, ImportEdgeView,
    ReexportEdge, ReexportEdgeView, ResolutionTable,
};
use crate::semantic::lookup;
use crate::semantic::lookup::{
    barrels_in, edges_to, import_targets, importers_in, reexport_sources, reexport_targets,
    reexports_by,
};
use crate::semantic::modules;
use crate::semantic::modules::{exports_in, imports_in};
use crate::semantic::positions::line_start;
use crate::semantic::queries;
use crate::semantic::queries::{exports_using, member_uses, symbols_on_lines, uses_of};
use crate::semantic::symbols;
use crate::semantic::symbols::{symbols_at, FileSemanticData};
use crate::semantic::syntax::{syntax_of, SyntaxTree};
use crate::text;
use crate::text::Text;
use crate::types::{Export, ExportView, Import, ImportView, Project, Reference};
use vstd::prelude::*;
use vstd::utf8::encode_utf8;

verus! {

/// The files of a workspace, what they import and export, and the edges between them.
pub struct WorkspaceAnalyzer {
    projects: Vec<Project>,
    files: StringMap<FileSemanticData>,
    imports: StringMap<Vec<Import>>,
    exports: StringMap<Vec<Export>>,
    import_edges: Vec<ImportEdge>,
    import_index: TextIndex,
    reexport_edges: Vec<ReexportEdge>,
    reexport_index: TextIndex,
    reexporter_index: TextIndex,
}

/// The file is not part of the workspace.
pub open spec fn not_found(file: Text) -> ErrorView {
    ErrorView::FileNotFound(file)
}

/// The name is that of an export, outside or in the file.
pub open spec fn exports_name(exports: Seq<ExportView>, name: Text) -> bool {
    exists|i: int|
        0 <= i < exports.len() && ((#[trigger] exports[i]).exported_name == name
            || exports[i].local_name == Some(name))
}

impl WorkspaceAnalyzer {
    #[verifier::type_invariant]
    spec fn valid(self) -> bool {
        &&& self.files.order() == self.imports.order()
        &&& self.files.order() == self.exports.order()
        &&& forall|f: Text|
            self.files@.contains_key(f) <==> #[trigger] self.imports@.contains_key(f)
        &&& forall|f: Text|
            self.files@.contains_key(f) <==> #[trigger] self.exports@.contains_key(f)
        &&& forall|f: Text| #[trigger]
            self.files@.contains_key(f) ==> self.imports@[f].deep_view() == imports_in(
                self.files@[f].syntax().nodes@,
            ) && self.exports@[f].deep_view() == exports_in(self.files@[f].syntax().nodes@)
                && self.files@[f].syntax() == syntax_of(f, self.files@[f].text()) && tidy(f) == f
        &&& self.import_index@ == import_targets(self.import_edges.deep_view())
        &&& self.reexport_index@ == reexport_targets(self.reexport_edges.deep_view())
        &&& self.reexporter_index@ == reexport_sources(self.reexport_edges.deep_view())
        &&& forall|i: int|
            0 <= i < self.import_edges@.len() ==> self.files@.contains_key(
                (#[trigger] self.import_edges@[i]).importing_file@,
            )
        &&& forall|i: int|
            0 <= i < self.reexport_edges@.len() ==> self.files@.contains_key(
                (#[trigger] self.reexport_edges@[i]).reexporting_file@,
            )
    }

    /// The paths of the files, in the order in which they were added.
    pub closed spec fn order(&self) -> Seq<Text> {
        self.files.order()
    }

    /// The texts of the files, by their paths in tidy form.
    pub closed spec fn sources(&self) -> Map<Text, Text> {
        self.files@.map_values(|d: FileSemanticData| d.text())
    }

    /// The edges that imports make, in order.
    pub closed spec fn import_graph(&self) -> Seq<ImportEdgeView> {
        self.import_edges.deep_view()
    }

    /// The edges that re-exports make.
    pub closed spec fn reexport_graph(&self) -> Seq<ReexportEdgeView> {
        self.reexport_edges.deep_view()
    }

    /// The projects.
    pub closed spec fn project_list(&self) -> Seq<Project> {
        self.projects@
    }

    /// The workspace holds the file, under this path or one with the same segments.
    pub open spec fn has_file(&self, file: Text) -> bool {
        self.sources().contains_key(tidy(file))
    }

    /// The text of a file.
    pub open spec fn text_of(&self, file: Text) -> Text {
        self.sources()[tidy(file)]
    }

    /// The syntax of a file.
    pub open spec fn syntax_of_file(&self, file: Text) -> SyntaxTree {
        syntax_of(tidy(file), self.text_of(file))
    }

    /// What a file imports.
    pub open spec fn imports_of(&self, file: Text) -> Seq<ImportView> {
        imports_in(self.syntax_of_file(file).nodes@)
    }

    /// What a file exports; nothing where the workspace does not hold it.
    pub open spec fn exports_of(&self, file: Text) -> Seq<ExportView> {
        if self.has_file(file) {
            exports_in(self.syntax_of_file(file).nodes@)
        } else {
            Seq::empty()
        }
    }

    /// The imports of all files.
    pub open spec fn import_map(&self) -> Map<Text, Seq<ImportView>> {
        self.sources().map_entries(|f: Text, s: Text| imports_in(syntax_of(f, s).nodes@))
    }

    /// The exports of all files.
    pub open spec fn export_map(&self) -> Map<Text, Seq<ExportView>> {
        self.sources().map_entries(|f: Text, s: Text| exports_in(syntax_of(f, s).nodes@))
    }

    /// Every edge begins in a file of the workspace.
    pub open spec fn edges_within(&self) -> bool {
        &&& forall|i: int|
            0 <= i < self.import_graph().len() ==> self.has_file(
                (#[trigger] self.import_graph()[i]).importing_file,
            )
        &&& forall|i: int|
            0 <= i < self.reexport_graph().len() ==> self.has_file(
                (#[trigger] self.reexport_graph()[i]).reexporting_file,
            )
    }

    /// Parses the files of a workspace. Its edges are made by [`WorkspaceAnalyzer::link`].
    pub fn from_sources(projects: Vec<Project>, sources: Vec<SourceFile>) -> (r: Self)
        requires
            forall|i: int|
                0 <= i < sources@.len() ==> encode_utf8((#[trigger] sources@[i]).source@).len()
                    <= isize::MAX,
        ensures
            r.project_list() == projects@,
            r.sources() == sources_by_path(sources.deep_view()),
            r.import_graph() == Seq::<ImportEdgeView>::empty(),
            r.reexport_graph() == Seq::<ReexportEdgeView>::empty(),
    {
        let mut files: StringMap<FileSemanticData> = StringMap::new();
        let mut imports: StringMap<Vec<Import>> = StringMap::new();
        let mut exports: StringMap<Vec<Export>> = StringMap::new();
        let ghost all = sources.deep_view();
        let mut i: usize = 0;
        assert(all.take(0) =~= Seq::<(Text, Text)>::empty());
        assert(files@.map_values(|d: FileSemanticData| d.text()) =~= Map::<Text, Text>::empty());
        while i < sources.len()
            invariant
                i <= sources.len(),
                forall|i: int|
                    0 <= i < sources@.len() ==> encode_utf8((#[trigger] sources@[i]).source@).len()
                        <= isize::MAX,
                files.order() == imports.order(),
                files.order() == exports.order(),
                forall|f: Text| files@.contains_key(f) <==> #[trigger] imports@.contains_key(f),
                forall|f: Text| files@.contains_key(f) <==> #[trigger] exports@.contains_key(f),
                forall|f: Text| #[trigger]
                    files@.contains_key(f) ==> imports@[f].deep_view() == imports_in(
                        files@[f].syntax().nodes@,
                    ) && exports@[f].deep_view() == exports_in(files@[f].syntax().nodes@)
                        && files@[f].syntax() == syntax_of(f, files@[f].text()) && tidy(f) == f,
                files@.map_values(|d: FileSemanticData| d.text()) == sources_by_path(
                    all.take(i as int),
                ),
                all == sources.deep_view(),
            decreases sources.len() - i,
        {
            assert(all.take(i + 1).drop_last() =~= all.take(i as int));
            assert(all.take(i + 1).last() == sources@[i as int].deep_view());
            let tidied = paths::tidied(sources[i].path.as_str());
            let path = tidied.as_str();
            proof {
                paths::lemma_tidy(sources@[i as int].path@);
            }
            let ghost before = files@;
            let data = FileSemanticData::parse(path, sources[i].source.clone());
            let tree = data.semantic();
            imports.insert(path.to_owned(), modules::extract_imports(&tree.nodes));
            exports.insert(path.to_owned(), modules::extract_exports(&tree.nodes));
            files.insert(path.to_owned(), data);
            proof {
                assert(files@.map_values(|d: FileSemanticData| d.text()) =~= before.map_values(
                    |d: FileSemanticData| d.text(),
                ).insert(path@, sources@[i as int].source@));
            }
            i += 1;
        }
        assert(all.take(i as int) =~= all);
        let import_edges: Vec<ImportEdge> = Vec::new();
        let reexport_edges: Vec<ReexportEdge> = Vec::new();
        assert(import_edges.deep_view() =~= Seq::<ImportEdgeView>::empty());
        assert(reexport_edges.deep_view() =~= Seq::<ReexportEdgeView>::empty());
        assert(import_targets(import_edges.deep_view()) =~= Seq::<Text>::empty());
        assert(reexport_targets(reexport_edges.deep_view()) =~= Seq::<Text>::empty());
        assert(reexport_sources(reexport_edges.deep_view()) =~= Seq::<Text>::empty());
        WorkspaceAnalyzer {
            projects,
            files,
            imports,
            exports,
            import_edges,
            import_index: TextIndex::new(),
            reexport_edges,
            reexport_index: TextIndex::new(),
            reexporter_index: TextIndex::new(),
        }
    }

    /// Reads and parses the sources of the projects. Its edges are made by
    /// [`WorkspaceAnalyzer::link`].
    pub fn new(projects: Vec<Project>, cwd: &str, tree: &FileTree) -> (r: Self)
        requires
            forall|p: Text| #[trigger]
                tree.files().contains_key(p) && tree.files()[p] is Some ==> encode_utf8(
                    tree.files()[p]->Some_0,
                ).len() <= isize::MAX,
        ensures
            r.project_list() == projects@,
            r.sources() == sources_by_path(
                sources_of_projects(*tree, projects.deep_view(), cwd@),
            ),
            r.import_graph() == Seq::<ImportEdgeView>::empty(),
            r.reexport_graph() == Seq::<ReexportEdgeView>::empty(),
    {
        let sources = collect::collect_sources(tree, &projects, cwd);
        tree.check_files();
        proof {
            assert forall|i: int| 0 <= i < sources@.len() implies encode_utf8(
                (#[trigger] sources@[i]).source@,
            ).len() <= isize::MAX by {
                assert(sources.deep_view()[i] == sources@[i].deep_view());
                collect::lemma_sources_of_projects(*tree, projects.deep_view(), cwd@, i);
            }
        }
        Self::from_sources(projects, sources)
    }

    /// Every edge begins in a file of the workspace, and the order of the files holds each of them
    /// once.
    pub fn check(&self)
        ensures
            self.edges_within(),
            forall|f: Text| self.sources().contains_key(f) <==> #[trigger] self.order().contains(f),
            forall|f: Text| #[trigger] self.order().contains(f) ==> tidy(f) == f,
            self.order().no_duplicates(),
    {
        proof {
            use_type_invariant(self);
        }
        self.files.check_order();
        proof {
            assert forall|i: int| 0 <= i < self.import_graph().len() implies self.has_file(
                (#[trigger] self.import_graph()[i]).importing_file,
            ) by {
                assert(self.import_graph()[i] == self.import_edges@[i].deep_view());
                assert(self.files@.contains_key(self.import_edges@[i].importing_file@));
            }
            assert forall|i: int| 0 <= i < self.reexport_graph().len() implies self.has_file(
                (#[trigger] self.reexport_graph()[i]).reexporting_file,
            ) by {
                assert(self.reexport_graph()[i] == self.reexport_edges@[i].deep_view());
                assert(self.files@.contains_key(self.reexport_edges@[i].reexporting_file@));
            }
            assert forall|f: Text| #[trigger] self.order().contains(f) implies tidy(f) == f by {
                assert(self.files@.contains_key(f));
            }
        }
    }

    /// The edges of a file's imports, appended in order.
    fn push_import_edges(&self, file: &str, table: &ResolutionTable, out: &mut Vec<ImportEdge>)
        requires
            self.sources().contains_key(file@),
            in_order(old(out).deep_view()),
        ensures
            in_order(final(out).deep_view()),
            forall|list: Seq<ImportEdgeView>|
                old(out).deep_view() == #[trigger] sorted_edges(list) ==> final(out).deep_view()
                    == sorted_edges(list + edges_of_file(file@, self.imports_of(file@), *table)),
            forall|i: int|
                0 <= i < final(out).deep_view().len() ==> (
                #[trigger] final(out).deep_view()[i]).importing_file == file@
                    || old(out).deep_view().contains(final(out).deep_view()[i]),
    {
        proof {
            use_type_invariant(self);
            assert(self.files@.contains_key(file@));
        }
        let ghost start = out.deep_view();
        let imports = match self.imports.get(file) {
            Some(v) => v,
            None => {
                proof {
                    assert(false);
                }
                return ;
            },
        };
        let ghost all = imports.deep_view();
        let mut i: usize = 0;
        assert(all.take(0) =~= Seq::<ImportView>::empty());
        proof {
            assert forall|list: Seq<ImportEdgeView>| start == #[trigger] sorted_edges(
                list,
            ) implies out.deep_view() == sorted_edges(
                list + edges_of_file(file@, all.take(0), *table),
            ) by {
                assert(list + edges_of_file(file@, all.take(0), *table) =~= list);
            }
            assert forall|i: int| 0 <= i < out.deep_view().len() implies (
            #[trigger] out.deep_view()[i]).importing_file == file@ || start.contains(
                out.deep_view()[i],
            ) by {
                assert(start[i] == out.deep_view()[i]);
            }
        }
        while i < imports.len()
            invariant
                i <= imports.len(),
                all == imports.deep_view(),
                tidy(file@) == file@,
                in_order(out.deep_view()),
                forall|list: Seq<ImportEdgeView>|
                    start == #[trigger] sorted_edges(list) ==> out.deep_view() == sorted_edges(
                        list + edges_of_file(file@, all.take(i as int), *table),
                    ),
                forall|i: int|
                    0 <= i < out.deep_view().len() ==> (#[trigger] out.deep_view()[i]).importing_file
                        == file@ || start.contains(out.deep_view()[i]),
            decreases imports.len() - i,
        {
            assert(all.take(i + 1).drop_last() =~= all.take(i as int));
            assert(all.take(i + 1).last() == imports@[i as int].deep_view());
            let import = &imports[i];
            let ghost before = out.deep_view();
            let ghost done = edges_of_file(file@, all.take(i as int), *table);
            match table.resolve(file, import.from_module.as_str()) {
                Some(target) => {
                    let edge = ImportEdge {
                        target: target.to_owned(),
                        symbol: import.imported_name.clone(),
                        importing_file: file.to_owned(),
                        local_name: import.local_name.clone(),
                        from_module: import.from_module.clone(),
                        is_dynamic: import.is_dynamic,
                    };
                    let ghost e = edge.deep_view();
                    edges::insert_edge(out, edge);
                    proof {
                        assert(edges_of_file(file@, all.take(i + 1), *table) == done.push(e));
                        assert forall|list: Seq<ImportEdgeView>| start == #[trigger] sorted_edges(
                            list,
                        ) implies out.deep_view() == sorted_edges(
                            list + edges_of_file(file@, all.take(i + 1), *table),
                        ) by {
                            let longer = list + done.push(e);
                            assert(longer.drop_last() =~= list + done);
                            assert(longer.last() == e);
                        }
                        assert forall|k: int| 0 <= k < out.deep_view().len() implies (
                        #[trigger] out.deep_view()[k]).importing_file == file@ || start.contains(
                            out.deep_view()[k],
                        ) by {
                            let x = out.deep_view()[k];
                            edges::lemma_inserted_members(before, e);
                            assert(out.deep_view().contains(x));
                            if x != e {
                                assert(before.contains(x));
                                let m = choose|m: int| 0 <= m < before.len() && before[m] == x;
                                assert(before[m].importing_file == file@ || start.contains(
                                    before[m],
                                ));
                            }
                        }
                    }
                },
                None => {},
            }
            i += 1;
        }
        assert(all.take(i as int) =~= all);
        assert(all == self.imports_of(file@));
    }

    /// The edges of all imports that resolve, in order.
    fn build_import_edges(&self, table: &ResolutionTable) -> (r: Vec<ImportEdge>)
        ensures
            r.deep_view() == sorted_edges(
                import_edges_of(self.order(), self.import_map(), *table),
            ),
            forall|i: int|
                0 <= i < r.deep_view().len() ==> self.sources().contains_key(
                    (#[trigger] r.deep_view()[i]).importing_file,
                ),
    {
        self.check();
        let ghost order = self.order();
        let ghost map = self.import_map();
        let mut out: Vec<ImportEdge> = Vec::new();
        let mut i: usize = 0;
        assert(order.take(0) =~= Seq::<Text>::empty());
        assert(out.deep_view() =~= Seq::<ImportEdgeView>::empty());
        while i < self.files.len()
            invariant
                i <= order.len(),
                order == self.order(),
                map == self.import_map(),
                forall|f: Text| self.sources().contains_key(f) <==> #[trigger] order.contains(f),
                forall|f: Text| #[trigger] order.contains(f) ==> tidy(f) == f,
                in_order(out.deep_view()),
                out.deep_view() == sorted_edges(
                    import_edges_of(order.take(i as int), map, *table),
                ),
                forall|i: int|
                    0 <= i < out.deep_view().len() ==> self.sources().contains_key(
                        (#[trigger] out.deep_view()[i]).importing_file,
                    ),
            decreases order.len() - i,
        {
            assert(order.take(i + 1).drop_last() =~= order.take(i as int));
            let file = self.files.key_at(i);
            proof {
                assert(order.contains(order[i as int]));
                assert(map[file@] == self.imports_of(file@));
            }
            let ghost before = out.deep_view();
            let ghost list = import_edges_of(order.take(i as int), map, *table);
            assert(before == sorted_edges(list));
            self.push_import_edges(file, table, &mut out);
            proof {
                assert(import_edges_of(order.take(i + 1), map, *table) == list + edges_of_file(
                    file@,
                    map[file@],
                    *table,
                ));
                assert forall|k: int| 0 <= k < out.deep_view().len() implies self.sources().contains_key(
                    (#[trigger] out.deep_view()[k]).importing_file,
                ) by {
                    let x = out.deep_view()[k];
                    if x.importing_file != file@ {
                        let m = choose|m: int| 0 <= m < before.len() && before[m] == x;
                        assert(self.sources().contains_key(before[m].importing_file));
                    }
                }
            }
            i += 1;
        }
        assert(order.take(i as int) =~= order);
        out
    }

    /// The edges of all re-exports that resolve.
    fn build_reexport_edges(&self, table: &ResolutionTable) -> (r: Vec<ReexportEdge>)
        ensures
            r.deep_view() == reexport_edges_of(self.order(), self.export_map(), *table),
            forall|i: int|
                0 <= i < r.deep_view().len() ==> self.sources().contains_key(
                    (#[trigger] r.deep_view()[i]).reexporting_file,
                ),
    {
        self.check();
        proof {
            use_type_invariant(self);
        }
        let ghost order = self.order();
        let ghost map = self.export_map();
        let mut out: Vec<ReexportEdge> = Vec::new();
        let mut i: usize = 0;
        assert(order.take(0) =~= Seq::<Text>::empty());
        assert(out.deep_view() =~= Seq::<ReexportEdgeView>::empty());
        while i < self.exports.len()
            invariant
                i <= order.len(),
                order == self.order(),
                order == self.exports.order(),
                map == self.export_map(),
                self.valid(),
                forall|f: Text| self.sources().contains_key(f) <==> #[trigger] order.contains(f),
                out.deep_view() == reexport_edges_of(order.take(i as int), map, *table),
                forall|i: int|
                    0 <= i < out.deep_view().len() ==> self.sources().contains_key(
                        (#[trigger] out.deep_view()[i]).reexporting_file,
                    ),
            decreases order.len() - i,
        {
            assert(order.take(i + 1).drop_last() =~= order.take(i as int));
            let file = self.exports.key_at(i);
            let exports = self.exports.value_at(i);
            let ghost all = exports.deep_view();
            let ghost start = out.deep_view();
            proof {
                assert(order.contains(order[i as int]));
                assert(self.files@.contains_key(file@));
                assert(all == map[file@]);
            }
            let mut j: usize = 0;
            assert(all.take(0) =~= Seq::<ExportView>::empty());
            assert(out.deep_view() =~= start + Seq::<ReexportEdgeView>::empty());
            while j < exports.len()
                invariant
                    j <= exports.len(),
                    all == exports.deep_view(),
                    self.sources().contains_key(file@),
                    tidy(file@) == file@,
                    out.deep_view() == start + reexports_of_file(
                        file@,
                        all.take(j as int),
                        *table,
                    ),
                    forall|i: int|
                        0 <= i < out.deep_view().len() ==> self.sources().contains_key(
                            (#[trigger] out.deep_view()[i]).reexporting_file,
                        ),
                decreases exports.len() - j,
            {
                assert(all.take(j + 1).drop_last() =~= all.take(j as int));
                assert(all.take(j + 1).last() == exports@[j as int].deep_view());
                let export = &exports[j];
                let ghost before = out.deep_view();
                let ghost done = reexports_of_file(file@, all.take(j as int), *table);
                if let Some(module) = &export.re_export_from {
                    if let Some(target) = table.resolve(file, module.as_str()) {
                        let edge = ReexportEdge {
                            target: target.to_owned(),
                            reexporting_file: file.to_owned(),
                            export: export.clone(),
                        };
                        out.push(edge);
                        proof {
                            assert(out.deep_view() =~= before.push(edge.deep_view()));
                            assert(out.deep_view() =~= start + done.push(edge.deep_view()));
                            assert forall|k: int| 0 <= k < out.deep_view().len() implies self.sources().contains_key(
                                (#[trigger] out.deep_view()[k]).reexporting_file,
                            ) by {
                                if k < before.len() {
                                    assert(out.deep_view()[k] == before[k]);
                                }
                            }
                        }
                    }
                }
                j += 1;
            }
            assert(all.take(j as int) =~= all);
            i += 1;
        }
        assert(order.take(i as int) =~= order);
        out
    }

    /// Makes the edges between files, by what imports and re-exports resolve to.
    pub fn link(self, table: &ResolutionTable) -> (r: Self)
        ensures
            r.project_list() == self.project_list(),
            r.order() == self.order(),
            r.sources() == self.sources(),
            r.import_graph() == sorted_edges(
                import_edges_of(self.order(), self.import_map(), *table),
            ),
            r.reexport_graph() == reexport_edges_of(self.order(), self.export_map(), *table),
    {
        let import_edges = self.build_import_edges(table);
        let reexport_edges = self.build_reexport_edges(table);
        let mut import_index = TextIndex::new();
        let ghost targets = import_targets(import_edges.deep_view());
        let mut i: usize = 0;
        assert(targets.take(0) =~= Seq::<Text>::empty());
        while i < import_edges.len()
            invariant
                i <= import_edges.len(),
                targets == import_targets(import_edges.deep_view()),
                targets.len() == import_edges.len(),
                import_index@ == targets.take(i as int),
            decreases import_edges.len() - i,
        {
            assert(targets.take(i + 1) =~= targets.take(i as int).push(targets[i as int]));
            import_index = import_index.with(import_edges[i].target.as_str());
            i += 1;
        }
        assert(targets.take(i as int) =~= targets);
        let mut reexport_index = TextIndex::new();
        let mut reexporter_index = TextIndex::new();
        let ghost others = reexport_targets(reexport_edges.deep_view());
        let ghost starts = reexport_sources(reexport_edges.deep_view());
        let mut j: usize = 0;
        assert(others.take(0) =~= Seq::<Text>::empty());
        assert(starts.take(0) =~= Seq::<Text>::empty());
        while j < reexport_edges.len()
            invariant
                j <= reexport_edges.len(),
                others == reexport_targets(reexport_edges.deep_view()),
                others.len() == reexport_edges.len(),
                reexport_index@ == others.take(j as int),
                starts == reexport_sources(reexport_edges.deep_view()),
                starts.len() == reexport_edges.len(),
                reexporter_index@ == starts.take(j as int),
            decreases reexport_edges.len() - j,
        {
            assert(others.take(j + 1) =~= others.take(j as int).push(others[j as int]));
            assert(starts.take(j + 1) =~= starts.take(j as int).push(starts[j as int]));
            reexport_index = reexport_index.with(reexport_edges[j].target.as_str());
            reexporter_index = reexporter_index.with(reexport_edges[j].reexporting_file.as_str());
            j += 1;
        }
        assert(others.take(j as int) =~= others);
        assert(starts.take(j as int) =~= starts);
        proof {
            use_type_invariant(&self);
            assert forall|k: int| 0 <= k < import_edges@.len() implies self.files@.contains_key(
                (#[trigger] import_edges@[k]).importing_file@,
            ) by {
                assert(import_edges.deep_view()[k] == import_edges@[k].deep_view());
                assert(self.sources().contains_key(import_edges.deep_view()[k].importing_file));
            }
            assert forall|k: int| 0 <= k < reexport_edges@.len() implies self.files@.contains_key(
                (#[trigger] reexport_edges@[k]).reexporting_file@,
            ) by {
                assert(reexport_edges.deep_view()[k] == reexport_edges@[k].deep_view());
                assert(self.sources().contains_key(reexport_edges.deep_view()[k].reexporting_file));
            }
        }
        let WorkspaceAnalyzer { projects, files, imports, exports, .. } = self;
        WorkspaceAnalyzer {
            projects,
            files,
            imports,
            exports,
            import_edges,
            import_index,
            reexport_edges,
            reexport_index,
            reexporter_index,
        }
    }

    /// The modules that the files name, each with its file: all that is to be resolved before the
    /// edges are made.
    pub fn requests(&self) -> (r: Vec<(String, String)>)
        ensures
            r.deep_view() == requests_of(self.order(), self.import_map(), self.export_map()),
    {
        self.check();
        proof {
            use_type_invariant(self);
        }
        let ghost order = self.order();
        let ghost imports_by_file = self.import_map();
        let ghost exports_by_file = self.export_map();
        let mut out: Vec<(String, String)> = Vec::new();
        let mut i: usize = 0;
        assert(order.take(0) =~= Seq::<Text>::empty());
        assert(out.deep_view() =~= Seq::<(Text, Text)>::empty());
        while i < self.imports.len()
            invariant
                i <= order.len(),
                order == self.order(),
                order == self.imports.order(),
                order == self.exports.order(),
                imports_by_file == self.import_map(),
                exports_by_file == self.export_map(),
                self.valid(),
                forall|f: Text| self.sources().contains_key(f) <==> #[trigger] order.contains(f),
                out.deep_view() == requests_of(
                    order.take(i as int),
                    imports_by_file,
                    exports_by_file,
                ),
            decreases order.len() - i,
        {
            assert(order.take(i + 1).drop_last() =~= order.take(i as int));
            let file = self.imports.key_at(i);
            let imports = self.imports.value_at(i);
            let exports = self.exports.value_at(i);
            let ghost start = out.deep_view();
            let ghost ins = imports.deep_view();
            let ghost outs = exports.deep_view();
            proof {
                assert(order.contains(order[i as int]));
                assert(self.files@.contains_key(file@));
                assert(ins == imports_by_file[file@]);
                assert(outs == exports_by_file[file@]);
            }
            let ghost wanted = import_requests(file@, ins);
            let mut j: usize = 0;
            assert(out.deep_view() =~= start + wanted.take(0));
            while j < imports.len()
                invariant
                    j <= imports.len(),
                    ins == imports.deep_view(),
                    wanted == import_requests(file@, ins),
                    out.deep_view() == start + wanted.take(j as int),
                decreases imports.len() - j,
            {
                let ghost before = out.deep_view();
                assert(ins[j as int] == imports@[j as int].deep_view());
                out.push((file.to_owned(), imports[j].from_module.clone()));
                assert(out.deep_view() =~= before.push(wanted[j as int]));
                assert(wanted.take(j + 1) =~= wanted.take(j as int).push(wanted[j as int]));
                assert(out.deep_view() =~= start + wanted.take(j + 1));
                j += 1;
            }
            assert(wanted.take(j as int) =~= wanted);
            let ghost middle = out.deep_view();
            let mut k: usize = 0;
            assert(outs.take(0) =~= Seq::<ExportView>::empty());
            assert(out.deep_view() =~= middle + Seq::<(Text, Text)>::empty());
            while k < exports.len()
                invariant
                    k <= exports.len(),
                    outs == exports.deep_view(),
                    out.deep_view() == middle + reexport_requests(file@, outs.take(k as int)),
                decreases exports.len() - k,
            {
                assert(outs.take(k + 1).drop_last() =~= outs.take(k as int));
                assert(outs.take(k + 1).last() == exports@[k as int].deep_view());
                let ghost before = out.deep_view();
                let ghost done = reexport_requests(file@, outs.take(k as int));
                if let Some(module) = &exports[k].re_export_from {
                    out.push((file.to_owned(), module.clone()));
                    assert(out.deep_view() =~= before.push((file@, module@)));
                    assert(out.deep_view() =~= middle + done.push((file@, module@)));
                }
                k += 1;
            }
            assert(outs.take(k as int) =~= outs);
            i += 1;
        }
        assert(order.take(i as int) =~= order);
        out
    }

    // -----------------------------------------------------------------------
    // Lookups
    // -----------------------------------------------------------------------

    /// The data of a file.
    pub fn file(&self, file_path: &str) -> (r: Option<&FileSemanticData>)
        ensures
            r is Some <==> self.has_file(file_path@),
            r matches Some(d) ==> d.text() == self.text_of(file_path@) && d.syntax()
                == self.syntax_of_file(file_path@),
    {
        proof {
            use_type_invariant(self);
        }
        self.files.get(paths::tidied(file_path).as_str())
    }

    /// The number of files.
    pub fn count(&self) -> (r: usize)
        ensures
            r == self.order().len(),
    {
        self.files.len()
    }

    /// The path of the file that was added `i`-th.
    pub fn path_at(&self, i: usize) -> (r: &str)
        requires
            i < self.order().len(),
        ensures
            r@ == self.order()[i as int],
    {
        self.files.key_at(i)
    }

    /// What a file imports.
    pub fn imports(&self, file_path: &str) -> (r: Option<&Vec<Import>>)
        ensures
            r is Some <==> self.has_file(file_path@),
            r matches Some(v) ==> v.deep_view() == self.imports_of(file_path@),
    {
        proof {
            use_type_invariant(self);
            assert(self.has_file(file_path@) <==> self.imports@.contains_key(tidy(file_path@)));
        }
        self.imports.get(paths::tidied(file_path).as_str())
    }

    /// What a file exports.
    pub fn exports(&self, file_path: &str) -> (r: Option<&Vec<Export>>)
        ensures
            r is Some <==> self.has_file(file_path@),
            r matches Some(v) ==> v.deep_view() == self.exports_of(file_path@),
    {
        proof {
            use_type_invariant(self);
            assert(self.has_file(file_path@) <==> self.exports@.contains_key(tidy(file_path@)));
        }
        self.exports.get(paths::tidied(file_path).as_str())
    }

    /// The projects.
    pub fn projects(&self) -> (r: &Vec<Project>)
        ensures
            r@ == self.project_list(),
    {
        &self.projects
    }

    /// The imports of anything from a file.
    pub fn importers_of_file(&self, file_path: &str) -> (r: Vec<ImportEdge>)
        ensures
            r.deep_view() == edges_to(self.import_graph(), tidy(file_path@)),
    {
        proof {
            use_type_invariant(self);
        }
        let path = paths::tidied(file_path);
        lookup::find_edges_to(&self.import_edges, &self.import_index, path.as_str())
    }

    /// The imports of a file's symbol.
    pub fn importers(&self, file_path: &str, symbol_name: &str) -> (r: Vec<ImportEdge>)
        ensures
            r.deep_view() == importers_in(self.import_graph(), tidy(file_path@), symbol_name@),
    {
        proof {
            use_type_invariant(self);
        }
        let path = paths::tidied(file_path);
        lookup::find_importers(&self.import_edges, &self.import_index, path.as_str(), symbol_name)
    }

    /// The re-exports from a file.
    pub fn barrels(&self, file_path: &str) -> (r: Vec<ReexportEdge>)
        ensures
            r.deep_view() == barrels_in(self.reexport_graph(), tidy(file_path@)),
    {
        proof {
            use_type_invariant(self);
        }
        let path = paths::tidied(file_path);
        lookup::find_barrels(&self.reexport_edges, &self.reexport_index, path.as_str())
    }

    /// The re-exports that a file makes.
    pub fn reexports(&self, file_path: &str) -> (r: Vec<ReexportEdge>)
        ensures
            r.deep_view() == reexports_by(self.reexport_graph(), tidy(file_path@)),
    {
        proof {
            use_type_invariant(self);
        }
        let path = paths::tidied(file_path);
        lookup::find_reexports(&self.reexport_edges, &self.reexporter_index, path.as_str())
    }

    // -----------------------------------------------------------------------
    // Queries
    // -----------------------------------------------------------------------

    /// All references to a symbol within a file.
    pub fn find_local_references(&self, file_path: &str, symbol_name: &str) -> (r: Result<
        Vec<Reference>,
        DominoError,
    >)
        ensures
            match r {
                Ok(v) => self.has_file(file_path@) && v.deep_view() == uses_of(
                    file_path@,
                    self.text_of(file_path@),
                    self.syntax_of_file(file_path@).symbols@,
                    symbol_name@,
                ),
                Err(e) => !self.has_file(file_path@) && e.deep_view() == not_found(file_path@),
            },
    {
        match self.file(file_path) {
            Some(data) => Ok(queries::local_references(file_path, data, symbol_name)),
            None => Err(DominoError::FileNotFound(file_path.to_owned())),
        }
    }

    /// All references to a symbol within a file, with a tally of the search.
    pub fn profile_local_references(
        &self,
        file_path: &str,
        symbol_name: &str,
        profiler: &mut Profiler,
    ) -> (r: Result<Vec<Reference>, DominoError>)
        ensures
            match r {
                Ok(v) => self.has_file(file_path@) && v.deep_view() == uses_of(
                    file_path@,
                    self.text_of(file_path@),
                    self.syntax_of_file(file_path@).symbols@,
                    symbol_name@,
                ),
                Err(e) => !self.has_file(file_path@) && e.deep_view() == not_found(file_path@),
            },
            is_tally(
                *old(profiler),
                *final(profiler),
                if r is Ok {
                    Tally { searches: 1, ..nothing() }
                } else {
                    nothing()
                },
            ),
    {
        proof {
            profiler::lemma_no_tally(*profiler);
        }
        let start = profiler.start();
        let r = self.find_local_references(file_path, symbol_name);
        if r.is_ok() {
            profiler.tally_search(start);
        }
        r
    }

    /// All places in a file where a member of a namespace is accessed, as in `theme.DatePicker`.
    pub fn find_namespace_member_access(
        &self,
        file_path: &str,
        namespace_name: &str,
        property_name: &str,
    ) -> (r: Result<Vec<Reference>, DominoError>)
        ensures
            match r {
                Ok(v) => self.has_file(file_path@) && v.deep_view() == member_uses(
                    file_path@,
                    self.text_of(file_path@),
                    self.syntax_of_file(file_path@).nodes@,
                    namespace_name@,
                    property_name@,
                ),
                Err(e) => !self.has_file(file_path@) && e.deep_view() == not_found(file_path@),
            },
    {
        match self.file(file_path) {
            Some(data) => Ok(
                queries::member_references(file_path, data, namespace_name, property_name),
            ),
            None => Err(DominoError::FileNotFound(file_path.to_owned())),
        }
    }

    /// Whether a file exports the symbol, under this name or another.
    pub fn is_symbol_exported(&self, file_path: &str, symbol_name: &str) -> (r: bool)
        ensures
            r == exports_name(self.exports_of(file_path@), symbol_name@),
    {
        match self.exports(file_path) {
            None => false,
            Some(exports) => {
                let ghost all = exports.deep_view();
                let mut i: usize = 0;
                while i < exports.len()
                    invariant
                        i <= exports.len(),
                        all == exports.deep_view(),
                        all == self.exports_of(file_path@),
                        forall|j: int|
                            0 <= j < i ==> (#[trigger] all[j]).exported_name != symbol_name@
                                && all[j].local_name != Some(symbol_name@),
                    decreases exports.len() - i,
                {
                    let export = &exports[i];
                    assert(all[i as int] == export.deep_view());
                    if text::same(export.exported_name.as_str(), symbol_name) {
                        return true;
                    }
                    if let Some(local) = &export.local_name {
                        if text::same(local.as_str(), symbol_name) {
                            return true;
                        }
                    }
                    i += 1;
                }
                false
            },
        }
    }

    /// The exports of a file whose definitions use a symbol of the file.
    pub fn find_exported_symbols_using(&self, file_path: &str, local_symbol: &str) -> (r: Result<
        Vec<String>,
        DominoError,
    >)
        ensures
            r is Ok,
            r->Ok_0.deep_view() == exports_using(
                self.exports_of(file_path@),
                file_path@,
                self.text_of(file_path@),
                self.syntax_of_file(file_path@),
                local_symbol@,
            ),
    {
        let mut idle = Profiler::new(false);
        self.profile_exported_symbols_using(file_path, local_symbol, &mut idle)
    }

    /// The exports of a file whose definitions use a symbol of the file, with a tally: where the file
    /// exports anything, of a search for the uses and of an extraction for each of them.
    pub fn profile_exported_symbols_using(
        &self,
        file_path: &str,
        local_symbol: &str,
        profiler: &mut Profiler,
    ) -> (r: Result<Vec<String>, DominoError>)
        ensures
            r is Ok,
            r->Ok_0.deep_view() == exports_using(
                self.exports_of(file_path@),
                file_path@,
                self.text_of(file_path@),
                self.syntax_of_file(file_path@),
                local_symbol@,
            ),
            is_tally(
                *old(profiler),
                *final(profiler),
                if self.exports_of(file_path@).len() > 0 {
                    Tally {
                        searches: 1,
                        extractions: uses_of(
                            file_path@,
                            self.text_of(file_path@),
                            self.syntax_of_file(file_path@).symbols@,
                            local_symbol@,
                        ).len(),
                        ..nothing()
                    }
                } else {
                    nothing()
                },
            ),
    {
        proof {
            profiler::lemma_no_tally(*profiler);
        }
        match (self.exports(file_path), self.file(file_path)) {
            (Some(exports), Some(data)) => {
                assert(exports.deep_view().len() == exports.len());
                if exports.len() == 0 {
                    let none: Vec<String> = Vec::new();
                    assert(none.deep_view() =~= Seq::<Text>::empty());
                    return Ok(none);
                }
                Ok(
                    queries::exported_symbols_using(
                        exports,
                        file_path,
                        data,
                        local_symbol,
                        profiler,
                    ),
                )
            },
            _ => {
                let none: Vec<String> = Vec::new();
                assert(none.deep_view() =~= Seq::<Text>::empty());
                Ok(none)
            },
        }
    }

    /// The top-level symbols around a place in a file.
    pub fn find_node_at_line(&self, file_path: &str, line: usize, column: usize) -> (r: Result<
        Vec<String>,
        DominoError,
    >)
        requires
            self.has_file(file_path@) ==> (line_start(
                encode_utf8(self.text_of(file_path@)),
                line as nat,
            ) matches Some(s) ==> s + column <= usize::MAX),
        ensures
            match (if self.has_file(file_path@) {
                symbols_at(
                    self.text_of(file_path@),
                    self.syntax_of_file(file_path@),
                    line as nat,
                    column as nat,
                )
            } else {
                Err(not_found(file_path@))
            }) {
                Ok(names) => r is Ok && r->Ok_0.deep_view() == names,
                Err(e) => r is Err && r->Err_0.deep_view() == e,
            },
    {
        match self.file(file_path) {
            Some(data) => symbols::find_top_level_symbols(data, line, column),
            None => Err(DominoError::FileNotFound(file_path.to_owned())),
        }
    }

    /// The top-level symbols around a place in a file, with a tally of the extraction.
    pub fn profile_node_at_line(
        &self,
        file_path: &str,
        line: usize,
        column: usize,
        profiler: &mut Profiler,
    ) -> (r: Result<Vec<String>, DominoError>)
        requires
            self.has_file(file_path@) ==> (line_start(
                encode_utf8(self.text_of(file_path@)),
                line as nat,
            ) matches Some(s) ==> s + column <= usize::MAX),
        ensures
            match (if self.has_file(file_path@) {
                symbols_at(
                    self.text_of(file_path@),
                    self.syntax_of_file(file_path@),
                    line as nat,
                    column as nat,
                )
            } else {
                Err(not_found(file_path@))
            }) {
                Ok(names) => r is Ok && r->Ok_0.deep_view() == names,
                Err(e) => r is Err && r->Err_0.deep_view() == e,
            },
            is_tally(
                *old(profiler),
                *final(profiler),
                if self.has_file(file_path@) {
                    Tally { extractions: 1, ..nothing() }
                } else {
                    nothing()
                },
            ),
    {
        proof {
            profiler::lemma_no_tally(*profiler);
        }
        let start = profiler.start();
        match self.file(file_path) {
            Some(data) => {
                let r = symbols::find_top_level_symbols(data, line, column);
                profiler.tally_extraction(start);
                r
            },
            None => Err(DominoError::FileNotFound(file_path.to_owned())),
        }
    }

    /// The top-level symbols that some lines of an earlier version of a file belong to.
    pub fn find_deleted_symbols(&self, file_path: &str, base_source: &str, deleted_lines: &[usize])
        -> (r: Vec<String>)
        requires
            encode_utf8(base_source@).len() <= isize::MAX,
        ensures
            r.deep_view() == symbols_on_lines(
                base_source@,
                syntax_of(file_path@, base_source@),
                deleted_lines@,
            ),
    {
        if deleted_lines.len() == 0 {
            let none: Vec<String> = Vec::new();
            assert(none.deep_view() =~= Seq::<Text>::empty());
            return none;
        }
        let data = FileSemanticData::parse(file_path, base_source.to_owned());
        queries::collect_symbols_on_lines(&data, deleted_lines)
    }
}

} // verus!
