//! What holds of every question about the symbols, sources and assets of a workspace.

use crate::captures::groups_of_all;
use crate::collections::lemma_push_contains;
use crate::files::FileTree;
use crate::paths::{path_join, path_name, segments, tidy};
use crate::semantic::assets;
use crate::semantic::assets::{
    asset_references, collapsed, leads_to_asset, path_captures, quoted_path, references_among,
    references_in, references_in_lines, with_source_references,
};
use crate::semantic::collect::{
    from_workspace, is_reached, is_skipped_dir, is_source, sources_below, sources_by_path,
    sources_of_projects, walked_path, way_down,
};
use crate::semantic::queries;
use crate::semantic::queries::{exports_using, names_contain, used_in, uses_of};
use crate::semantic::reference_laws;
use crate::semantic::reference_laws::is_use;
use crate::semantic::symbols::symbols_at;
use crate::semantic::syntax::SyntaxTree;
use crate::text::{contains_text, has_suffix, lines_of, Text};
use crate::types::{AssetReferenceView, ExportView, ProjectView, ReferenceView};
use vstd::prelude::*;

verus! {

// ---------------------------------------------------------------------------
// Exports that use a symbol
// ---------------------------------------------------------------------------

/// A use of the symbol in the file lies in what the name stands for.
pub open spec fn is_used_by(
    file: Text,
    source: Text,
    tree: SyntaxTree,
    symbol: Text,
    name: Text,
    r: ReferenceView,
) -> bool {
    &&& is_use(file, source, tree.symbols@, symbol, r)
    &&& symbols_at(source, tree, r.line, r.column) matches Ok(names) && names.contains(name)
}

/// An export is said to use a symbol exactly where it is an export of the file's own, its name in the
/// file is another than the symbol, and a use of the symbol lies in what it stands for.
pub proof fn lemma_exports_using_symbol(
    exports: Seq<ExportView>,
    file: Text,
    source: Text,
    tree: SyntaxTree,
    symbol: Text,
    e: ExportView,
    own: Text,
    r: ReferenceView,
)
    requires
        exports.contains(e),
        e.re_export_from is None,
        e.local_name == Some(own) || (e.local_name is None && e.exported_name == own),
        own != symbol,
        is_used_by(file, source, tree, symbol, own, r),
    ensures
        exports_using(exports, file, source, tree, symbol).contains(e.exported_name),
{
    reference_laws::lemma_uses_of(file, source, tree.symbols@, symbol, r);
    let uses = uses_of(file, source, tree.symbols@, symbol);
    let u = choose|u: int| 0 <= u < uses.len() && uses[u] == r;
    assert(names_contain(symbols_at(source, tree, uses[u].line, uses[u].column), own));
    assert(used_in(file, source, tree, symbol, own));
    let i = choose|i: int| 0 <= i < exports.len() && exports[i] == e;
    assert(exports[i].exported_name == e.exported_name);
    queries::lemma_exports_using(exports, file, source, tree, symbol, e.exported_name);
}

/// Nothing else is said to use the symbol.
pub proof fn lemma_only_exports_using(
    exports: Seq<ExportView>,
    file: Text,
    source: Text,
    tree: SyntaxTree,
    symbol: Text,
    name: Text,
)
    requires
        exports_using(exports, file, source, tree, symbol).contains(name),
    ensures
        exists|i: int, own: Text, r: ReferenceView|
            #![trigger exports[i], is_used_by(file, source, tree, symbol, own, r)]
            0 <= i < exports.len() && exports[i].exported_name == name
                && exports[i].re_export_from is None && own != symbol && (exports[i].local_name
                == Some(own) || (exports[i].local_name is None && name == own)) && is_used_by(
                file,
                source,
                tree,
                symbol,
                own,
                r,
            ),
{
    queries::lemma_exports_using(exports, file, source, tree, symbol, name);
    let i = choose|i: int|
        0 <= i < exports.len() && (#[trigger] exports[i]).exported_name == name
            && queries::export_uses(exports[i], file, source, tree, symbol);
    let own = queries::own_name(exports[i]);
    let uses = uses_of(file, source, tree.symbols@, symbol);
    let u = choose|u: int|
        0 <= u < uses.len() && names_contain(
            symbols_at(source, tree, (#[trigger] uses[u]).line, uses[u].column),
            own,
        );
    reference_laws::lemma_uses_of(file, source, tree.symbols@, symbol, uses[u]);
    assert(uses.contains(uses[u]));
    assert(is_used_by(file, source, tree, symbol, own, uses[u]));
    assert(exports[i].exported_name == name);
}

// ---------------------------------------------------------------------------
// Sources
// ---------------------------------------------------------------------------

/// A file is a source where its name has something before one of the endings of TypeScript and
/// JavaScript.
pub proof fn lemma_source_names(p: Text, stem: Text, ending: Text)
    requires
        stem.len() > 0,
        path_name(p) == Some(stem + ending),
        ending == ".ts"@ || ending == ".tsx"@ || ending == ".mts"@ || ending == ".cts"@ || ending
            == ".js"@ || ending == ".jsx"@ || ending == ".mjs"@ || ending == ".cjs"@,
    ensures
        is_source(p),
{
    let name = stem + ending;
    assert(name.subrange(name.len() - ending.len(), name.len() as int) =~= ending);
    assert(has_suffix(name, ending));
}

/// Directories of installed packages, of build results and hidden ones are passed over, and no other.
pub proof fn lemma_skipped_dirs(name: Text)
    ensures
        is_skipped_dir(name) <==> name == "node_modules"@ || name == "dist"@ || name == "build"@ || (
        name.len() > 0 && name[0] == '.'),
{
    reveal_strlit(".");
    if crate::text::has_prefix(name, "."@) {
        assert(name.subrange(0, 1)[0] == '.');
    }
    if name.len() > 0 && name[0] == '.' {
        assert(name.subrange(0, 1) =~= "."@);
    }
}

/// Every readable source that the walk from a root comes by is read, with its text, under its path in
/// the workspace.
pub proof fn lemma_source_is_read(
    tree: FileTree,
    files: Seq<Text>,
    root: Text,
    cwd: Text,
    file: Text,
)
    requires
        files.contains(file),
        is_reached(file, root),
        is_source(file),
        tree.files()[file] is Some,
    ensures
        sources_below(tree, files, root, cwd).contains(
            (from_workspace(walked_path(file, root), cwd), tree.files()[file]->0),
        ),
    decreases files.len(),
{
    let init = files.drop_last();
    let last = files.last();
    let entry = (from_workspace(walked_path(file, root), cwd), tree.files()[file]->0);
    assert(files =~= init.push(last));
    lemma_push_contains(init, last, file);
    if init.contains(file) {
        lemma_source_is_read(tree, init, root, cwd, file);
    }
    let before = sources_below(tree, init, root, cwd);
    if is_reached(last, root) && is_source(last) && tree.files()[last] is Some {
        lemma_push_contains(
            before,
            (from_workspace(walked_path(last, root), cwd), tree.files()[last]->0),
            entry,
        );
    }
}

/// Every readable source below the source root of a project is among the sources of the workspace.
pub proof fn lemma_project_source_is_read(
    tree: FileTree,
    projects: Seq<ProjectView>,
    cwd: Text,
    i: int,
    file: Text,
)
    requires
        0 <= i < projects.len(),
        tree.present(path_join(cwd, projects[i].source_root)),
        tree.listing().contains(file),
        is_reached(file, path_join(cwd, projects[i].source_root)),
        is_source(file),
        tree.files()[file] is Some,
    ensures
        sources_of_projects(tree, projects, cwd).contains(
            (
                from_workspace(walked_path(file, path_join(cwd, projects[i].source_root)), cwd),
                tree.files()[file]->0,
            ),
        ),
    decreases projects.len(),
{
    let init = projects.drop_last();
    let n = projects.len() - 1;
    let before = sources_of_projects(tree, init, cwd);
    let entry = (
        from_workspace(walked_path(file, path_join(cwd, projects[i].source_root)), cwd),
        tree.files()[file]->0,
    );
    let all = sources_of_projects(tree, projects, cwd);
    if i < n {
        assert(init[i] == projects[i]);
        lemma_project_source_is_read(tree, init, cwd, i, file);
        let k = choose|k: int| 0 <= k < before.len() && before[k] == entry;
        assert(all[k] == entry);
    } else {
        let root = path_join(cwd, projects.last().source_root);
        let here = sources_below(tree, tree.listing(), root, cwd);
        lemma_source_is_read(tree, tree.listing(), root, cwd, file);
        let k = choose|k: int| 0 <= k < here.len() && here[k] == entry;
        assert(all[before.len() + k] == entry);
    }
}

/// A source is kept under its path; where two have the same, the later one counts.
pub proof fn lemma_sources_by_path(sources: Seq<(Text, Text)>, i: int)
    requires
        0 <= i < sources.len(),
        forall|j: int| i < j < sources.len() ==> tidy((#[trigger] sources[j]).0) != tidy(sources[i].0),
    ensures
        sources_by_path(sources).contains_pair(tidy(sources[i].0), sources[i].1),
    decreases sources.len(),
{
    let init = sources.drop_last();
    let n = sources.len() - 1;
    if i < n {
        assert(init[i] == sources[i]);
        assert forall|j: int| i < j < init.len() implies tidy((#[trigger] init[j]).0) != tidy(
            init[i].0,
        ) by {
            assert(tidy(sources[j].0) != tidy(sources[i].0));
        }
        lemma_sources_by_path(init, i);
        assert(tidy(sources[n].0) != tidy(sources[i].0));
    }
}

// ---------------------------------------------------------------------------
// Assets
// ---------------------------------------------------------------------------

/// The first group of the `m`-th match in a line is the path, at the column.
pub open spec fn is_match(pattern: Text, line: Text, m: int, column: usize, path: Text) -> bool {
    &&& 0 <= m < groups_of_all(pattern, line).len()
    &&& groups_of_all(pattern, line)[m].len() > 1
    &&& groups_of_all(pattern, line)[m][1] == Some((column, path))
}

/// A match in the line has the path as its first group, at the column.
pub open spec fn is_quoted(pattern: Text, line: Text, column: nat, path: Text) -> bool {
    exists|m: int, c: usize| c == column && #[trigger] is_match(pattern, line, m, c, path)
}

/// The reference is a quoted path on the line of that number that leads to the asset.
pub open spec fn is_asset_reference(
    cwd: Text,
    source: Text,
    lines: Seq<Text>,
    name: Text,
    asset: Text,
    r: AssetReferenceView,
) -> bool {
    &&& 1 <= r.line <= lines.len()
    &&& contains_text(lines[r.line - 1], name)
    &&& r.source_file == from_workspace(source, cwd)
    &&& leads_to_asset(cwd, source, r.matched_path, asset)
    &&& is_quoted(quoted_path(name), lines[r.line - 1], r.column, r.matched_path)
}

spec fn is_found(f: Option<(usize, Text)>, r: AssetReferenceView) -> bool {
    f matches Some(p) && p.0 == r.column && p.1 == r.matched_path
}

proof fn lemma_among(
    cwd: Text,
    source: Text,
    line: nat,
    found: Seq<Option<(usize, Text)>>,
    asset: Text,
    r: AssetReferenceView,
)
    ensures
        references_among(cwd, source, line, found, asset).contains(r) <==> {
            &&& r.source_file == from_workspace(source, cwd)
            &&& r.line == line
            &&& leads_to_asset(cwd, source, r.matched_path, asset)
            &&& exists|m: int| 0 <= m < found.len() && is_found(#[trigger] found[m], r)
        },
    decreases found.len(),
{
    if found.len() > 0 {
        let init = found.drop_last();
        let n = found.len() - 1;
        lemma_among(cwd, source, line, init, asset, r);
        assert(found[n] == found.last());
        if let Some((column, path)) = found.last() {
            lemma_push_contains(
                references_among(cwd, source, line, init, asset),
                AssetReferenceView {
                    source_file: from_workspace(source, cwd),
                    line,
                    column: column as nat,
                    matched_path: path,
                },
                r,
            );
        }
        if exists|m: int| 0 <= m < init.len() && is_found(#[trigger] init[m], r) {
            let m = choose|m: int| 0 <= m < init.len() && is_found(#[trigger] init[m], r);
            assert(found[m] == init[m]);
        }
        if exists|m: int| 0 <= m < found.len() && is_found(#[trigger] found[m], r) {
            let m = choose|m: int| 0 <= m < found.len() && is_found(#[trigger] found[m], r);
            if m < n {
                assert(init[m] == found[m]);
            }
        }
    }
}

proof fn lemma_matches(pattern: Text, line: Text, m: int, column: usize, path: Text)
    ensures
        0 <= m < path_captures(pattern, line).len() && path_captures(pattern, line)[m] == Some(
            (column, path),
        ) <==> is_match(pattern, line, m, column, path),
{
}

/// The references to an asset in the lines of a source are the quoted paths that end in its name and
/// lead to it, with the number of the line and the column of the path; each of them and no other.
pub proof fn lemma_references_in_lines(
    cwd: Text,
    source: Text,
    lines: Seq<Text>,
    name: Text,
    asset: Text,
    r: AssetReferenceView,
)
    ensures
        references_in_lines(cwd, source, lines, name, asset).contains(r) <==> is_asset_reference(
            cwd,
            source,
            lines,
            name,
            asset,
            r,
        ),
    decreases lines.len(),
{
    if lines.len() > 0 {
        let init = lines.drop_last();
        let n = lines.len();
        let last = lines.last();
        lemma_references_in_lines(cwd, source, init, name, asset, r);
        let before = references_in_lines(cwd, source, init, name, asset);
        let found = path_captures(quoted_path(name), last);
        let here = references_among(cwd, source, n, found, asset);
        lemma_among(cwd, source, n, found, asset, r);
        reference_laws::lemma_in_sum(before, here, r);
        if r.line < n {
            if 1 <= r.line {
                assert(init[r.line - 1] == lines[r.line - 1]);
            }
            assert(!here.contains(r));
        } else {
            assert(!before.contains(r));
            if r.line == n {
                assert(lines[r.line - 1] == last);
                if exists|m: int| 0 <= m < found.len() && is_found(#[trigger] found[m], r) {
                    let m = choose|m: int| 0 <= m < found.len() && is_found(#[trigger] found[m], r);
                    let p = found[m]->0;
                    lemma_matches(quoted_path(name), last, m, p.0, r.matched_path);
                    assert(is_match(quoted_path(name), last, m, p.0, r.matched_path));
                }
                if is_quoted(quoted_path(name), last, r.column, r.matched_path) {
                    let (m, column) = choose|m: int, c: usize|
                        c == r.column && #[trigger] is_match(
                            quoted_path(name),
                            last,
                            m,
                            c,
                            r.matched_path,
                        );
                    lemma_matches(quoted_path(name), last, m, column, r.matched_path);
                    assert(is_found(found[m], r));
                }
            }
        }
    }
}

/// The references to an asset in a source are those in its lines; an asset without a name has none.
pub proof fn lemma_references_in_source(
    cwd: Text,
    source: Text,
    content: Text,
    asset: Text,
    name: Text,
    r: AssetReferenceView,
)
    requires
        path_name(asset) == Some(name),
        contains_text(content, name),
    ensures
        references_in(cwd, source, content, asset).contains(r) <==> is_asset_reference(
            cwd,
            source,
            lines_of(content),
            name,
            asset,
            r,
        ),
{
    lemma_references_in_lines(cwd, source, lines_of(content), name, asset, r);
}

/// The references to an asset are those in each readable source, file by file; other files hold none.
pub proof fn lemma_file_by_file(
    tree: FileTree,
    cwd: Text,
    files: Seq<Text>,
    file: Text,
    asset: Text,
)
    ensures
        asset_references(tree, cwd, files, seq![asset]).contains_key(tidy(asset)),
        asset_references(tree, cwd, Seq::<Text>::empty(), seq![asset])[tidy(asset)].len() == 0,
        tree.content(file) matches Some(content) && is_source(file) ==> asset_references(
            tree,
            cwd,
            files.push(file),
            seq![asset],
        )[tidy(asset)] == asset_references(tree, cwd, files, seq![asset])[tidy(asset)]
            + references_in(cwd, file, tree.content(file)->0, asset),
        tree.content(file) is None || !is_source(file) ==> asset_references(
            tree,
            cwd,
            files.push(file),
            seq![asset],
        ) == asset_references(tree, cwd, files, seq![asset]),
    decreases files.len(),
{
    let one = seq![asset];
    let more = files.push(file);
    assert(more.drop_last() =~= files);
    assert(more.last() == file);
    assert(one.drop_last() =~= Seq::<Text>::empty());
    assert(one.last() == asset);
    reveal_with_fuel(with_source_references, 2);
    reveal_with_fuel(assets::without_references, 2);
    if files.len() > 0 {
        lemma_file_by_file(tree, cwd, files.drop_last(), file, asset);
    }
}

/// Two ways lead to the same place where they differ in a `.` or in a detour.
pub proof fn lemma_collapsed(from_root: bool, before: Seq<Text>, name: Text, rest: Seq<Text>)
    requires
        name != "."@,
        name != ".."@,
    ensures
        collapsed(from_root, before.push("."@) + rest) == collapsed(from_root, before + rest),
        collapsed(from_root, before.push(name).push(".."@) + rest) == collapsed(
            from_root,
            before + rest,
        ),
        collapsed(from_root, before.push(name)).1 == collapsed(from_root, before).1.push(name),
        collapsed(from_root, before.push(name)).0 == collapsed(from_root, before).0,
{
    reveal_strlit(".");
    reveal_strlit("..");
    reveal_with_fuel(collapsed, 3);
    let dot = before.push("."@);
    assert(dot.drop_last() =~= before);
    lemma_collapsed_alike(from_root, dot, before, rest);
    let named = before.push(name);
    let back = named.push(".."@);
    assert(named.drop_last() =~= before);
    assert(back.drop_last() =~= named);
    assert(back.last() == ".."@ && named.last() == name);
    assert(".."@.len() == 2 && "."@.len() == 1);
    assert(collapsed(from_root, before).1.push(name).drop_last() =~= collapsed(
        from_root,
        before,
    ).1);
    assert(collapsed(from_root, back).1 =~= collapsed(from_root, before).1);
    lemma_collapsed_alike(from_root, back, before, rest);
}

proof fn lemma_collapsed_alike(from_root: bool, x: Seq<Text>, y: Seq<Text>, rest: Seq<Text>)
    requires
        collapsed(from_root, x) == collapsed(from_root, y),
    ensures
        collapsed(from_root, x + rest) == collapsed(from_root, y + rest),
    decreases rest.len(),
{
    if rest.len() == 0 {
        assert(x + rest =~= x);
        assert(y + rest =~= y);
    } else {
        lemma_collapsed_alike(from_root, x, y, rest.drop_last());
        assert((x + rest).drop_last() =~= x + rest.drop_last());
        assert((y + rest).drop_last() =~= y + rest.drop_last());
        assert((x + rest).last() == rest.last());
        assert((y + rest).last() == rest.last());
    }
}

} // verus!
