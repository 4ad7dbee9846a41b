//! Which files of a workspace are analysed.

use crate::files::FileTree;
use crate::paths;
use crate::paths::{
    path_beyond, path_join, path_name, path_under, path_within, place, segments, tidy,
};
use crate::text;
use crate::text::{has_prefix, has_suffix, Text};
use crate::types::{Project, ProjectView};
use vstd::prelude::*;

verus! {

/// A source file: its path as seen from the workspace root, and its text.
#[derive(Debug, PartialEq, Eq)]
pub struct SourceFile {
    pub path: String,
    pub source: String,
}

impl DeepView for SourceFile {
    type V = (Text, Text);

    open spec fn deep_view(&self) -> (Text, Text) {
        (self.path@, self.source@)
    }
}

/// The sources in a list by their paths in tidy form; a later one replaces an earlier one with the
/// same path.
pub open spec fn sources_by_path(sources: Seq<(Text, Text)>) -> Map<Text, Text>
    decreases sources.len(),
{
    if sources.len() == 0 {
        Map::empty()
    } else {
        sources_by_path(sources.drop_last()).insert(tidy(sources.last().0), sources.last().1)
    }
}

/// A directory of this name is not entered.
pub open spec fn is_skipped_dir(name: Text) -> bool {
    name == "node_modules"@ || name == "dist"@ || name == "build"@ || has_prefix(name, "."@)
}

/// The name has the extension, and something before it.
pub open spec fn has_extension(name: Text, dotted: Text) -> bool {
    has_suffix(name, dotted) && name.len() > dotted.len()
}

/// The path is that of a TypeScript or JavaScript source.
pub open spec fn is_source(p: Text) -> bool {
    path_name(p) matches Some(name) && (has_extension(name, ".ts"@) || has_extension(name, ".tsx"@)
        || has_extension(name, ".mts"@) || has_extension(name, ".cts"@) || has_extension(
        name,
        ".js"@,
    ) || has_extension(name, ".jsx"@) || has_extension(name, ".mjs"@) || has_extension(
        name,
        ".cjs"@,
    ))
}

/// The name of the directory where a walk begins.
pub open spec fn root_name(root: Text) -> Text {
    match path_name(root) {
        Some(n) => n,
        None => root,
    }
}

/// The segments from `root` to `file`.
pub open spec fn way_down(file: Text, root: Text) -> Seq<Text> {
    segments(file).skip(segments(place(root)).len() as int)
}

/// A walk that begins at `root` comes by the file.
pub open spec fn is_reached(file: Text, root: Text) -> bool {
    &&& path_under(file, place(root))
    &&& way_down(file, root).len() == 0 || (!is_skipped_dir(root_name(root)) && forall|k: int|
        0 <= k < way_down(file, root).len() - 1 ==> !is_skipped_dir(
            #[trigger] way_down(file, root)[k],
        ))
}

/// The path of the file as the walk from `root` gives it.
pub open spec fn walked_path(file: Text, root: Text) -> Text {
    if way_down(file, root).len() == 0 {
        root
    } else {
        path_join(root, path_beyond(file, place(root)))
    }
}

/// The path as seen from the workspace root, where it lies below it.
pub open spec fn from_workspace(p: Text, cwd: Text) -> Text {
    match path_within(p, cwd) {
        Some(q) => q,
        None => p,
    }
}

/// The readable sources among some files that a walk from `root` comes by.
pub open spec fn sources_below(
    tree: FileTree,
    files: Seq<Text>,
    root: Text,
    cwd: Text,
) -> Seq<(Text, Text)>
    decreases files.len(),
{
    if files.len() == 0 {
        Seq::empty()
    } else {
        let before = sources_below(tree, files.drop_last(), root, cwd);
        let file = files.last();
        if is_reached(file, root) && is_source(file) && tree.files()[file] is Some {
            before.push(
                (from_workspace(walked_path(file, root), cwd), tree.files()[file]->Some_0),
            )
        } else {
            before
        }
    }
}

/// The readable sources of some projects.
pub open spec fn sources_of_projects(
    tree: FileTree,
    projects: Seq<ProjectView>,
    cwd: Text,
) -> Seq<(Text, Text)>
    decreases projects.len(),
{
    if projects.len() == 0 {
        Seq::empty()
    } else {
        let before = sources_of_projects(tree, projects.drop_last(), cwd);
        let root = path_join(cwd, projects.last().source_root);
        if tree.present(root) {
            before + sources_below(tree, tree.listing(), root, cwd)
        } else {
            before
        }
    }
}

fn is_skipped(name: &str) -> (r: bool)
    ensures
        r == is_skipped_dir(name@),
{
    text::same(name, "node_modules") || text::same(name, "dist") || text::same(name, "build")
        || text::starts_with(name, ".")
}

fn ends_in(name: &str, dotted: &str) -> (r: bool)
    ensures
        r == has_extension(name@, dotted@),
{
    text::ends_with(name, dotted) && name.unicode_len() > dotted.unicode_len()
}

/// Whether the path is that of a TypeScript or JavaScript source.
pub fn is_source_file(path: &str) -> (r: bool)
    ensures
        r == is_source(path@),
{
    match paths::file_name(path) {
        None => false,
        Some(name) => {
            let n = name.as_str();
            ends_in(n, ".ts") || ends_in(n, ".tsx") || ends_in(n, ".mts") || ends_in(n, ".cts")
                || ends_in(n, ".js") || ends_in(n, ".jsx") || ends_in(n, ".mjs") || ends_in(
                n,
                ".cjs",
            )
        },
    }
}

/// Whether a walk that begins at `root` comes by the file.
fn reaches(file: &str, root: &str) -> (r: bool)
    ensures
        r == is_reached(file@, root@),
{
    let base = paths::place_of(root);
    if !paths::starts_with(file, base.as_str()) {
        return false;
    }
    let at_root = paths::split_path(base.as_str());
    let all = paths::split_path(file);
    assert(all.deep_view().len() == all.len() && at_root.deep_view().len() == at_root.len());
    let way = paths::last_texts(&all, at_root.len());
    assert(way.deep_view() == way_down(file@, root@));
    assert(way.deep_view().len() == way.len());
    if way.len() == 0 {
        return true;
    }
    let name = match paths::file_name(root) {
        Some(n) => n,
        None => root.to_owned(),
    };
    if is_skipped(name.as_str()) {
        return false;
    }
    let mut k: usize = 0;
    while k < way.len() - 1
        invariant
            k < way.len(),
            way.deep_view() == way_down(file@, root@),
            forall|j: int| 0 <= j < k ==> !is_skipped_dir(#[trigger] way.deep_view()[j]),
        decreases way.len() - k,
    {
        if is_skipped(way[k].as_str()) {
            assert(is_skipped_dir(way.deep_view()[k as int]));
            return false;
        }
        k += 1;
    }
    true
}

/// The path of a reached file as the walk from `root` gives it.
fn path_on_walk(file: &str, root: &str) -> (r: String)
    requires
        path_under(file@, place(root@)),
    ensures
        r@ == walked_path(file@, root@),
{
    let base = paths::place_of(root);
    let at_root = paths::split_path(base.as_str());
    let all = paths::split_path(file);
    assert(all.deep_view().len() == all.len() && at_root.deep_view().len() == at_root.len());
    let way = paths::last_texts(&all, at_root.len());
    assert(way.deep_view().len() == way.len());
    if way.len() == 0 {
        root.to_owned()
    } else {
        paths::join(root, paths::make_path(false, &way).as_str())
    }
}

/// Appends the readable sources below `root`.
fn collect_file_paths(tree: &FileTree, root: &str, cwd: &str, out: &mut Vec<SourceFile>)
    ensures
        final(out).deep_view() == old(out).deep_view() + sources_below(
            *tree,
            tree.listing(),
            root@,
            cwd@,
        ),
{
    let ghost start = out.deep_view();
    let ghost all = tree.listing();
    let mut i: usize = 0;
    assert(all.take(0) =~= Seq::<Text>::empty());
    assert(out.deep_view() =~= start + Seq::<(Text, Text)>::empty());
    while i < tree.count()
        invariant
            i <= all.len(),
            all == tree.listing(),
            out.deep_view() == start + sources_below(*tree, all.take(i as int), root@, cwd@),
        decreases all.len() - i,
    {
        proof {
            assert(all.take(i + 1).drop_last() =~= all.take(i as int));
            assert(all.take(i + 1).last() == all[i as int]);
        }
        let ghost before = out.deep_view();
        let ghost done = sources_below(*tree, all.take(i as int), root@, cwd@);
        let file = tree.path_at(i);
        if reaches(file, root) && is_source_file(file) {
            if let Some(source) = tree.content_at(i) {
                let walked = path_on_walk(file, root);
                let path = paths::strip_prefix_or_self(walked.as_str(), cwd);
                let item = SourceFile { path, source: source.to_owned() };
                let ghost view = item.deep_view();
                out.push(item);
                assert(out.deep_view() =~= before.push(view));
                assert(before.push(view) =~= start + done.push(view));
            }
        }
        i += 1;
    }
    assert(all.take(i as int) =~= all);
}

/// The readable sources of the projects whose source roots exist.
pub fn collect_sources(tree: &FileTree, projects: &Vec<Project>, cwd: &str) -> (r: Vec<SourceFile>)
    ensures
        r.deep_view() == sources_of_projects(*tree, projects.deep_view(), cwd@),
{
    let ghost all = projects.deep_view();
    let mut out: Vec<SourceFile> = Vec::new();
    let mut i: usize = 0;
    assert(all.take(0) =~= Seq::<ProjectView>::empty());
    assert(out.deep_view() =~= Seq::<(Text, Text)>::empty());
    while i < projects.len()
        invariant
            i <= projects.len(),
            all == projects.deep_view(),
            out.deep_view() == sources_of_projects(*tree, all.take(i as int), cwd@),
        decreases projects.len() - i,
    {
        assert(all.take(i + 1).drop_last() =~= all.take(i as int));
        assert(all.take(i + 1).last() == projects@[i as int].deep_view());
        let root = paths::join(cwd, projects[i].source_root.as_str());
        if tree.is_present(root.as_str()) {
            collect_file_paths(tree, root.as_str(), cwd, &mut out);
        }
        i += 1;
    }
    assert(all.take(i as int) =~= all);
    out
}

/// Every source that is read is a file below the source root of a project that exists.
pub proof fn lemma_sources_below(
    tree: FileTree,
    files: Seq<Text>,
    root: Text,
    cwd: Text,
    i: int,
)
    requires
        0 <= i < sources_below(tree, files, root, cwd).len(),
    ensures
        exists|k: int|
            0 <= k < files.len() && is_reached(#[trigger] files[k], root) && is_source(files[k])
                && tree.files()[files[k]] == Some(sources_below(tree, files, root, cwd)[i].1)
                && sources_below(tree, files, root, cwd)[i].0 == from_workspace(
                walked_path(files[k], root),
                cwd,
            ),
    decreases files.len(),
{
    let n = files.len() - 1;
    let init = files.drop_last();
    let before = sources_below(tree, init, root, cwd);
    if i < before.len() {
        lemma_sources_below(tree, init, root, cwd, i);
        let k = choose|k: int|
            0 <= k < init.len() && is_reached(#[trigger] init[k], root) && is_source(init[k])
                && tree.files()[init[k]] == Some(before[i].1) && before[i].0 == from_workspace(
                walked_path(init[k], root),
                cwd,
            );
        assert(files[k] == init[k]);
    } else {
        assert(files[n] == files.last());
    }
}

/// Every source that is read is that of a readable file.
pub proof fn lemma_sources_of_projects(
    tree: FileTree,
    projects: Seq<ProjectView>,
    cwd: Text,
    i: int,
)
    requires
        0 <= i < sources_of_projects(tree, projects, cwd).len(),
        forall|p: Text| tree.files().contains_key(p) <==> #[trigger] tree.listing().contains(p),
    ensures
        exists|p: Text| #[trigger]
            tree.files().contains_key(p) && tree.files()[p] == Some(
                sources_of_projects(tree, projects, cwd)[i].1,
            ),
    decreases projects.len(),
{
    let init = projects.drop_last();
    let before = sources_of_projects(tree, init, cwd);
    let root = path_join(cwd, projects.last().source_root);
    if i < before.len() {
        lemma_sources_of_projects(tree, init, cwd, i);
    } else {
        let files = tree.listing();
        let below = sources_below(tree, files, root, cwd);
        lemma_sources_below(tree, files, root, cwd, i - before.len());
        let k = choose|k: int|
            0 <= k < files.len() && is_reached(#[trigger] files[k], root) && is_source(files[k])
                && tree.files()[files[k]] == Some(below[i - before.len()].1)
                && below[i - before.len()].0 == from_workspace(walked_path(files[k], root), cwd);
        assert(files.contains(files[k]));
        assert(tree.files().contains_key(files[k]));
    }
}

} // verus!
