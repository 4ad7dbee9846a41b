//! What an import stands for: the order in which aliases, the module resolver and a plain lookup
//! are tried.

use crate::files::FileTree;
use crate::paths;
use crate::paths::{path_join, path_parent, path_under, path_within, segments};
use crate::semantic::tsconfig_load;
use crate::semantic::tsconfig_load::{ancestor, loaded};
use crate::semantic::tsconfig_paths::{candidates_of, TsconfigPaths, TsconfigPathsView};
use crate::text;
use crate::text::{first, has_prefix, has_suffix, Text};
use crate::types::{Project, ProjectView};
use vstd::prelude::*;

verus! {

// ---------------------------------------------------------------------------
// A plain lookup
// ---------------------------------------------------------------------------

/// The specifier ends in `from`: the paths where that ending is one of `to`.
pub open spec fn with_endings(context: Text, specifier: Text, from: Text, to: Seq<Text>) -> Seq<
    Text,
> {
    let stem = path_join(context, specifier.take(specifier.len() - from.len()));
    Seq::new(to.len(), |i: int| stem + to[i])
}

/// The sources that a specifier with a JavaScript ending can stand for, TypeScript first.
pub open spec fn remapped(context: Text, specifier: Text) -> Seq<Text> {
    if has_suffix(specifier, ".mjs"@) {
        with_endings(context, specifier, ".mjs"@, seq![".mts"@, ".mjs"@])
    } else if has_suffix(specifier, ".cjs"@) {
        with_endings(context, specifier, ".cjs"@, seq![".cts"@, ".cjs"@])
    } else if has_suffix(specifier, ".js"@) {
        with_endings(context, specifier, ".js"@, seq![".ts"@, ".tsx"@, ".js"@])
    } else if has_suffix(specifier, ".jsx"@) {
        with_endings(context, specifier, ".jsx"@, seq![".tsx"@, ".jsx"@])
    } else {
        Seq::empty()
    }
}

/// The endings of sources, in the order in which they are tried.
pub open spec fn endings() -> Seq<Text> {
    seq![".ts"@, ".tsx"@, ".mts"@, ".cts"@, ".js"@, ".jsx"@, ".mjs"@, ".cjs"@]
}

/// The names of the files that a directory can stand for, in the order in which they are tried.
pub open spec fn index_files() -> Seq<Text> {
    seq![
        "index.ts"@,
        "index.tsx"@,
        "index.mts"@,
        "index.cts"@,
        "index.js"@,
        "index.jsx"@,
        "index.mjs"@,
        "index.cjs"@,
    ]
}

/// The paths that a relative specifier can stand for, in the order in which they are tried.
pub open spec fn relative_candidates(context: Text, specifier: Text) -> Seq<Text> {
    let base = path_join(context, specifier);
    remapped(context, specifier) + Seq::new(endings().len(), |i: int| base + endings()[i])
        + Seq::new(index_files().len(), |i: int| path_join(base, index_files()[i]))
}

/// The first path that is there and lies in the workspace, as seen from its root.
pub open spec fn first_present(tree: FileTree, cwd: Text, candidates: Seq<Text>) -> Option<Text>
    decreases candidates.len(),
{
    if candidates.len() == 0 {
        None
    } else if tree.present(path_join(cwd, candidates[0])) && path_within(candidates[0], cwd) is Some {
        path_within(candidates[0], cwd)
    } else {
        first_present(tree, cwd, candidates.drop_first())
    }
}

/// What a relative specifier stands for by a plain lookup.
pub open spec fn looked_up(tree: FileTree, cwd: Text, context: Text, specifier: Text) -> Option<
    Text,
> {
    if has_prefix(specifier, "."@) {
        first_present(tree, cwd, relative_candidates(context, specifier))
    } else {
        None
    }
}

/// Appends the stem with the endings.
fn push_endings(out: &mut Vec<String>, context: &str, stem: &str, to: &[&str])
    ensures
        final(out).deep_view() == old(out).deep_view() + Seq::new(
            to@.len(),
            |i: int| path_join(context@, stem@) + to@[i]@,
        ),
{
    let path = paths::join(context, stem);
    let ghost start = out.deep_view();
    let ghost more = Seq::new(to@.len(), |i: int| path_join(context@, stem@) + to@[i]@);
    let mut i: usize = 0;
    assert(out.deep_view() =~= start + more.take(0));
    while i < to.len()
        invariant
            i <= to.len(),
            path@ == path_join(context@, stem@),
            more == Seq::new(to@.len(), |i: int| path_join(context@, stem@) + to@[i]@),
            out.deep_view() == start + more.take(i as int),
        decreases to.len() - i,
    {
        let ghost before = out.deep_view();
        let candidate = text::cat(path.as_str(), to[i]);
        let ghost view = candidate@;
        out.push(candidate);
        assert(out.deep_view() =~= before.push(view));
        assert(more.take(i + 1) =~= more.take(i as int).push(view));
        assert(out.deep_view() =~= start + more.take(i + 1));
        i += 1;
    }
    assert(more.take(i as int) =~= more);
}

/// The sources that a specifier with a JavaScript ending can stand for.
fn write_remapped(context: &str, specifier: &str) -> (r: Vec<String>)
    ensures
        r.deep_view() == remapped(context@, specifier@),
{
    let mut out: Vec<String> = Vec::new();
    assert(out.deep_view() =~= Seq::<Text>::empty());
    if let Some(stem) = text::strip_suffix(specifier, ".mjs") {
        push_endings(&mut out, context, stem, &[".mts", ".mjs"]);
        assert(out.deep_view() =~= remapped(context@, specifier@));
    } else if let Some(stem) = text::strip_suffix(specifier, ".cjs") {
        push_endings(&mut out, context, stem, &[".cts", ".cjs"]);
        assert(out.deep_view() =~= remapped(context@, specifier@));
    } else if let Some(stem) = text::strip_suffix(specifier, ".js") {
        push_endings(&mut out, context, stem, &[".ts", ".tsx", ".js"]);
        assert(out.deep_view() =~= remapped(context@, specifier@));
    } else if let Some(stem) = text::strip_suffix(specifier, ".jsx") {
        push_endings(&mut out, context, stem, &[".tsx", ".jsx"]);
        assert(out.deep_view() =~= remapped(context@, specifier@));
    }
    out
}

/// Appends the files in a directory.
fn push_files(out: &mut Vec<String>, dir: &str, names: &[&str])
    ensures
        final(out).deep_view() == old(out).deep_view() + Seq::new(
            names@.len(),
            |i: int| path_join(dir@, names@[i]@),
        ),
{
    let ghost start = out.deep_view();
    let ghost more = Seq::new(names@.len(), |i: int| path_join(dir@, names@[i]@));
    let mut i: usize = 0;
    assert(out.deep_view() =~= start + more.take(0));
    while i < names.len()
        invariant
            i <= names.len(),
            more == Seq::new(names@.len(), |i: int| path_join(dir@, names@[i]@)),
            out.deep_view() == start + more.take(i as int),
        decreases names.len() - i,
    {
        let ghost before = out.deep_view();
        let candidate = paths::join(dir, names[i]);
        let ghost view = candidate@;
        out.push(candidate);
        assert(out.deep_view() =~= before.push(view));
        assert(more.take(i + 1) =~= more.take(i as int).push(view));
        assert(out.deep_view() =~= start + more.take(i + 1));
        i += 1;
    }
    assert(more.take(i as int) =~= more);
}

/// The paths that a relative specifier can stand for.
fn write_candidates(context: &str, specifier: &str) -> (r: Vec<String>)
    ensures
        r.deep_view() == relative_candidates(context@, specifier@),
{
    let mut out = write_remapped(context, specifier);
    let ghost first = out.deep_view();
    push_endings(
        &mut out,
        context,
        specifier,
        &[".ts", ".tsx", ".mts", ".cts", ".js", ".jsx", ".mjs", ".cjs"],
    );
    let ghost second = out.deep_view();
    let base = paths::join(context, specifier);
    proof {
        assert(second =~= first + Seq::new(endings().len(), |i: int| base@ + endings()[i]));
    }
    push_files(
        &mut out,
        base.as_str(),
        &[
            "index.ts",
            "index.tsx",
            "index.mts",
            "index.cts",
            "index.js",
            "index.jsx",
            "index.mjs",
            "index.cjs",
        ],
    );
    proof {
        assert(out.deep_view() =~= second + Seq::new(
            index_files().len(),
            |i: int| path_join(base@, index_files()[i]),
        ));
    }
    out
}

/// What a relative specifier stands for by a plain lookup: the fallback where the module resolver
/// fails.
pub fn simple_resolve_relative(cwd: &str, context: &str, specifier: &str, tree: &FileTree) -> (r:
    Option<String>)
    ensures
        r.deep_view() == looked_up(*tree, cwd@, context@, specifier@),
{
    if !text::starts_with(specifier, ".") {
        return None;
    }
    let candidates = write_candidates(context, specifier);
    let ghost all = candidates.deep_view();
    let mut i: usize = 0;
    assert(all.skip(0) =~= all);
    while i < candidates.len()
        invariant
            i <= candidates.len(),
            all == candidates.deep_view(),
            has_prefix(specifier@, "."@),
            all == relative_candidates(context@, specifier@),
            first_present(*tree, cwd@, all) == first_present(*tree, cwd@, all.skip(i as int)),
        decreases candidates.len() - i,
    {
        assert(all.skip(i as int)[0] == candidates@[i as int]@);
        assert(all.skip(i as int).drop_first() =~= all.skip(i + 1));
        let candidate = candidates[i].as_str();
        if tree.is_present(paths::join(cwd, candidate).as_str()) {
            let found = paths::strip_prefix(candidate, cwd);
            if found.is_some() {
                return found;
            }
        }
        i += 1;
    }
    None
}

// ---------------------------------------------------------------------------
// What can stand for something in the workspace
// ---------------------------------------------------------------------------

/// The specifier names the package, or something in it.
pub open spec fn names_package(specifier: Text, name: Text) -> bool {
    specifier == name || has_prefix(specifier, name + "/"@)
}

/// The specifier can stand for something in the workspace: it is seen from the importing file,
/// it names a project, or it starts as an alias of the workspace does.
pub open spec fn in_workspace(
    specifier: Text,
    projects: Seq<ProjectView>,
    prefixes: Seq<Text>,
) -> bool {
    ||| has_prefix(specifier, "."@)
    ||| exists|i: int| 0 <= i < projects.len() && names_package(specifier, #[trigger] projects[i].name)
    ||| exists|i: int| 0 <= i < prefixes.len() && has_prefix(specifier, #[trigger] prefixes[i])
}

/// The part of an alias before its `*`, or all of it.
pub open spec fn alias_prefix(key: Text) -> Text {
    match first(key, "*"@) {
        Some(i) => key.take(i),
        None => key,
    }
}

/// Whether the specifier can stand for something in the workspace.
pub fn is_workspace_specifier(
    specifier: &str,
    projects: &Vec<Project>,
    path_prefixes: &Vec<String>,
) -> (r: bool)
    ensures
        r == in_workspace(specifier@, projects.deep_view(), path_prefixes.deep_view()),
{
    if text::starts_with(specifier, ".") {
        return true;
    }
    let ghost all = projects.deep_view();
    let ghost prefixes = path_prefixes.deep_view();
    let mut i: usize = 0;
    while i < projects.len()
        invariant
            i <= projects.len(),
            all == projects.deep_view(),
            forall|j: int| 0 <= j < i ==> !names_package(specifier@, #[trigger] all[j].name),
        decreases projects.len() - i,
    {
        let name = projects[i].name.as_str();
        assert(all[i as int].name == name@);
        if text::same(specifier, name) || text::starts_with(specifier, text::cat(name, "/").as_str()) {
            assert(names_package(specifier@, all[i as int].name));
            return true;
        }
        i += 1;
    }
    let mut k: usize = 0;
    while k < path_prefixes.len()
        invariant
            k <= path_prefixes.len(),
            prefixes == path_prefixes.deep_view(),
            forall|j: int| 0 <= j < k ==> !has_prefix(specifier@, #[trigger] prefixes[j]),
        decreases path_prefixes.len() - k,
    {
        assert(prefixes[k as int] == path_prefixes@[k as int]@);
        if text::starts_with(specifier, path_prefixes[k].as_str()) {
            return true;
        }
        k += 1;
    }
    false
}

/// The parts of the aliases before their `*`.
pub fn path_prefixes(paths: &TsconfigPaths) -> (r: Vec<String>)
    ensures
        r.deep_view() == paths.deep_view().patterns.map_values(
            |p: (Text, Seq<Text>)| alias_prefix(p.0),
        ),
{
    let ghost all = paths.deep_view().patterns.map_values(
        |p: (Text, Seq<Text>)| alias_prefix(p.0),
    );
    let mut out: Vec<String> = Vec::new();
    let mut i: usize = 0;
    assert(out.deep_view() =~= all.take(0));
    while i < paths.patterns.len()
        invariant
            i <= paths.patterns.len(),
            all == paths.deep_view().patterns.map_values(
                |p: (Text, Seq<Text>)| alias_prefix(p.0),
            ),
            out.deep_view() == all.take(i as int),
        decreases paths.patterns.len() - i,
    {
        let key = paths.patterns[i].0.as_str();
        let prefix = match text::find(key, "*") {
            Some(at) => text::front(key, at),
            None => key,
        };
        let ghost before = out.deep_view();
        out.push(prefix.to_owned());
        assert(all[i as int] == prefix@);
        assert(out.deep_view() =~= before.push(prefix@));
        assert(all.take(i + 1) =~= all.take(i as int).push(prefix@));
        i += 1;
    }
    assert(all.take(i as int) =~= all);
    out
}

// ---------------------------------------------------------------------------
// The whole order
// ---------------------------------------------------------------------------

/// The specifier is seen from the importing file: `./x`, `../x`, `.` and `..`.
pub open spec fn is_relative(specifier: Text) -> bool {
    let rest = if has_prefix(specifier, ".."@) {
        Some(specifier.skip(2))
    } else if has_prefix(specifier, "."@) {
        Some(specifier.skip(1))
    } else {
        None
    };
    rest matches Some(r) && (r.len() == 0 || has_prefix(r, "/"@) || has_prefix(r, "\\"@))
}

/// The `tsconfig.json` in the directory of `k` segments, or the nearest above it that lies in the
/// workspace.
pub open spec fn nearest_tsconfig(tree: FileTree, cwd: Text, dir: Text, k: nat) -> Option<Text>
    decreases k,
{
    let here = ancestor(dir, k as int);
    if !path_under(here, cwd) {
        None
    } else if tree.has_file(path_join(here, "tsconfig.json"@)) {
        Some(path_join(here, "tsconfig.json"@))
    } else if k == 0 {
        None
    } else {
        nearest_tsconfig(tree, cwd, dir, (k - 1) as nat)
    }
}

/// The aliases that hold in a directory.
pub open spec fn aliases_at(
    tree: FileTree,
    cwd: Text,
    projects: Seq<ProjectView>,
    dir: Text,
) -> Option<TsconfigPathsView> {
    match nearest_tsconfig(tree, cwd, dir, segments(dir).len()) {
        Some(tsconfig) => loaded(tree, cwd, projects, tsconfig),
        None => None,
    }
}

/// The paths that aliases give for a specifier, in the order in which they are tried.
pub open spec fn alias_candidates(
    tree: FileTree,
    cwd: Text,
    projects: Seq<ProjectView>,
    context: Text,
    specifier: Text,
) -> Seq<Text> {
    if is_relative(specifier) {
        Seq::empty()
    } else {
        match aliases_at(tree, cwd, projects, context) {
            Some(paths) => candidates_of(paths, specifier),
            None => Seq::empty(),
        }
    }
}

/// The way to a resolution: a question to the module resolver, or the end.
#[derive(Debug, PartialEq, Eq)]
pub enum Resolution {
    /// The module resolver is to say what `request` is, as seen from the directory `context`.
    Ask { context: String, request: String },
    /// What the import stands for, as seen from the workspace root.
    Done(Option<String>),
}

/// The view of a [`Resolution`].
pub enum ResolutionView {
    Ask { context: Text, request: Text },
    Done(Option<Text>),
}

impl DeepView for Resolution {
    type V = ResolutionView;

    open spec fn deep_view(&self) -> ResolutionView {
        match self {
            Resolution::Ask { context, request } => ResolutionView::Ask {
                context: context@,
                request: request@,
            },
            Resolution::Done(path) => ResolutionView::Done(path.deep_view()),
        }
    }
}

/// The first answer that lies in the workspace, as seen from its root.
pub open spec fn first_within(replies: Seq<Option<Text>>, cwd: Text) -> Option<Text>
    decreases replies.len(),
{
    if replies.len() == 0 {
        None
    } else {
        match replies[0] {
            Some(path) => if path_within(path, cwd) is Some {
                path_within(path, cwd)
            } else {
                first_within(replies.drop_first(), cwd)
            },
            None => first_within(replies.drop_first(), cwd),
        }
    }
}

/// The next step after some answers of the module resolver. First come the paths that aliases
/// give, in order, until an answer lies in the workspace. Then, where the specifier can stand for
/// something in the workspace, comes the specifier itself, and where the resolver fails on it,
/// the plain lookup.
pub open spec fn next_step(
    tree: FileTree,
    cwd: Text,
    candidates: Seq<Text>,
    context: Text,
    specifier: Text,
    reachable: bool,
    replies: Seq<Option<Text>>,
) -> ResolutionView {
    let n = candidates.len();
    if replies.len() < n {
        match first_within(replies, cwd) {
            Some(path) => ResolutionView::Done(Some(path)),
            None => ResolutionView::Ask { context, request: candidates[replies.len() as int] },
        }
    } else {
        match first_within(replies.take(n as int), cwd) {
            Some(path) => ResolutionView::Done(Some(path)),
            None => if !reachable {
                ResolutionView::Done(None)
            } else if replies.len() == n {
                ResolutionView::Ask { context, request: specifier }
            } else {
                match replies[n as int] {
                    Some(path) => ResolutionView::Done(path_within(path, cwd)),
                    None => ResolutionView::Done(looked_up(tree, cwd, context, specifier)),
                }
            },
        }
    }
}

/// The next step in resolving an import of a file.
pub open spec fn resolution(
    tree: FileTree,
    cwd: Text,
    projects: Seq<ProjectView>,
    importing_file: Text,
    specifier: Text,
    reachable: bool,
    replies: Seq<Option<Text>>,
) -> ResolutionView {
    match path_parent(path_join(cwd, importing_file)) {
        None => ResolutionView::Done(None),
        Some(context) => next_step(
            tree,
            cwd,
            alias_candidates(tree, cwd, projects, context, specifier),
            context,
            specifier,
            reachable,
            replies,
        ),
    }
}

/// Whether the specifier is seen from the importing file.
pub fn is_relative_specifier(specifier: &str) -> (r: bool)
    ensures
        r == is_relative(specifier@),
{
    proof {
        reveal_strlit("..");
        reveal_strlit(".");
    }
    let rest = match text::strip_prefix(specifier, "..") {
        Some(rest) => rest,
        None => match text::strip_prefix(specifier, ".") {
            Some(rest) => rest,
            None => {
                return false;
            },
        },
    };
    rest.is_empty() || text::starts_with(rest, "/") || text::starts_with(rest, "\\")
}

/// The first of some answers that lies in the workspace, as seen from its root.
fn find_within(replies: &Vec<Option<String>>, n: usize, cwd: &str) -> (r: Option<String>)
    requires
        n <= replies.len(),
    ensures
        r.deep_view() == first_within(replies.deep_view().take(n as int), cwd@),
{
    let ghost all = replies.deep_view().take(n as int);
    let mut i: usize = 0;
    assert(all.skip(0) =~= all);
    while i < n
        invariant
            i <= n <= replies.len(),
            all == replies.deep_view().take(n as int),
            first_within(all, cwd@) == first_within(all.skip(i as int), cwd@),
        decreases n - i,
    {
        assert(all.skip(i as int)[0] == replies@[i as int].deep_view());
        assert(all.skip(i as int).drop_first() =~= all.skip(i + 1));
        if let Some(path) = &replies[i] {
            let found = paths::strip_prefix(path.as_str(), cwd);
            if found.is_some() {
                return found;
            }
        }
        i += 1;
    }
    None
}

/// The next step after some answers of the module resolver.
pub fn decide(
    tree: &FileTree,
    cwd: &str,
    candidates: &Vec<String>,
    context: &str,
    specifier: &str,
    reachable: bool,
    replies: &Vec<Option<String>>,
) -> (r: Resolution)
    ensures
        r.deep_view() == next_step(
            *tree,
            cwd@,
            candidates.deep_view(),
            context@,
            specifier@,
            reachable,
            replies.deep_view(),
        ),
{
    let n: usize = candidates.len();
    let ghost answers = replies.deep_view();
    assert(candidates.deep_view().len() == n && answers.len() == replies.len());
    if replies.len() < n {
        assert(answers.take(replies.len() as int) =~= answers);
        return match find_within(replies, replies.len(), cwd) {
            Some(path) => Resolution::Done(Some(path)),
            None => Resolution::Ask {
                context: context.to_owned(),
                request: candidates[replies.len()].clone(),
            },
        };
    }
    let found = find_within(replies, n, cwd);
    if found.is_some() {
        return Resolution::Done(found);
    }
    if !reachable {
        return Resolution::Done(None);
    }
    if replies.len() == n {
        return Resolution::Ask { context: context.to_owned(), request: specifier.to_owned() };
    }
    assert(answers[n as int] == replies@[n as int].deep_view());
    match &replies[n] {
        Some(path) => Resolution::Done(paths::strip_prefix(path.as_str(), cwd)),
        None => Resolution::Done(simple_resolve_relative(cwd, context, specifier, tree)),
    }
}

/// Resolves imports in one workspace, so that all that asks agrees on what an import stands for.
pub struct WorkspaceResolver<'a> {
    pub cwd: &'a str,
    pub projects: &'a Vec<Project>,
    pub tree: &'a FileTree,
}

impl<'a> WorkspaceResolver<'a> {
    /// The nearest `tsconfig.json` at or above a directory.
    fn find_tsconfig(&self, directory: &str) -> (r: Option<String>)
        ensures
            r.deep_view() == nearest_tsconfig(
                *self.tree,
                self.cwd@,
                directory@,
                segments(directory@).len(),
            ),
    {
        let segs = paths::split_path(directory);
        assert(segs.deep_view().len() == segs.len());
        let mut k: usize = segs.len();
        loop
            invariant
                segs.deep_view() == segments(directory@),
                segs.deep_view().len() == segs.len(),
                k <= segs.len(),
                nearest_tsconfig(*self.tree, self.cwd@, directory@, segments(directory@).len())
                    == nearest_tsconfig(*self.tree, self.cwd@, directory@, k as nat),
            decreases k,
        {
            let here = tsconfig_load::ancestor_of(directory, &segs, k);
            if !paths::starts_with(here.as_str(), self.cwd) {
                return None;
            }
            let tsconfig = paths::join(here.as_str(), "tsconfig.json");
            if self.tree.is_file(tsconfig.as_str()) {
                return Some(tsconfig);
            }
            if k == 0 {
                return None;
            }
            k -= 1;
        }
    }

    /// The aliases that hold in a directory.
    pub fn nearest_tsconfig_paths(&self, directory: &str) -> (r: Option<TsconfigPaths>)
        ensures
            r.deep_view() == aliases_at(
                *self.tree,
                self.cwd@,
                self.projects.deep_view(),
                directory@,
            ),
    {
        match self.find_tsconfig(directory) {
            Some(tsconfig) => TsconfigPaths::load(
                tsconfig.as_str(),
                self.cwd,
                self.projects,
                self.tree,
            ),
            None => None,
        }
    }

    /// The next step in resolving the import of `specifier` in a file, after some answers of the
    /// module resolver. `reachable` says whether the specifier can stand for something in the
    /// workspace.
    pub fn resolve(
        &self,
        importing_file: &str,
        specifier: &str,
        reachable: bool,
        replies: &Vec<Option<String>>,
    ) -> (r: Resolution)
        ensures
            r.deep_view() == resolution(
                *self.tree,
                self.cwd@,
                self.projects.deep_view(),
                importing_file@,
                specifier@,
                reachable,
                replies.deep_view(),
            ),
    {
        let from = paths::join(self.cwd, importing_file);
        let context = match paths::parent(from.as_str()) {
            Some(c) => c,
            None => {
                return Resolution::Done(None);
            },
        };
        let mut candidates: Vec<String> = Vec::new();
        assert(candidates.deep_view() =~= Seq::<Text>::empty());
        if !is_relative_specifier(specifier) {
            if let Some(paths) = self.nearest_tsconfig_paths(context.as_str()) {
                candidates = paths.candidates(specifier);
            }
        }
        decide(
            self.tree,
            self.cwd,
            &candidates,
            context.as_str(),
            specifier,
            reachable,
            replies,
        )
    }
}

/// A relative import goes through no alias: the first question is the specifier itself.
pub proof fn lemma_relative_skips_aliases(
    tree: FileTree,
    cwd: Text,
    projects: Seq<ProjectView>,
    importing_file: Text,
    specifier: Text,
)
    requires
        is_relative(specifier),
        path_parent(path_join(cwd, importing_file)) is Some,
    ensures
        resolution(
            tree,
            cwd,
            projects,
            importing_file,
            specifier,
            true,
            Seq::<Option<Text>>::empty(),
        ) == (ResolutionView::Ask {
            context: path_parent(path_join(cwd, importing_file))->0,
            request: specifier,
        }),
{
    assert(Seq::<Option<Text>>::empty().take(0) =~= Seq::<Option<Text>>::empty());
}

/// With an answer to each question, resolving comes to an end.
pub proof fn lemma_resolution_ends(
    tree: FileTree,
    cwd: Text,
    candidates: Seq<Text>,
    context: Text,
    specifier: Text,
    reachable: bool,
    replies: Seq<Option<Text>>,
)
    requires
        replies.len() > candidates.len(),
    ensures
        next_step(tree, cwd, candidates, context, specifier, reachable, replies) is Done,
{
}

} // verus!
