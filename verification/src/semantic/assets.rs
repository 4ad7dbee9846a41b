//! Which sources refer to files that are no sources: templates, stylesheets, images.

use crate::captures;
use crate::captures::{group_at, groups_of_all};
use crate::collections::StringMap;
use crate::error::DominoError;
use crate::files::FileTree;
use crate::paths;
use crate::paths::{absolute, path_join, path_name, path_parent, segments, tidy};
use crate::semantic::collect;
use crate::semantic::collect::{from_workspace, is_source};
use crate::text;
use crate::text::{contains_text, lines_of, Text};
use crate::types::{AssetReference, AssetReferenceView};
use vstd::prelude::*;

verus! {

// ---------------------------------------------------------------------------
// The pattern
// ---------------------------------------------------------------------------

/// The character means something in a regular expression.
pub open spec fn is_meta(c: char) -> bool {
    c == '\\' || c == '.' || c == '+' || c == '*' || c == '?' || c == '(' || c == ')' || c == '|'
        || c == '[' || c == ']' || c == '{' || c == '}' || c == '^' || c == '$' || c == '#' || c
        == '&' || c == '-' || c == '~'
}

/// The regular expression that matches the text.
pub open spec fn regex_escaped(s: Text) -> Text
    decreases s.len(),
{
    if s.len() == 0 {
        Seq::empty()
    } else if is_meta(s.last()) {
        regex_escaped(s.drop_last()).push('\\').push(s.last())
    } else {
        regex_escaped(s.drop_last()).push(s.last())
    }
}

/// `regex::escape`: the text with a backslash before each character that means something in a
/// regular expression.
#[verifier::external_body]
fn escape_regex(s: &str) -> (r: String)
    ensures
        r@ == regex_escaped(s@),
{
    regex::escape(s)
}

/// What the first group captures in each match of a pattern in a text, with its place.
pub open spec fn path_captures(pattern: Text, text: Text) -> Seq<Option<(usize, Text)>> {
    groups_of_all(pattern, text).map_values(
        |groups: Seq<Option<(usize, Text)>>| group_at(groups, 1),
    )
}

/// What the first group captures in each match of the pattern in the text.
fn capture_paths(pattern: &str, text: &str) -> (r: Vec<Option<(usize, String)>>)
    ensures
        r.deep_view() == path_captures(pattern@, text@),
{
    let found = captures::capture_all(pattern, text);
    let ghost all = path_captures(pattern@, text@);
    let mut out: Vec<Option<(usize, String)>> = Vec::new();
    let mut i: usize = 0;
    assert(out.deep_view() =~= all.take(0));
    while i < found.len()
        invariant
            i <= found.len(),
            found.deep_view() == groups_of_all(pattern@, text@),
            all == path_captures(pattern@, text@),
            out.deep_view() == all.take(i as int),
        decreases found.len() - i,
    {
        assert(found.deep_view()[i as int] == found@[i as int].deep_view());
        let path = captures::copy_group(&found[i], 1);
        let ghost view = path.deep_view();
        let ghost before = out.deep_view();
        assert(view == all[i as int]);
        out.push(path);
        assert(out.deep_view() =~= before.push(view));
        assert(all.take(i + 1) =~= all.take(i as int).push(view));
        i += 1;
    }
    assert(all.take(i as int) =~= all);
    out
}

/// The pattern for a quoted path that ends in the name.
pub open spec fn quoted_path(name: Text) -> Text {
    "['\"`](?P<path>[^'\"`]*"@ + regex_escaped(name) + ")['\\\"`]"@
}

// ---------------------------------------------------------------------------
// Paths
// ---------------------------------------------------------------------------

/// The segments that are left when `.` is dropped and `..` takes back what precedes it, the root
/// too.
pub open spec fn collapsed(from_root: bool, segs: Seq<Text>) -> (bool, Seq<Text>)
    decreases segs.len(),
{
    if segs.len() == 0 {
        (from_root, Seq::empty())
    } else {
        let (rooted, before) = collapsed(from_root, segs.drop_last());
        if segs.last() == "."@ {
            (rooted, before)
        } else if segs.last() == ".."@ {
            if before.len() > 0 {
                (rooted, before.drop_last())
            } else {
                (false, before)
            }
        } else {
            (rooted, before.push(segs.last()))
        }
    }
}

/// The place that a path leads to.
pub open spec fn place_of(p: Text) -> (bool, Seq<Text>) {
    collapsed(absolute(p), segments(p))
}

/// The directory of a source.
pub open spec fn dir_of(source: Text) -> Text {
    match path_parent(source) {
        Some(dir) => dir,
        None => "."@,
    }
}

/// A path in a source leads to the asset.
pub open spec fn leads_to_asset(cwd: Text, source: Text, path: Text, asset: Text) -> bool {
    place_of(path_join(path_join(cwd, dir_of(source)), path)) == place_of(path_join(cwd, asset))
}

// ---------------------------------------------------------------------------
// References
// ---------------------------------------------------------------------------

/// The references to the asset among the paths found in a line.
pub open spec fn references_among(
    cwd: Text,
    source: Text,
    line: nat,
    found: Seq<Option<(usize, Text)>>,
    asset: Text,
) -> Seq<AssetReferenceView>
    decreases found.len(),
{
    if found.len() == 0 {
        Seq::empty()
    } else {
        let before = references_among(cwd, source, line, found.drop_last(), asset);
        match found.last() {
            Some((column, path)) => if leads_to_asset(cwd, source, path, asset) {
                before.push(
                    AssetReferenceView {
                        source_file: from_workspace(source, cwd),
                        line,
                        column: column as nat,
                        matched_path: path,
                    },
                )
            } else {
                before
            },
            None => before,
        }
    }
}

/// The references to the asset in some lines. A line that does not hold the name is passed over.
pub open spec fn references_in_lines(
    cwd: Text,
    source: Text,
    lines: Seq<Text>,
    name: Text,
    asset: Text,
) -> Seq<AssetReferenceView>
    decreases lines.len(),
{
    if lines.len() == 0 {
        Seq::empty()
    } else {
        let before = references_in_lines(cwd, source, lines.drop_last(), name, asset);
        if contains_text(lines.last(), name) {
            before + references_among(
                cwd,
                source,
                lines.len(),
                path_captures(quoted_path(name), lines.last()),
                asset,
            )
        } else {
            before
        }
    }
}

/// The references to the asset in a source.
pub open spec fn references_in(cwd: Text, source: Text, content: Text, asset: Text) -> Seq<
    AssetReferenceView,
> {
    match path_name(asset) {
        Some(name) => if contains_text(content, name) {
            references_in_lines(cwd, source, lines_of(content), name, asset)
        } else {
            Seq::empty()
        },
        None => Seq::empty(),
    }
}

/// References by asset.
pub type AssetMap = Map<Text, Seq<AssetReferenceView>>;

/// The map in which each asset has no references.
pub open spec fn without_references(assets: Seq<Text>) -> AssetMap
    decreases assets.len(),
{
    if assets.len() == 0 {
        Map::empty()
    } else {
        without_references(assets.drop_last()).insert(tidy(assets.last()), Seq::empty())
    }
}

/// The map with the references in one source to some assets.
pub open spec fn with_source_references(
    map: AssetMap,
    cwd: Text,
    source: Text,
    content: Text,
    assets: Seq<Text>,
) -> AssetMap
    decreases assets.len(),
{
    if assets.len() == 0 {
        map
    } else {
        let before = with_source_references(map, cwd, source, content, assets.drop_last());
        let asset = assets.last();
        before.insert(
            tidy(asset),
            before[tidy(asset)] + references_in(cwd, source, content, asset),
        )
    }
}

/// The references in some files to some assets: those in readable sources count.
pub open spec fn asset_references(
    tree: FileTree,
    cwd: Text,
    files: Seq<Text>,
    assets: Seq<Text>,
) -> AssetMap
    decreases files.len(),
{
    if files.len() == 0 {
        without_references(assets)
    } else {
        let before = asset_references(tree, cwd, files.drop_last(), assets);
        let file = files.last();
        match tree.content(file) {
            Some(content) => if is_source(file) {
                with_source_references(before, cwd, file, content, assets)
            } else {
                before
            },
            None => before,
        }
    }
}

// ---------------------------------------------------------------------------
// Executable
// ---------------------------------------------------------------------------

/// The place that a path leads to.
fn normalize_path(p: &str) -> (r: (bool, Vec<String>))
    ensures
        (r.0, r.1.deep_view()) == place_of(p@),
{
    let segs = paths::split_path(p);
    let from_root = paths::is_absolute(p);
    let ghost all = segs.deep_view();
    let mut rooted = from_root;
    let mut out: Vec<String> = Vec::new();
    let mut i: usize = 0;
    assert(all.take(0) =~= Seq::<Text>::empty());
    assert(out.deep_view() =~= Seq::<Text>::empty());
    while i < segs.len()
        invariant
            i <= segs.len(),
            all == segs.deep_view(),
            (rooted, out.deep_view()) == collapsed(from_root, all.take(i as int)),
        decreases segs.len() - i,
    {
        assert(all.take(i + 1).drop_last() =~= all.take(i as int));
        assert(all.take(i + 1).last() == segs@[i as int]@);
        let ghost before = out.deep_view();
        assert(before.len() == out.len());
        let segment = segs[i].as_str();
        if text::same(segment, ".") {
        } else if text::same(segment, "..") {
            if out.len() > 0 {
                out.pop();
                assert(out.deep_view() =~= before.drop_last());
            } else {
                rooted = false;
            }
        } else {
            out.push(segs[i].clone());
            assert(out.deep_view() =~= before.push(segment@));
        }
        i += 1;
    }
    assert(all.take(i as int) =~= all);
    (rooted, out)
}

/// Whether two lists of texts are the same.
fn same_texts(a: &Vec<String>, b: &Vec<String>) -> (r: bool)
    ensures
        r == (a.deep_view() == b.deep_view()),
{
    if a.len() != b.len() {
        assert(a.deep_view().len() != b.deep_view().len());
        return false;
    }
    let mut i: usize = 0;
    while i < a.len()
        invariant
            i <= a.len(),
            a.len() == b.len(),
            forall|j: int| 0 <= j < i ==> a.deep_view()[j] == b.deep_view()[j],
        decreases a.len() - i,
    {
        if !text::same(a[i].as_str(), b[i].as_str()) {
            assert(a.deep_view()[i as int] != b.deep_view()[i as int]);
            return false;
        }
        i += 1;
    }
    assert(a.deep_view() =~= b.deep_view());
    true
}

/// Finds references to assets in sources.
pub struct AssetReferenceFinder {
    cwd: String,
}

impl AssetReferenceFinder {
    /// The workspace root.
    pub closed spec fn root(&self) -> Text {
        self.cwd@
    }

    /// A finder for the workspace at `cwd`.
    pub fn new(cwd: &str) -> (r: Self)
        ensures
            r.root() == cwd@,
    {
        AssetReferenceFinder { cwd: cwd.to_owned() }
    }

    /// Whether a path in a source leads to the asset.
    pub fn path_resolves_to(&self, source_file: &str, rel_path: &str, asset_path: &str) -> (r: bool)
        ensures
            r == leads_to_asset(self.root(), source_file@, rel_path@, asset_path@),
    {
        let dir = match paths::parent(source_file) {
            Some(d) => d,
            None => ".".to_owned(),
        };
        let from = paths::join(self.cwd.as_str(), dir.as_str());
        let (a_rooted, a) = normalize_path(paths::join(from.as_str(), rel_path).as_str());
        let (b_rooted, b) = normalize_path(
            paths::join(self.cwd.as_str(), asset_path).as_str(),
        );
        a_rooted == b_rooted && same_texts(&a, &b)
    }

    /// Appends the references to the asset among the paths found in a line.
    pub fn push_references(
        &self,
        source_file: &str,
        line: usize,
        found: &Vec<Option<(usize, String)>>,
        asset_path: &str,
        out: &mut Vec<AssetReference>,
    )
        ensures
            final(out).deep_view() == old(out).deep_view() + references_among(
                self.root(),
                source_file@,
                line as nat,
                found.deep_view(),
                asset_path@,
            ),
    {
        let ghost cwd = self.root();
        let ghost all = found.deep_view();
        let ghost start = out.deep_view();
        let mut i: usize = 0;
        assert(all.take(0) =~= Seq::<Option<(usize, Text)>>::empty());
        assert(out.deep_view() =~= start + Seq::<AssetReferenceView>::empty());
        while i < found.len()
            invariant
                i <= found.len(),
                all == found.deep_view(),
                cwd == self.root(),
                out.deep_view() == start + references_among(
                    cwd,
                    source_file@,
                    line as nat,
                    all.take(i as int),
                    asset_path@,
                ),
            decreases found.len() - i,
        {
            let ghost done = references_among(
                cwd,
                source_file@,
                line as nat,
                all.take(i as int),
                asset_path@,
            );
            let ghost before = out.deep_view();
            proof {
                assert(all.take(i + 1).drop_last() =~= all.take(i as int));
                assert(all.take(i + 1).last() == found@[i as int].deep_view());
            }
            if let Some((column, path)) = &found[i] {
                if self.path_resolves_to(source_file, path.as_str(), asset_path) {
                    let reference = AssetReference {
                        source_file: paths::strip_prefix_or_self(source_file, self.cwd.as_str()),
                        line,
                        column: *column,
                        matched_path: path.clone(),
                    };
                    let ghost view = reference.deep_view();
                    out.push(reference);
                    assert(out.deep_view() =~= before.push(view));
                    assert(out.deep_view() =~= start + done.push(view));
                }
            }
            i += 1;
        }
        assert(all.take(i as int) =~= all);
    }

    /// The references to the asset in the content of a source.
    fn search_content(&self, source_file: &str, content: &str, name: &str, asset_path: &str) -> (r:
        Vec<AssetReference>)
        ensures
            r.deep_view() == references_in_lines(
                self.root(),
                source_file@,
                lines_of(content@),
                name@,
                asset_path@,
            ),
    {
        let ghost cwd = self.root();
        let lines = text::lines(content);
        let ghost all = lines.deep_view();
        let escaped = escape_regex(name);
        let pattern = text::cat3("['\"`](?P<path>[^'\"`]*", escaped.as_str(), ")['\\\"`]");
        let mut out: Vec<AssetReference> = Vec::new();
        let mut i: usize = 0;
        assert(all.take(0) =~= Seq::<Text>::empty());
        assert(out.deep_view() =~= Seq::<AssetReferenceView>::empty());
        while i < lines.len()
            invariant
                i <= lines.len(),
                all == lines.deep_view(),
                all == lines_of(content@),
                cwd == self.root(),
                pattern@ == quoted_path(name@),
                out.deep_view() == references_in_lines(
                    cwd,
                    source_file@,
                    all.take(i as int),
                    name@,
                    asset_path@,
                ),
            decreases lines.len() - i,
        {
            assert(all.take(i + 1).drop_last() =~= all.take(i as int));
            assert(all.take(i + 1).last() == lines@[i as int]@);
            let line = lines[i].as_str();
            if text::contains(line, name) {
                let found = capture_paths(pattern.as_str(), line);
                self.push_references(source_file, i + 1, &found, asset_path, &mut out);
            }
            i += 1;
        }
        assert(all.take(i as int) =~= all);
        out
    }

    /// Adds the references in one source to some assets.
    fn add_references(
        &self,
        source_file: &str,
        content: &str,
        asset_paths: &Vec<String>,
        results: StringMap<Vec<AssetReference>>,
    ) -> (r: StringMap<Vec<AssetReference>>)
        requires
            forall|i: int|
                0 <= i < asset_paths@.len() ==> results@.contains_key(
                    tidy((#[trigger] asset_paths@[i])@),
                ),
        ensures
            map_view(r@) == with_source_references(
                map_view(results@),
                self.root(),
                source_file@,
                content@,
                asset_paths.deep_view(),
            ),
            r@.dom() == results@.dom(),
    {
        let ghost cwd = self.root();
        let ghost start = map_view(results@);
        let ghost all = asset_paths.deep_view();
        let ghost keys = results@.dom();
        let chars = text::chars_of(content);
        let mut out = results;
        let mut i: usize = 0;
        assert(all.take(0) =~= Seq::<Text>::empty());
        while i < asset_paths.len()
            invariant
                i <= asset_paths.len(),
                all == asset_paths.deep_view(),
                cwd == self.root(),
                chars@ == content@,
                out@.dom() == keys,
                forall|i: int|
                    0 <= i < asset_paths@.len() ==> keys.contains(
                        tidy((#[trigger] asset_paths@[i])@),
                    ),
                map_view(out@) == with_source_references(
                    start,
                    cwd,
                    source_file@,
                    content@,
                    all.take(i as int),
                ),
            decreases asset_paths.len() - i,
        {
            let ghost before = map_view(out@);
            let asset = asset_paths[i].as_str();
            proof {
                assert(all.take(i + 1).drop_last() =~= all.take(i as int));
                assert(all.take(i + 1).last() == asset@);
                assert(keys.contains(tidy(asset_paths@[i as int]@)));
            }
            let mut found: Vec<AssetReference> = Vec::new();
            assert(found.deep_view() =~= Seq::<AssetReferenceView>::empty());
            if let Some(name) = paths::file_name(asset) {
                let name_chars = text::chars_of(name.as_str());
                proof {
                    text::lemma_contains_is_first(content@, name@);
                }
                if text::find_from(&chars, &name_chars, 0).is_some() {
                    found = self.search_content(source_file, content, name.as_str(), asset);
                }
            }
            assert(found.deep_view() == references_in(cwd, source_file@, content@, asset@));
            let ghost more = found.deep_view();
            if found.len() > 0 {
                let ghost whole = out@;
                let key = paths::tidied(asset);
                let mut refs = match out.insert(key.clone(), Vec::new()) {
                    Some(refs) => refs,
                    None => Vec::new(),
                };
                let ghost had = refs.deep_view();
                refs.append(&mut found);
                assert(refs.deep_view() =~= had + more);
                out.insert(key, refs);
                proof {
                    assert(out@ =~= whole.insert(tidy(asset@), refs));
                    assert(map_view(out@) =~= before.insert(tidy(asset@), had + more));
                    assert(out@.dom() =~= keys);
                }
            } else {
                proof {
                    assert(more =~= Seq::<AssetReferenceView>::empty());
                    assert(before[tidy(asset@)] + more =~= before[tidy(asset@)]);
                    assert(before.insert(tidy(asset@), before[tidy(asset@)]) =~= before);
                }
            }
            i += 1;
        }
        assert(all.take(i as int) =~= all);
        out
    }

    /// The references to each of the assets, in the files that a walk comes by. Every asset has an
    /// entry under its path in tidy form, if only an empty one.
    pub fn find_references_batch(
        &self,
        asset_paths: &Vec<String>,
        walked: &Vec<String>,
        tree: &FileTree,
    ) -> (r: Result<StringMap<Vec<AssetReference>>, DominoError>)
        ensures
            r is Ok,
            map_view(r->Ok_0@) == asset_references(
                *tree,
                self.root(),
                walked.deep_view(),
                asset_paths.deep_view(),
            ),
            forall|i: int|
                0 <= i < asset_paths@.len() ==> r->Ok_0@.contains_key(
                    tidy((#[trigger] asset_paths@[i])@),
                ),
    {
        let ghost cwd = self.root();
        let ghost assets = asset_paths.deep_view();
        let mut results: StringMap<Vec<AssetReference>> = StringMap::new();
        let mut i: usize = 0;
        assert(assets.take(0) =~= Seq::<Text>::empty());
        assert(map_view(results@) =~= Map::<Text, Seq<AssetReferenceView>>::empty());
        while i < asset_paths.len()
            invariant
                i <= asset_paths.len(),
                assets == asset_paths.deep_view(),
                map_view(results@) == without_references(assets.take(i as int)),
                forall|j: int|
                    0 <= j < i ==> results@.contains_key(tidy((#[trigger] asset_paths@[j])@)),
            decreases asset_paths.len() - i,
        {
            assert(assets.take(i + 1).drop_last() =~= assets.take(i as int));
            assert(assets.take(i + 1).last() == asset_paths@[i as int]@);
            let ghost before = results@;
            let none: Vec<AssetReference> = Vec::new();
            assert(none.deep_view() =~= Seq::<AssetReferenceView>::empty());
            results.insert(paths::tidied(asset_paths[i].as_str()), none);
            assert(map_view(results@) =~= map_view(before).insert(
                tidy(asset_paths@[i as int]@),
                Seq::<AssetReferenceView>::empty(),
            ));
            i += 1;
        }
        assert(assets.take(i as int) =~= assets);
        let ghost files = walked.deep_view();
        let ghost keys = results@.dom();
        let mut k: usize = 0;
        assert(files.take(0) =~= Seq::<Text>::empty());
        while k < walked.len()
            invariant
                k <= walked.len(),
                files == walked.deep_view(),
                assets == asset_paths.deep_view(),
                cwd == self.root(),
                results@.dom() == keys,
                forall|j: int|
                    0 <= j < asset_paths@.len() ==> keys.contains(
                        tidy((#[trigger] asset_paths@[j])@),
                    ),
                map_view(results@) == asset_references(*tree, cwd, files.take(k as int), assets),
            decreases walked.len() - k,
        {
            assert(files.take(k + 1).drop_last() =~= files.take(k as int));
            assert(files.take(k + 1).last() == walked@[k as int]@);
            let file = walked[k].as_str();
            if collect::is_source_file(file) {
                if let Some(content) = tree.read(file) {
                    results = self.add_references(file, content, asset_paths, results);
                }
            }
            k += 1;
        }
        assert(files.take(k as int) =~= files);
        Ok(results)
    }
}

/// The view of a map of references.
pub open spec fn map_view(m: Map<Text, Vec<AssetReference>>) -> AssetMap {
    m.map_values(|v: Vec<AssetReference>| v.deep_view())
}

// ---------------------------------------------------------------------------
// What holds of all assets
// ---------------------------------------------------------------------------

/// Every reference is a path that leads to the asset.
pub proof fn lemma_reference_leads(
    cwd: Text,
    source: Text,
    line: nat,
    found: Seq<Option<(usize, Text)>>,
    asset: Text,
    i: int,
)
    requires
        0 <= i < references_among(cwd, source, line, found, asset).len(),
    ensures
        leads_to_asset(
            cwd,
            source,
            references_among(cwd, source, line, found, asset)[i].matched_path,
            asset,
        ),
    decreases found.len(),
{
    let before = references_among(cwd, source, line, found.drop_last(), asset);
    if i < before.len() {
        lemma_reference_leads(cwd, source, line, found.drop_last(), asset, i);
        assert(references_among(cwd, source, line, found, asset)[i] == before[i]);
    }
}

/// The paths are all different.
pub open spec fn are_distinct(paths: Seq<Text>) -> bool {
    forall|i: int, j: int|
        0 <= i < j < paths.len() ==> tidy(#[trigger] paths[i]) != tidy(#[trigger] paths[j])
}

/// The references in one source to assets that are all different: those to the `at`-th stand in its
/// entry, and no other entry changes.
proof fn lemma_source_alone(
    map: AssetMap,
    cwd: Text,
    source: Text,
    content: Text,
    assets: Seq<Text>,
    at: int,
)
    requires
        are_distinct(assets),
        0 <= at < assets.len(),
    ensures
        with_source_references(map, cwd, source, content, assets)[tidy(assets[at])] == map[tidy(
            assets[at],
        )] + references_in(cwd, source, content, assets[at]),
    decreases assets.len(),
{
    let init = assets.drop_last();
    let last = assets.len() - 1;
    assert forall|i: int, j: int| 0 <= i < j < init.len() implies tidy(#[trigger] init[i]) != tidy(
        #[trigger] init[j],
    ) by {
        assert(init[i] == assets[i] && init[j] == assets[j]);
    }
    if at < last {
        lemma_source_alone(map, cwd, source, content, init, at);
        assert(init[at] == assets[at]);
        assert(tidy(assets[at]) != tidy(assets[last]));
    } else {
        assert forall|i: int| 0 <= i < init.len() implies tidy(#[trigger] init[i]) != tidy(
            assets[last],
        ) by {
            assert(init[i] == assets[i]);
        }
        lemma_source_others(map, cwd, source, content, init, tidy(assets[last]));
    }
}

/// The references in one source to some assets change no entry of another asset.
proof fn lemma_source_others(
    map: AssetMap,
    cwd: Text,
    source: Text,
    content: Text,
    assets: Seq<Text>,
    key: Text,
)
    requires
        forall|i: int| 0 <= i < assets.len() ==> tidy(#[trigger] assets[i]) != key,
    ensures
        with_source_references(map, cwd, source, content, assets)[key] == map[key],
    decreases assets.len(),
{
    if assets.len() > 0 {
        let init = assets.drop_last();
        assert forall|i: int| 0 <= i < init.len() implies tidy(#[trigger] init[i]) != key by {
            assert(init[i] == assets[i]);
        }
        lemma_source_others(map, cwd, source, content, init, key);
        assert(tidy(assets[assets.len() - 1]) != key);
    }
}

/// No references stand in the map at first.
proof fn lemma_without_references(assets: Seq<Text>, at: int)
    requires
        0 <= at < assets.len(),
    ensures
        without_references(assets)[tidy(assets[at])] == Seq::<AssetReferenceView>::empty(),
    decreases assets.len(),
{
    if at < assets.len() - 1 {
        assert(assets.drop_last()[at] == assets[at]);
        lemma_without_references(assets.drop_last(), at);
    }
}

/// Looking for many assets at once finds what looking for each alone finds.
pub proof fn lemma_batch_is_each(
    tree: FileTree,
    cwd: Text,
    files: Seq<Text>,
    assets: Seq<Text>,
    at: int,
)
    requires
        are_distinct(assets),
        0 <= at < assets.len(),
    ensures
        asset_references(tree, cwd, files, assets)[tidy(assets[at])] == asset_references(
            tree,
            cwd,
            files,
            seq![assets[at]],
        )[tidy(assets[at])],
    decreases files.len(),
{
    let alone = seq![assets[at]];
    assert(alone[0] == assets[at]);
    if files.len() == 0 {
        lemma_without_references(assets, at);
        lemma_without_references(alone, 0);
    } else {
        lemma_batch_is_each(tree, cwd, files.drop_last(), assets, at);
        match tree.content(files.last()) {
            Some(content) => {
                lemma_source_alone(
                    asset_references(tree, cwd, files.drop_last(), assets),
                    cwd,
                    files.last(),
                    content,
                    assets,
                    at,
                );
                lemma_source_alone(
                    asset_references(tree, cwd, files.drop_last(), alone),
                    cwd,
                    files.last(),
                    content,
                    alone,
                    0,
                );
            },
            None => {},
        }
    }
}

} // verus!
