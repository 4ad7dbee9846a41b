//! The `package.json` files of a workspace, now and at a revision.

use crate::files::FileTree;
use crate::git::{CommandReply, Progress, ProgressView, ReplyView};
use crate::glob_match;
use crate::glob_match::{glob_matches, is_glob};
use crate::json;
use crate::json::{json_document, texts_in, Json};
use crate::lockfile::revision;
use crate::lockfile::revision::{listing_answer, object_answer, AnswerView};
use crate::paths;
use crate::paths::{path_join, path_parent, place};
use crate::text;
use crate::text::{bytes_in, Text};
use vstd::prelude::*;

verus! {

/// The largest manifest that is read, in bytes.
pub const MAX_PKG_JSON_BYTES: u64 = 10485760;

// ---------------------------------------------------------------------------
// Workspace patterns
// ---------------------------------------------------------------------------

/// The values that a manifest lists as its workspaces: an array, or the array `packages` of an
/// object.
pub open spec fn workspace_items(v: Json) -> Seq<Json> {
    match v.member("workspaces"@) {
        Some(Json::Array(items)) => items@,
        Some(w) => match w.member("packages"@) {
            Some(Json::Array(items)) => items@,
            _ => Seq::empty(),
        },
        None => Seq::empty(),
    }
}

/// The glob patterns that a manifest lists as its workspaces.
pub open spec fn workspace_patterns(manifest: Text) -> Seq<Text> {
    match json_document(manifest) {
        Ok(v) => texts_in(workspace_items(v)),
        Err(_) => Seq::empty(),
    }
}

/// The glob patterns that a parsed manifest lists as its workspaces.
pub fn workspace_pattern_texts(parsed: &Json) -> (r: Vec<String>)
    ensures
        r.deep_view() == texts_in(workspace_items(*parsed)),
{
    let none: Vec<String> = Vec::new();
    assert(none.deep_view() =~= Seq::<Text>::empty());
    match parsed.get("workspaces") {
        Some(Json::Array(items)) => json::collect_texts(items),
        Some(w) => {
            match w.get("packages") {
                Some(Json::Array(items)) => json::collect_texts(items),
                _ => none,
            }
        },
        None => none,
    }
}

/// The glob patterns that a manifest lists as its workspaces.
pub fn extract_workspace_patterns(manifest: &str) -> (r: Vec<String>)
    ensures
        r.deep_view() == workspace_patterns(manifest@),
{
    match json::parse_json(manifest) {
        Ok(parsed) => workspace_pattern_texts(&parsed),
        Err(_) => {
            let none: Vec<String> = Vec::new();
            assert(none.deep_view() =~= Seq::<Text>::empty());
            none
        },
    }
}

/// Whether a workspace pattern matches the path of a directory. A text that is no pattern matches
/// nothing.
pub fn glob_match(pattern: &str, path: &str) -> (r: bool)
    ensures
        r == glob_matches(pattern@, path@, false),
{
    glob_match::match_glob(pattern, path, false)
}

// ---------------------------------------------------------------------------
// Now
// ---------------------------------------------------------------------------

/// The directories that a pattern matches segment by segment, in order.
pub open spec fn dirs_matching(dirs: Seq<Text>, pattern: Text) -> Seq<Text>
    decreases dirs.len(),
{
    if dirs.len() == 0 {
        Seq::empty()
    } else if glob_matches(pattern, dirs.last(), true) {
        dirs_matching(dirs.drop_last(), pattern).push(dirs.last())
    } else {
        dirs_matching(dirs.drop_last(), pattern)
    }
}

/// The directories that a pattern as seen from `cwd` finds. It is followed segment by segment: `.`
/// stays, `..` leads back, and what ends it may be a slash. A text that is no pattern finds nothing.
pub open spec fn dirs_found(dirs: Seq<Text>, cwd: Text, pattern: Text) -> Seq<Text> {
    if is_glob(path_join(cwd, pattern)) {
        dirs_matching(dirs, place(path_join(cwd, pattern)))
    } else {
        Seq::empty()
    }
}

/// The directories that the patterns find, pattern by pattern.
pub open spec fn workspace_dirs(dirs: Seq<Text>, cwd: Text, patterns: Seq<Text>) -> Seq<Text>
    decreases patterns.len(),
{
    if patterns.len() == 0 {
        Seq::empty()
    } else {
        workspace_dirs(dirs, cwd, patterns.drop_last()) + dirs_found(dirs, cwd, patterns.last())
    }
}

/// The content of a file, where it can be read and is not too large.
pub open spec fn small_content(files: FileTree, path: Text) -> Option<Text> {
    match files.content(path) {
        Some(c) => if bytes_in(c) <= MAX_PKG_JSON_BYTES {
            Some(c)
        } else {
            None
        },
        None => None,
    }
}

/// The manifests in some directories, in order.
pub open spec fn manifests_in(files: FileTree, dirs: Seq<Text>) -> Seq<Text>
    decreases dirs.len(),
{
    if dirs.len() == 0 {
        Seq::empty()
    } else {
        let before = manifests_in(files, dirs.drop_last());
        match small_content(files, path_join(dirs.last(), "package.json"@)) {
            Some(c) => before.push(c),
            None => before,
        }
    }
}

/// The manifests of a workspace: that of its root and those of its members.
pub open spec fn workspace_manifests(files: FileTree, cwd: Text) -> Seq<Text> {
    match small_content(files, path_join(cwd, "package.json"@)) {
        Some(root) => seq![root] + manifests_in(
            files,
            workspace_dirs(files.dir_listing(), cwd, workspace_patterns(root)),
        ),
        None => Seq::empty(),
    }
}

/// The content of a file, where it can be read and is not too large.
fn read_if_small(files: &FileTree, path: &str) -> (r: Option<String>)
    ensures
        r.deep_view() == small_content(*files, path@),
{
    match files.read(path) {
        Some(c) => {
            if text::byte_len(c) as u64 <= MAX_PKG_JSON_BYTES {
                Some(c.to_owned())
            } else {
                None
            }
        },
        None => None,
    }
}

/// Appends the directories that a pattern as seen from `cwd` finds.
fn push_dirs_found(files: &FileTree, cwd: &str, pattern: &str, dirs: &mut Vec<String>)
    ensures
        final(dirs).deep_view() == old(dirs).deep_view() + dirs_found(
            files.dir_listing(),
            cwd@,
            pattern@,
        ),
{
    let ghost start = dirs.deep_view();
    let ghost listing = files.dir_listing();
    let whole = paths::join(cwd, pattern);
    if !glob_match::check_glob(whole.as_str()) {
        assert(dirs.deep_view() =~= start + Seq::<Text>::empty());
        return;
    }
    let followed = paths::place_of(whole.as_str());
    let mut j: usize = 0;
    assert(listing.take(0) =~= Seq::<Text>::empty());
    assert(dirs.deep_view() =~= start + Seq::<Text>::empty());
    while j < files.dir_count()
        invariant
            j <= listing.len(),
            listing == files.dir_listing(),
            dirs.deep_view() == start + dirs_matching(listing.take(j as int), followed@),
        decreases listing.len() - j,
    {
        let ghost before = dirs.deep_view();
        assert(listing.take(j + 1).drop_last() =~= listing.take(j as int));
        let dir = files.dir_at(j);
        if glob_match::match_glob(followed.as_str(), dir, true) {
            dirs.push(dir.to_owned());
            assert(dirs.deep_view() =~= before.push(dir@));
            assert(dirs.deep_view() =~= start + dirs_matching(
                listing.take(j as int),
                followed@,
            ).push(dir@));
        }
        j += 1;
    }
    assert(listing.take(j as int) =~= listing);
}

/// The directories that the workspace patterns of a manifest find.
pub fn extract_workspace_globs(manifest: &str, files: &FileTree, cwd: &str) -> (r: Vec<String>)
    ensures
        r.deep_view() == workspace_dirs(files.dir_listing(), cwd@, workspace_patterns(manifest@)),
{
    let patterns = extract_workspace_patterns(manifest);
    let ghost all = patterns.deep_view();
    let ghost listing = files.dir_listing();
    let mut dirs: Vec<String> = Vec::new();
    let mut i: usize = 0;
    assert(all.take(0) =~= Seq::<Text>::empty());
    assert(dirs.deep_view() =~= Seq::<Text>::empty());
    while i < patterns.len()
        invariant
            i <= patterns.len(),
            all == patterns.deep_view(),
            listing == files.dir_listing(),
            dirs.deep_view() == workspace_dirs(listing, cwd@, all.take(i as int)),
        decreases patterns.len() - i,
    {
        assert(all.take(i + 1).drop_last() =~= all.take(i as int));
        assert(all.take(i + 1).last() == patterns@[i as int]@);
        push_dirs_found(files, cwd, patterns[i].as_str(), &mut dirs);
        i += 1;
    }
    assert(all.take(i as int) =~= all);
    dirs
}

/// The manifests of a workspace: that of its root and those of its members.
pub fn collect_workspace_pkg_jsons(files: &FileTree, cwd: &str) -> (r: Vec<String>)
    ensures
        r.deep_view() == workspace_manifests(*files, cwd@),
{
    let mut result: Vec<String> = Vec::new();
    assert(result.deep_view() =~= Seq::<Text>::empty());
    let root = match read_if_small(files, paths::join(cwd, "package.json").as_str()) {
        Some(c) => c,
        None => {
            return result;
        },
    };
    let dirs = extract_workspace_globs(root.as_str(), files, cwd);
    let ghost root_text = root@;
    result.push(root);
    let ghost all = dirs.deep_view();
    let mut i: usize = 0;
    assert(all.take(0) =~= Seq::<Text>::empty());
    assert(result.deep_view() =~= seq![root_text] + Seq::<Text>::empty());
    while i < dirs.len()
        invariant
            i <= dirs.len(),
            all == dirs.deep_view(),
            result.deep_view() == seq![root_text] + manifests_in(*files, all.take(i as int)),
        decreases dirs.len() - i,
    {
        assert(all.take(i + 1).drop_last() =~= all.take(i as int));
        assert(all.take(i + 1).last() == dirs@[i as int]@);
        let ghost before = result.deep_view();
        if let Some(c) = read_if_small(
            files,
            paths::join(dirs[i].as_str(), "package.json").as_str(),
        ) {
            result.push(c);
            assert(result.deep_view() =~= before.push(c@));
            assert(result.deep_view() =~= seq![root_text] + manifests_in(
                *files,
                all.take(i as int),
            ).push(c@));
        }
        i += 1;
    }
    assert(all.take(i as int) =~= all);
    result
}

// ---------------------------------------------------------------------------
// At a revision
// ---------------------------------------------------------------------------

/// One of the patterns matches the path.
pub open spec fn any_matches(patterns: Seq<Text>, path: Text) -> bool {
    exists|i: int| 0 <= i < patterns.len() && glob_matches(#[trigger] patterns[i], path, false)
}

/// The manifest lies in a directory that one of the patterns matches.
pub open spec fn is_member_manifest(patterns: Seq<Text>, path: Text) -> bool {
    match path_parent(path) {
        Some(dir) => any_matches(patterns, dir),
        None => false,
    }
}

/// The manifests that lie in directories that the patterns match, in order.
pub open spec fn member_manifests(patterns: Seq<Text>, listed: Seq<Text>) -> Seq<Text>
    decreases listed.len(),
{
    if listed.len() == 0 {
        Seq::empty()
    } else if is_member_manifest(patterns, listed.last()) {
        member_manifests(patterns, listed.drop_last()).push(listed.last())
    } else {
        member_manifests(patterns, listed.drop_last())
    }
}

/// The contents of some files at a revision behind those in `found`, once git has replied. Files
/// that are not there are left out.
pub open spec fn contents_answer(
    revision: Text,
    paths: Seq<Text>,
    replies: Seq<ReplyView>,
    found: Seq<Text>,
) -> AnswerView<Seq<Text>>
    decreases paths.len(),
{
    if paths.len() == 0 {
        AnswerView { progress: ProgressView::Done(found), used: 0 }
    } else {
        let answer = object_answer(revision + ":"@ + paths[0], replies);
        match answer.progress {
            ProgressView::Run(args) => AnswerView {
                progress: ProgressView::Run(args),
                used: answer.used,
            },
            ProgressView::Failed(e) => AnswerView {
                progress: ProgressView::Failed(e),
                used: answer.used,
            },
            ProgressView::Done(c) => {
                let rest = contents_answer(
                    revision,
                    paths.drop_first(),
                    replies.skip(answer.used),
                    match c {
                        Some(content) => found.push(content),
                        None => found,
                    },
                );
                AnswerView { progress: rest.progress, used: answer.used + rest.used }
            },
        }
    }
}

/// The manifests of the workspace at a revision, once git has replied: that of the root, and those
/// of the members that the root's own patterns name.
pub open spec fn base_manifests(revision: Text, replies: Seq<ReplyView>) -> AnswerView<
    Seq<Text>,
> {
    let first = object_answer(revision + ":"@ + "package.json"@, replies);
    match first.progress {
        ProgressView::Run(args) => AnswerView {
            progress: ProgressView::Run(args),
            used: first.used,
        },
        ProgressView::Failed(e) => AnswerView {
            progress: ProgressView::Failed(e),
            used: first.used,
        },
        ProgressView::Done(None) => AnswerView {
            progress: ProgressView::Done(Seq::empty()),
            used: first.used,
        },
        ProgressView::Done(Some(root)) => if workspace_patterns(root).len() == 0 {
            AnswerView { progress: ProgressView::Done(seq![root]), used: first.used }
        } else {
            match listing_answer(revision, replies.skip(first.used)) {
                ProgressView::Run(args) => AnswerView {
                    progress: ProgressView::Run(args),
                    used: first.used,
                },
                ProgressView::Failed(e) => AnswerView {
                    progress: ProgressView::Failed(e),
                    used: first.used,
                },
                ProgressView::Done(listed) => {
                    let rest = contents_answer(
                        revision,
                        member_manifests(workspace_patterns(root), listed),
                        replies.skip(first.used + 1),
                        seq![root],
                    );
                    AnswerView { progress: rest.progress, used: first.used + 1 + rest.used }
                },
            }
        },
    }
}

/// The manifests that lie in directories that the patterns match.
pub fn select_member_manifests(patterns: &Vec<String>, listed: &Vec<String>) -> (r: Vec<String>)
    ensures
        r.deep_view() == member_manifests(patterns.deep_view(), listed.deep_view()),
{
    let ghost pats = patterns.deep_view();
    let ghost all = listed.deep_view();
    let mut out: Vec<String> = Vec::new();
    let mut i: usize = 0;
    assert(all.take(0) =~= Seq::<Text>::empty());
    assert(out.deep_view() =~= Seq::<Text>::empty());
    while i < listed.len()
        invariant
            i <= listed.len(),
            all == listed.deep_view(),
            pats == patterns.deep_view(),
            out.deep_view() == member_manifests(pats, all.take(i as int)),
        decreases listed.len() - i,
    {
        let ghost before = out.deep_view();
        assert(all.take(i + 1).drop_last() =~= all.take(i as int));
        assert(all.take(i + 1).last() == listed@[i as int]@);
        if let Some(dir) = paths::parent(listed[i].as_str()) {
            let mut hit = false;
            let mut j: usize = 0;
            while j < patterns.len() && !hit
                invariant
                    j <= patterns.len(),
                    pats == patterns.deep_view(),
                    hit ==> any_matches(pats, dir@),
                    !hit ==> forall|k: int|
                        0 <= k < j ==> !glob_matches(#[trigger] pats[k], dir@, false),
                decreases patterns.len() - j + if hit { 0int } else { 1int },
            {
                assert(pats[j as int] == patterns@[j as int]@);
                if glob_match(patterns[j].as_str(), dir.as_str()) {
                    hit = true;
                } else {
                    j += 1;
                }
            }
            if hit {
                out.push(listed[i].clone());
                assert(out.deep_view() =~= before.push(all[i as int]));
            }
        }
        i += 1;
    }
    assert(all.take(i as int) =~= all);
    out
}

/// The manifests of the workspace at a revision, and how many of git's replies the answer took.
pub fn collect_base_workspace_pkg_jsons(merge_base: &str, replies: &Vec<CommandReply>) -> (r: (
    Progress<Vec<String>>,
    usize,
))
    ensures
        (AnswerView { progress: r.0.deep_view(), used: r.1 as int }) == base_manifests(
            merge_base@,
            replies.deep_view(),
        ),
        r.1 <= replies.len(),
{
    let ghost seen = replies.deep_view();
    assert(seen.skip(0) =~= seen);
    let (first, used) = revision::get_file_from_revision(merge_base, "package.json", replies, 0);
    let mut result: Vec<String> = Vec::new();
    assert(result.deep_view() =~= Seq::<Text>::empty());
    let root = match first {
        Progress::Run(args) => {
            return (Progress::Run(args), used);
        },
        Progress::Done(Err(e)) => {
            return (Progress::Done(Err(e)), used);
        },
        Progress::Done(Ok(None)) => {
            return (Progress::Done(Ok(result)), used);
        },
        Progress::Done(Ok(Some(root))) => root,
    };
    let patterns = extract_workspace_patterns(root.as_str());
    assert(patterns.deep_view().len() == patterns.len());
    let ghost root_text = root@;
    result.push(root);
    assert(result.deep_view() =~= seq![root_text]);
    if patterns.len() == 0 {
        return (Progress::Done(Ok(result)), used);
    }
    let listed = match revision::list_package_jsons_at_revision(merge_base, replies, used) {
        Progress::Run(args) => {
            return (Progress::Run(args), used);
        },
        Progress::Done(Err(e)) => {
            return (Progress::Done(Err(e)), used);
        },
        Progress::Done(Ok(listed)) => listed,
    };
    assert(seen.skip(used as int).len() > 0);
    let chosen = select_member_manifests(&patterns, &listed);
    let ghost all = chosen.deep_view();
    let ghost whole = contents_answer(merge_base@, all, seen.skip(used + 1), seq![root_text]);
    let mut at: usize = used + 1;
    let mut i: usize = 0;
    assert(all.skip(0) =~= all);
    while i < chosen.len()
        invariant
            i <= chosen.len(),
            all == chosen.deep_view(),
            seen == replies.deep_view(),
            used + 1 <= at <= replies.len(),
            ({
                let rest = contents_answer(
                    merge_base@,
                    all.skip(i as int),
                    seen.skip(at as int),
                    result.deep_view(),
                );
                whole.progress == rest.progress && whole.used == at - used - 1 + rest.used
            }),
            whole == contents_answer(merge_base@, all, seen.skip(used + 1), seq![root_text]),
            (AnswerView { progress: whole.progress, used: used + 1 + whole.used })
                == base_manifests(merge_base@, seen),
        decreases chosen.len() - i,
    {
        let ghost before = result.deep_view();
        assert(all.skip(i as int)[0] == chosen@[i as int]@);
        assert(all.skip(i as int).drop_first() =~= all.skip(i + 1));
        let (answer, took) = revision::get_file_from_revision(
            merge_base,
            chosen[i].as_str(),
            replies,
            at,
        );
        assert(seen.skip(at as int).skip(took as int) =~= seen.skip(at + took));
        match answer {
            Progress::Run(args) => {
                return (Progress::Run(args), at + took);
            },
            Progress::Done(Err(e)) => {
                return (Progress::Done(Err(e)), at + took);
            },
            Progress::Done(Ok(Some(content))) => {
                result.push(content);
                assert(result.deep_view() =~= before.push(content@));
            },
            Progress::Done(Ok(None)) => {},
        }
        at = at + took;
        i += 1;
    }
    assert(all.skip(i as int).len() == 0);
    (Progress::Done(Ok(result)), at)
}

} // verus!
