//! What holds of every comparison with a revision.

use crate::collections::lemma_push_contains;
use crate::error::ErrorView;
use crate::files::FileTree;
use crate::git::{ProgressView, ReplyView};
use crate::git_laws::{complained, wrote};
use crate::glob_match::{glob_matches, is_glob};
use crate::json::{json_document, Json};
use crate::lockfile::affected::{
    affected_answer, current_lockfile, lockfile_text, matched_dependency,
};
use crate::lockfile::bun::bun_lockfile_text;
use crate::lockfile::data::LockfileView;
use crate::lockfile::graph::affected_dependencies;
use crate::lockfile::keys::bare_package;
use crate::lockfile::manager::{is_manifest, lockfile_of, PackageManager};
use crate::lockfile::npm::npm_lockfile_text;
use crate::lockfile::pnpm::pnpm_lockfile_text;
use crate::lockfile::revision::{
    listed_manifests, listing_answer, object_answer,
};
use crate::lockfile::workspace_manifests::{
    any_matches, base_manifests, contents_answer, dirs_found, dirs_matching, is_member_manifest,
    manifests_in, member_manifests, small_content, workspace_dirs, workspace_manifests,
    workspace_patterns,
};
use crate::lockfile::yarn::yarn_lockfile_text;
use crate::paths::{path_join, path_parent, place};
use crate::semantic::reference_laws::lemma_in_sum;
use crate::text::{
    bytes_in, contains_text, decimal, has_prefix, has_suffix, lines_of, number_64, trimmed, Text,
};
use vstd::prelude::*;

verus! {

// ---------------------------------------------------------------------------
// Objects
// ---------------------------------------------------------------------------

/// The reply gives a size of at most 256 megabytes.
pub open spec fn gives_size(reply: ReplyView) -> bool {
    &&& reply is Ended && reply->success && reply->invalid is None
    &&& number_64(trimmed(reply->stdout)) is Some
    &&& number_64(trimmed(reply->stdout))->0 <= 268435456
}

/// The reply gives the content.
pub open spec fn gives_content(reply: ReplyView, content: Text) -> bool {
    reply is Ended && reply->success && reply->invalid is None && reply->stdout == content
}

/// The replies from `at` on give the size of a file, and its content.
pub open spec fn gives_file(replies: Seq<ReplyView>, at: int, content: Text) -> bool {
    gives_size(replies[at]) && gives_content(replies[at + 1], content)
}

/// The reply says that there is no such object.
pub open spec fn says_none(reply: ReplyView) -> bool {
    &&& reply is Ended && !reply->success
    &&& contains_text(reply->stderr, "Not a valid object name"@) || contains_text(
        reply->stderr,
        "does not exist"@,
    ) || contains_text(reply->stderr, "bad file"@)
}

/// The size of an object is asked for first, then its content. What git writes then is the content.
pub proof fn lemma_object_content(object: Text, replies: Seq<ReplyView>, content: Text)
    ensures
        replies.len() == 0 ==> object_answer(object, replies).progress == ProgressView::<
            Option<Text>,
        >::Run(seq!["cat-file"@, "-s"@, object]),
        replies.len() == 1 && gives_size(replies[0]) ==> object_answer(object, replies).progress
            == ProgressView::<Option<Text>>::Run(seq!["cat-file"@, "-p"@, object]),
        replies.len() >= 2 && gives_size(replies[0]) && gives_content(replies[1], content)
            ==> object_answer(object, replies).progress == ProgressView::<Option<Text>>::Done(
            Some(content),
        ) && object_answer(object, replies).used == 2,
        replies.len() >= 2 && gives_size(replies[0]) && replies[1] is Ended && !replies[1]->success
            ==> object_answer(object, replies).progress is Failed,
        replies.len() >= 2 && gives_size(replies[0]) && replies[1] is Ended
            && replies[1]->invalid is Some ==> object_answer(object, replies).progress is Failed,
{
}

/// An object that is not there is no failure. Another complaint is one, and so is a size that is no
/// number or is over the limit.
pub proof fn lemma_object_without_content(object: Text, replies: Seq<ReplyView>)
    requires
        replies.len() > 0,
    ensures
        says_none(replies[0]) ==> object_answer(object, replies).progress == ProgressView::<
            Option<Text>,
        >::Done(None) && object_answer(object, replies).used == 1,
        replies[0] is Ended && !replies[0]->success && !says_none(replies[0]) ==> object_answer(
            object,
            replies,
        ).progress == ProgressView::<Option<Text>>::Failed(
            ErrorView::Other(
                "git cat-file -s failed for '"@ + object + "': "@ + trimmed(replies[0]->stderr),
            ),
        ),
        replies[0] is Ended && replies[0]->success && replies[0]->invalid is Some ==> object_answer(
            object,
            replies,
        ).progress is Failed,
        replies[0] is Ended && replies[0]->success && number_64(trimmed(replies[0]->stdout)) is None
            ==> object_answer(object, replies).progress is Failed,
        replies[0] is Ended && replies[0]->success && number_64(trimmed(replies[0]->stdout)) is Some
            && number_64(trimmed(replies[0]->stdout))->0 > 268435456 ==> object_answer(
            object,
            replies,
        ).progress is Failed,
        replies[0] is NotStarted ==> object_answer(object, replies).progress is Failed,
{
}

// ---------------------------------------------------------------------------
// Manifests at a revision
// ---------------------------------------------------------------------------

/// The manifests of a listing are the paths that end in `/package.json` and hold no `node_modules/`,
/// in order.
pub proof fn lemma_listed_manifests(lines: Seq<Text>)
    ensures
        listed_manifests(lines) == lines.filter(
            |path: Text|
                has_suffix(path, "/package.json"@) && !contains_text(path, "node_modules/"@),
        ),
    decreases lines.len(),
{
    reveal(Seq::filter);
    if lines.len() > 0 {
        lemma_listed_manifests(lines.drop_last());
    }
}

/// The files at a revision are listed by `git ls-tree`, one to a line.
pub proof fn lemma_listing(revision: Text, replies: Seq<ReplyView>, out: Text)
    ensures
        replies.len() == 0 ==> listing_answer(revision, replies) == ProgressView::<Seq<Text>>::Run(
            seq!["ls-tree"@, "-r"@, "--name-only"@, revision],
        ),
        replies.len() > 0 && wrote(replies[0], out) ==> listing_answer(revision, replies)
            == ProgressView::<Seq<Text>>::Done(listed_manifests(lines_of(out))),
        replies.len() > 0 && complained(replies[0], out) ==> listing_answer(revision, replies)
            == ProgressView::<Seq<Text>>::Failed(
            ErrorView::Other("git ls-tree failed for '"@ + revision + "'"@),
        ),
{
}

/// A pattern matches the directory of the manifest.
pub open spec fn is_in_member(patterns: Seq<Text>, path: Text) -> bool {
    path_parent(path) is Some && exists|i: int|
        0 <= i < patterns.len() && glob_matches(#[trigger] patterns[i], path_parent(path)->0, false)
}

/// The members' manifests are those whose directory a pattern matches, in order.
pub proof fn lemma_member_manifests(patterns: Seq<Text>, listed: Seq<Text>)
    ensures
        member_manifests(patterns, listed) == listed.filter(
            |path: Text| is_in_member(patterns, path),
        ),
    decreases listed.len(),
{
    reveal(Seq::filter);
    if listed.len() > 0 {
        let last = listed.last();
        lemma_member_manifests(patterns, listed.drop_last());
        if is_member_manifest(patterns, last) {
            assert(any_matches(patterns, path_parent(last)->0));
            assert(is_in_member(patterns, last));
        }
        if is_in_member(patterns, last) {
            let i = choose|i: int|
                0 <= i < patterns.len() && glob_matches(
                    #[trigger] patterns[i],
                    path_parent(last)->0,
                    false,
                );
            assert(glob_matches(patterns[i], path_parent(last)->0, false));
            assert(any_matches(patterns, path_parent(last)->0));
        }
    }
}

/// Where git gives every file, their contents come in the order of the files, behind what was found.
pub proof fn lemma_contents(
    revision: Text,
    paths: Seq<Text>,
    replies: Seq<ReplyView>,
    found: Seq<Text>,
    contents: Seq<Text>,
)
    requires
        contents.len() == paths.len(),
        replies.len() == 2 * paths.len(),
        forall|i: int|
            0 <= i < paths.len() ==> gives_file(replies, 2 * i, #[trigger] contents[i]),
    ensures
        contents_answer(revision, paths, replies, found).progress == ProgressView::<
            Seq<Text>,
        >::Done(found + contents),
    decreases paths.len(),
{
    if paths.len() == 0 {
        assert(found + contents =~= found);
    } else {
        let c = contents[0];
        let z: int = 0;
        assert(c == contents[z]);
        assert(gives_file(replies, 2 * z, c));
        let object = revision + ":"@ + paths[0];
        lemma_object_content(object, replies, c);
        let rest = replies.skip(2);
        let later = contents.drop_first();
        assert forall|i: int| 0 <= i < paths.drop_first().len() implies gives_file(
            rest,
            2 * i,
            #[trigger] later[i],
        ) by {
            let k = i + 1;
            assert(later[i] == contents[k]);
            assert(gives_file(replies, 2 * k, contents[k]));
            assert(rest[2 * i] == replies[2 * k]);
            assert(rest[2 * i + 1] == replies[2 * k + 1]);
        }
        lemma_contents(revision, paths.drop_first(), rest, found.push(c), later);
        assert(found.push(c) + later =~= found + contents);
    }
}

/// A file that is not there is left out, and one that cannot be had is a failure.
pub proof fn lemma_contents_missing(
    revision: Text,
    path: Text,
    replies: Seq<ReplyView>,
    found: Seq<Text>,
)
    requires
        replies.len() > 0,
    ensures
        says_none(replies[0]) ==> contents_answer(revision, seq![path], replies, found).progress
            == ProgressView::<Seq<Text>>::Done(found),
        replies[0] is Ended && !replies[0]->success && !says_none(replies[0]) ==> contents_answer(
            revision,
            seq![path],
            replies,
            found,
        ).progress is Failed,
{
    reveal_with_fuel(contents_answer, 2);
    lemma_object_without_content(revision + ":"@ + path, replies);
    assert(seq![path].drop_first() =~= Seq::<Text>::empty());
}

/// Where the revision has no manifest in its root there is none; where that one names no workspaces it
/// is the only one; else git is asked for the files.
pub proof fn lemma_base_root(revision: Text, replies: Seq<ReplyView>, root: Text)
    ensures
        replies.len() == 0 ==> base_manifests(revision, replies).progress == ProgressView::<
            Seq<Text>,
        >::Run(seq!["cat-file"@, "-s"@, revision + ":"@ + "package.json"@]),
        replies.len() > 0 && says_none(replies[0]) ==> base_manifests(revision, replies).progress
            == ProgressView::<Seq<Text>>::Done(Seq::empty()) && base_manifests(
            revision,
            replies,
        ).used == 1,
        replies.len() >= 2 && gives_size(replies[0]) && gives_content(replies[1], root)
            && workspace_patterns(root).len() == 0 ==> base_manifests(revision, replies).progress
            == ProgressView::<Seq<Text>>::Done(seq![root]) && base_manifests(
            revision,
            replies,
        ).used == 2,
        replies.len() == 2 && gives_size(replies[0]) && gives_content(replies[1], root)
            && workspace_patterns(root).len() > 0 ==> base_manifests(revision, replies).progress
            == ProgressView::<Seq<Text>>::Run(
            seq!["ls-tree"@, "-r"@, "--name-only"@, revision],
        ),
{
    if replies.len() > 0 {
        lemma_object_without_content(revision + ":"@ + "package.json"@, replies);
    }
    lemma_object_content(revision + ":"@ + "package.json"@, replies, root);
}

/// Where the root names workspaces, the manifests are its own and those of the listed members.
pub proof fn lemma_base_members(
    revision: Text,
    replies: Seq<ReplyView>,
    root: Text,
    listing: Text,
    contents: Seq<Text>,
)
    requires
        replies.len() >= 3,
        gives_size(replies[0]) && gives_content(replies[1], root) && wrote(replies[2], listing),
        workspace_patterns(root).len() > 0,
        contents.len() == member_manifests(
            workspace_patterns(root),
            listed_manifests(lines_of(listing)),
        ).len(),
        replies.len() == 3 + 2 * contents.len(),
        forall|i: int|
            0 <= i < contents.len() ==> gives_file(replies, 3 + 2 * i, #[trigger] contents[i]),
    ensures
        base_manifests(revision, replies).progress == ProgressView::<Seq<Text>>::Done(
            seq![root] + contents,
        ),
{
    lemma_object_content(revision + ":"@ + "package.json"@, replies, root);
    let paths = member_manifests(workspace_patterns(root), listed_manifests(lines_of(listing)));
    let rest = replies.skip(3);
    assert(replies.skip(2)[0] == replies[2]);
    assert forall|i: int| 0 <= i < paths.len() implies gives_file(
        rest,
        2 * i,
        #[trigger] contents[i],
    ) by {
        assert(gives_file(replies, 3 + 2 * i, contents[i]));
        assert(rest[2 * i] == replies[3 + 2 * i]);
        assert(rest[2 * i + 1] == replies[3 + 2 * i + 1]);
    }
    lemma_contents(revision, paths, rest, seq![root], contents);
}

// ---------------------------------------------------------------------------
// Manifests now
// ---------------------------------------------------------------------------

/// The patterns of a manifest are the texts in its array `workspaces`, or in the array `packages`
/// there. A manifest that cannot be read, or that has neither, has none.
pub proof fn lemma_workspace_patterns(manifest: Text, v: Json, items: Vec<Json>)
    requires
        json_document(manifest) == Ok::<Json, Text>(v),
    ensures
        v.member("workspaces"@) == Some(Json::Array(items)) ==> workspace_patterns(manifest)
            == crate::json::texts_in(items@),
        v.member("workspaces"@) is Some && !(v.member("workspaces"@)->0 is Array) && v.member(
            "workspaces"@,
        )->0.member("packages"@) == Some(Json::Array(items)) ==> workspace_patterns(manifest)
            == crate::json::texts_in(items@),
        v.member("workspaces"@) is None ==> workspace_patterns(manifest).len() == 0,
{
    reveal_with_fuel(crate::json::texts_in, 2);
}

/// The directories of a pattern are those that it matches segment by segment, in order.
pub proof fn lemma_dirs_matching(dirs: Seq<Text>, pattern: Text)
    ensures
        dirs_matching(dirs, pattern) == dirs.filter(
            |dir: Text| glob_matches(pattern, dir, true),
        ),
    decreases dirs.len(),
{
    reveal(Seq::filter);
    if dirs.len() > 0 {
        lemma_dirs_matching(dirs.drop_last(), pattern);
    }
}

/// The pattern, as seen from the directory, finds the other directory.
pub open spec fn finds(cwd: Text, pattern: Text, dir: Text) -> bool {
    is_glob(path_join(cwd, pattern)) && glob_matches(place(path_join(cwd, pattern)), dir, true)
}

/// The members' directories are the directories that a pattern finds.
pub proof fn lemma_workspace_dirs(dirs: Seq<Text>, cwd: Text, patterns: Seq<Text>, dir: Text)
    ensures
        workspace_dirs(dirs, cwd, patterns).contains(dir) <==> dirs.contains(dir) && exists|i: int|
            0 <= i < patterns.len() && finds(cwd, #[trigger] patterns[i], dir),
    decreases patterns.len(),
{
    if patterns.len() > 0 {
        let init = patterns.drop_last();
        let n = patterns.len() - 1;
        let last = patterns.last();
        lemma_workspace_dirs(dirs, cwd, init, dir);
        lemma_dirs_found(dirs, cwd, last, dir);
        lemma_in_sum(workspace_dirs(dirs, cwd, init), dirs_found(dirs, cwd, last), dir);
        assert(patterns[n] == last);
        if workspace_dirs(dirs, cwd, init).contains(dir) {
            let i = choose|i: int| 0 <= i < init.len() && finds(cwd, #[trigger] init[i], dir);
            assert(patterns[i] == init[i]);
        }
        if exists|i: int| 0 <= i < patterns.len() && finds(cwd, #[trigger] patterns[i], dir) {
            let i = choose|i: int|
                0 <= i < patterns.len() && finds(cwd, #[trigger] patterns[i], dir);
            if i < n {
                assert(init[i] == patterns[i]);
            }
        }
    }
}

proof fn lemma_dirs_found(dirs: Seq<Text>, cwd: Text, pattern: Text, dir: Text)
    ensures
        dirs_found(dirs, cwd, pattern).contains(dir) <==> dirs.contains(dir) && finds(
            cwd,
            pattern,
            dir,
        ),
{
    if is_glob(path_join(cwd, pattern)) {
        lemma_matching_contains(dirs, place(path_join(cwd, pattern)), dir);
    }
}

proof fn lemma_matching_contains(dirs: Seq<Text>, pattern: Text, dir: Text)
    ensures
        dirs_matching(dirs, pattern).contains(dir) <==> dirs.contains(dir) && glob_matches(
            pattern,
            dir,
            true,
        ),
    decreases dirs.len(),
{
    if dirs.len() > 0 {
        let init = dirs.drop_last();
        lemma_matching_contains(init, pattern, dir);
        assert(dirs =~= init.push(dirs.last()));
        lemma_push_contains(init, dirs.last(), dir);
        lemma_push_contains(dirs_matching(init, pattern), dirs.last(), dir);
    }
}

/// The directory holds a manifest of at most 10 megabytes with that content.
pub open spec fn holds_manifest(files: FileTree, dir: Text, content: Text) -> bool {
    files.content(path_join(dir, "package.json"@)) == Some(content) && bytes_in(content)
        <= 10485760
}

proof fn lemma_manifests_in(files: FileTree, dirs: Seq<Text>, content: Text)
    ensures
        manifests_in(files, dirs).contains(content) <==> exists|i: int|
            0 <= i < dirs.len() && holds_manifest(files, #[trigger] dirs[i], content),
    decreases dirs.len(),
{
    if dirs.len() > 0 {
        let init = dirs.drop_last();
        let n = dirs.len() - 1;
        let last = dirs.last();
        lemma_manifests_in(files, init, content);
        assert(dirs[n] == last);
        if let Some(c) = small_content(files, path_join(last, "package.json"@)) {
            lemma_push_contains(manifests_in(files, init), c, content);
        }
        if manifests_in(files, init).contains(content) {
            let i = choose|i: int|
                0 <= i < init.len() && holds_manifest(files, #[trigger] init[i], content);
            assert(dirs[i] == init[i]);
        }
        if exists|i: int| 0 <= i < dirs.len() && holds_manifest(files, #[trigger] dirs[i], content) {
            let i = choose|i: int|
                0 <= i < dirs.len() && holds_manifest(files, #[trigger] dirs[i], content);
            if i < n {
                assert(init[i] == dirs[i]);
            }
        }
    }
}

/// The manifests of a workspace are that of its root, which comes first, and those in the directories
/// that its patterns find. Without a manifest in the root there is none.
pub proof fn lemma_workspace_manifests(files: FileTree, cwd: Text, root: Text, content: Text)
    ensures
        holds_manifest(files, cwd, root) ==> workspace_manifests(files, cwd).len() > 0
            && workspace_manifests(files, cwd)[0] == root,
        holds_manifest(files, cwd, root) ==> (workspace_manifests(files, cwd).contains(content)
            <==> content == root || exists|dir: Text|
            #![trigger holds_manifest(files, dir, content)]
            holds_manifest(files, dir, content) && files.dir_listing().contains(dir) && exists|i: int|
                0 <= i < workspace_patterns(root).len() && finds(
                    cwd,
                    #[trigger] workspace_patterns(root)[i],
                    dir,
                )),
        (forall|c: Text| !#[trigger] holds_manifest(files, cwd, c)) ==> workspace_manifests(
            files,
            cwd,
        ).len() == 0,
{
    if holds_manifest(files, cwd, root) {
        let patterns = workspace_patterns(root);
        let dirs = workspace_dirs(files.dir_listing(), cwd, patterns);
        let members = manifests_in(files, dirs);
        assert(workspace_manifests(files, cwd) == seq![root] + members);
        lemma_in_sum(seq![root], members, content);
        lemma_manifests_in(files, dirs, content);
        assert(seq![root].contains(content) <==> content == root) by {
            assert(seq![root][0] == root);
        }
        if members.contains(content) {
            let k = choose|k: int|
                0 <= k < dirs.len() && holds_manifest(files, #[trigger] dirs[k], content);
            lemma_workspace_dirs(files.dir_listing(), cwd, patterns, dirs[k]);
            assert(dirs.contains(dirs[k]));
        }
        assert forall|dir: Text|
            #![trigger holds_manifest(files, dir, content)]
            holds_manifest(files, dir, content) && files.dir_listing().contains(dir) && (exists|
                i: int,
            |
                0 <= i < patterns.len() && finds(cwd, #[trigger] patterns[i], dir)) implies members.contains(
            content,
        ) by {
            lemma_workspace_dirs(files.dir_listing(), cwd, patterns, dir);
            let k = choose|k: int| 0 <= k < dirs.len() && dirs[k] == dir;
            assert(holds_manifest(files, dirs[k], content));
        }
    }
    if let Some(c) = small_content(files, path_join(cwd, "package.json"@)) {
        assert(holds_manifest(files, cwd, c));
    }
}

// ---------------------------------------------------------------------------
// The comparison
// ---------------------------------------------------------------------------

/// A lockfile is read as its package manager writes it; only yarn's needs the manifests. One over the
/// limit is refused.
pub proof fn lemma_lockfile_by_manager(content: Text, manifests: Seq<Text>, pm: PackageManager)
    ensures
        bytes_in(content) <= 268435456 ==> lockfile_text(content, PackageManager::Npm, manifests)
            == npm_lockfile_text(content) && lockfile_text(
            content,
            PackageManager::Pnpm,
            manifests,
        ) == pnpm_lockfile_text(content) && lockfile_text(content, PackageManager::Bun, manifests)
            == bun_lockfile_text(content) && lockfile_text(content, PackageManager::Yarn, manifests)
            == yarn_lockfile_text(content, manifests),
        bytes_in(content) > 268435456 ==> lockfile_text(content, pm, manifests) is Err,
{
}

/// The lockfile of a directory is the file of that name in it; one that is not there, that cannot be
/// read or that is too large is a failure.
pub proof fn lemma_current_lockfile(files: FileTree, cwd: Text, pm: PackageManager, content: Text)
    ensures
        files.has_file(path_join(cwd, lockfile_of(pm))) && files.content(
            path_join(cwd, lockfile_of(pm)),
        ) == Some(content) && bytes_in(content) <= 268435456 ==> current_lockfile(files, cwd, pm)
            == Ok::<Text, ErrorView>(content),
        files.content(path_join(cwd, lockfile_of(pm))) == Some(content) && bytes_in(content)
            > 268435456 ==> current_lockfile(files, cwd, pm) is Err,
        files.content(path_join(cwd, lockfile_of(pm))) is None ==> current_lockfile(
            files,
            cwd,
            pm,
        ) is Err,
        !files.has_file(path_join(cwd, lockfile_of(pm))) ==> current_lockfile(files, cwd, pm) is Err,
{
}

/// For npm, pnpm and bun, git is asked for the lockfile at the base alone. The dependencies that are
/// affected are those between it and the lockfile now; where the base had none, all packages are new.
pub proof fn lemma_affected_since(
    files: FileTree,
    cwd: Text,
    base: Text,
    pm: PackageManager,
    replies: Seq<ReplyView>,
    now: Text,
    before: Text,
    current: LockfileView,
    previous: LockfileView,
)
    requires
        !(pm is Yarn),
        current_lockfile(files, cwd, pm) == Ok::<Text, ErrorView>(now),
        lockfile_text(now, pm, Seq::empty()) == Ok::<LockfileView, ErrorView>(current),
    ensures
        replies.len() == 0 ==> affected_answer(files, cwd, base, pm, replies) == ProgressView::<
            Set<Text>,
        >::Run(seq!["cat-file"@, "-s"@, base + ":"@ + lockfile_of(pm)]),
        replies.len() > 0 && says_none(replies[0]) ==> affected_answer(files, cwd, base, pm, replies)
            == ProgressView::<Set<Text>>::Done(
            affected_dependencies(
                current,
                (LockfileView { direct_dependencies: Set::empty(), packages: Map::empty() }),
            ),
        ),
        replies.len() >= 2 && gives_size(replies[0]) && gives_content(replies[1], before)
            && lockfile_text(before, pm, Seq::empty()) == Ok::<LockfileView, ErrorView>(previous)
            ==> affected_answer(files, cwd, base, pm, replies) == ProgressView::<Set<Text>>::Done(
            affected_dependencies(current, previous),
        ),
        replies.len() >= 2 && gives_size(replies[0]) && gives_content(replies[1], before)
            && lockfile_text(before, pm, Seq::empty()) is Err ==> affected_answer(
            files,
            cwd,
            base,
            pm,
            replies,
        ) is Failed,
{
    let object = base + ":"@ + lockfile_of(pm);
    assert(replies.skip(0) =~= replies);
    if replies.len() > 0 {
        lemma_object_without_content(object, replies);
    }
    lemma_object_content(object, replies, before);
}

/// For yarn, the manifests at the base are asked for first. They tell the direct dependencies of the
/// lockfile at the base, and the manifests now those of the lockfile now.
pub proof fn lemma_affected_since_yarn(
    files: FileTree,
    cwd: Text,
    base: Text,
    replies: Seq<ReplyView>,
    now: Text,
    before: Text,
    manifests: Seq<Text>,
    used: int,
    current: LockfileView,
    previous: LockfileView,
)
    requires
        current_lockfile(files, cwd, PackageManager::Yarn) == Ok::<Text, ErrorView>(now),
        lockfile_text(now, PackageManager::Yarn, workspace_manifests(files, cwd)) == Ok::<
            LockfileView,
            ErrorView,
        >(current),
        base_manifests(base, replies).progress == ProgressView::<Seq<Text>>::Done(manifests),
        base_manifests(base, replies).used == used,
        0 <= used,
        replies.len() == used + 2,
        gives_size(replies[used]) && gives_content(replies[used + 1], before),
        lockfile_text(before, PackageManager::Yarn, manifests) == Ok::<LockfileView, ErrorView>(
            previous,
        ),
    ensures
        affected_answer(files, cwd, base, PackageManager::Yarn, replies) == ProgressView::<
            Set<Text>,
        >::Done(affected_dependencies(current, previous)),
{
    let rest = replies.skip(used);
    assert(rest[0] == replies[used] && rest[1] == replies[used + 1]);
    lemma_object_content(base + ":"@ + lockfile_of(PackageManager::Yarn), rest, before);
}

/// An import of a path names no dependency; one of a package names it where it is affected.
pub proof fn lemma_matched_dependency(from_module: Text, affected: Set<Text>)
    ensures
        has_prefix(from_module, "."@) || has_prefix(from_module, "/"@) ==> matched_dependency(
            from_module,
            affected,
        ) is None,
        !has_prefix(from_module, "."@) && !has_prefix(from_module, "/"@) && affected.contains(
            bare_package(from_module),
        ) ==> matched_dependency(from_module, affected) == Some(bare_package(from_module)),
        !affected.contains(bare_package(from_module)) ==> matched_dependency(from_module, affected)
            is None,
{
}

/// Each package manager has a lockfile of its own name. It is a dependency manifest of that manager
/// alone, and `package.json` is one where the lockfile changed.
pub proof fn lemma_lockfile_names(path: Text, pm: PackageManager, changed: bool)
    ensures
        lockfile_of(PackageManager::Npm) == "package-lock.json"@,
        lockfile_of(PackageManager::Yarn) == "yarn.lock"@,
        lockfile_of(PackageManager::Pnpm) == "pnpm-lock.yaml"@,
        lockfile_of(PackageManager::Bun) == "bun.lock"@,
        is_manifest(lockfile_of(pm), Some(pm), changed),
        is_manifest("package.json"@, Some(pm), changed) == changed,
        is_manifest("package.json"@, None, changed) == changed,
        path != "package.json"@ && path != lockfile_of(pm) ==> !is_manifest(path, Some(pm), changed),
        path != "package.json"@ ==> !is_manifest(path, None, changed),
{
    reveal_strlit("package.json");
    reveal_strlit("package-lock.json");
    reveal_strlit("yarn.lock");
    reveal_strlit("pnpm-lock.yaml");
    reveal_strlit("bun.lock");
    assert("pnpm-lock.yaml"@.len() != "package.json"@.len());
    assert("package-lock.json"@.len() != "package.json"@.len());
    assert("yarn.lock"@.len() != "package.json"@.len());
    assert("bun.lock"@.len() != "package.json"@.len());
}

/// The files of the members are asked for one by one, each by its path at the revision.
pub proof fn lemma_contents_asked(
    revision: Text,
    path: Text,
    paths: Seq<Text>,
    replies: Seq<ReplyView>,
    found: Seq<Text>,
)
    ensures
        replies.len() == 0 ==> contents_answer(revision, seq![path] + paths, replies, found).progress
            == ProgressView::<Seq<Text>>::Run(seq!["cat-file"@, "-s"@, revision + ":"@ + path]),
        replies.len() == 1 && gives_size(replies[0]) ==> contents_answer(
            revision,
            seq![path] + paths,
            replies,
            found,
        ).progress == ProgressView::<Seq<Text>>::Run(
            seq!["cat-file"@, "-p"@, revision + ":"@ + path],
        ),
{
    let all = seq![path] + paths;
    assert(all[0] == path);
    lemma_object_content(revision + ":"@ + path, replies, Seq::empty());
}

/// What is too large or cannot be had is told so.
pub proof fn lemma_lockfile_messages(
    files: FileTree,
    cwd: Text,
    pm: PackageManager,
    content: Text,
    manifests: Seq<Text>,
)
    ensures
        bytes_in(content) > 268435456 ==> lockfile_text(content, pm, manifests) == Err::<
            LockfileView,
            ErrorView,
        >(ErrorView::Other("Lockfile exceeds "@ + decimal(256) + " MB size limit"@)),
        !files.has_file(path_join(cwd, lockfile_of(pm))) ==> current_lockfile(files, cwd, pm) == Err::<
            Text,
            ErrorView,
        >(
            ErrorView::Other(
                "Read lockfile metadata: no such file: "@ + path_join(cwd, lockfile_of(pm)),
            ),
        ),
{
}

/// A failure to read an object is told with the object and the reason.
pub proof fn lemma_object_messages(object: Text, replies: Seq<ReplyView>, reason: Text)
    requires
        replies.len() > 1,
        gives_size(replies[0]),
    ensures
        replies[1] == ReplyView::NotStarted(reason) ==> object_answer(object, replies).progress
            == ProgressView::<Option<Text>>::Failed(
            ErrorView::Other("Failed to execute git cat-file -p: "@ + reason),
        ),
        complained(replies[1], reason) ==> object_answer(object, replies).progress == ProgressView::<
            Option<Text>,
        >::Failed(
            ErrorView::Other(
                "git cat-file -p failed for '"@ + object
                    + "' (object exists but content unreadable)"@,
            ),
        ),
        replies[1] is Ended && replies[1]->success && replies[1]->invalid == Some(reason)
            ==> object_answer(object, replies).progress == ProgressView::<Option<Text>>::Failed(
            ErrorView::Other("Invalid UTF-8 in '"@ + object + "': "@ + reason),
        ),
{
}

} // verus!
