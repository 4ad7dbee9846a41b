//! What holds of every question to git.

use crate::error::ErrorView;
use crate::git::{
    changed_files_answer, diff_args, diff_changes, diff_fits, file_answer, file_diff_change, file_diffs,
    hunk_fits, hunk_header_matches, hunks_fit, merge_base, resolved_ref, ProgressView, ReplyView,
};
use crate::text::{pieces_by, trimmed, Text};
use crate::types::ChangedFileView;
use vstd::prelude::*;

verus! {

/// The command ended well and wrote the text.
pub open spec fn wrote(reply: ReplyView, out: Text) -> bool {
    reply is Ended && reply->success && reply->stdout == out
}

/// The command ended badly and complained.
pub open spec fn complained(reply: ReplyView, err: Text) -> bool {
    reply is Ended && !reply->success && reply->stderr == err
}

/// A reference is looked up by `git rev-parse`; its commit is what that wrote, without white space
/// around it. A complaint is passed on.
pub proof fn lemma_reference(reference: Text, replies: Seq<ReplyView>, out: Text)
    ensures
        replies.len() == 0 ==> resolved_ref(reference, replies) == ProgressView::<Text>::Run(
            seq!["rev-parse"@, reference],
        ),
        replies.len() > 0 && wrote(replies[0], out) ==> resolved_ref(reference, replies)
            == ProgressView::<Text>::Done(trimmed(out)),
        replies.len() > 0 && complained(replies[0], out) ==> resolved_ref(reference, replies)
            == ProgressView::<Text>::Failed(
            ErrorView::Other("Git rev-parse failed for '"@ + reference + "': "@ + out),
        ),
        replies.len() > 0 && replies[0] is NotStarted ==> resolved_ref(reference, replies)
            == ProgressView::<Text>::Failed(
            ErrorView::Other("Failed to execute git rev-parse: "@ + replies[0]->NotStarted_0),
        ),
{
}

/// The commit where two lines parted is what `git merge-base` wrote. Where it ended badly or wrote
/// nothing, the base itself is looked up.
pub proof fn lemma_merge_base(base: Text, head: Text, replies: Seq<ReplyView>, out: Text)
    ensures
        replies.len() == 0 ==> merge_base(base, head, replies) == ProgressView::<Text>::Run(
            seq!["merge-base"@, base, head],
        ),
        replies.len() > 0 && wrote(replies[0], out) && trimmed(out).len() > 0 ==> merge_base(
            base,
            head,
            replies,
        ) == ProgressView::<Text>::Done(trimmed(out)),
        replies.len() == 1 && (wrote(replies[0], out) && trimmed(out).len() == 0 || complained(
            replies[0],
            out,
        )) ==> merge_base(base, head, replies) == ProgressView::<Text>::Run(
            seq!["rev-parse"@, base],
        ),
        replies.len() == 2 && complained(replies[0], out) && replies[1] is Ended
            && replies[1]->success ==> merge_base(base, head, replies)
            == ProgressView::<Text>::Done(trimmed(replies[1]->stdout)),
        replies.len() > 0 && replies[0] is NotStarted ==> merge_base(base, head, replies)
            == ProgressView::<Text>::Failed(
            ErrorView::Other("Failed to execute git merge-base: "@ + replies[0]->NotStarted_0),
        ),
{
}

/// With a head, the base is looked up first; then the diff goes from its commit to the head, and the
/// answer is what the diff changes, with that commit.
pub proof fn lemma_changes_to_head(
    base: Text,
    head: Text,
    replies: Seq<ReplyView>,
    commit: Text,
    diff: Text,
)
    ensures
        replies.len() == 0 ==> changed_files_answer(base, Some(head), replies) == ProgressView::<
            Option<(Seq<ChangedFileView>, Text)>,
        >::Run(seq!["rev-parse"@, base]),
        replies.len() == 1 && wrote(replies[0], commit) ==> changed_files_answer(
            base,
            Some(head),
            replies,
        ) == ProgressView::<Option<(Seq<ChangedFileView>, Text)>>::Run(
            seq!["diff"@, trimmed(commit) + ".."@ + head, "--unified=0"@, "--relative"@],
        ),
        replies.len() == 2 && wrote(replies[0], commit) && wrote(replies[1], diff) && diff_fits(diff)
            ==> changed_files_answer(base, Some(head), replies) == ProgressView::<
            Option<(Seq<ChangedFileView>, Text)>,
        >::Done(Some((diff_changes(diff), trimmed(commit)))),
        replies.len() == 2 && wrote(replies[0], commit) && wrote(replies[1], diff) && !diff_fits(
            diff,
        ) ==> changed_files_answer(base, Some(head), replies) == ProgressView::<
            Option<(Seq<ChangedFileView>, Text)>,
        >::Done(None),
        replies.len() == 2 && wrote(replies[0], commit) && complained(replies[1], diff)
            ==> changed_files_answer(base, Some(head), replies) == ProgressView::<
            Option<(Seq<ChangedFileView>, Text)>,
        >::Failed(
            ErrorView::Other("Git diff failed for base '"@ + trimmed(commit) + "': "@ + diff),
        ),
        replies.len() > 0 && complained(replies[0], commit) ==> changed_files_answer(
            base,
            Some(head),
            replies,
        ) is Failed,
{
    assert(diff_args(trimmed(commit), Some(head)) =~= seq![
        "diff"@,
        trimmed(commit) + ".."@ + head,
        "--unified=0"@,
        "--relative"@,
    ]);
}

/// Without a head, the diff goes from where `HEAD` left the base to the working tree.
pub proof fn lemma_changes_to_working_tree(
    base: Text,
    replies: Seq<ReplyView>,
    commit: Text,
    diff: Text,
)
    requires
        trimmed(commit).len() > 0,
    ensures
        replies.len() == 0 ==> changed_files_answer(base, None, replies) == ProgressView::<
            Option<(Seq<ChangedFileView>, Text)>,
        >::Run(seq!["merge-base"@, base, "HEAD"@]),
        replies.len() == 1 && wrote(replies[0], commit) ==> changed_files_answer(
            base,
            None,
            replies,
        ) == ProgressView::<Option<(Seq<ChangedFileView>, Text)>>::Run(
            seq!["diff"@, trimmed(commit), "--unified=0"@, "--relative"@],
        ),
        replies.len() == 2 && wrote(replies[0], commit) && wrote(replies[1], diff) && diff_fits(diff)
            ==> changed_files_answer(base, None, replies) == ProgressView::<
            Option<(Seq<ChangedFileView>, Text)>,
        >::Done(Some((diff_changes(diff), trimmed(commit)))),
{
    assert(diff_args(trimmed(commit), None) =~= seq![
        "diff"@,
        trimmed(commit),
        "--unified=0"@,
        "--relative"@,
    ]);
}

/// Where no common commit is found, the diff goes from the commit of the base itself.
pub proof fn lemma_changes_from_base_itself(
    base: Text,
    replies: Seq<ReplyView>,
    commit: Text,
    diff: Text,
)
    requires
        replies.len() > 0,
        replies[0] is Ended && (!replies[0]->success || trimmed(replies[0]->stdout).len() == 0),
    ensures
        replies.len() == 1 ==> changed_files_answer(base, None, replies) == ProgressView::<
            Option<(Seq<ChangedFileView>, Text)>,
        >::Run(seq!["rev-parse"@, base]),
        replies.len() == 2 && wrote(replies[1], commit) ==> changed_files_answer(
            base,
            None,
            replies,
        ) == ProgressView::<Option<(Seq<ChangedFileView>, Text)>>::Run(
            seq!["diff"@, trimmed(commit), "--unified=0"@, "--relative"@],
        ),
        replies.len() == 3 && wrote(replies[1], commit) && wrote(replies[2], diff) && diff_fits(diff)
            ==> changed_files_answer(base, None, replies) == ProgressView::<
            Option<(Seq<ChangedFileView>, Text)>,
        >::Done(Some((diff_changes(diff), trimmed(commit)))),
{
    assert(diff_args(trimmed(commit), None) =~= seq![
        "diff"@,
        trimmed(commit),
        "--unified=0"@,
        "--relative"@,
    ]);
}

/// A file at a revision is shown by its path from the working directory. What git writes is its
/// content, as it is; where git ends badly, the file was not there.
pub proof fn lemma_file_at_revision(
    revision: Text,
    path: Text,
    replies: Seq<ReplyView>,
    out: Text,
)
    ensures
        replies.len() == 0 ==> file_answer(revision, path, replies) == ProgressView::<
            Option<Text>,
        >::Run(seq!["show"@, revision + ":./"@ + path]),
        replies.len() > 0 && wrote(replies[0], out) ==> file_answer(revision, path, replies)
            == ProgressView::<Option<Text>>::Done(Some(out)),
        replies.len() > 0 && complained(replies[0], out) ==> file_answer(revision, path, replies)
            == ProgressView::<Option<Text>>::Done(None),
        replies.len() > 0 && replies[0] is NotStarted ==> file_answer(revision, path, replies)
            == ProgressView::<Option<Text>>::Failed(
            ErrorView::Other("Failed to execute git show: "@ + replies[0]->NotStarted_0),
        ),
{
}

/// The parts of a diff are what stands behind each `diff --git`; what stands before the first is none.
pub proof fn lemma_diff_parts(diff: Text, i: int)
    requires
        0 < i < pieces_by(diff, "diff --git"@).len(),
    ensures
        file_diffs(diff).len() == pieces_by(diff, "diff --git"@).len() - 1,
        file_diffs(diff)[i - 1] == pieces_by(diff, "diff --git"@)[i],
{
}

/// A diff of one file that says something changes that file, and one that says nothing changes none.
pub proof fn lemma_one_file_diff(front: Text, part: Text, diff: Text)
    requires
        pieces_by(diff, "diff --git"@) == seq![front, part],
    ensures
        file_diff_change(part) is Some ==> diff_changes(diff) == seq![file_diff_change(part)->0],
        file_diff_change(part) is None ==> diff_changes(diff).len() == 0,
{
    reveal_with_fuel(crate::git::changes_in, 2);
    assert(file_diffs(diff) =~= seq![part]);
    assert(seq![part].drop_last() =~= Seq::<Text>::empty());
    if file_diff_change(part) is Some {
        assert(diff_changes(diff) =~= seq![file_diff_change(part)->0]);
    }
}

/// A diff can be written down where each hunk header in each part can.
pub proof fn lemma_diff_fits(diff: Text, i: int, k: int)
    requires
        diff_fits(diff),
        0 <= i < file_diffs(diff).len(),
        0 <= k < hunk_header_matches(file_diffs(diff)[i]).len(),
    ensures
        hunk_fits(hunk_header_matches(file_diffs(diff)[i])[k]),
{
    let hs = hunk_header_matches(file_diffs(diff)[i]);
    assert(hunks_fit(hs));
    assert(hunk_fits(hs[k]));
}

} // verus!
