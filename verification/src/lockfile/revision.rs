//! Files as they were at a git revision.

use crate::error::{DominoError, ErrorView};
use crate::git::{CommandReply, Progress, ProgressView, ReplyView};
use crate::text;
use crate::text::{
    contains_text, debug_quoted, decimal, has_suffix, lines_of, number_64, trimmed, Text,
};
use vstd::prelude::*;

verus! {

/// The largest lockfile that is read, in bytes.
pub const MAX_LOCKFILE_BYTES: u64 = 268435456;

/// The same limit in megabytes.
pub const MAX_LOCKFILE_MEGABYTES: u64 = 256;

/// How far a question to git has come, and how many replies it took.
pub struct AnswerView<V> {
    pub progress: ProgressView<V>,
    pub used: int,
}

/// git says that there is no such object.
pub open spec fn says_missing(stderr: Text) -> bool {
    ||| contains_text(stderr, "Not a valid object name"@)
    ||| contains_text(stderr, "does not exist"@)
    ||| contains_text(stderr, "bad file"@)
}

/// A failure of no special kind.
pub open spec fn failed<V>(message: Text, used: int) -> AnswerView<V> {
    AnswerView { progress: ProgressView::Failed(ErrorView::Other(message)), used }
}

/// The content of an object, once its size is known to be in order.
pub open spec fn content_answer(object: Text, replies: Seq<ReplyView>) -> AnswerView<
    Option<Text>,
> {
    if replies.len() < 2 {
        AnswerView {
            progress: ProgressView::Run(seq!["cat-file"@, "-p"@, object]),
            used: 1,
        }
    } else {
        match replies[1] {
            ReplyView::NotStarted(reason) => failed(
                "Failed to execute git cat-file -p: "@ + reason,
                2,
            ),
            ReplyView::Ended { success, stdout, invalid, .. } => if !success {
                failed(
                    "git cat-file -p failed for '"@ + object
                        + "' (object exists but content unreadable)"@,
                    2,
                )
            } else {
                match invalid {
                    Some(e) => failed("Invalid UTF-8 in '"@ + object + "': "@ + e, 2),
                    None => AnswerView { progress: ProgressView::Done(Some(stdout)), used: 2 },
                }
            },
        }
    }
}

/// The content of an object (`revision:path`), once git has replied; `None` where there is none. Its
/// size is asked for first, and one over the limit is refused.
pub open spec fn object_answer(object: Text, replies: Seq<ReplyView>) -> AnswerView<
    Option<Text>,
> {
    if replies.len() == 0 {
        AnswerView { progress: ProgressView::Run(seq!["cat-file"@, "-s"@, object]), used: 0 }
    } else {
        match replies[0] {
            ReplyView::NotStarted(reason) => failed(
                "Failed to execute git cat-file -s: "@ + reason,
                1,
            ),
            ReplyView::Ended { success, stdout, invalid, stderr } => if !success {
                if says_missing(stderr) {
                    AnswerView { progress: ProgressView::Done(None), used: 1 }
                } else {
                    failed(
                        "git cat-file -s failed for '"@ + object + "': "@ + trimmed(stderr),
                        1,
                    )
                }
            } else if invalid is Some {
                failed("git cat-file -s returned non-UTF-8 for '"@ + object + "'"@, 1)
            } else {
                match number_64(trimmed(stdout)) {
                    None => failed(
                        "git cat-file -s returned unparseable size for '"@ + object + "': "@
                            + debug_quoted(trimmed(stdout)),
                        1,
                    ),
                    Some(size) => if size > MAX_LOCKFILE_BYTES {
                        failed(
                            "Git object '"@ + object + "' exceeds "@ + decimal(
                                MAX_LOCKFILE_MEGABYTES as nat,
                            ) + " MB size limit ("@ + decimal(size as nat) + " bytes)"@,
                            1,
                        )
                    } else {
                        content_answer(object, replies)
                    },
                }
            },
        }
    }
}

/// The arguments `cat-file`, `flag`, `object`.
fn cat_file_args(flag: &str, object: &str) -> (r: Vec<String>)
    ensures
        r.deep_view() == seq!["cat-file"@, flag@, object@],
{
    let mut args: Vec<String> = Vec::new();
    args.push("cat-file".to_owned());
    args.push(flag.to_owned());
    args.push(object.to_owned());
    assert(args.deep_view() =~= seq!["cat-file"@, flag@, object@]);
    args
}

/// A failure of no special kind.
fn fail<T>(message: String) -> (r: Progress<T>)
    ensures
        r == Progress::<T>::Done(Err(DominoError::Other(message))),
{
    Progress::Done(Err(DominoError::Other(message)))
}

/// The content of the file at `file_path` at a revision, and how many of git's replies, from `from`
/// on, the answer took.
pub fn get_file_from_revision(
    revision: &str,
    file_path: &str,
    replies: &Vec<CommandReply>,
    from: usize,
) -> (r: (Progress<Option<String>>, usize))
    requires
        from <= replies.len(),
    ensures
        (AnswerView { progress: r.0.deep_view(), used: r.1 as int }) == object_answer(
            revision@ + ":"@ + file_path@,
            replies.deep_view().skip(from as int),
        ),
        r.1 <= replies.len() - from,
{
    let object_text = text::cat3(revision, ":", file_path);
    let object = object_text.as_str();
    let ghost seen = replies.deep_view().skip(from as int);
    assert(seen.len() == replies.len() - from);
    if from == replies.len() {
        return (Progress::Run(cat_file_args("-s", object)), 0);
    }
    assert(seen[0] == replies@[from as int].deep_view());
    match &replies[from] {
        CommandReply::NotStarted(reason) => {
            return (fail(text::cat("Failed to execute git cat-file -s: ", reason.as_str())), 1);
        },
        CommandReply::Ended { success, stdout, invalid, stderr } => {
            if !*success {
                let message = stderr.as_str();
                if text::contains(message, "Not a valid object name") || text::contains(
                    message,
                    "does not exist",
                ) || text::contains(message, "bad file") {
                    return (Progress::Done(Ok(None)), 1);
                }
                let mut m = text::cat3("git cat-file -s failed for '", object, "': ");
                m.append(text::trim(message));
                return (fail(m), 1);
            }
            if invalid.is_some() {
                return (
                    fail(text::cat3("git cat-file -s returned non-UTF-8 for '", object, "'")),
                    1,
                );
            }
            let size_text = text::trim(stdout.as_str());
            match text::parse_u64(size_text) {
                None => {
                    let mut m = text::cat3(
                        "git cat-file -s returned unparseable size for '",
                        object,
                        "': ",
                    );
                    m.append(text::quote_debug(size_text).as_str());
                    return (fail(m), 1);
                },
                Some(size) => {
                    if size > MAX_LOCKFILE_BYTES {
                        let mut m = text::cat3("Git object '", object, "' exceeds ");
                        m.append(text::decimal_of(MAX_LOCKFILE_MEGABYTES).as_str());
                        m.append(" MB size limit (");
                        m.append(text::decimal_of(size).as_str());
                        m.append(" bytes)");
                        return (fail(m), 1);
                    }
                },
            }
        },
    }
    if replies.len() - from < 2 {
        return (Progress::Run(cat_file_args("-p", object)), 1);
    }
    assert(seen[1] == replies@[from + 1].deep_view());
    match &replies[from + 1] {
        CommandReply::NotStarted(reason) => (
            fail(text::cat("Failed to execute git cat-file -p: ", reason.as_str())),
            2,
        ),
        CommandReply::Ended { success, stdout, invalid, .. } => {
            if !*success {
                (
                    fail(
                        text::cat3(
                            "git cat-file -p failed for '",
                            object,
                            "' (object exists but content unreadable)",
                        ),
                    ),
                    2,
                )
            } else {
                match invalid {
                    Some(e) => {
                        let mut m = text::cat3("Invalid UTF-8 in '", object, "': ");
                        m.append(e.as_str());
                        (fail(m), 2)
                    },
                    None => (Progress::Done(Ok(Some(stdout.clone()))), 2),
                }
            }
        },
    }
}

/// A path of a manifest below the root, outside `node_modules`.
pub open spec fn is_listed_manifest(path: Text) -> bool {
    has_suffix(path, "/package.json"@) && !contains_text(path, "node_modules/"@)
}

/// The manifests among some paths, in order.
pub open spec fn listed_manifests(lines: Seq<Text>) -> Seq<Text>
    decreases lines.len(),
{
    if lines.len() == 0 {
        Seq::empty()
    } else if is_listed_manifest(lines.last()) {
        listed_manifests(lines.drop_last()).push(lines.last())
    } else {
        listed_manifests(lines.drop_last())
    }
}

/// The manifests below the root at a revision, once git has replied.
pub open spec fn listing_answer(revision: Text, replies: Seq<ReplyView>) -> ProgressView<
    Seq<Text>,
> {
    if replies.len() == 0 {
        ProgressView::Run(seq!["ls-tree"@, "-r"@, "--name-only"@, revision])
    } else {
        match replies[0] {
            ReplyView::NotStarted(reason) => ProgressView::Failed(
                ErrorView::Other("Failed to execute git ls-tree: "@ + reason),
            ),
            ReplyView::Ended { success, stdout, .. } => if success {
                ProgressView::Done(listed_manifests(lines_of(stdout)))
            } else {
                ProgressView::Failed(
                    ErrorView::Other("git ls-tree failed for '"@ + revision + "'"@),
                )
            },
        }
    }
}

/// The paths of the manifests below the root at a revision; `replies` are git's replies so far, from
/// `from` on.
pub fn list_package_jsons_at_revision(
    revision: &str,
    replies: &Vec<CommandReply>,
    from: usize,
) -> (r: Progress<Vec<String>>)
    requires
        from <= replies.len(),
    ensures
        r.deep_view() == listing_answer(revision@, replies.deep_view().skip(from as int)),
{
    let ghost seen = replies.deep_view().skip(from as int);
    if from == replies.len() {
        let mut args: Vec<String> = Vec::new();
        args.push("ls-tree".to_owned());
        args.push("-r".to_owned());
        args.push("--name-only".to_owned());
        args.push(revision.to_owned());
        assert(args.deep_view() =~= seq!["ls-tree"@, "-r"@, "--name-only"@, revision@]);
        return Progress::Run(args);
    }
    assert(seen[0] == replies@[from as int].deep_view());
    match &replies[from] {
        CommandReply::NotStarted(reason) => fail(
            text::cat("Failed to execute git ls-tree: ", reason.as_str()),
        ),
        CommandReply::Ended { success, stdout, .. } => {
            if !*success {
                return fail(text::cat3("git ls-tree failed for '", revision, "'"));
            }
            let lines = text::lines(stdout.as_str());
            let ghost all = lines.deep_view();
            let mut out: Vec<String> = Vec::new();
            let mut i: usize = 0;
            assert(all.take(0) =~= Seq::<Text>::empty());
            assert(out.deep_view() =~= Seq::<Text>::empty());
            while i < lines.len()
                invariant
                    i <= lines.len(),
                    all == lines.deep_view(),
                    out.deep_view() == listed_manifests(all.take(i as int)),
                decreases lines.len() - i,
            {
                let ghost before = out.deep_view();
                assert(all.take(i + 1).drop_last() =~= all.take(i as int));
                assert(all.take(i + 1).last() == lines@[i as int]@);
                let line = lines[i].as_str();
                if text::ends_with(line, "/package.json") && !text::contains(
                    line,
                    "node_modules/",
                ) {
                    out.push(line.to_owned());
                    assert(out.deep_view() =~= before.push(line@));
                }
                i += 1;
            }
            assert(all.take(i as int) =~= all);
            Progress::Done(Ok(out))
        },
    }
}

} // verus!
