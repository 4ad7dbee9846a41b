//! Diffs: which files and lines a change touches, and the git commands that tell.

use crate::captures;
use crate::captures::{first_groups, group_text, groups_of_all};
use crate::error::{DominoError, ErrorView};
use crate::text;
use crate::text::{drop_prefixes, has_prefix, lines_of, number, pieces_by, replaced, trimmed, Text};
use crate::text_laws;
use crate::text_laws::{is_tight, is_without};
use crate::types::{ChangedFile, ChangedFileView};
use vstd::prelude::*;

verus! {

// ---------------------------------------------------------------------------
// Hunks and headers
// ---------------------------------------------------------------------------

/// The numbers of a hunk header `@@ -X,Y +Z,W @@` as they are written.
#[derive(Debug, PartialEq, Eq)]
pub struct HunkHeader {
    pub old_start: Option<String>,
    pub old_count: Option<String>,
    pub new_start: Option<String>,
    pub new_count: Option<String>,
}

/// The view of a [`HunkHeader`].
pub struct HunkHeaderView {
    pub old_start: Option<Text>,
    pub old_count: Option<Text>,
    pub new_start: Option<Text>,
    pub new_count: Option<Text>,
}

impl DeepView for HunkHeader {
    type V = HunkHeaderView;

    open spec fn deep_view(&self) -> HunkHeaderView {
        HunkHeaderView {
            old_start: self.old_start.deep_view(),
            old_count: self.old_count.deep_view(),
            new_start: self.new_start.deep_view(),
            new_count: self.new_count.deep_view(),
        }
    }
}

/// The pattern for the paths in the header of one file's diff; its group is the old one.
pub const HEADER_PATTERN: &'static str = r#"(?:["\s]a/)(.*)(?:["\s]b/)"#;

/// The pattern for a hunk header; its groups are the four numbers.
pub const HUNK_PATTERN: &'static str = r"@@ -(\d+)(?:,(\d+))? \+(\d+)(?:,(\d+))? @@";

/// The old path in the header of one file's diff.
pub open spec fn header_path_match(file_diff: Text) -> Option<Text> {
    match first_groups(HEADER_PATTERN@, file_diff) {
        Some(groups) => group_text(groups, 1),
        None => None,
    }
}

/// The hunk header that the groups of a match give.
pub open spec fn header_in(groups: Seq<Option<(usize, Text)>>) -> HunkHeaderView {
    HunkHeaderView {
        old_start: group_text(groups, 1),
        old_count: group_text(groups, 2),
        new_start: group_text(groups, 3),
        new_count: group_text(groups, 4),
    }
}

/// The hunk headers of one file's diff.
pub open spec fn hunk_header_matches(file_diff: Text) -> Seq<HunkHeaderView> {
    groups_of_all(HUNK_PATTERN@, file_diff).map_values(
        |groups: Seq<Option<(usize, Text)>>| header_in(groups),
    )
}

/// The old path in the header of one file's diff.
fn header_path(file_diff: &str) -> (r: Option<String>)
    ensures
        r.deep_view() == header_path_match(file_diff@),
{
    match captures::capture_first(HEADER_PATTERN, file_diff) {
        Some(groups) => captures::copy_group_text(&groups, 1),
        None => None,
    }
}

/// The hunk headers of one file's diff.
fn hunk_headers(file_diff: &str) -> (r: Vec<HunkHeader>)
    ensures
        r.deep_view() == hunk_header_matches(file_diff@),
{
    let found = captures::capture_all(HUNK_PATTERN, file_diff);
    let ghost all = hunk_header_matches(file_diff@);
    let mut out: Vec<HunkHeader> = Vec::new();
    let mut i: usize = 0;
    assert(out.deep_view() =~= all.take(0));
    while i < found.len()
        invariant
            i <= found.len(),
            found.deep_view() == groups_of_all(HUNK_PATTERN@, file_diff@),
            all == hunk_header_matches(file_diff@),
            out.deep_view() == all.take(i as int),
        decreases found.len() - i,
    {
        let groups = &found[i];
        assert(found.deep_view()[i as int] == groups.deep_view());
        let header = HunkHeader {
            old_start: captures::copy_group_text(groups, 1),
            old_count: captures::copy_group_text(groups, 2),
            new_start: captures::copy_group_text(groups, 3),
            new_count: captures::copy_group_text(groups, 4),
        };
        let ghost view = header.deep_view();
        let ghost before = out.deep_view();
        assert(view == all[i as int]);
        out.push(header);
        assert(out.deep_view() =~= before.push(view));
        assert(all.take(i + 1) =~= all.take(i as int).push(view));
        i += 1;
    }
    assert(all.take(i as int) =~= all);
    out
}

/// A hunk header read as numbers. A count that is missing, or too large to be one, is 1.
pub struct Hunk {
    pub old_start: usize,
    pub old_count: usize,
    pub new_start: usize,
    pub new_count: usize,
}

/// The count that a header gives.
pub open spec fn count_of(field: Option<Text>) -> usize {
    match field {
        Some(t) => match number(t) {
            Some(n) => n,
            None => 1,
        },
        None => 1,
    }
}

/// The start that a header gives.
pub open spec fn start_of(field: Option<Text>) -> Option<usize> {
    match field {
        Some(t) => number(t),
        None => None,
    }
}

/// The hunk that a header describes; `None` where a start is no number.
pub open spec fn hunk_of(h: HunkHeaderView) -> Option<Hunk> {
    match (start_of(h.old_start), start_of(h.new_start)) {
        (Some(old_start), Some(new_start)) => Some(
            Hunk {
                old_start,
                old_count: count_of(h.old_count),
                new_start,
                new_count: count_of(h.new_count),
            },
        ),
        _ => None,
    }
}

/// The line numbers of a hunk's recorded side can all be written down.
pub open spec fn hunk_fits(h: HunkHeaderView) -> bool {
    match hunk_of(h) {
        Some(hunk) => if hunk.new_count == 0 {
            hunk.old_start + hunk.old_count <= usize::MAX
        } else {
            hunk.new_start + hunk.new_count <= usize::MAX
        },
        None => true,
    }
}

/// The line numbers of every hunk can be written down.
pub open spec fn hunks_fit(hs: Seq<HunkHeaderView>) -> bool {
    forall|i: int| 0 <= i < hs.len() ==> hunk_fits(#[trigger] hs[i])
}

/// The numbers from `start`, `count` of them.
pub open spec fn line_range(start: int, count: int) -> Seq<usize> {
    Seq::new(count as nat, |i: int| (start + i) as usize)
}

/// The lines that one hunk adds or modifies.
pub open spec fn added_by(h: HunkHeaderView) -> Seq<usize> {
    match hunk_of(h) {
        Some(hunk) => if hunk.new_count == 0 {
            Seq::empty()
        } else {
            line_range(hunk.new_start as int, hunk.new_count as int)
        },
        None => Seq::empty(),
    }
}

/// The lines that one hunk removes without putting any in their place.
pub open spec fn removed_by(h: HunkHeaderView) -> Seq<usize> {
    match hunk_of(h) {
        Some(hunk) => if hunk.new_count == 0 {
            line_range(hunk.old_start as int, hunk.old_count as int)
        } else {
            Seq::empty()
        },
        None => Seq::empty(),
    }
}

/// The lines that the hunks add or modify, in order.
pub open spec fn added_lines(hs: Seq<HunkHeaderView>) -> Seq<usize>
    decreases hs.len(),
{
    if hs.len() == 0 {
        Seq::empty()
    } else {
        added_lines(hs.drop_last()) + added_by(hs.last())
    }
}

/// The lines that the hunks only remove, in order.
pub open spec fn removed_lines(hs: Seq<HunkHeaderView>) -> Seq<usize>
    decreases hs.len(),
{
    if hs.len() == 0 {
        Seq::empty()
    } else {
        removed_lines(hs.drop_last()) + removed_by(hs.last())
    }
}

// ---------------------------------------------------------------------------
// One file's diff
// ---------------------------------------------------------------------------

/// A line that gives the new path of a renamed or copied file.
pub open spec fn names_new_path(line: Text) -> bool {
    has_prefix(line, "rename to "@) || has_prefix(line, "copy to "@)
}

/// The path that such a line gives.
pub open spec fn new_path_in(line: Text) -> Text {
    trimmed(drop_prefixes(drop_prefixes(line, "rename to "@), "copy to "@))
}

/// The new path that the first such line gives.
pub open spec fn new_path(lines: Seq<Text>) -> Option<Text>
    decreases lines.len(),
{
    if lines.len() == 0 {
        None
    } else if names_new_path(lines[0]) {
        Some(new_path_in(lines[0]))
    } else {
        new_path(lines.drop_first())
    }
}

/// One of the lines says that the file is binary.
pub open spec fn is_binary(lines: Seq<Text>) -> bool {
    exists|i: int| 0 <= i < lines.len() && has_prefix(#[trigger] lines[i], "Binary files"@)
}

/// The path in a header, without quotes and surrounding white space.
pub open spec fn clean_path(header: Text) -> Text {
    trimmed(replaced(header, "\""@, ""@))
}

/// What one file's diff says: `header` is the path in its header, `lines` are its lines, `hunks`
/// its hunk headers. A rename or copy without changes counts as a change of line 1. A diff that
/// names no path, or neither lines nor a binary file, says nothing.
pub open spec fn file_change(
    header: Option<Text>,
    lines: Seq<Text>,
    hunks: Seq<HunkHeaderView>,
) -> Option<ChangedFileView> {
    match header {
        None => None,
        Some(path) => {
            let moved_to = new_path(lines);
            let added = added_lines(hunks);
            let removed = removed_lines(hunks);
            if added.len() == 0 && moved_to is None && removed.len() == 0 && !is_binary(lines) {
                None
            } else {
                Some(
                    ChangedFileView {
                        file_path: match moved_to {
                            Some(p) => p,
                            None => clean_path(path),
                        },
                        changed_lines: if added.len() == 0 && moved_to is Some {
                            seq![1usize]
                        } else {
                            added
                        },
                        deleted_lines: removed,
                    },
                )
            }
        },
    }
}

/// Appends the numbers from `start` up to `end`.
fn push_range(out: &mut Vec<usize>, start: usize, end: usize)
    requires
        start <= end,
    ensures
        final(out)@ == old(out)@ + line_range(start as int, end - start),
{
    let mut n: usize = start;
    let ghost before = out@;
    while n < end
        invariant
            start <= n <= end,
            out@ == before + line_range(start as int, n - start),
        decreases end - n,
    {
        out.push(n);
        n += 1;
        assert(out@ =~= before + line_range(start as int, n - start));
    }
    assert(out@ =~= before + line_range(start as int, end - start));
}

/// The count that a header gives.
fn parse_count(field: &Option<String>) -> (r: usize)
    ensures
        r == count_of(field.deep_view()),
{
    match field {
        Some(t) => match text::parse_number(t.as_str()) {
            Some(n) => n,
            None => 1,
        },
        None => 1,
    }
}

/// The start that a header gives.
fn parse_start(field: &Option<String>) -> (r: Option<usize>)
    ensures
        r == start_of(field.deep_view()),
{
    match field {
        Some(t) => text::parse_number(t.as_str()),
        None => None,
    }
}

/// The hunk that a header describes.
pub fn parse_hunk(header: &HunkHeader) -> (r: Option<Hunk>)
    ensures
        r == hunk_of(header.deep_view()),
{
    match (parse_start(&header.old_start), parse_start(&header.new_start)) {
        (Some(old_start), Some(new_start)) => Some(
            Hunk {
                old_start,
                old_count: parse_count(&header.old_count),
                new_start,
                new_count: parse_count(&header.new_count),
            },
        ),
        _ => None,
    }
}

/// Whether the line numbers of every hunk can be written down.
pub fn check_hunks(headers: &Vec<HunkHeader>) -> (r: bool)
    ensures
        r == hunks_fit(headers.deep_view()),
{
    let mut i: usize = 0;
    while i < headers.len()
        invariant
            i <= headers.len(),
            forall|j: int| 0 <= j < i ==> hunk_fits(#[trigger] headers.deep_view()[j]),
        decreases headers.len() - i,
    {
        let ghost h = headers.deep_view()[i as int];
        assert(h == headers@[i as int].deep_view());
        if let Some(hunk) = parse_hunk(&headers[i]) {
            let fits = if hunk.new_count == 0 {
                hunk.old_count <= usize::MAX - hunk.old_start
            } else {
                hunk.new_count <= usize::MAX - hunk.new_start
            };
            if !fits {
                assert(!hunk_fits(h));
                return false;
            }
        }
        i += 1;
    }
    true
}

/// The new path that the lines of a diff give.
fn find_new_path(lines: &Vec<String>) -> (r: Option<String>)
    ensures
        r.deep_view() == new_path(lines.deep_view()),
{
    let mut i: usize = 0;
    let ghost all = lines.deep_view();
    assert(all.skip(0) =~= all);
    while i < lines.len()
        invariant
            i <= lines.len(),
            all == lines.deep_view(),
            new_path(all) == new_path(all.skip(i as int)),
        decreases lines.len() - i,
    {
        let line = lines[i].as_str();
        proof {
            assert(all.skip(i as int)[0] == line@);
            assert(all.skip(i as int).drop_first() =~= all.skip(i + 1));
            reveal_strlit("rename to ");
            reveal_strlit("copy to ");
        }
        if text::starts_with(line, "rename to ") || text::starts_with(line, "copy to ") {
            let path = text::trim(
                text::trim_start_text(text::trim_start_text(line, "rename to "), "copy to "),
            );
            return Some(path.to_owned());
        }
        i += 1;
    }
    None
}

/// Whether the lines of a diff say that the file is binary.
fn says_binary(lines: &Vec<String>) -> (r: bool)
    ensures
        r == is_binary(lines.deep_view()),
{
    let mut i: usize = 0;
    while i < lines.len()
        invariant
            i <= lines.len(),
            forall|j: int|
                0 <= j < i ==> !has_prefix(#[trigger] lines.deep_view()[j], "Binary files"@),
        decreases lines.len() - i,
    {
        assert(lines.deep_view()[i as int] == lines@[i as int]@);
        if text::starts_with(lines[i].as_str(), "Binary files") {
            return true;
        }
        i += 1;
    }
    false
}

/// What one file's diff says, from the path in its header, its lines and its hunk headers.
pub fn changed_file(
    header: Option<String>,
    lines: &Vec<String>,
    headers: &Vec<HunkHeader>,
) -> (r: Option<ChangedFile>)
    requires
        hunks_fit(headers.deep_view()),
    ensures
        r.deep_view() == file_change(header.deep_view(), lines.deep_view(), headers.deep_view()),
{
    let header_text = match header {
        Some(t) => t,
        None => {
            return None;
        },
    };
    proof {
        reveal_strlit("\"");
    }
    let unquoted = text::replace(header_text.as_str(), "\"", "");
    let old_path = text::trim(unquoted.as_str()).to_owned();
    let moved_to = find_new_path(lines);
    let is_rename_or_copy = moved_to.is_some();
    let file_path = match moved_to {
        Some(p) => p,
        None => old_path,
    };
    let mut changed_lines: Vec<usize> = Vec::new();
    let mut deleted_lines: Vec<usize> = Vec::new();
    let mut i: usize = 0;
    let ghost hs = headers.deep_view();
    assert(hs.take(0) =~= Seq::<HunkHeaderView>::empty());
    while i < headers.len()
        invariant
            i <= headers.len(),
            hs == headers.deep_view(),
            hunks_fit(hs),
            changed_lines@ == added_lines(hs.take(i as int)),
            deleted_lines@ == removed_lines(hs.take(i as int)),
        decreases headers.len() - i,
    {
        proof {
            assert(hs.take(i + 1).drop_last() =~= hs.take(i as int));
            assert(hs.take(i + 1).last() == hs[i as int]);
            assert(hs[i as int] == headers@[i as int].deep_view());
            assert(hunk_fits(hs[i as int]));
        }
        let ghost added_before = changed_lines@;
        let ghost removed_before = deleted_lines@;
        if let Some(hunk) = parse_hunk(&headers[i]) {
            if hunk.new_count == 0 {
                push_range(&mut deleted_lines, hunk.old_start, hunk.old_start + hunk.old_count);
            } else {
                push_range(&mut changed_lines, hunk.new_start, hunk.new_start + hunk.new_count);
            }
        }
        assert(changed_lines@ =~= added_before + added_by(hs[i as int]));
        assert(deleted_lines@ =~= removed_before + removed_by(hs[i as int]));
        i += 1;
    }
    assert(hs.take(i as int) =~= hs);
    if changed_lines.is_empty() {
        if is_rename_or_copy {
            changed_lines.push(1);
            assert(changed_lines@ =~= seq![1usize]);
        } else if deleted_lines.is_empty() && !says_binary(lines) {
            return None;
        }
    }
    Some(ChangedFile { file_path, changed_lines, deleted_lines })
}

// ---------------------------------------------------------------------------
// A whole diff
// ---------------------------------------------------------------------------

/// What one file's part of a diff says.
pub open spec fn file_diff_change(file_diff: Text) -> Option<ChangedFileView> {
    file_change(
        header_path_match(file_diff),
        lines_of(file_diff),
        hunk_header_matches(file_diff),
    )
}

/// What the parts of a diff say, in order.
pub open spec fn changes_in(parts: Seq<Text>) -> Seq<ChangedFileView>
    decreases parts.len(),
{
    if parts.len() == 0 {
        Seq::empty()
    } else {
        let before = changes_in(parts.drop_last());
        match file_diff_change(parts.last()) {
            Some(c) => before.push(c),
            None => before,
        }
    }
}

/// The parts of a diff: what follows each `diff --git`.
pub open spec fn file_diffs(diff: Text) -> Seq<Text> {
    pieces_by(diff, "diff --git"@).drop_first()
}

/// The files that a diff changes.
pub open spec fn diff_changes(diff: Text) -> Seq<ChangedFileView> {
    changes_in(file_diffs(diff))
}

/// The line numbers in every hunk header of the diff can be written down.
pub open spec fn diff_fits(diff: Text) -> bool {
    forall|i: int|
        0 <= i < file_diffs(diff).len() ==> hunks_fit(
            hunk_header_matches(#[trigger] file_diffs(diff)[i]),
        )
}

/// The parts of a diff.
fn split_diff(diff: &str) -> (r: Vec<String>)
    ensures
        r.deep_view() == file_diffs(diff@),
{
    proof {
        reveal_strlit("diff --git");
    }
    let mut parts = text::split_text(diff, "diff --git");
    let ghost all = parts.deep_view();
    assert(parts@.len() == all.len());
    parts.remove(0);
    assert(parts.deep_view() =~= all.drop_first());
    parts
}

/// Whether the line numbers in every hunk header of the parts can be written down.
fn check_parts(parts: &Vec<String>) -> (r: bool)
    ensures
        r == (forall|i: int|
            0 <= i < parts.deep_view().len() ==> hunks_fit(
                hunk_header_matches(#[trigger] parts.deep_view()[i]),
            )),
{
    let mut i: usize = 0;
    while i < parts.len()
        invariant
            i <= parts.len(),
            forall|j: int|
                0 <= j < i ==> hunks_fit(hunk_header_matches(#[trigger] parts.deep_view()[j])),
        decreases parts.len() - i,
    {
        assert(parts.deep_view()[i as int] == parts@[i as int]@);
        let headers = hunk_headers(parts[i].as_str());
        if !check_hunks(&headers) {
            return false;
        }
        i += 1;
    }
    true
}

/// The files that the parts of a diff change.
fn parse_parts(parts: &Vec<String>) -> (r: Vec<ChangedFile>)
    requires
        forall|i: int|
            0 <= i < parts.deep_view().len() ==> hunks_fit(
                hunk_header_matches(#[trigger] parts.deep_view()[i]),
            ),
    ensures
        r.deep_view() == changes_in(parts.deep_view()),
{
    let ghost all = parts.deep_view();
    let mut out: Vec<ChangedFile> = Vec::new();
    let mut i: usize = 0;
    assert(all.take(0) =~= Seq::<Text>::empty());
    assert(out.deep_view() =~= Seq::<ChangedFileView>::empty());
    while i < parts.len()
        invariant
            i <= parts.len(),
            all == parts.deep_view(),
            forall|j: int| 0 <= j < all.len() ==> hunks_fit(hunk_header_matches(#[trigger] all[j])),
            out.deep_view() == changes_in(all.take(i as int)),
        decreases parts.len() - i,
    {
        let part = parts[i].as_str();
        proof {
            assert(all.take(i + 1).drop_last() =~= all.take(i as int));
            assert(all.take(i + 1).last() == part@);
            assert(part@ == all[i as int]);
        }
        let ghost before = out.deep_view();
        let headers = hunk_headers(part);
        match changed_file(header_path(part), &text::lines(part), &headers) {
            Some(c) => {
                out.push(c);
                assert(out.deep_view() =~= before.push(c.deep_view()));
            },
            None => {},
        }
        i += 1;
    }
    assert(all.take(i as int) =~= all);
    out
}

/// The files that a diff changes, with their lines.
pub fn parse_diff(diff: &str) -> (r: Result<Vec<ChangedFile>, DominoError>)
    requires
        diff_fits(diff@),
    ensures
        r is Ok,
        r->Ok_0.deep_view() == diff_changes(diff@),
{
    let parts = split_diff(diff);
    Ok(parse_parts(&parts))
}

/// The files that a diff changes; `None` where a hunk header holds line numbers that cannot be
/// written down.
pub fn try_parse_diff(diff: &str) -> (r: Option<Result<Vec<ChangedFile>, DominoError>>)
    ensures
        match r {
            Some(files) => diff_fits(diff@) && files is Ok && files->Ok_0.deep_view()
                == diff_changes(diff@),
            None => !diff_fits(diff@),
        },
{
    let parts = split_diff(diff);
    if check_parts(&parts) {
        Some(parse_diff(diff))
    } else {
        None
    }
}

// ---------------------------------------------------------------------------
// Asking git
// ---------------------------------------------------------------------------

/// What came of running a git command.
#[derive(Debug, PartialEq, Eq)]
pub enum CommandReply {
    /// It ran and ended. `invalid` says why its output is no UTF-8 text, where it is none; `stdout`
    /// then holds replacement characters.
    Ended { success: bool, stdout: String, invalid: Option<String>, stderr: String },
    /// It could not be started, for the reason given.
    NotStarted(String),
}

/// The view of a [`CommandReply`].
pub enum ReplyView {
    Ended { success: bool, stdout: Text, invalid: Option<Text>, stderr: Text },
    NotStarted(Text),
}

impl DeepView for CommandReply {
    type V = ReplyView;

    open spec fn deep_view(&self) -> ReplyView {
        match self {
            CommandReply::Ended { success, stdout, invalid, stderr } => ReplyView::Ended {
                success: *success,
                stdout: stdout@,
                invalid: invalid.deep_view(),
                stderr: stderr@,
            },
            CommandReply::NotStarted(reason) => ReplyView::NotStarted(reason@),
        }
    }
}

/// How far a question to git has come: the arguments of the command to run next, or the answer.
#[derive(Debug, PartialEq, Eq)]
pub enum Progress<T> {
    Run(Vec<String>),
    Done(Result<T, DominoError>),
}

/// The view of a [`Progress`].
pub enum ProgressView<V> {
    Run(Seq<Text>),
    Done(V),
    Failed(ErrorView),
}

impl<T: DeepView> DeepView for Progress<T> {
    type V = ProgressView<T::V>;

    open spec fn deep_view(&self) -> ProgressView<T::V> {
        match self {
            Progress::Run(args) => ProgressView::Run(args.deep_view()),
            Progress::Done(Ok(t)) => ProgressView::Done(t.deep_view()),
            Progress::Done(Err(e)) => ProgressView::Failed(e.deep_view()),
        }
    }
}

/// The branch to compare with: `origin/main`, unless only `origin/master` is there. The flags say
/// whether git knows the two.
pub fn detect_default_branch(has_main: bool, has_master: bool) -> (r: String)
    ensures
        r@ == if !has_main && has_master {
            "origin/master"@
        } else {
            "origin/main"@
        },
{
    if has_main {
        return "origin/main".to_owned();
    }
    if has_master {
        return "origin/master".to_owned();
    }
    "origin/main".to_owned()
}

/// What `git rev-parse` says of a reference.
pub open spec fn ref_answer(reference: Text, reply: ReplyView) -> ProgressView<Text> {
    match reply {
        ReplyView::NotStarted(reason) => ProgressView::Failed(
            ErrorView::Other("Failed to execute git rev-parse: "@ + reason),
        ),
        ReplyView::Ended { success, stdout, stderr, .. } => if success {
            ProgressView::Done(trimmed(stdout))
        } else {
            ProgressView::Failed(
                ErrorView::Other(
                    "Git rev-parse failed for '"@ + reference + "': "@ + stderr,
                ),
            )
        },
    }
}

/// The commit that a reference stands for, once git has replied.
pub open spec fn resolved_ref(reference: Text, replies: Seq<ReplyView>) -> ProgressView<Text> {
    if replies.len() == 0 {
        ProgressView::Run(seq!["rev-parse"@, reference])
    } else {
        ref_answer(reference, replies[0])
    }
}

/// The commit where `head` left `base`; where git finds none, the commit of `base` itself.
pub open spec fn merge_base(base: Text, head: Text, replies: Seq<ReplyView>) -> ProgressView<Text> {
    if replies.len() == 0 {
        ProgressView::Run(seq!["merge-base"@, base, head])
    } else {
        match replies[0] {
            ReplyView::NotStarted(reason) => ProgressView::Failed(
                ErrorView::Other("Failed to execute git merge-base: "@ + reason),
            ),
            ReplyView::Ended { success, stdout, .. } => if success && trimmed(stdout).len() > 0 {
                ProgressView::Done(trimmed(stdout))
            } else {
                resolved_ref(base, replies.drop_first())
            },
        }
    }
}

/// The arguments of `git diff`: from `base` to `head`, or to the working tree.
pub open spec fn diff_args(base: Text, head: Option<Text>) -> Seq<Text> {
    seq![
        "diff"@,
        match head {
            Some(h) => base + ".."@ + h,
            None => base,
        },
        "--unified=0"@,
        "--relative"@,
    ]
}

/// What `git diff` says.
pub open spec fn diff_answer(
    base: Text,
    head: Option<Text>,
    replies: Seq<ReplyView>,
) -> ProgressView<Text> {
    if replies.len() == 0 {
        ProgressView::Run(diff_args(base, head))
    } else {
        match replies[0] {
            ReplyView::NotStarted(reason) => ProgressView::Failed(
                ErrorView::Other("Failed to execute git diff: "@ + reason),
            ),
            ReplyView::Ended { success, stdout, stderr, .. } => if success {
                ProgressView::Done(stdout)
            } else {
                ProgressView::Failed(
                    ErrorView::Other("Git diff failed for base '"@ + base + "': "@ + stderr),
                )
            },
        }
    }
}

/// A file as it was at a revision, once git has replied; `None` where it was not there.
pub open spec fn file_answer(
    revision: Text,
    path: Text,
    replies: Seq<ReplyView>,
) -> ProgressView<Option<Text>> {
    if replies.len() == 0 {
        ProgressView::Run(seq!["show"@, revision + ":./"@ + path])
    } else {
        match replies[0] {
            ReplyView::NotStarted(reason) => ProgressView::Failed(
                ErrorView::Other("Failed to execute git show: "@ + reason),
            ),
            ReplyView::Ended { success, stdout, .. } => ProgressView::Done(
                if success {
                    Some(stdout)
                } else {
                    None
                },
            ),
        }
    }
}

/// How many replies the search for the base of a diff takes up.
pub open spec fn base_replies(head: Option<Text>, replies: Seq<ReplyView>) -> int {
    if head is Some {
        1
    } else {
        match replies[0] {
            ReplyView::Ended { success, stdout, .. } => if success && trimmed(stdout).len() > 0 {
                1
            } else {
                2
            },
            _ => 1,
        }
    }
}

/// The base of a diff: the commit of `base` where a head is given, else where `HEAD` left `base`.
pub open spec fn diff_base(
    base: Text,
    head: Option<Text>,
    replies: Seq<ReplyView>,
) -> ProgressView<Text> {
    if head is Some {
        resolved_ref(base, replies)
    } else {
        merge_base(base, "HEAD"@, replies)
    }
}

/// The files that a diff from `base` changes, and the commit that it starts from. `None` where the
/// line numbers in the diff cannot be written down.
pub open spec fn changed_files_answer(
    base: Text,
    head: Option<Text>,
    replies: Seq<ReplyView>,
) -> ProgressView<Option<(Seq<ChangedFileView>, Text)>> {
    match diff_base(base, head, replies) {
        ProgressView::Run(args) => ProgressView::Run(args),
        ProgressView::Failed(e) => ProgressView::Failed(e),
        ProgressView::Done(commit) => match diff_answer(
            commit,
            head,
            replies.skip(base_replies(head, replies)),
        ) {
            ProgressView::Run(args) => ProgressView::Run(args),
            ProgressView::Failed(e) => ProgressView::Failed(e),
            ProgressView::Done(diff) => ProgressView::Done(
                if diff_fits(diff) {
                    Some((diff_changes(diff), commit))
                } else {
                    None
                },
            ),
        },
    }
}

/// The commit that a reference stands for; `replies` are git's replies so far, from `from` on.
fn resolve_ref(reference: &str, replies: &Vec<CommandReply>, from: usize) -> (r: Progress<String>)
    requires
        from <= replies.len(),
    ensures
        r.deep_view() == resolved_ref(reference@, replies.deep_view().skip(from as int)),
{
    let ghost seen = replies.deep_view().skip(from as int);
    if from == replies.len() {
        let mut args: Vec<String> = Vec::new();
        args.push("rev-parse".to_owned());
        args.push(reference.to_owned());
        assert(args.deep_view() =~= seq!["rev-parse"@, reference@]);
        return Progress::Run(args);
    }
    assert(seen[0] == replies@[from as int].deep_view());
    match &replies[from] {
        CommandReply::NotStarted(reason) => Progress::Done(
            Err(DominoError::Other(text::cat("Failed to execute git rev-parse: ", reason.as_str()))),
        ),
        CommandReply::Ended { success, stdout, stderr, .. } => {
            if *success {
                Progress::Done(Ok(text::trim(stdout.as_str()).to_owned()))
            } else {
                let mut m = text::cat3("Git rev-parse failed for '", reference, "': ");
                m.append(stderr.as_str());
                Progress::Done(Err(DominoError::Other(m)))
            }
        },
    }
}

/// The commit where `head` left `base`; `replies` are git's replies so far.
pub fn get_merge_base(base: &str, head: &str, replies: &Vec<CommandReply>) -> (r: Progress<String>)
    ensures
        r.deep_view() == merge_base(base@, head@, replies.deep_view()),
{
    let ghost seen = replies.deep_view();
    if replies.len() == 0 {
        let mut args: Vec<String> = Vec::new();
        args.push("merge-base".to_owned());
        args.push(base.to_owned());
        args.push(head.to_owned());
        assert(args.deep_view() =~= seq!["merge-base"@, base@, head@]);
        return Progress::Run(args);
    }
    assert(seen[0] == replies@[0].deep_view());
    assert(seen.drop_first() =~= seen.skip(1));
    match &replies[0] {
        CommandReply::NotStarted(reason) => Progress::Done(
            Err(DominoError::Other(text::cat("Failed to execute git merge-base: ", reason.as_str()))),
        ),
        CommandReply::Ended { success, stdout, .. } => {
            let oid = text::trim(stdout.as_str());
            if *success && !oid.is_empty() {
                Progress::Done(Ok(oid.to_owned()))
            } else {
                resolve_ref(base, replies, 1)
            }
        },
    }
}

/// The text of the diff from `base` to `head`, or to the working tree; `replies` are git's replies
/// so far, from `from` on.
pub fn get_diff(base: &str, head: Option<&str>, replies: &Vec<CommandReply>, from: usize) -> (r:
    Progress<String>)
    requires
        from <= replies.len(),
    ensures
        r.deep_view() == diff_answer(
            base@,
            head.deep_view(),
            replies.deep_view().skip(from as int),
        ),
{
    let ghost seen = replies.deep_view().skip(from as int);
    if from == replies.len() {
        let mut args: Vec<String> = Vec::new();
        args.push("diff".to_owned());
        match head {
            Some(h) => {
                args.push(text::cat3(base, "..", h));
            },
            None => {
                args.push(base.to_owned());
            },
        }
        args.push("--unified=0".to_owned());
        args.push("--relative".to_owned());
        assert(args.deep_view() =~= diff_args(base@, head.deep_view()));
        return Progress::Run(args);
    }
    assert(seen[0] == replies@[from as int].deep_view());
    match &replies[from] {
        CommandReply::NotStarted(reason) => Progress::Done(
            Err(DominoError::Other(text::cat("Failed to execute git diff: ", reason.as_str()))),
        ),
        CommandReply::Ended { success, stdout, stderr, .. } => {
            if *success {
                Progress::Done(Ok(stdout.clone()))
            } else {
                let mut m = text::cat3("Git diff failed for base '", base, "': ");
                m.append(stderr.as_str());
                Progress::Done(Err(DominoError::Other(m)))
            }
        },
    }
}

/// A file as it was at a revision; `None` where it was not there. The path is relative to the
/// directory that git runs in, as those of [`get_diff`] are.
pub fn get_file_at_revision(revision: &str, path: &str, replies: &Vec<CommandReply>) -> (r:
    Progress<Option<String>>)
    ensures
        r.deep_view() == file_answer(revision@, path@, replies.deep_view()),
{
    let ghost seen = replies.deep_view();
    if replies.len() == 0 {
        let mut args: Vec<String> = Vec::new();
        args.push("show".to_owned());
        args.push(text::cat3(revision, ":./", path));
        assert(args.deep_view() =~= seq!["show"@, revision@ + ":./"@ + path@]);
        return Progress::Run(args);
    }
    assert(seen[0] == replies@[0].deep_view());
    match &replies[0] {
        CommandReply::NotStarted(reason) => Progress::Done(
            Err(DominoError::Other(text::cat("Failed to execute git show: ", reason.as_str()))),
        ),
        CommandReply::Ended { success, stdout, .. } => {
            if *success {
                Progress::Done(Ok(Some(stdout.clone())))
            } else {
                Progress::Done(Ok(None))
            }
        },
    }
}

/// The files that changed since `base`, and the commit that the diff starts from. With a `head` the
/// diff runs from `base` to it; without one, from where `HEAD` left `base` to the working tree.
/// `replies` are git's replies so far.
pub fn get_changed_files(base: &str, head: Option<&str>, replies: &Vec<CommandReply>) -> (r:
    Progress<Option<(Vec<ChangedFile>, String)>>)
    ensures
        r.deep_view() == changed_files_answer(base@, head.deep_view(), replies.deep_view()),
{
    let ghost seen = replies.deep_view();
    assert(seen.skip(0) =~= seen);
    let found = if head.is_some() {
        resolve_ref(base, replies, 0)
    } else {
        get_merge_base(base, "HEAD", replies)
    };
    let commit = match found {
        Progress::Run(args) => {
            return Progress::Run(args);
        },
        Progress::Done(Err(e)) => {
            return Progress::Done(Err(e));
        },
        Progress::Done(Ok(c)) => c,
    };
    assert(seen.len() > 0);
    assert(seen[0] == replies@[0].deep_view());
    let from: usize = if head.is_some() {
        1
    } else {
        match &replies[0] {
            CommandReply::Ended { success, stdout, .. } => {
                if *success && !text::trim(stdout.as_str()).is_empty() {
                    1
                } else {
                    2
                }
            },
            CommandReply::NotStarted(_) => 1,
        }
    };
    assert(from == base_replies(head.deep_view(), seen));
    match get_diff(commit.as_str(), head, replies, from) {
        Progress::Run(args) => Progress::Run(args),
        Progress::Done(Err(e)) => Progress::Done(Err(e)),
        Progress::Done(Ok(diff)) => {
            match try_parse_diff(diff.as_str()) {
                Some(Ok(files)) => Progress::Done(Ok(Some((files, commit)))),
                Some(Err(e)) => Progress::Done(Err(e)),
                None => Progress::Done(Ok(None)),
            }
        },
    }
}

// ---------------------------------------------------------------------------
// What holds of every diff
// ---------------------------------------------------------------------------

/// A line is among those that the hunks add or modify exactly where it lies on the new side of a
/// hunk.
pub proof fn lemma_added_lines(hs: Seq<HunkHeaderView>, line: usize)
    requires
        hunks_fit(hs),
    ensures
        added_lines(hs).contains(line) <==> exists|i: int|
            0 <= i < hs.len() && (hunk_of(#[trigger] hs[i]) matches Some(h) && h.new_start <= line
                < h.new_start + h.new_count),
    decreases hs.len(),
{
    if hs.len() > 0 {
        let init = hs.drop_last();
        let last = hs.len() - 1;
        assert forall|i: int| 0 <= i < init.len() implies hunk_fits(#[trigger] init[i]) by {
            assert(init[i] == hs[i]);
        }
        lemma_added_lines(init, line);
        let here = added_by(hs.last());
        let before = added_lines(init);
        lemma_in_either(before, here, line);
        assert(hunk_fits(hs[last]));
        match hunk_of(hs[last]) {
            Some(h) => {
                if h.new_count > 0 {
                    lemma_line_range(h.new_start as int, h.new_count as int, line);
                }
            },
            None => {},
        }
        if before.contains(line) {
            let i = choose|i: int|
                0 <= i < init.len() && (hunk_of(#[trigger] init[i]) matches Some(h) && h.new_start
                    <= line < h.new_start + h.new_count);
            assert(hs[i] == init[i]);
        }
        if exists|i: int|
            0 <= i < hs.len() && (hunk_of(#[trigger] hs[i]) matches Some(h) && h.new_start <= line
                < h.new_start + h.new_count) {
            let i = choose|i: int|
                0 <= i < hs.len() && (hunk_of(#[trigger] hs[i]) matches Some(h) && h.new_start
                    <= line < h.new_start + h.new_count);
            if i < last {
                assert(init[i] == hs[i]);
            }
        }
    }
}

/// A line is among those that the hunks only remove exactly where it lies on the old side of a hunk
/// that puts nothing in its place.
pub proof fn lemma_removed_lines(hs: Seq<HunkHeaderView>, line: usize)
    requires
        hunks_fit(hs),
    ensures
        removed_lines(hs).contains(line) <==> exists|i: int|
            0 <= i < hs.len() && (hunk_of(#[trigger] hs[i]) matches Some(h) && h.new_count == 0
                && h.old_start <= line < h.old_start + h.old_count),
    decreases hs.len(),
{
    if hs.len() > 0 {
        let init = hs.drop_last();
        let last = hs.len() - 1;
        assert forall|i: int| 0 <= i < init.len() implies hunk_fits(#[trigger] init[i]) by {
            assert(init[i] == hs[i]);
        }
        lemma_removed_lines(init, line);
        let here = removed_by(hs.last());
        let before = removed_lines(init);
        lemma_in_either(before, here, line);
        assert(hunk_fits(hs[last]));
        match hunk_of(hs[last]) {
            Some(h) => {
                if h.new_count == 0 {
                    lemma_line_range(h.old_start as int, h.old_count as int, line);
                }
            },
            None => {},
        }
        if before.contains(line) {
            let i = choose|i: int|
                0 <= i < init.len() && (hunk_of(#[trigger] init[i]) matches Some(h) && h.new_count
                    == 0 && h.old_start <= line < h.old_start + h.old_count);
            assert(hs[i] == init[i]);
        }
        if exists|i: int|
            0 <= i < hs.len() && (hunk_of(#[trigger] hs[i]) matches Some(h) && h.new_count == 0
                && h.old_start <= line < h.old_start + h.old_count) {
            let i = choose|i: int|
                0 <= i < hs.len() && (hunk_of(#[trigger] hs[i]) matches Some(h) && h.new_count == 0
                    && h.old_start <= line < h.old_start + h.old_count);
            if i < last {
                assert(init[i] == hs[i]);
            }
        }
    }
}

/// A line lies in two lists together where it lies in one of them.
proof fn lemma_in_either(a: Seq<usize>, b: Seq<usize>, line: usize)
    ensures
        (a + b).contains(line) <==> a.contains(line) || b.contains(line),
{
    if a.contains(line) {
        let i = choose|i: int| 0 <= i < a.len() && a[i] == line;
        assert((a + b)[i] == line);
    }
    if b.contains(line) {
        let i = choose|i: int| 0 <= i < b.len() && b[i] == line;
        assert((a + b)[a.len() + i] == line);
    }
    if (a + b).contains(line) {
        let i = choose|i: int| 0 <= i < (a + b).len() && (a + b)[i] == line;
        if i < a.len() {
            assert(a[i] == line);
        } else {
            assert(b[i - a.len()] == line);
        }
    }
}

/// The numbers of a range.
proof fn lemma_line_range(start: int, count: int, line: usize)
    requires
        0 <= start,
        0 <= count,
        start + count <= usize::MAX,
    ensures
        line_range(start, count).contains(line) <==> start <= line < start + count,
{
    let lines = line_range(start, count);
    if start <= line < start + count {
        assert(lines[line - start] == line);
    }
    if lines.contains(line) {
        let i = choose|i: int| 0 <= i < lines.len() && lines[i] == line;
        assert(lines[i] == (start + i) as usize);
    }
}

/// A file that was renamed or copied is reported under its new path with a changed line, even where
/// its content stayed the same.
pub proof fn lemma_moved_file(header: Text, lines: Seq<Text>, hunks: Seq<HunkHeaderView>)
    requires
        new_path(lines) is Some,
    ensures
        file_change(Some(header), lines, hunks) is Some,
        file_change(Some(header), lines, hunks)->0.file_path == new_path(lines)->0,
        file_change(Some(header), lines, hunks)->0.changed_lines.len() > 0,
{
}

/// A file with a hunk that adds, modifies or removes a line is reported, and so is a binary file.
pub proof fn lemma_reported(header: Text, lines: Seq<Text>, hunks: Seq<HunkHeaderView>)
    requires
        added_lines(hunks).len() > 0 || removed_lines(hunks).len() > 0 || is_binary(lines),
    ensures
        file_change(Some(header), lines, hunks) is Some,
        file_change(Some(header), lines, hunks)->0.deleted_lines == removed_lines(hunks),
        added_lines(hunks).len() > 0 ==> file_change(Some(header), lines, hunks)->0.changed_lines
            == added_lines(hunks),
{
}

/// A hunk header is read field by field: the starts as they are written, and each count from its own
/// field alone. A count that is left out, or that is no number, stands for one line.
pub proof fn lemma_hunk_fields(h: HunkHeaderView, old_start: Text, new_start: Text)
    requires
        h.old_start == Some(old_start),
        h.new_start == Some(new_start),
        number(old_start) is Some,
        number(new_start) is Some,
    ensures
        hunk_of(h) matches Some(hunk) && {
            &&& hunk.old_start == number(old_start)->0
            &&& hunk.new_start == number(new_start)->0
            &&& h.old_count is None ==> hunk.old_count == 1
            &&& h.new_count is None ==> hunk.new_count == 1
            &&& (h.old_count matches Some(t) ==> if number(t) is Some {
                hunk.old_count == number(t)->0
            } else {
                hunk.old_count == 1
            })
            &&& (h.new_count matches Some(t) ==> if number(t) is Some {
                hunk.new_count == number(t)->0
            } else {
                hunk.new_count == 1
            })
        },
{
}

/// A header without a readable start on both sides is passed over.
pub proof fn lemma_unreadable_hunk(h: HunkHeaderView)
    requires
        (h.old_start matches Some(t) ==> number(t) is None) || (h.new_start matches Some(t)
            ==> number(t) is None),
    ensures
        hunk_of(h) is None,
        hunk_fits(h),
        added_by(h).len() == 0,
        removed_by(h).len() == 0,
{
}

/// A header that writes no count on its new side adds or modifies the one line that its new start
/// names, whatever its old side says, and removes none for good.
pub proof fn lemma_single_line(h: HunkHeaderView, old_start: Text, new_start: Text)
    requires
        h.old_start == Some(old_start),
        h.new_start == Some(new_start),
        number(old_start) is Some,
        number(new_start) is Some,
        h.new_count is None,
    ensures
        added_by(h) == seq![number(new_start)->0],
        removed_by(h) == Seq::<usize>::empty(),
        number(new_start)->0 < usize::MAX ==> hunk_fits(h),
{
    assert(added_by(h) =~= seq![number(new_start)->0]);
}

/// A header that writes a count of at least one on its new side adds or modifies that many lines from
/// its new start on, whatever its old side says, and removes none for good.
pub proof fn lemma_counted_lines(h: HunkHeaderView, old_start: Text, new_start: Text, count: Text)
    requires
        h.old_start == Some(old_start),
        h.new_start == Some(new_start),
        h.new_count == Some(count),
        number(old_start) is Some,
        number(new_start) is Some,
        number(count) is Some,
        number(count)->0 > 0,
        number(new_start)->0 + number(count)->0 <= usize::MAX,
    ensures
        hunk_fits(h),
        added_by(h).len() == number(count)->0,
        forall|i: int|
            0 <= i < number(count)->0 ==> #[trigger] added_by(h)[i] == number(new_start)->0 + i,
        removed_by(h) == Seq::<usize>::empty(),
{
}

/// A header that writes a new count of zero adds no line. It removes the lines on its old side: as
/// many as the old count says, or one where that is left out.
pub proof fn lemma_pure_deletion(h: HunkHeaderView, old_start: Text, new_start: Text, count: Text)
    requires
        h.old_start == Some(old_start),
        h.new_start == Some(new_start),
        h.new_count == Some(count),
        number(old_start) is Some,
        number(new_start) is Some,
        number(count) == Some(0usize),
        number(old_start)->0 < usize::MAX,
    ensures
        added_by(h) == Seq::<usize>::empty(),
        h.old_count is None ==> hunk_fits(h) && removed_by(h) == seq![number(old_start)->0],
        h.old_count matches Some(t) ==> (number(t) matches Some(n) ==> number(old_start)->0 + n
            <= usize::MAX ==> {
            &&& hunk_fits(h)
            &&& removed_by(h).len() == n
            &&& forall|i: int| 0 <= i < n ==> #[trigger] removed_by(h)[i] == number(old_start)->0 + i
        }),
{
    if h.old_count is None {
        assert(removed_by(h) =~= seq![number(old_start)->0]);
    }
}

/// The groups of a match are, in order, the old start, the old count, the new start and the new
/// count.
pub proof fn lemma_header_groups(
    groups: Seq<Option<(usize, Text)>>,
    old_start: Option<(usize, Text)>,
    old_count: Option<(usize, Text)>,
    new_start: Option<(usize, Text)>,
    new_count: Option<(usize, Text)>,
)
    requires
        groups.len() == 5,
        groups[1] == old_start,
        groups[2] == old_count,
        groups[3] == new_start,
        groups[4] == new_count,
    ensures
        header_in(groups).old_start is Some <==> old_start is Some,
        header_in(groups).old_count is Some <==> old_count is Some,
        header_in(groups).new_start is Some <==> new_start is Some,
        header_in(groups).new_count is Some <==> new_count is Some,
        old_start matches Some(g) ==> header_in(groups).old_start == Some(g.1),
        old_count matches Some(g) ==> header_in(groups).old_count == Some(g.1),
        new_start matches Some(g) ==> header_in(groups).new_start == Some(g.1),
        new_count matches Some(g) ==> header_in(groups).new_count == Some(g.1),
{
}

/// The lines of a file's diff are those of its hunks, one hunk after the other.
pub proof fn lemma_hunks_in_order(a: Seq<HunkHeaderView>, b: Seq<HunkHeaderView>)
    ensures
        added_lines(a + b) == added_lines(a) + added_lines(b),
        removed_lines(a + b) == removed_lines(a) + removed_lines(b),
    decreases b.len(),
{
    if b.len() == 0 {
        assert(a + b =~= a);
        assert(added_lines(a) + added_lines(b) =~= added_lines(a));
        assert(removed_lines(a) + removed_lines(b) =~= removed_lines(a));
    } else {
        lemma_hunks_in_order(a, b.drop_last());
        assert((a + b).drop_last() =~= a + b.drop_last());
        assert((a + b).last() == b.last());
        assert(added_lines(a + b) =~= added_lines(a) + added_lines(b));
        assert(removed_lines(a + b) =~= removed_lines(a) + removed_lines(b));
    }
}

/// The lines of a diff with one hunk are those of the hunk.
pub proof fn lemma_one_hunk(h: HunkHeaderView)
    ensures
        added_lines(seq![h]) == added_by(h),
        removed_lines(seq![h]) == removed_by(h),
{
    let one = seq![h];
    reveal_with_fuel(added_lines, 2);
    reveal_with_fuel(removed_lines, 2);
    assert(one.drop_last() =~= Seq::<HunkHeaderView>::empty());
    assert(one.last() == h);
    assert(added_lines(one) =~= added_by(h));
    assert(removed_lines(one) =~= removed_by(h));
}

/// A file that was renamed or copied is reported under the path that the first line of the diff with
/// `rename to` or `copy to` gives.
pub proof fn lemma_new_path_is_reported(
    header: Text,
    lines: Seq<Text>,
    hunks: Seq<HunkHeaderView>,
    i: int,
    path: Text,
)
    requires
        0 <= i < lines.len(),
        lines[i] == "rename to "@ + path || lines[i] == "copy to "@ + path,
        !has_prefix(path, "rename to "@),
        !has_prefix(path, "copy to "@),
        forall|j: int|
            0 <= j < i ==> !has_prefix(#[trigger] lines[j], "rename to "@) && !has_prefix(
                lines[j],
                "copy to "@,
            ),
        is_tight(path),
    ensures
        file_change(Some(header), lines, hunks) matches Some(f) && f.file_path == path,
        added_lines(hunks).len() == 0 ==> file_change(Some(header), lines, hunks)->0.changed_lines
            == seq![1usize],
        added_lines(hunks).len() > 0 ==> file_change(Some(header), lines, hunks)->0.changed_lines
            == added_lines(hunks),
        file_change(Some(header), lines, hunks)->0.deleted_lines == removed_lines(hunks),
{
    lemma_new_path(lines, i, path);
}

proof fn lemma_new_path(lines: Seq<Text>, i: int, path: Text)
    requires
        0 <= i < lines.len(),
        lines[i] == "rename to "@ + path || lines[i] == "copy to "@ + path,
        !has_prefix(path, "rename to "@),
        !has_prefix(path, "copy to "@),
        forall|j: int|
            0 <= j < i ==> !has_prefix(#[trigger] lines[j], "rename to "@) && !has_prefix(
                lines[j],
                "copy to "@,
            ),
        is_tight(path),
    ensures
        new_path(lines) == Some(path),
    decreases i,
{
    reveal_strlit("rename to ");
    reveal_strlit("copy to ");
    let renamed = "rename to "@;
    let copied = "copy to "@;
    if i == 0 {
        assert((renamed + path).subrange(0, renamed.len() as int) =~= renamed);
        assert((copied + path).subrange(0, copied.len() as int) =~= copied);
        text_laws::lemma_prefix_dropped(renamed, path);
        text_laws::lemma_prefix_dropped(copied, path);
        assert((copied + path)[0] == 'c');
        if has_prefix(copied + path, renamed) {
            assert((copied + path).subrange(0, renamed.len() as int)[0] == 'r');
        }
        text_laws::lemma_prefix_dropped(renamed, path);
        assert(drop_prefixes(copied + path, renamed) == copied + path);
        text_laws::lemma_tight_is_trimmed(path);
    } else {
        assert(!names_new_path(lines[0]));
        lemma_new_path(lines.drop_first(), i - 1, path);
    }
}

/// A file that was neither renamed nor copied is reported under the path in its header.
pub proof fn lemma_header_path_is_reported(
    header: Text,
    lines: Seq<Text>,
    hunks: Seq<HunkHeaderView>,
)
    requires
        forall|j: int|
            0 <= j < lines.len() ==> !has_prefix(#[trigger] lines[j], "rename to "@) && !has_prefix(
                lines[j],
                "copy to "@,
            ),
        is_tight(header),
        is_without(header, '"'),
    ensures
        file_change(Some(header), lines, hunks) matches Some(f) ==> {
            &&& f.file_path == header
            &&& f.changed_lines == added_lines(hunks)
            &&& f.deleted_lines == removed_lines(hunks)
        },
        file_change(Some(header), lines, hunks) is None <==> added_lines(hunks).len() == 0
            && removed_lines(hunks).len() == 0 && forall|j: int|
            0 <= j < lines.len() ==> !has_prefix(#[trigger] lines[j], "Binary files"@),
{
    lemma_no_new_path(lines);
    reveal_strlit("\"");
    assert forall|at: int| !text::occurs_at(header, "\""@, at) by {
        if text::occurs_at(header, "\""@, at) {
            assert(header.subrange(at, at + 1)[0] == header[at]);
        }
    }
    text_laws::lemma_nothing_replaced(header, "\""@, ""@);
    text_laws::lemma_tight_is_trimmed(header);
}

proof fn lemma_no_new_path(lines: Seq<Text>)
    requires
        forall|j: int|
            0 <= j < lines.len() ==> !has_prefix(#[trigger] lines[j], "rename to "@) && !has_prefix(
                lines[j],
                "copy to "@,
            ),
    ensures
        new_path(lines) is None,
    decreases lines.len(),
{
    if lines.len() > 0 {
        assert(!names_new_path(lines[0]));
        lemma_no_new_path(lines.drop_first());
    }
}

/// The parts of a diff are read one by one and in order, and a part that says nothing is left out.
pub proof fn lemma_parts_in_order(a: Seq<Text>, b: Seq<Text>, part: Text)
    ensures
        changes_in(a + b) == changes_in(a) + changes_in(b),
        changes_in(seq![part]) == match file_diff_change(part) {
            Some(c) => seq![c],
            None => Seq::empty(),
        },
    decreases b.len(),
{
    let one = seq![part];
    reveal_with_fuel(changes_in, 2);
    assert(one.drop_last() =~= Seq::<Text>::empty());
    assert(one.last() == part);
    assert(changes_in(one) =~= match file_diff_change(part) {
        Some(c) => seq![c],
        None => Seq::empty(),
    });
    if b.len() == 0 {
        assert(a + b =~= a);
        assert(changes_in(a) + changes_in(b) =~= changes_in(a));
    } else {
        lemma_parts_in_order(a, b.drop_last(), part);
        assert((a + b).drop_last() =~= a + b.drop_last());
        assert((a + b).last() == b.last());
        assert(changes_in(a + b) =~= changes_in(a) + changes_in(b));
    }
}

} // verus!
