//! From a changed lockfile to the direct dependencies and imports that it affects.

use crate::collections::StringSet;
use crate::error::{DominoError, ErrorView};
use crate::files::FileTree;
use crate::git::{CommandReply, Progress, ProgressView, ReplyView};
use crate::lockfile::bun;
use crate::lockfile::bun::bun_lockfile_text;
use crate::lockfile::data::{LockfileData, LockfileView};
use crate::lockfile::graph;
use crate::lockfile::graph::affected_dependencies;
use crate::lockfile::keys;
use crate::lockfile::keys::{bare_package, is_plain_name, lemma_import_of_package};
use crate::lockfile::laws::lemma_same_lockfile;
use crate::lockfile::manager;
use crate::lockfile::manager::{lockfile_of, PackageManager};
use crate::lockfile::npm;
use crate::lockfile::npm::npm_lockfile_text;
use crate::lockfile::pnpm;
use crate::lockfile::pnpm::pnpm_lockfile_text;
use crate::lockfile::revision;
use crate::lockfile::revision::{
    object_answer, AnswerView, MAX_LOCKFILE_BYTES, MAX_LOCKFILE_MEGABYTES,
};
use crate::lockfile::workspace_manifests;
use crate::lockfile::workspace_manifests::{base_manifests, workspace_manifests};
use crate::lockfile::yarn;
use crate::lockfile::yarn::yarn_lockfile_text;
use crate::paths;
use crate::paths::path_join;
use crate::text;
use crate::text::{bytes_in, decimal, has_prefix, Text};
use vstd::prelude::*;

verus! {

/// What the text of a lockfile says. `manifests` tell the direct dependencies where the lockfile does
/// not (yarn).
pub open spec fn lockfile_text(
    content: Text,
    pm: PackageManager,
    manifests: Seq<Text>,
) -> Result<LockfileView, ErrorView> {
    if bytes_in(content) > MAX_LOCKFILE_BYTES {
        Err(
            ErrorView::Other(
                "Lockfile exceeds "@ + decimal(MAX_LOCKFILE_MEGABYTES as nat) + " MB size limit"@,
            ),
        )
    } else {
        match pm {
            PackageManager::Npm => npm_lockfile_text(content),
            PackageManager::Pnpm => pnpm_lockfile_text(content),
            PackageManager::Yarn => yarn_lockfile_text(content, manifests),
            PackageManager::Bun => bun_lockfile_text(content),
        }
    }
}

/// What the text of a lockfile says. Only yarn needs the manifests of the workspace: its lockfiles do
/// not tell the direct dependencies.
pub fn parse_lockfile(content: &str, pm: &PackageManager, pkg_json_contents: &Vec<String>) -> (r:
    Result<LockfileData, DominoError>)
    ensures
        match r {
            Ok(d) => lockfile_text(content@, *pm, pkg_json_contents.deep_view()) == Ok::<
                LockfileView,
                ErrorView,
            >(d.deep_view()),
            Err(e) => lockfile_text(content@, *pm, pkg_json_contents.deep_view()) == Err::<
                LockfileView,
                ErrorView,
            >(e.deep_view()),
        },
{
    if text::byte_len(content) as u64 > MAX_LOCKFILE_BYTES {
        return Err(
            DominoError::Other(
                text::cat3(
                    "Lockfile exceeds ",
                    text::decimal_of(MAX_LOCKFILE_MEGABYTES).as_str(),
                    " MB size limit",
                ),
            ),
        );
    }
    match pm {
        PackageManager::Npm => npm::parse_npm_lockfile(content),
        PackageManager::Pnpm => pnpm::parse_pnpm_lockfile(content),
        PackageManager::Yarn => yarn::parse_yarn_lockfile(content, pkg_json_contents),
        PackageManager::Bun => bun::parse_bun_lockfile(content),
    }
}

/// The lockfile in the directory `cwd`.
pub open spec fn current_lockfile(files: FileTree, cwd: Text, pm: PackageManager) -> Result<
    Text,
    ErrorView,
> {
    let path = path_join(cwd, lockfile_of(pm));
    if !files.has_file(path) {
        Err(ErrorView::Other("Read lockfile metadata: no such file: "@ + path))
    } else {
        match files.content(path) {
            None => Err(ErrorView::Other("Read lockfile: not a readable text: "@ + path)),
            Some(content) => if bytes_in(content) > MAX_LOCKFILE_BYTES {
                Err(
                    ErrorView::Other(
                        "Lockfile "@ + lockfile_of(pm) + " exceeds "@ + decimal(
                            MAX_LOCKFILE_MEGABYTES as nat,
                        ) + " MB size limit ("@ + decimal(bytes_in(content)) + " bytes)"@,
                    ),
                )
            } else {
                Ok(content)
            },
        }
    }
}

/// The manifests of the workspace at the base, once git has replied: only yarn needs them.
pub open spec fn manifests_at_base(
    merge_base: Text,
    pm: PackageManager,
    replies: Seq<ReplyView>,
) -> AnswerView<Seq<Text>> {
    if pm is Yarn {
        base_manifests(merge_base, replies)
    } else {
        AnswerView { progress: ProgressView::Done(Seq::empty()), used: 0 }
    }
}

/// The manifests of the workspace now: only yarn needs them.
pub open spec fn manifests_now(files: FileTree, cwd: Text, pm: PackageManager) -> Seq<Text> {
    if pm is Yarn {
        workspace_manifests(files, cwd)
    } else {
        Seq::empty()
    }
}

/// The lockfile that lists nothing.
pub open spec fn empty_lockfile() -> LockfileView {
    LockfileView { direct_dependencies: Set::empty(), packages: Map::empty() }
}

/// The direct dependencies that a change of the lockfile since `merge_base` affects, once git has
/// replied. Where there was no lockfile, every package is new.
pub open spec fn affected_answer(
    files: FileTree,
    cwd: Text,
    merge_base: Text,
    pm: PackageManager,
    replies: Seq<ReplyView>,
) -> ProgressView<Set<Text>> {
    match current_lockfile(files, cwd, pm) {
        Err(e) => ProgressView::Failed(e),
        Ok(content) => {
            let manifests = manifests_at_base(merge_base, pm, replies);
            match manifests.progress {
                ProgressView::Run(args) => ProgressView::Run(args),
                ProgressView::Failed(e) => ProgressView::Failed(e),
                ProgressView::Done(base) => match lockfile_text(
                    content,
                    pm,
                    manifests_now(files, cwd, pm),
                ) {
                    Err(e) => ProgressView::Failed(e),
                    Ok(current) => match object_answer(
                        merge_base + ":"@ + lockfile_of(pm),
                        replies.skip(manifests.used),
                    ).progress {
                        ProgressView::Run(args) => ProgressView::Run(args),
                        ProgressView::Failed(e) => ProgressView::Failed(e),
                        ProgressView::Done(None) => ProgressView::Done(
                            affected_dependencies(current, empty_lockfile()),
                        ),
                        ProgressView::Done(Some(old_content)) => match lockfile_text(
                            old_content,
                            pm,
                            base,
                        ) {
                            Err(e) => ProgressView::Failed(e),
                            Ok(previous) => ProgressView::Done(
                                affected_dependencies(current, previous),
                            ),
                        },
                    },
                },
            }
        },
    }
}

/// The lockfile in the directory `cwd`.
fn read_lockfile(files: &FileTree, cwd: &str, pm: &PackageManager) -> (r: Result<
    String,
    DominoError,
>)
    ensures
        match r {
            Ok(c) => current_lockfile(*files, cwd@, *pm) == Ok::<Text, ErrorView>(c@),
            Err(e) => current_lockfile(*files, cwd@, *pm) == Err::<Text, ErrorView>(e.deep_view()),
        },
{
    let name = manager::lockfile_name(pm);
    let path = paths::join(cwd, name);
    if !files.is_file(path.as_str()) {
        return Err(
            DominoError::Other(
                text::cat("Read lockfile metadata: no such file: ", path.as_str()),
            ),
        );
    }
    match files.read(path.as_str()) {
        None => Err(
            DominoError::Other(text::cat("Read lockfile: not a readable text: ", path.as_str())),
        ),
        Some(content) => {
            let n: u64 = text::byte_len(content) as u64;
            if n > MAX_LOCKFILE_BYTES {
                let mut m = text::cat3("Lockfile ", name, " exceeds ");
                m.append(text::decimal_of(MAX_LOCKFILE_MEGABYTES).as_str());
                m.append(" MB size limit (");
                m.append(text::decimal_of(n).as_str());
                m.append(" bytes)");
                Err(DominoError::Other(m))
            } else {
                Ok(content.to_owned())
            }
        },
    }
}

/// The direct dependencies that a change of the lockfile since `merge_base` affects. `replies` are
/// git's replies so far.
pub fn find_affected_dependencies(
    files: &FileTree,
    cwd: &str,
    merge_base: &str,
    pm: &PackageManager,
    replies: &Vec<CommandReply>,
) -> (r: Progress<StringSet>)
    ensures
        match affected_answer(*files, cwd@, merge_base@, *pm, replies.deep_view()) {
            ProgressView::Run(args) => r matches Progress::Run(a) && a.deep_view() == args,
            ProgressView::Failed(e) => r matches Progress::Done(Err(x)) && x.deep_view() == e,
            ProgressView::Done(s) => r matches Progress::Done(Ok(set)) && set@ == s,
        },
{
    let content = match read_lockfile(files, cwd, pm) {
        Ok(c) => c,
        Err(e) => {
            return Progress::Done(Err(e));
        },
    };
    let ghost seen = replies.deep_view();
    assert(seen.skip(0) =~= seen);
    let mut now: Vec<String> = Vec::new();
    let mut base: Vec<String> = Vec::new();
    assert(now.deep_view() =~= Seq::<Text>::empty());
    let mut used: usize = 0;
    match pm {
        PackageManager::Yarn => {
            now = workspace_manifests::collect_workspace_pkg_jsons(files, cwd);
            let (progress, took) = workspace_manifests::collect_base_workspace_pkg_jsons(
                merge_base,
                replies,
            );
            match progress {
                Progress::Run(args) => {
                    return Progress::Run(args);
                },
                Progress::Done(Err(e)) => {
                    return Progress::Done(Err(e));
                },
                Progress::Done(Ok(manifests)) => {
                    base = manifests;
                },
            }
            used = took;
        },
        _ => {},
    }
    let current = match parse_lockfile(content.as_str(), pm, &now) {
        Ok(d) => d,
        Err(e) => {
            return Progress::Done(Err(e));
        },
    };
    let (answer, _) = revision::get_file_from_revision(
        merge_base,
        manager::lockfile_name(pm),
        replies,
        used,
    );
    let previous = match answer {
        Progress::Run(args) => {
            return Progress::Run(args);
        },
        Progress::Done(Err(e)) => {
            return Progress::Done(Err(e));
        },
        Progress::Done(Ok(None)) => LockfileData::empty(),
        Progress::Done(Ok(Some(old_content))) => {
            match parse_lockfile(old_content.as_str(), pm, &base) {
                Ok(d) => d,
                Err(e) => {
                    return Progress::Done(Err(e));
                },
            }
        },
    };
    Progress::Done(Ok(graph::affected_between(&current, &previous)))
}

/// A specifier that names a file rather than a package.
pub open spec fn is_path_specifier(specifier: Text) -> bool {
    has_prefix(specifier, "."@) || has_prefix(specifier, "/"@)
}

/// The affected dependency that an import names.
pub open spec fn matched_dependency(from_module: Text, affected: Set<Text>) -> Option<Text> {
    if !is_path_specifier(from_module) && affected.contains(bare_package(from_module)) {
        Some(bare_package(from_module))
    } else {
        None
    }
}

/// The affected dependency that an import names, itself (`lib-a`) or by a path inside it
/// (`lib-a/utils`). Relative and absolute imports name none.
pub fn match_affected_dependency<'a>(from_module: &str, affected_deps: &'a StringSet) -> (r: Option<
    &'a str,
>)
    ensures
        r.deep_view() == matched_dependency(from_module@, affected_deps@),
{
    if text::starts_with(from_module, ".") || text::starts_with(from_module, "/") {
        return None;
    }
    affected_deps.get(keys::bare_package_from_specifier(from_module))
}

/// An affected dependency is matched by the imports of it: of the package itself, and of any path
/// inside it.
pub proof fn lemma_import_matches(name: Text, inside: Text, affected: Set<Text>)
    requires
        name.len() > 0,
        is_plain_name(name),
        !is_path_specifier(name),
        affected.contains(name),
    ensures
        matched_dependency(name, affected) == Some(name),
        matched_dependency(name + seq!['/'] + inside, affected) == Some(name),
{
    lemma_import_of_package(name, inside);
    let deep = name + seq!['/'] + inside;
    assert(deep[0] == name[0]);
    lemma_path_specifier(name);
    lemma_path_specifier(deep);
}

/// Whether a specifier is that of a path shows in its first character.
proof fn lemma_path_specifier(s: Text)
    requires
        s.len() > 0,
    ensures
        is_path_specifier(s) <==> s[0] == '.' || s[0] == '/',
{
    reveal_strlit(".");
    reveal_strlit("/");
    let first = s.subrange(0, 1);
    assert(first =~= seq![s[0]]);
    assert(first[0] == s[0]);
    assert("."@.len() == 1 && "."@[0] == '.');
    assert("/"@.len() == 1 && "/"@[0] == '/');
    if s[0] == '.' {
        assert(first =~= "."@);
    }
    if s[0] == '/' {
        assert(first =~= "/"@);
    }
}

/// Nothing is matched but what is affected.
pub proof fn lemma_matched_is_affected(from_module: Text, affected: Set<Text>)
    ensures
        matched_dependency(from_module, affected) matches Some(name) ==> affected.contains(name),
{
}

/// A lockfile that says what it said at the base affects nothing.
pub proof fn lemma_unchanged_lockfile(
    files: FileTree,
    cwd: Text,
    merge_base: Text,
    pm: PackageManager,
    replies: Seq<ReplyView>,
    content: Text,
    old_content: Text,
    base: Seq<Text>,
)
    requires
        current_lockfile(files, cwd, pm) == Ok::<Text, ErrorView>(content),
        manifests_at_base(merge_base, pm, replies).progress == ProgressView::Done(base),
        object_answer(
            merge_base + ":"@ + lockfile_of(pm),
            replies.skip(manifests_at_base(merge_base, pm, replies).used),
        ).progress == ProgressView::Done(Some(old_content)),
        lockfile_text(content, pm, manifests_now(files, cwd, pm)) is Ok,
        lockfile_text(content, pm, manifests_now(files, cwd, pm)) == lockfile_text(
            old_content,
            pm,
            base,
        ),
    ensures
        affected_answer(files, cwd, merge_base, pm, replies) == ProgressView::Done(
            Set::<Text>::empty(),
        ),
{
    lemma_same_lockfile(lockfile_text(old_content, pm, base)->Ok_0);
}

} // verus!
