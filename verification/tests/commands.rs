use domino::error::DominoError;
use domino::files::FileTree;
use domino::git::{
    detect_default_branch, get_changed_files, get_file_at_revision, get_merge_base, parse_diff,
    try_parse_diff, CommandReply, Progress,
};
use domino::lockfile::revision::{get_file_from_revision, list_package_jsons_at_revision};
use domino::lockfile::{find_affected_dependencies, PackageManager};
use domino::types::ChangedFile;

const CWD: &str = "/repo";

fn ended(success: bool, stdout: &str, stderr: &str) -> CommandReply {
    CommandReply::Ended {
        success,
        stdout: stdout.to_string(),
        invalid: None,
        stderr: stderr.to_string(),
    }
}

fn ok(stdout: &str) -> CommandReply {
    ended(true, stdout, "")
}

fn failed(stderr: &str) -> CommandReply {
    ended(false, "", stderr)
}

fn args(list: &[&str]) -> Vec<String> {
    list.iter().map(|a| a.to_string()).collect()
}

fn other<T>(message: &str) -> Progress<T> {
    Progress::Done(Err(DominoError::Other(message.to_string())))
}

const DIFF: &str = "diff --git a/src/a.ts b/src/a.ts\n--- a/src/a.ts\n+++ b/src/a.ts\n@@ -1,2 +3,2 @@\n+x\n+y\n";

fn change_of_a() -> ChangedFile {
    ChangedFile {
        file_path: "src/a.ts".to_string(),
        changed_lines: vec![3, 4],
        deleted_lines: vec![],
    }
}

#[test]
fn changed_files_without_a_head_start_at_the_merge_base() {
    let mut replies: Vec<CommandReply> = Vec::new();
    assert_eq!(
        get_changed_files("origin/main", None, &replies),
        Progress::Run(args(&["merge-base", "origin/main", "HEAD"]))
    );
    replies.push(ok("abc123\n"));
    assert_eq!(
        get_changed_files("origin/main", None, &replies),
        Progress::Run(args(&["diff", "abc123", "--unified=0", "--relative"]))
    );
    replies.push(ok(DIFF));
    assert_eq!(
        get_changed_files("origin/main", None, &replies),
        Progress::Done(Ok(Some((vec![change_of_a()], "abc123".to_string()))))
    );
}

#[test]
fn changed_files_fall_back_to_the_base_itself() {
    let mut replies = vec![failed("no merge base")];
    assert_eq!(
        get_changed_files("origin/main", None, &replies),
        Progress::Run(args(&["rev-parse", "origin/main"]))
    );
    replies.push(ok(" def456 \n"));
    assert_eq!(
        get_changed_files("origin/main", None, &replies),
        Progress::Run(args(&["diff", "def456", "--unified=0", "--relative"]))
    );
    replies.push(ok(""));
    assert_eq!(
        get_changed_files("origin/main", None, &replies),
        Progress::Done(Ok(Some((vec![], "def456".to_string()))))
    );
}

#[test]
fn changed_files_with_a_head_run_from_base_to_head() {
    let mut replies: Vec<CommandReply> = Vec::new();
    assert_eq!(
        get_changed_files("v1", Some("v2"), &replies),
        Progress::Run(args(&["rev-parse", "v1"]))
    );
    replies.push(ok("111\n"));
    assert_eq!(
        get_changed_files("v1", Some("v2"), &replies),
        Progress::Run(args(&["diff", "111..v2", "--unified=0", "--relative"]))
    );
}

#[test]
fn failures_of_git_are_reported() {
    assert_eq!(
        get_changed_files("v1", Some("v2"), &vec![failed("bad revision")]),
        other("Git rev-parse failed for 'v1': bad revision")
    );
    assert_eq!(
        get_changed_files("v1", Some("v2"), &vec![CommandReply::NotStarted("no git".to_string())]),
        other("Failed to execute git rev-parse: no git")
    );
    assert_eq!(
        get_changed_files("m", None, &vec![ok("c"), failed("broken")]),
        other("Git diff failed for base 'c': broken")
    );
    assert_eq!(
        get_merge_base("a", "b", &vec![CommandReply::NotStarted("gone".to_string())]),
        other("Failed to execute git merge-base: gone")
    );
}

#[test]
fn a_file_at_a_revision() {
    assert_eq!(
        get_file_at_revision("abc", "src/a.ts", &vec![]),
        Progress::Run(args(&["show", "abc:./src/a.ts"]))
    );
    assert_eq!(
        get_file_at_revision("abc", "src/a.ts", &vec![ok("text\n")]),
        Progress::Done(Ok(Some("text\n".to_string())))
    );
    assert_eq!(
        get_file_at_revision("abc", "src/a.ts", &vec![failed("exists on disk, but not in")]),
        Progress::Done(Ok(None))
    );
}

#[test]
fn the_default_branch() {
    assert_eq!(detect_default_branch(true, true), "origin/main");
    assert_eq!(detect_default_branch(true, false), "origin/main");
    assert_eq!(detect_default_branch(false, true), "origin/master");
    assert_eq!(detect_default_branch(false, false), "origin/main");
}

#[test]
fn lines_beyond_the_largest_number_give_no_changes() {
    let diff = "diff --git a/x b/x\n@@ -1 +18446744073709551615,2 @@\n";
    assert_eq!(try_parse_diff(diff), None);
    assert_eq!(
        try_parse_diff("diff --git a/x b/x\n@@ -1 +7,2 @@\n").unwrap().unwrap()[0].changed_lines,
        vec![7, 8]
    );
}

#[test]
fn every_line_of_a_hunk_counts() {
    let diff = "diff --git a/x b/x\n@@ -10,3 +20,4 @@\n@@ -50,2 +60,0 @@\n@@ -70 +80 @@\n";
    let files = parse_diff(diff).unwrap();
    assert_eq!(files[0].changed_lines, vec![20, 21, 22, 23, 80]);
    assert_eq!(files[0].deleted_lines, vec![50, 51]);
}

#[test]
fn a_moved_file_without_changes_counts() {
    let diff = "diff --git a/old.ts b/new.ts\nsimilarity index 100%\nrename from old.ts\nrename to new.ts\n";
    let files = parse_diff(diff).unwrap();
    assert_eq!(files.len(), 1);
    assert_eq!(files[0].file_path, "new.ts");
    assert_eq!(files[0].changed_lines, vec![1]);
}

#[test]
fn the_content_of_an_object() {
    let object = |replies: &Vec<CommandReply>| get_file_from_revision("abc", "yarn.lock", replies, 0);
    assert_eq!(
        object(&vec![]),
        (Progress::Run(args(&["cat-file", "-s", "abc:yarn.lock"])), 0)
    );
    assert_eq!(
        object(&vec![ok("12\n")]),
        (Progress::Run(args(&["cat-file", "-p", "abc:yarn.lock"])), 1)
    );
    assert_eq!(
        object(&vec![ok("12\n"), ok("content")]),
        (Progress::Done(Ok(Some("content".to_string()))), 2)
    );
    assert_eq!(
        object(&vec![failed("fatal: path 'yarn.lock' does not exist in 'abc'")]),
        (Progress::Done(Ok(None)), 1)
    );
    assert_eq!(
        object(&vec![ok("twelve")]),
        (
            other("git cat-file -s returned unparseable size for 'abc:yarn.lock': \"twelve\""),
            1
        )
    );
    assert_eq!(
        object(&vec![ok("268435457")]),
        (
            other("Git object 'abc:yarn.lock' exceeds 256 MB size limit (268435457 bytes)"),
            1
        )
    );
    assert_eq!(
        object(&vec![ok("1"), failed("")]),
        (
            other("git cat-file -p failed for 'abc:yarn.lock' (object exists but content unreadable)"),
            2
        )
    );
}

#[test]
fn the_manifests_at_a_revision() {
    assert_eq!(
        list_package_jsons_at_revision("abc", &vec![], 0),
        Progress::Run(args(&["ls-tree", "-r", "--name-only", "abc"]))
    );
    let listing = "package.json\npackages/a/package.json\nnode_modules/b/package.json\nREADME.md\n";
    assert_eq!(
        list_package_jsons_at_revision("abc", &vec![ok(listing)], 0),
        Progress::Done(Ok(args(&["packages/a/package.json"])))
    );
    assert_eq!(
        list_package_jsons_at_revision("abc", &vec![failed("")], 0),
        other("git ls-tree failed for 'abc'")
    );
}

const NPM_OLD: &str = r#"{
  "lockfileVersion": 3,
  "packages": {
    "": { "dependencies": { "app-lib": "^1.0.0" } },
    "node_modules/app-lib": { "version": "1.0.0", "dependencies": { "deep": "^1.0.0" } },
    "node_modules/deep": { "version": "1.0.0" }
  }
}"#;

fn npm_tree(content: &str) -> FileTree {
    let mut tree = FileTree::new();
    tree.add_file("/repo/package-lock.json", Some(content.to_string()));
    tree
}

fn affected(tree: &FileTree, replies: &Vec<CommandReply>) -> Progress<Vec<String>> {
    match find_affected_dependencies(tree, CWD, "abc", &PackageManager::Npm, replies) {
        Progress::Run(command) => Progress::Run(command),
        Progress::Done(Err(e)) => Progress::Done(Err(e)),
        Progress::Done(Ok(set)) => {
            let mut names: Vec<String> = (0..set.len()).map(|i| set.at(i).to_string()).collect();
            names.sort();
            Progress::Done(Ok(names))
        }
    }
}

#[test]
fn a_change_deep_down_affects_the_direct_dependency() {
    let new = NPM_OLD.replace("\"node_modules/deep\": { \"version\": \"1.0.0\" }", "\"node_modules/deep\": { \"version\": \"1.0.1\" }");
    let tree = npm_tree(&new);
    assert_eq!(
        affected(&tree, &vec![]),
        Progress::Run(args(&["cat-file", "-s", "abc:package-lock.json"]))
    );
    assert_eq!(
        affected(&tree, &vec![ok("500"), ok(NPM_OLD)]),
        Progress::Done(Ok(args(&["app-lib"])))
    );
}

#[test]
fn an_unchanged_lockfile_affects_nothing() {
    let tree = npm_tree(NPM_OLD);
    assert_eq!(
        affected(&tree, &vec![ok("500"), ok(NPM_OLD)]),
        Progress::Done(Ok(vec![]))
    );
}

#[test]
fn a_new_lockfile_affects_every_direct_dependency() {
    let tree = npm_tree(NPM_OLD);
    assert_eq!(
        affected(&tree, &vec![failed("does not exist")]),
        Progress::Done(Ok(args(&["app-lib"])))
    );
}

#[test]
fn a_missing_or_unreadable_lockfile_is_an_error() {
    assert_eq!(
        affected(&FileTree::new(), &vec![]),
        other("Read lockfile metadata: no such file: /repo/package-lock.json")
    );
    let mut tree = FileTree::new();
    tree.add_file("/repo/package-lock.json", None);
    assert_eq!(
        affected(&tree, &vec![]),
        other("Read lockfile: not a readable text: /repo/package-lock.json")
    );
}

#[test]
fn a_yarn_lockfile_is_read_with_the_manifests_of_both_sides() {
    let old = "# yarn lockfile v1\n\nlib-a@^1.0.0:\n  version \"1.0.0\"\n";
    let new = "# yarn lockfile v1\n\nlib-a@^1.0.0:\n  version \"1.0.1\"\n";
    let manifest = r#"{ "name": "root", "dependencies": { "lib-a": "^1.0.0" } }"#;
    let mut tree = FileTree::new();
    tree.add_file("/repo/yarn.lock", Some(new.to_string()));
    tree.add_file("/repo/package.json", Some(manifest.to_string()));
    let mut replies: Vec<CommandReply> = Vec::new();
    let mut commands: Vec<Vec<String>> = Vec::new();
    loop {
        match find_affected_dependencies(&tree, CWD, "abc", &PackageManager::Yarn, &replies) {
            Progress::Run(command) => {
                let last = command[command.len() - 1].clone();
                let reply = if command[0] == "ls-tree" {
                    ok("package.json\nyarn.lock\n")
                } else if command[1] == "-s" {
                    ok("100")
                } else if last == "abc:package.json" {
                    ok(manifest)
                } else {
                    ok(old)
                };
                commands.push(command);
                replies.push(reply);
            }
            Progress::Done(result) => {
                let set = result.unwrap();
                assert_eq!(set.len(), 1);
                assert!(set.contains("lib-a"));
                break;
            }
        }
    }
    assert_eq!(
        commands[commands.len() - 1],
        args(&["cat-file", "-p", "abc:yarn.lock"])
    );
}
