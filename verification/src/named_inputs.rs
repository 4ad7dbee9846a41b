//! Files that all projects depend on, and files that count for none.

use crate::collections;
use crate::collections::StringSet;
use crate::files::FileTree;
use crate::glob_match;
use crate::glob_match::{glob_matches, is_glob};
use crate::json;
use crate::json::{json_document, member_of, Json};
use crate::json_text;
use crate::json_text::{field_text, members_of_text, repeats};
use crate::paths;
use crate::paths::{path_join, path_within};
use crate::text;
use crate::text::{has_prefix, Text};
use crate::types::{
    ChangedFile, ChangedFileView, GlobalTrigger, GlobalTriggerView, Project, ProjectView,
};
use crate::workspace::discovery;
use crate::workspace::turbo;
use crate::workspace::turbo::{turbo_config, turbo_file};
use vstd::prelude::*;

verus! {

/// The name under which the global dependencies of a `turbo.json` are reported.
pub const TURBO_GLOBAL_DEPENDENCIES: &'static str = "globalDependencies";

/// A pattern for files that all projects depend on.
#[derive(Debug, PartialEq, Eq)]
pub struct GlobalPattern {
    /// The input that the pattern stands in.
    pub named_input: String,
    /// The pattern as it was written.
    pub raw_pattern: String,
    /// The pattern for paths from the workspace root.
    pub pattern: String,
}

/// The view of a [`GlobalPattern`].
pub struct GlobalPatternView {
    pub named_input: Text,
    pub raw_pattern: Text,
    pub pattern: Text,
}

impl DeepView for GlobalPattern {
    type V = GlobalPatternView;

    open spec fn deep_view(&self) -> GlobalPatternView {
        GlobalPatternView {
            named_input: self.named_input@,
            raw_pattern: self.raw_pattern@,
            pattern: self.pattern@,
        }
    }
}

/// What the configuration of a workspace says about files.
#[derive(Debug, PartialEq, Eq)]
pub struct ResolvedNamedInputs {
    /// Patterns for files that all projects depend on.
    pub global_patterns: Vec<GlobalPattern>,
    /// Patterns for files, seen from the root of their project, that count for nothing.
    pub negation_patterns: Vec<String>,
}

/// The view of [`ResolvedNamedInputs`].
pub struct NamedInputsView {
    pub global_patterns: Seq<GlobalPatternView>,
    pub negation_patterns: Seq<Text>,
}

impl DeepView for ResolvedNamedInputs {
    type V = NamedInputsView;

    open spec fn deep_view(&self) -> NamedInputsView {
        NamedInputsView {
            global_patterns: self.global_patterns.deep_view(),
            negation_patterns: self.negation_patterns.deep_view(),
        }
    }
}

// ---------------------------------------------------------------------------
// Following the inputs of an nx.json
// ---------------------------------------------------------------------------

/// The inputs of an `nx.json`: none where it does not speak of them. All must be lists.
pub open spec fn inputs_in(config: Json) -> Option<Seq<(String, Json)>> {
    if config.is_record(0, 1) {
        match config.field("namedInputs"@, 0) {
            None => Some(Seq::empty()),
            Some(Json::Object(inputs)) => if all_lists(inputs@) {
                Some(inputs@)
            } else {
                None
            },
            Some(_) => None,
        }
    } else {
        None
    }
}

/// All members are lists.
pub open spec fn all_lists(members: Seq<(String, Json)>) -> bool {
    forall|i: int| 0 <= i < members.len() ==> (#[trigger] members[i]).1 is Array
}

/// The entries of an input.
pub open spec fn entries_of(inputs: Seq<(String, Json)>, name: Text) -> Option<Seq<Json>> {
    match member_of(inputs, name) {
        Some(v) => v.items(),
        None => None,
    }
}

/// An entry that is a pattern, not the name of another input.
pub open spec fn is_pattern(s: Text) -> bool {
    has_prefix(s, "{"@) || has_prefix(s, "!"@)
}

/// How far inputs have been followed: the patterns found, each with the input that it stands in,
/// and the names that have been seen.
pub struct Walk {
    pub found: Seq<(Text, Text)>,
    pub seen: Set<Text>,
}

/// Follows an input that has not been seen. A chain of names that are not seen twice is no longer
/// than `depth`, where that is more than the number of inputs.
pub open spec fn follow_input(
    inputs: Seq<(String, Json)>,
    name: Text,
    walk: Walk,
    depth: nat,
) -> Walk
    decreases depth, 0nat,
{
    if depth == 0 || walk.seen.contains(name) {
        walk
    } else {
        let next = Walk { found: walk.found, seen: walk.seen.insert(name) };
        match entries_of(inputs, name) {
            None => next,
            Some(entries) => follow_entries(inputs, name, entries, next, (depth - 1) as nat),
        }
    }
}

/// Follows the entries of an input, in order: patterns are noted, names are followed.
pub open spec fn follow_entries(
    inputs: Seq<(String, Json)>,
    name: Text,
    entries: Seq<Json>,
    walk: Walk,
    depth: nat,
) -> Walk
    decreases depth, entries.len(),
{
    if entries.len() == 0 {
        walk
    } else {
        let before = follow_entries(inputs, name, entries.drop_last(), walk, depth);
        match entries.last().as_text() {
            None => before,
            Some(s) => if is_pattern(s) {
                Walk { found: before.found.push((name, s)), seen: before.seen }
            } else {
                follow_input(inputs, s, before, depth)
            },
        }
    }
}

/// The patterns that the input `default` leads to.
pub open spec fn default_patterns(inputs: Seq<(String, Json)>) -> Seq<(Text, Text)> {
    follow_input(
        inputs,
        "default"@,
        Walk { found: Seq::empty(), seen: Set::empty() },
        inputs.len() + 1,
    ).found
}

/// The text behind a prefix, where it has it.
pub open spec fn behind(s: Text, prefix: Text) -> Option<Text> {
    if has_prefix(s, prefix) {
        Some(s.skip(prefix.len() as int))
    } else {
        None
    }
}

/// The pattern for files that all projects depend on, where the text is one.
pub open spec fn global_pattern(s: Text) -> Option<Text> {
    if has_prefix(s, "!"@) {
        None
    } else {
        match behind(s, "{workspaceRoot}/"@) {
            Some(p) => if is_glob(p) {
                Some(p)
            } else {
                None
            },
            None => None,
        }
    }
}

/// The pattern for files that count for nothing, where the text is one.
pub open spec fn negation_pattern(s: Text) -> Option<Text> {
    match behind(s, "!"@) {
        Some(t) => match behind(t, "{projectRoot}/"@) {
            Some(p) => if is_glob(p) {
                Some(p)
            } else {
                None
            },
            None => None,
        },
        None => None,
    }
}

/// The patterns among some for files that all projects depend on.
pub open spec fn globals_among(found: Seq<(Text, Text)>) -> Seq<GlobalPatternView>
    decreases found.len(),
{
    if found.len() == 0 {
        Seq::empty()
    } else {
        let before = globals_among(found.drop_last());
        match global_pattern(found.last().1) {
            Some(pattern) => before.push(
                GlobalPatternView {
                    named_input: found.last().0,
                    raw_pattern: found.last().1,
                    pattern,
                },
            ),
            None => before,
        }
    }
}

/// The patterns among some for files that count for nothing.
pub open spec fn negations_among(found: Seq<(Text, Text)>) -> Seq<Text>
    decreases found.len(),
{
    if found.len() == 0 {
        Seq::empty()
    } else {
        let before = negations_among(found.drop_last());
        match negation_pattern(found.last().1) {
            Some(pattern) => before.push(pattern),
            None => before,
        }
    }
}

/// Some patterns, where there are any.
pub open spec fn some_patterns(
    global_patterns: Seq<GlobalPatternView>,
    negation_patterns: Seq<Text>,
) -> Option<NamedInputsView> {
    if global_patterns.len() == 0 && negation_patterns.len() == 0 {
        None
    } else {
        Some(NamedInputsView { global_patterns, negation_patterns })
    }
}

/// What an `nx.json` says about files.
pub open spec fn nx_inputs(config: Json) -> Option<NamedInputsView> {
    match inputs_in(config) {
        Some(inputs) => {
            let found = default_patterns(inputs);
            some_patterns(globals_among(found), negations_among(found))
        },
        None => None,
    }
}

/// The value of each member is a list.
pub open spec fn all_list_texts(members: Seq<(Text, Text)>) -> bool {
    forall|i: int|
        0 <= i < members.len() ==> (json_document((#[trigger] members[i]).1) matches Ok(v)
            && v is Array)
}

/// The text of an `nx.json` names its inputs once, and every one of them is a list, even where it is
/// given again.
pub open spec fn is_typed(content: Text) -> bool {
    !repeats(content, "namedInputs"@) && match field_text(content, "namedInputs"@, 0) {
        Some(inputs) => all_list_texts(members_of_text(inputs)),
        None => true,
    }
}

/// What the `nx.json` of a workspace says about files.
pub open spec fn nx_named_inputs(tree: FileTree, cwd: Text) -> Option<NamedInputsView> {
    match tree.content(path_join(cwd, "nx.json"@)) {
        Some(content) => match json_document(content) {
            Ok(config) => if is_typed(content) {
                nx_inputs(config)
            } else {
                None
            },
            Err(_) => None,
        },
        None => None,
    }
}

// ---------------------------------------------------------------------------
// Turborepo
// ---------------------------------------------------------------------------

/// The path of a global dependency leads out of the workspace.
pub open spec fn leads_out(s: Text) -> bool {
    has_prefix(s, "/"@) || s == ".."@ || has_prefix(s, "../"@)
}

/// The pattern of a global dependency without the `./` before it.
pub open spec fn without_dot(s: Text) -> Text {
    match behind(s, "./"@) {
        Some(t) => t,
        None => s,
    }
}

/// The patterns of some global dependencies: negations and paths out of the workspace do not
/// count.
pub open spec fn turbo_patterns(dependencies: Seq<Text>) -> Seq<GlobalPatternView>
    decreases dependencies.len(),
{
    if dependencies.len() == 0 {
        Seq::empty()
    } else {
        let before = turbo_patterns(dependencies.drop_last());
        let s = dependencies.last();
        if has_prefix(s, "!"@) || leads_out(s) || !is_glob(without_dot(s)) {
            before
        } else {
            before.push(
                GlobalPatternView {
                    named_input: TURBO_GLOBAL_DEPENDENCIES@,
                    raw_pattern: s,
                    pattern: without_dot(s),
                },
            )
        }
    }
}

/// What the Turborepo configuration of a workspace says about files.
pub open spec fn turbo_named_inputs(tree: FileTree, cwd: Text) -> Option<NamedInputsView> {
    match turbo_config(tree, cwd) {
        Some(dependencies) => some_patterns(turbo_patterns(dependencies), Seq::empty()),
        None => None,
    }
}

/// What the configuration of a workspace says about files: that of Nx, or else that of Turborepo.
pub open spec fn global_inputs(tree: FileTree, cwd: Text) -> Option<NamedInputsView> {
    if tree.present(path_join(cwd, "nx.json"@)) {
        nx_named_inputs(tree, cwd)
    } else if turbo_file(tree, cwd) is Some {
        turbo_named_inputs(tree, cwd)
    } else {
        None
    }
}

// ---------------------------------------------------------------------------
// Matching
// ---------------------------------------------------------------------------

/// The first of some patterns that matches the path.
pub open spec fn first_match(patterns: Seq<GlobalPatternView>, path: Text) -> Option<
    GlobalPatternView,
>
    decreases patterns.len(),
{
    if patterns.len() == 0 {
        None
    } else if glob_matches(patterns[0].pattern, path, false) {
        Some(patterns[0])
    } else {
        first_match(patterns.drop_first(), path)
    }
}

/// A pattern among some matches the path.
pub open spec fn any_matches(patterns: Seq<Text>, path: Text) -> bool {
    exists|i: int| 0 <= i < patterns.len() && glob_matches(#[trigger] patterns[i], path, false)
}

/// The file counts for nothing in the project at `root`.
pub open spec fn negated_in(patterns: Seq<Text>, file: Text, root: Text) -> bool {
    path_within(file, root) is Some && any_matches(patterns, path_within(file, root)->0)
}

/// The file counts for nothing in a project at one of the roots.
pub open spec fn negated_in_any(patterns: Seq<Text>, file: Text, roots: Seq<Text>) -> bool {
    exists|i: int| 0 <= i < roots.len() && negated_in(patterns, file, #[trigger] roots[i])
}

/// The changed files that all projects depend on, with the patterns that say so.
pub open spec fn triggers_in(
    patterns: Seq<GlobalPatternView>,
    files: Seq<ChangedFileView>,
) -> Seq<GlobalTriggerView>
    decreases files.len(),
{
    if files.len() == 0 {
        Seq::empty()
    } else {
        let before = triggers_in(patterns, files.drop_last());
        match first_match(patterns, files.last().file_path) {
            Some(p) => before.push(
                GlobalTriggerView {
                    file: files.last().file_path,
                    named_input: p.named_input,
                    raw_pattern: p.raw_pattern,
                },
            ),
            None => before,
        }
    }
}

/// The roots of some projects.
pub open spec fn roots_of(projects: Seq<ProjectView>) -> Seq<Text> {
    Seq::new(projects.len(), |i: int| projects[i].root)
}

/// The changed files that count in some project.
pub open spec fn kept(
    patterns: Seq<Text>,
    files: Seq<ChangedFileView>,
    roots: Seq<Text>,
) -> Seq<ChangedFileView>
    decreases files.len(),
{
    if files.len() == 0 {
        Seq::empty()
    } else {
        let before = kept(patterns, files.drop_last(), roots);
        if negated_in_any(patterns, files.last().file_path, roots) {
            before
        } else {
            before.push(files.last())
        }
    }
}

// ---------------------------------------------------------------------------
// Executable
// ---------------------------------------------------------------------------

/// The names of the inputs.
spec fn names_of(inputs: Seq<(String, Json)>) -> Seq<Text> {
    Seq::new(inputs.len(), |i: int| inputs[i].0@)
}

/// How many inputs have not been seen.
spec fn unseen(inputs: Seq<(String, Json)>, seen: Set<Text>) -> nat {
    names_of(inputs).to_set().difference(seen).len()
}

proof fn lemma_member_is_named(inputs: Seq<(String, Json)>, name: Text)
    requires
        member_of(inputs, name) is Some,
    ensures
        names_of(inputs).contains(name),
    decreases inputs.len(),
{
    if inputs[0].0@ == name {
        assert(names_of(inputs)[0] == name);
    } else {
        let rest = inputs.drop_first();
        lemma_member_is_named(rest, name);
        let i = choose|i: int| 0 <= i < names_of(rest).len() && names_of(rest)[i] == name;
        assert(names_of(inputs)[i + 1] == name);
    }
}

proof fn lemma_unseen_shrinks(
    inputs: Seq<(String, Json)>,
    seen: Set<Text>,
    name: Text,
    more: Set<Text>,
)
    requires
        names_of(inputs).contains(name),
        !seen.contains(name),
        seen.insert(name).subset_of(more),
    ensures
        unseen(inputs, more) < unseen(inputs, seen),
{
    let names = names_of(inputs).to_set();
    vstd::seq_lib::seq_to_set_is_finite(names_of(inputs));
    let big = names.difference(seen);
    let small = names.difference(more);
    assert(big.contains(name));
    assert forall|t: Text| small.contains(t) implies #[trigger] big.remove(name).contains(t) by {
        assert(!seen.insert(name).contains(t));
    }
    vstd::set_lib::lemma_len_subset(small, big.remove(name));
}

proof fn lemma_unseen_at_first(inputs: Seq<(String, Json)>)
    ensures
        unseen(inputs, Set::<Text>::empty()) <= inputs.len(),
{
    let names = names_of(inputs);
    vstd::seq_lib::seq_to_set_is_finite(names);
    assert(names.to_set().difference(Set::<Text>::empty()) =~= names.to_set());
    names.lemma_cardinality_of_set();
}

proof fn lemma_unseen_monotone(inputs: Seq<(String, Json)>, seen: Set<Text>, more: Set<Text>)
    requires
        seen.subset_of(more),
    ensures
        unseen(inputs, more) <= unseen(inputs, seen),
{
    let names = names_of(inputs).to_set();
    vstd::seq_lib::seq_to_set_is_finite(names_of(inputs));
    assert forall|t: Text| names.difference(more).contains(t) implies #[trigger] names.difference(
        seen,
    ).contains(t) by {}
    vstd::set_lib::lemma_len_subset(names.difference(more), names.difference(seen));
}

/// Whether an entry is a pattern, not the name of another input.
fn is_pattern_entry(s: &str) -> (r: bool)
    ensures
        r == is_pattern(s@),
{
    text::starts_with(s, "{") || text::starts_with(s, "!")
}

/// Follows an input, unless it has been seen.
fn resolve_named_input(
    name: &str,
    inputs: &Vec<(String, Json)>,
    resolved: &mut Vec<(String, String)>,
    visited: &mut StringSet,
    Ghost(depth): Ghost<nat>,
)
    requires
        unseen(inputs@, old(visited)@) < depth,
    ensures
        (Walk { found: final(resolved).deep_view(), seen: final(visited)@ }) == follow_input(
            inputs@,
            name@,
            (Walk { found: old(resolved).deep_view(), seen: old(visited)@ }),
            depth,
        ),
        old(visited)@.subset_of(final(visited)@),
    decreases depth,
{
    let ghost seen = visited@;
    let ghost first = resolved.deep_view();
    if !visited.insert(name.to_owned()) {
        assert(visited@ =~= seen);
        return ;
    }
    let ghost start = Walk { found: first, seen: visited@ };
    let entries = match json::get_member(inputs, name) {
        Some(Json::Array(entries)) => entries,
        _ => {
            return ;
        },
    };
    let ghost deeper = (depth - 1) as nat;
    proof {
        lemma_member_is_named(inputs@, name@);
        lemma_unseen_shrinks(inputs@, seen, name@, visited@);
        assert(entries_of(inputs@, name@) == Some(entries@));
        assert(entries@.take(0) =~= Seq::<Json>::empty());
    }
    let mut i: usize = 0;
    while i < entries.len()
        invariant
            i <= entries.len(),
            (Walk { found: resolved.deep_view(), seen: visited@ }) == follow_entries(
                inputs@,
                name@,
                entries@.take(i as int),
                start,
                deeper,
            ),
            unseen(inputs@, start.seen) < deeper,
            start.seen.subset_of(visited@),
            depth > 0,
            deeper == depth - 1,
        decreases entries.len() - i,
    {
        assert(entries@.take(i + 1).drop_last() =~= entries@.take(i as int));
        if let Some(s) = entries[i].text() {
            if is_pattern_entry(s) {
                let ghost before = resolved.deep_view();
                resolved.push((name.to_owned(), s.to_owned()));
                assert(resolved.deep_view() =~= before.push((name@, s@)));
            } else {
                proof {
                    lemma_unseen_monotone(inputs@, start.seen, visited@);
                }
                resolve_named_input(s, inputs, resolved, visited, Ghost(deeper));
            }
        }
        i += 1;
    }
    assert(entries@.take(i as int) =~= entries@);
}

/// Whether all members are lists.
fn are_lists(members: &Vec<(String, Json)>) -> (r: bool)
    ensures
        r == all_lists(members@),
{
    let mut i: usize = 0;
    while i < members.len()
        invariant
            i <= members.len(),
            forall|j: int| 0 <= j < i ==> (#[trigger] members@[j]).1 is Array,
        decreases members.len() - i,
    {
        match &members[i].1 {
            Json::Array(_) => {},
            _ => {
                assert(!(members@[i as int].1 is Array));
                return false;
            },
        }
        i += 1;
    }
    true
}

/// The pattern for files that all projects depend on, where the text is one.
fn read_global_pattern(s: &str) -> (r: Option<String>)
    ensures
        r.deep_view() == global_pattern(s@),
{
    if text::starts_with(s, "!") {
        return None;
    }
    match text::strip_prefix(s, "{workspaceRoot}/") {
        Some(p) => if glob_match::check_glob(p) {
            Some(p.to_owned())
        } else {
            None
        },
        None => None,
    }
}

/// The pattern for files that count for nothing, where the text is one.
fn read_negation_pattern(s: &str) -> (r: Option<String>)
    ensures
        r.deep_view() == negation_pattern(s@),
{
    match text::strip_prefix(s, "!") {
        Some(t) => match text::strip_prefix(t, "{projectRoot}/") {
            Some(p) => if glob_match::check_glob(p) {
                Some(p.to_owned())
            } else {
                None
            },
            None => None,
        },
        None => None,
    }
}

/// Sorts the patterns that were found into those that all projects depend on and those that count
/// for nothing.
fn sort_patterns(found: &Vec<(String, String)>) -> (r: ResolvedNamedInputs)
    ensures
        r.global_patterns.deep_view() == globals_among(found.deep_view()),
        r.negation_patterns.deep_view() == negations_among(found.deep_view()),
{
    let ghost all = found.deep_view();
    let mut global_patterns: Vec<GlobalPattern> = Vec::new();
    let mut negation_patterns: Vec<String> = Vec::new();
    let mut i: usize = 0;
    assert(all.take(0) =~= Seq::<(Text, Text)>::empty());
    assert(global_patterns.deep_view() =~= Seq::<GlobalPatternView>::empty());
    assert(negation_patterns.deep_view() =~= Seq::<Text>::empty());
    while i < found.len()
        invariant
            i <= found.len(),
            all == found.deep_view(),
            global_patterns.deep_view() == globals_among(all.take(i as int)),
            negation_patterns.deep_view() == negations_among(all.take(i as int)),
        decreases found.len() - i,
    {
        assert(all.take(i + 1).drop_last() =~= all.take(i as int));
        assert(all.take(i + 1).last() == (found@[i as int].0@, found@[i as int].1@));
        let s = found[i].1.as_str();
        if let Some(pattern) = read_global_pattern(s) {
            let ghost before = global_patterns.deep_view();
            let item = GlobalPattern {
                named_input: found[i].0.clone(),
                raw_pattern: s.to_owned(),
                pattern,
            };
            let ghost view = item.deep_view();
            global_patterns.push(item);
            assert(global_patterns.deep_view() =~= before.push(view));
        }
        if let Some(pattern) = read_negation_pattern(s) {
            let ghost before = negation_patterns.deep_view();
            let ghost view = pattern@;
            negation_patterns.push(pattern);
            assert(negation_patterns.deep_view() =~= before.push(view));
        }
        i += 1;
    }
    assert(all.take(i as int) =~= all);
    ResolvedNamedInputs { global_patterns, negation_patterns }
}

/// The patterns, where there are any.
fn unless_empty(inputs: ResolvedNamedInputs) -> (r: Option<ResolvedNamedInputs>)
    ensures
        r.deep_view() == some_patterns(
            inputs.global_patterns.deep_view(),
            inputs.negation_patterns.deep_view(),
        ),
{
    assert(inputs.global_patterns.deep_view().len() == inputs.global_patterns.len());
    assert(inputs.negation_patterns.deep_view().len() == inputs.negation_patterns.len());
    if inputs.global_patterns.len() == 0 && inputs.negation_patterns.len() == 0 {
        None
    } else {
        Some(inputs)
    }
}

/// What a parsed `nx.json` says about files.
pub fn inputs_of(config: &Json) -> (r: Option<ResolvedNamedInputs>)
    ensures
        r.deep_view() == nx_inputs(*config),
{
    if !config.record(0, 1) {
        return None;
    }
    let inputs = match config.get_field("namedInputs", 0) {
        Some(Json::Object(inputs)) => {
            if !are_lists(inputs) {
                return None;
            }
            inputs
        },
        Some(_) => {
            return None;
        },
        None => {
            proof {
                let none = Seq::<(String, Json)>::empty();
                assert(entries_of(none, "default"@) is None);
                assert(default_patterns(none) =~= Seq::<(Text, Text)>::empty());
            }
            return None;
        },
    };
    let mut resolved: Vec<(String, String)> = Vec::new();
    let mut visited = StringSet::new();
    assert(resolved.deep_view() =~= Seq::<(Text, Text)>::empty());
    proof {
        lemma_unseen_at_first(inputs@);
    }
    let ghost depth = inputs@.len() + 1;
    resolve_named_input("default", inputs, &mut resolved, &mut visited, Ghost(depth));
    unless_empty(sort_patterns(&resolved))
}

/// Whether the text of an `nx.json` names its inputs once, and gives lists alone.
fn gives_lists_once(content: &str) -> (r: bool)
    ensures
        r == is_typed(content@),
{
    if json_text::repeats_key(content, "namedInputs") {
        return false;
    }
    let inputs = match json_text::find_field_text(content, "namedInputs", 0) {
        Some(inputs) => inputs,
        None => {
            return true;
        },
    };
    let members = json_text::list_members(inputs.as_str());
    let ghost all = members.deep_view();
    let mut i: usize = 0;
    while i < members.len()
        invariant
            i <= members.len(),
            all == members.deep_view(),
            is_typed(content@) == all_list_texts(all),
            forall|j: int|
                0 <= j < i ==> (json_document((#[trigger] all[j]).1) matches Ok(v) && v is Array),
        decreases members.len() - i,
    {
        assert(all[i as int] == (members@[i as int].0@, members@[i as int].1@));
        match json::parse_json(members[i].1.as_str()) {
            Ok(Json::Array(_)) => {},
            _ => {
                return false;
            },
        }
        i += 1;
    }
    true
}

/// What the `nx.json` of the workspace says about files. Nothing where there is none, where it
/// cannot be read or parsed, or where it gives no patterns.
pub fn resolve_from_nx_json(cwd: &str, tree: &FileTree) -> (r: Option<ResolvedNamedInputs>)
    ensures
        r.deep_view() == nx_named_inputs(*tree, cwd@),
{
    match tree.read(paths::join(cwd, "nx.json").as_str()) {
        Some(content) => match json::parse_json(content) {
            Ok(config) => if gives_lists_once(content) {
                inputs_of(&config)
            } else {
                None
            },
            Err(_) => None,
        },
        None => None,
    }
}

/// The patterns of some global dependencies.
fn read_turbo_patterns(dependencies: &Vec<String>) -> (r: Vec<GlobalPattern>)
    ensures
        r.deep_view() == turbo_patterns(dependencies.deep_view()),
{
    let ghost all = dependencies.deep_view();
    let mut out: Vec<GlobalPattern> = Vec::new();
    let mut i: usize = 0;
    assert(all.take(0) =~= Seq::<Text>::empty());
    assert(out.deep_view() =~= Seq::<GlobalPatternView>::empty());
    while i < dependencies.len()
        invariant
            i <= dependencies.len(),
            all == dependencies.deep_view(),
            out.deep_view() == turbo_patterns(all.take(i as int)),
        decreases dependencies.len() - i,
    {
        assert(all.take(i + 1).drop_last() =~= all.take(i as int));
        assert(all.take(i + 1).last() == dependencies@[i as int]@);
        let s = dependencies[i].as_str();
        let skipped = text::starts_with(s, "!") || text::starts_with(s, "/") || text::same(s, "..")
            || text::starts_with(s, "../");
        if !skipped {
            let pattern = match text::strip_prefix(s, "./") {
                Some(t) => t,
                None => s,
            };
            if glob_match::check_glob(pattern) {
                let ghost before = out.deep_view();
                let item = GlobalPattern {
                    named_input: TURBO_GLOBAL_DEPENDENCIES.to_owned(),
                    raw_pattern: s.to_owned(),
                    pattern: pattern.to_owned(),
                };
                let ghost view = item.deep_view();
                out.push(item);
                assert(out.deep_view() =~= before.push(view));
            }
        }
        i += 1;
    }
    assert(all.take(i as int) =~= all);
    out
}

/// What the Turborepo configuration of the workspace says about files. Nothing where there is
/// none, where it cannot be read or parsed, or where it gives no patterns.
pub fn resolve_from_turbo_json(cwd: &str, tree: &FileTree) -> (r: Option<ResolvedNamedInputs>)
    ensures
        r.deep_view() == turbo_named_inputs(*tree, cwd@),
{
    match turbo::parse_config(cwd, tree) {
        Some(config) => {
            let global_patterns = read_turbo_patterns(&config.global_dependencies);
            let negation_patterns: Vec<String> = Vec::new();
            assert(negation_patterns.deep_view() =~= Seq::<Text>::empty());
            unless_empty(ResolvedNamedInputs { global_patterns, negation_patterns })
        },
        None => None,
    }
}

/// What the configuration of the workspace says about files: that of Nx, or else that of
/// Turborepo.
pub fn resolve_global_inputs(cwd: &str, tree: &FileTree) -> (r: Option<ResolvedNamedInputs>)
    ensures
        r.deep_view() == global_inputs(*tree, cwd@),
{
    if discovery::is_nx_workspace(cwd, tree) {
        return resolve_from_nx_json(cwd, tree);
    }
    if turbo::is_turbo_workspace(cwd, tree) {
        return resolve_from_turbo_json(cwd, tree);
    }
    None
}

impl ResolvedNamedInputs {
    /// The first pattern that says that all projects depend on the file.
    pub fn matches_global_pattern(&self, file_path: &str) -> (r: Option<&GlobalPattern>)
        ensures
            match r {
                Some(p) => first_match(self.deep_view().global_patterns, file_path@) == Some(
                    p.deep_view(),
                ),
                None => first_match(self.deep_view().global_patterns, file_path@) is None,
            },
    {
        let ghost all = self.deep_view().global_patterns;
        let mut i: usize = 0;
        assert(all.skip(0) =~= all);
        while i < self.global_patterns.len()
            invariant
                i <= self.global_patterns.len(),
                all == self.global_patterns.deep_view(),
                first_match(all, file_path@) == first_match(all.skip(i as int), file_path@),
            decreases self.global_patterns.len() - i,
        {
            let p = &self.global_patterns[i];
            assert(all.skip(i as int)[0] == p.deep_view());
            assert(all.skip(i as int).drop_first() =~= all.skip(i + 1));
            if glob_match::match_glob(p.pattern.as_str(), file_path, false) {
                return Some(p);
            }
            i += 1;
        }
        None
    }

    /// Whether the file counts for nothing in the project at `project_root`.
    pub fn is_negated(&self, file_path: &str, project_root: &str) -> (r: bool)
        ensures
            r == negated_in(self.deep_view().negation_patterns, file_path@, project_root@),
    {
        let ghost all = self.deep_view().negation_patterns;
        let relative = match paths::strip_prefix(file_path, project_root) {
            Some(p) => p,
            None => {
                return false;
            },
        };
        let mut i: usize = 0;
        while i < self.negation_patterns.len()
            invariant
                i <= self.negation_patterns.len(),
                all == self.negation_patterns.deep_view(),
                all == self.deep_view().negation_patterns,
                path_within(file_path@, project_root@) == Some(relative@),
                forall|j: int| 0 <= j < i ==> !glob_matches(#[trigger] all[j], relative@, false),
            decreases self.negation_patterns.len() - i,
        {
            assert(all[i as int] == self.negation_patterns@[i as int]@);
            if glob_match::match_glob(
                self.negation_patterns[i].as_str(),
                relative.as_str(),
                false,
            ) {
                return true;
            }
            i += 1;
        }
        false
    }

    /// Whether the file counts for nothing in a project at one of the roots.
    pub fn is_negated_by_any_project(&self, file_path: &str, project_roots: &Vec<String>) -> (r:
        bool)
        ensures
            r == negated_in_any(
                self.deep_view().negation_patterns,
                file_path@,
                project_roots.deep_view(),
            ),
    {
        let ghost patterns = self.deep_view().negation_patterns;
        let ghost roots = project_roots.deep_view();
        let mut i: usize = 0;
        while i < project_roots.len()
            invariant
                i <= project_roots.len(),
                roots == project_roots.deep_view(),
                patterns == self.deep_view().negation_patterns,
                forall|j: int|
                    0 <= j < i ==> !negated_in(patterns, file_path@, #[trigger] roots[j]),
            decreases project_roots.len() - i,
        {
            assert(roots[i as int] == project_roots@[i as int]@);
            if self.is_negated(file_path, project_roots[i].as_str()) {
                return true;
            }
            i += 1;
        }
        false
    }
}

/// The changed files that all projects depend on, with the patterns that say so.
pub fn check_global_invalidation(
    inputs: &ResolvedNamedInputs,
    changed_files: &Vec<ChangedFile>,
) -> (r: Vec<GlobalTrigger>)
    ensures
        r.deep_view() == triggers_in(
            inputs.deep_view().global_patterns,
            changed_files.deep_view(),
        ),
{
    let ghost patterns = inputs.deep_view().global_patterns;
    let ghost all = changed_files.deep_view();
    let mut out: Vec<GlobalTrigger> = Vec::new();
    let mut i: usize = 0;
    assert(all.take(0) =~= Seq::<ChangedFileView>::empty());
    assert(out.deep_view() =~= Seq::<GlobalTriggerView>::empty());
    while i < changed_files.len()
        invariant
            i <= changed_files.len(),
            all == changed_files.deep_view(),
            patterns == inputs.deep_view().global_patterns,
            out.deep_view() == triggers_in(patterns, all.take(i as int)),
        decreases changed_files.len() - i,
    {
        assert(all.take(i + 1).drop_last() =~= all.take(i as int));
        assert(all.take(i + 1).last() == changed_files@[i as int].deep_view());
        let file = changed_files[i].file_path.as_str();
        if let Some(p) = inputs.matches_global_pattern(file) {
            let ghost before = out.deep_view();
            let trigger = GlobalTrigger {
                file: file.to_owned(),
                named_input: p.named_input.clone(),
                raw_pattern: p.raw_pattern.clone(),
            };
            let ghost view = trigger.deep_view();
            out.push(trigger);
            assert(out.deep_view() =~= before.push(view));
        }
        i += 1;
    }
    assert(all.take(i as int) =~= all);
    out
}

/// The roots of some projects.
fn collect_roots(projects: &Vec<Project>) -> (r: Vec<String>)
    ensures
        r.deep_view() == roots_of(projects.deep_view()),
{
    let ghost all = roots_of(projects.deep_view());
    let mut out: Vec<String> = Vec::new();
    let mut i: usize = 0;
    assert(out.deep_view() =~= all.take(0));
    while i < projects.len()
        invariant
            i <= projects.len(),
            all == roots_of(projects.deep_view()),
            out.deep_view() == all.take(i as int),
        decreases projects.len() - i,
    {
        let ghost before = out.deep_view();
        out.push(projects[i].root.clone());
        assert(out.deep_view() =~= before.push(all[i as int]));
        assert(all.take(i + 1) =~= all.take(i as int).push(all[i as int]));
        i += 1;
    }
    assert(all.take(i as int) =~= all);
    out
}

/// The changed files that count in some project.
pub fn filter_negated_files(
    inputs: &ResolvedNamedInputs,
    changed_files: Vec<ChangedFile>,
    projects: &Vec<Project>,
) -> (r: Vec<ChangedFile>)
    ensures
        r.deep_view() == kept(
            inputs.deep_view().negation_patterns,
            changed_files.deep_view(),
            roots_of(projects.deep_view()),
        ),
{
    let ghost patterns = inputs.deep_view().negation_patterns;
    let ghost all = changed_files.deep_view();
    let roots = collect_roots(projects);
    let ghost roots_view = roots.deep_view();
    let mut out: Vec<ChangedFile> = Vec::new();
    let mut i: usize = 0;
    assert(all.take(0) =~= Seq::<ChangedFileView>::empty());
    assert(out.deep_view() =~= Seq::<ChangedFileView>::empty());
    while i < changed_files.len()
        invariant
            i <= changed_files.len(),
            all == changed_files.deep_view(),
            roots_view == roots.deep_view(),
            patterns == inputs.deep_view().negation_patterns,
            out.deep_view() == kept(patterns, all.take(i as int), roots_view),
        decreases changed_files.len() - i,
    {
        assert(all.take(i + 1).drop_last() =~= all.take(i as int));
        assert(all.take(i + 1).last() == changed_files@[i as int].deep_view());
        let file = &changed_files[i];
        if !inputs.is_negated_by_any_project(file.file_path.as_str(), &roots) {
            let ghost before = out.deep_view();
            out.push(file.clone());
            assert(out.deep_view() =~= before.push(file.deep_view()));
        }
        i += 1;
    }
    assert(all.take(i as int) =~= all);
    out
}

// ---------------------------------------------------------------------------
// What holds of all patterns
// ---------------------------------------------------------------------------

/// The first match is a pattern of the list that matches; there is one where any pattern matches.
pub proof fn lemma_first_match(patterns: Seq<GlobalPatternView>, path: Text)
    ensures
        match first_match(patterns, path) {
            Some(p) => patterns.contains(p) && glob_matches(p.pattern, path, false),
            None => forall|i: int|
                0 <= i < patterns.len() ==> !glob_matches(
                    (#[trigger] patterns[i]).pattern,
                    path,
                    false,
                ),
        },
    decreases patterns.len(),
{
    if patterns.len() > 0 {
        let rest = patterns.drop_first();
        lemma_first_match(rest, path);
        if glob_matches(patterns[0].pattern, path, false) {
            assert(patterns.contains(patterns[0]));
        } else {
            match first_match(rest, path) {
                Some(p) => {
                    let i = choose|i: int| 0 <= i < rest.len() && rest[i] == p;
                    assert(patterns[i + 1] == p);
                },
                None => {
                    assert forall|i: int| 0 <= i < patterns.len() implies !glob_matches(
                        (#[trigger] patterns[i]).pattern,
                        path,
                        false,
                    ) by {
                        if i > 0 {
                            assert(rest[i - 1] == patterns[i]);
                        }
                    }
                },
            }
        }
    }
}

/// A changed file that a global pattern matches invalidates every project: there is a trigger for
/// it.
pub proof fn lemma_global_change_triggers(
    patterns: Seq<GlobalPatternView>,
    files: Seq<ChangedFileView>,
    i: int,
    k: int,
)
    requires
        0 <= i < files.len(),
        0 <= k < patterns.len(),
        glob_matches(patterns[k].pattern, files[i].file_path, false),
    ensures
        exists|t: int|
            0 <= t < triggers_in(patterns, files).len() && (#[trigger] triggers_in(
                patterns,
                files,
            )[t]).file == files[i].file_path,
    decreases files.len(),
{
    let init = files.drop_last();
    let all = triggers_in(patterns, files);
    if i < init.len() {
        assert(init[i] == files[i]);
        lemma_global_change_triggers(patterns, init, i, k);
        let t = choose|t: int|
            0 <= t < triggers_in(patterns, init).len() && (#[trigger] triggers_in(
                patterns,
                init,
            )[t]).file == files[i].file_path;
        assert(all[t] == triggers_in(patterns, init)[t]);
    } else {
        lemma_first_match(patterns, files.last().file_path);
        assert(all.last().file == files[i].file_path);
        assert(all[all.len() - 1].file == files[i].file_path);
    }
}

/// Every trigger is a changed file that a global pattern of the named input matches.
pub proof fn lemma_triggers_are_changes(
    patterns: Seq<GlobalPatternView>,
    files: Seq<ChangedFileView>,
    t: int,
)
    requires
        0 <= t < triggers_in(patterns, files).len(),
    ensures
        exists|i: int, k: int|
            0 <= i < files.len() && 0 <= k < patterns.len() && triggers_in(patterns, files)[t].file
                == (#[trigger] files[i]).file_path && glob_matches(
                (#[trigger] patterns[k]).pattern,
                files[i].file_path,
                false,
            ) && triggers_in(patterns, files)[t].named_input == patterns[k].named_input
                && triggers_in(patterns, files)[t].raw_pattern == patterns[k].raw_pattern,
    decreases files.len(),
{
    let init = files.drop_last();
    if t < triggers_in(patterns, init).len() {
        lemma_triggers_are_changes(patterns, init, t);
        let (i, k) = choose|i: int, k: int|
            0 <= i < init.len() && 0 <= k < patterns.len() && triggers_in(patterns, init)[t].file
                == (#[trigger] init[i]).file_path && glob_matches(
                (#[trigger] patterns[k]).pattern,
                init[i].file_path,
                false,
            ) && triggers_in(patterns, init)[t].named_input == patterns[k].named_input
                && triggers_in(patterns, init)[t].raw_pattern == patterns[k].raw_pattern;
        assert(files[i] == init[i]);
        assert(triggers_in(patterns, files)[t] == triggers_in(patterns, init)[t]);
        assert(patterns[k] == patterns[k]);
    } else {
        let path = files.last().file_path;
        lemma_first_match(patterns, path);
        let p = first_match(patterns, path)->0;
        let k = choose|k: int| 0 <= k < patterns.len() && patterns[k] == p;
        assert(files[files.len() - 1].file_path == path);
        assert(glob_matches(patterns[k].pattern, path, false));
    }
}

/// What is kept are the changed files that no project negates, and nothing else.
pub proof fn lemma_kept(
    patterns: Seq<Text>,
    files: Seq<ChangedFileView>,
    roots: Seq<Text>,
    c: ChangedFileView,
)
    ensures
        kept(patterns, files, roots).contains(c) <==> files.contains(c) && !negated_in_any(
            patterns,
            c.file_path,
            roots,
        ),
    decreases files.len(),
{
    if files.len() > 0 {
        let init = files.drop_last();
        let before = kept(patterns, init, roots);
        lemma_kept(patterns, init, roots, c);
        collections::lemma_push_contains(init, files.last(), c);
        collections::lemma_push_contains(before, files.last(), c);
        assert(files =~= init.push(files.last()));
    }
}

/// What is kept once is kept again: filtering twice is filtering once.
pub proof fn lemma_kept_stays(patterns: Seq<Text>, files: Seq<ChangedFileView>, roots: Seq<Text>)
    ensures
        kept(patterns, kept(patterns, files, roots), roots) == kept(patterns, files, roots),
    decreases files.len(),
{
    if files.len() > 0 {
        let before = kept(patterns, files.drop_last(), roots);
        lemma_kept_stays(patterns, files.drop_last(), roots);
        if !negated_in_any(patterns, files.last().file_path, roots) {
            assert(before.push(files.last()).drop_last() =~= before);
        }
    }
}

/// Without negations every changed file is kept.
pub proof fn lemma_nothing_negated(files: Seq<ChangedFileView>, roots: Seq<Text>)
    ensures
        kept(Seq::empty(), files, roots) == files,
    decreases files.len(),
{
    if files.len() > 0 {
        lemma_nothing_negated(files.drop_last(), roots);
        assert(files.drop_last().push(files.last()) =~= files);
    }
}

/// Where there is an `nx.json`, the inputs are those that it gives, whatever the Turborepo
/// configuration says.
pub proof fn lemma_nx_comes_first(tree: FileTree, cwd: Text)
    requires
        tree.present(path_join(cwd, "nx.json"@)),
    ensures
        global_inputs(tree, cwd) == nx_named_inputs(tree, cwd),
{
}

// ---------------------------------------------------------------------------
// Which patterns an nx.json leads to
// ---------------------------------------------------------------------------

/// The input has the text among its entries.
pub open spec fn has_entry(inputs: Seq<(String, Json)>, name: Text, s: Text) -> bool {
    entries_of(inputs, name) matches Some(entries) && exists|i: int|
        0 <= i < entries.len() && (#[trigger] entries[i]).as_text() == Some(s)
}

/// The entry is a pattern for files: it begins with a brace or an exclamation mark.
pub open spec fn is_file_pattern(s: Text) -> bool {
    s.len() > 0 && (s[0] == '{' || s[0] == '!')
}

/// Each name but the last refers to the next: it has that among its entries.
pub open spec fn refers_along(inputs: Seq<(String, Json)>, way: Seq<Text>) -> bool {
    &&& way.len() > 0
    &&& forall|i: int|
        0 <= i < way.len() - 1 ==> has_entry(inputs, #[trigger] way[i], way[i + 1])
            && !is_file_pattern(way[i + 1])
}

/// References lead from one input to another.
pub open spec fn reaches(inputs: Seq<(String, Json)>, from: Text, to: Text) -> bool {
    exists|way: Seq<Text>| #[trigger]
        refers_along(inputs, way) && way[0] == from && way.last() == to
}

proof fn lemma_file_pattern(s: Text)
    ensures
        is_pattern(s) <==> is_file_pattern(s),
{
    reveal_strlit("{");
    reveal_strlit("!");
    if s.len() > 0 {
        let one = s.subrange(0, 1);
        assert(one[0] == s[0]);
        if s[0] == '{' {
            assert(one =~= "{"@);
        }
        if s[0] == '!' {
            assert(one =~= "!"@);
        }
    }
}

proof fn lemma_reaches_on(inputs: Seq<(String, Json)>, from: Text, name: Text, s: Text)
    requires
        reaches(inputs, from, name),
        has_entry(inputs, name, s),
        !is_file_pattern(s),
    ensures
        reaches(inputs, from, s),
{
    let way = choose|way: Seq<Text>| #[trigger]
        refers_along(inputs, way) && way[0] == from && way.last() == name;
    let longer = way.push(s);
    assert forall|i: int| 0 <= i < longer.len() - 1 implies has_entry(
        inputs,
        #[trigger] longer[i],
        longer[i + 1],
    ) && !is_file_pattern(longer[i + 1]) by {
        if i < way.len() - 1 {
            assert(longer[i] == way[i] && longer[i + 1] == way[i + 1]);
        } else {
            assert(longer[i] == name && longer[i + 1] == s);
        }
    }
    assert(refers_along(inputs, longer) && longer[0] == from && longer.last() == s);
}

/// All that has been found is a pattern of an input that `from` reaches.
spec fn is_sound(inputs: Seq<(String, Json)>, from: Text, walk: Walk) -> bool {
    forall|p: (Text, Text)| #[trigger]
        walk.found.contains(p) ==> reaches(inputs, from, p.0) && has_entry(inputs, p.0, p.1)
            && is_file_pattern(p.1)
}

proof fn lemma_follow_sound(
    inputs: Seq<(String, Json)>,
    from: Text,
    name: Text,
    walk: Walk,
    depth: nat,
)
    requires
        is_sound(inputs, from, walk),
        reaches(inputs, from, name),
    ensures
        is_sound(inputs, from, follow_input(inputs, name, walk, depth)),
    decreases depth, 0nat,
{
    if depth > 0 && !walk.seen.contains(name) {
        let next = Walk { found: walk.found, seen: walk.seen.insert(name) };
        if let Some(entries) = entries_of(inputs, name) {
            assert(entries.take(entries.len() as int) =~= entries);
            lemma_entries_sound(inputs, from, name, entries, next, (depth - 1) as nat);
        }
    }
}

proof fn lemma_entries_sound(
    inputs: Seq<(String, Json)>,
    from: Text,
    name: Text,
    entries: Seq<Json>,
    walk: Walk,
    depth: nat,
)
    requires
        is_sound(inputs, from, walk),
        reaches(inputs, from, name),
        entries_of(inputs, name) matches Some(all) && entries.len() <= all.len() && entries
            == all.take(entries.len() as int),
    ensures
        is_sound(inputs, from, follow_entries(inputs, name, entries, walk, depth)),
    decreases depth, entries.len(),
{
    if entries.len() > 0 {
        let all = entries_of(inputs, name)->0;
        let init = entries.drop_last();
        assert(init =~= all.take(init.len() as int));
        lemma_entries_sound(inputs, from, name, init, walk, depth);
        let before = follow_entries(inputs, name, init, walk, depth);
        if let Some(s) = entries.last().as_text() {
            assert(all[entries.len() - 1] == entries.last());
            assert(all[entries.len() - 1].as_text() == Some(s));
            assert(has_entry(inputs, name, s));
            lemma_file_pattern(s);
            if is_pattern(s) {
                let after = follow_entries(inputs, name, entries, walk, depth);
                assert forall|p: (Text, Text)| #[trigger] after.found.contains(p) implies reaches(
                    inputs,
                    from,
                    p.0,
                ) && has_entry(inputs, p.0, p.1) && is_file_pattern(p.1) by {
                    collections::lemma_push_contains(before.found, (name, s), p);
                }
            } else {
                lemma_reaches_on(inputs, from, name, s);
                lemma_follow_sound(inputs, from, s, before, depth);
            }
        }
    }
}

/// All that the input says has been taken up: its patterns are found, and the inputs that it refers
/// to are seen.
spec fn is_taken_up(inputs: Seq<(String, Json)>, name: Text, walk: Walk) -> bool {
    forall|s: Text| #[trigger]
        has_entry(inputs, name, s) ==> if is_file_pattern(s) {
            walk.found.contains((name, s))
        } else {
            entries_of(inputs, s) is Some ==> walk.seen.contains(s)
        }
}

/// What was found and seen is still so.
spec fn goes_on(before: Walk, after: Walk) -> bool {
    &&& before.seen.subset_of(after.seen)
    &&& forall|p: (Text, Text)| #[trigger]
        before.found.contains(p) ==> after.found.contains(p)
}

/// The inputs that have been seen since are taken up.
spec fn are_taken_up(inputs: Seq<(String, Json)>, before: Walk, after: Walk) -> bool {
    forall|n: Text| #[trigger]
        after.seen.contains(n) && !before.seen.contains(n) ==> is_taken_up(inputs, n, after)
}

proof fn lemma_taken_up_stays(
    inputs: Seq<(String, Json)>,
    before: Walk,
    mid: Walk,
    after: Walk,
)
    requires
        goes_on(before, mid),
        goes_on(mid, after),
        are_taken_up(inputs, before, mid),
        are_taken_up(inputs, mid, after),
    ensures
        goes_on(before, after),
        are_taken_up(inputs, before, after),
{
    assert forall|n: Text| #[trigger]
        after.seen.contains(n) && !before.seen.contains(n) implies is_taken_up(
        inputs,
        n,
        after,
    ) by {
        if mid.seen.contains(n) {
            assert(is_taken_up(inputs, n, mid));
        }
    }
}

proof fn lemma_follow_complete(
    inputs: Seq<(String, Json)>,
    name: Text,
    walk: Walk,
    depth: nat,
)
    requires
        unseen(inputs, walk.seen) < depth,
    ensures
        goes_on(walk, follow_input(inputs, name, walk, depth)),
        are_taken_up(inputs, walk, follow_input(inputs, name, walk, depth)),
        follow_input(inputs, name, walk, depth).seen.contains(name),
    decreases depth, 0nat,
{
    if !walk.seen.contains(name) {
        let next = Walk { found: walk.found, seen: walk.seen.insert(name) };
        let after = follow_input(inputs, name, walk, depth);
        assert(goes_on(walk, next));
        if let Some(entries) = entries_of(inputs, name) {
            lemma_member_is_named(inputs, name);
            lemma_unseen_shrinks(inputs, walk.seen, name, next.seen);
            lemma_entries_complete(inputs, name, entries, next, (depth - 1) as nat);
            assert(is_taken_up(inputs, name, after)) by {
                assert forall|s: Text| #[trigger] has_entry(inputs, name, s) implies if is_file_pattern(s) {
                    after.found.contains((name, s))
                } else {
                    entries_of(inputs, s) is Some ==> after.seen.contains(s)
                } by {
                    let i = choose|i: int|
                        0 <= i < entries.len() && (#[trigger] entries[i]).as_text() == Some(s);
                    assert(is_entry_taken_up(inputs, name, entries[i], after));
                }
            }
        } else {
            assert(is_taken_up(inputs, name, after));
        }
        assert(goes_on(next, after));
        assert(walk.seen.subset_of(after.seen));
        assert forall|n: Text| #[trigger]
            after.seen.contains(n) && !walk.seen.contains(n) implies is_taken_up(
            inputs,
            n,
            after,
        ) by {
            if n != name {
                assert(!next.seen.contains(n));
            }
        }
    }
}

/// What the entry of an input says has been taken up.
spec fn is_entry_taken_up(
    inputs: Seq<(String, Json)>,
    name: Text,
    entry: Json,
    walk: Walk,
) -> bool {
    entry.as_text() matches Some(s) ==> if is_file_pattern(s) {
        walk.found.contains((name, s))
    } else {
        entries_of(inputs, s) is Some ==> walk.seen.contains(s)
    }
}

proof fn lemma_entries_complete(
    inputs: Seq<(String, Json)>,
    name: Text,
    entries: Seq<Json>,
    walk: Walk,
    depth: nat,
)
    requires
        unseen(inputs, walk.seen) < depth,
    ensures
        goes_on(walk, follow_entries(inputs, name, entries, walk, depth)),
        are_taken_up(inputs, walk, follow_entries(inputs, name, entries, walk, depth)),
        forall|i: int|
            0 <= i < entries.len() ==> is_entry_taken_up(
                inputs,
                name,
                #[trigger] entries[i],
                follow_entries(inputs, name, entries, walk, depth),
            ),
    decreases depth, entries.len(),
{
    if entries.len() > 0 {
        let init = entries.drop_last();
        let n = entries.len() - 1;
        let before = follow_entries(inputs, name, init, walk, depth);
        let after = follow_entries(inputs, name, entries, walk, depth);
        lemma_entries_complete(inputs, name, init, walk, depth);
        lemma_unseen_monotone(inputs, walk.seen, before.seen);
        if let Some(s) = entries.last().as_text() {
            lemma_file_pattern(s);
            if is_pattern(s) {
                assert forall|p: (Text, Text)| #[trigger]
                    before.found.contains(p) implies after.found.contains(p) by {
                    collections::lemma_push_contains(before.found, (name, s), p);
                }
                collections::lemma_push_contains(before.found, (name, s), (name, s));
                assert(are_taken_up(inputs, before, after));
            } else {
                lemma_follow_complete(inputs, s, before, depth);
            }
        } else {
            assert(are_taken_up(inputs, before, after));
        }
        lemma_taken_up_stays(inputs, walk, before, after);
        assert(entries[n] == entries.last());
        assert forall|i: int| 0 <= i < entries.len() implies is_entry_taken_up(
            inputs,
            name,
            #[trigger] entries[i],
            after,
        ) by {
            if i < n {
                assert(init[i] == entries[i]);
                assert(is_entry_taken_up(inputs, name, init[i], before));
            }
        }
    }
}

/// The patterns of an `nx.json` are those of the inputs that references lead to from `default`, each
/// under the name of the input that it stands in; each of them and no other.
pub proof fn lemma_default_patterns(inputs: Seq<(String, Json)>, name: Text, s: Text)
    ensures
        default_patterns(inputs).contains((name, s)) <==> reaches(inputs, "default"@, name)
            && has_entry(inputs, name, s) && is_file_pattern(s),
{
    let first = "default"@;
    let start = Walk { found: Seq::<(Text, Text)>::empty(), seen: Set::<Text>::empty() };
    let depth = inputs.len() + 1;
    let end = follow_input(inputs, first, start, depth);
    let way = seq![first];
    assert(refers_along(inputs, way) && way[0] == first && way.last() == first);
    assert(is_sound(inputs, first, start));
    lemma_follow_sound(inputs, first, first, start, depth);
    lemma_unseen_at_first(inputs);
    lemma_follow_complete(inputs, first, start, depth);
    if reaches(inputs, first, name) && has_entry(inputs, name, s) && is_file_pattern(s) {
        let path = choose|way: Seq<Text>| #[trigger]
            refers_along(inputs, way) && way[0] == first && way.last() == name;
        lemma_way_is_seen(inputs, start, end, path, path.len() - 1);
        assert(is_taken_up(inputs, name, end));
    }
}

proof fn lemma_way_is_seen(
    inputs: Seq<(String, Json)>,
    start: Walk,
    end: Walk,
    way: Seq<Text>,
    i: int,
)
    requires
        start.seen == Set::<Text>::empty(),
        are_taken_up(inputs, start, end),
        refers_along(inputs, way),
        end.seen.contains(way[0]),
        0 <= i < way.len(),
        entries_of(inputs, way[i]) is Some,
    ensures
        end.seen.contains(way[i]),
    decreases i,
{
    if i > 0 {
        assert(has_entry(inputs, way[i - 1], way[i - 1 + 1]));
        lemma_way_is_seen(inputs, start, end, way, i - 1);
        assert(is_taken_up(inputs, way[i - 1], end));
    }
}

/// A pattern for files at the workspace root is one for files that all projects depend on, where it
/// can be read as a pattern; a negation, or a pattern for files of a project, is none.
pub proof fn lemma_global_patterns(found: Seq<(Text, Text)>, g: GlobalPatternView)
    ensures
        globals_among(found).contains(g) <==> found.contains((g.named_input, g.raw_pattern))
            && g.raw_pattern == "{workspaceRoot}/"@ + g.pattern && is_glob(g.pattern),
    decreases found.len(),
{
    if found.len() > 0 {
        let init = found.drop_last();
        let last = found.last();
        lemma_global_patterns(init, g);
        assert(found =~= init.push(last));
        collections::lemma_push_contains(init, last, (g.named_input, g.raw_pattern));
        lemma_global_pattern(last.1, g.pattern);
        if let Some(pattern) = global_pattern(last.1) {
            lemma_global_pattern(last.1, pattern);
            collections::lemma_push_contains(
                globals_among(init),
                GlobalPatternView { named_input: last.0, raw_pattern: last.1, pattern },
                g,
            );
        }
    }
}

proof fn lemma_global_pattern(s: Text, p: Text)
    ensures
        global_pattern(s) == Some(p) <==> s == "{workspaceRoot}/"@ + p && is_glob(p),
{
    reveal_strlit("{workspaceRoot}/");
    reveal_strlit("!");
    let front = "{workspaceRoot}/"@;
    if s == front + p {
        assert(s.subrange(0, front.len() as int) =~= front);
        assert(s.skip(front.len() as int) =~= p);
        if has_prefix(s, "!"@) {
            assert(s.subrange(0, 1)[0] == '!');
        }
    }
    if global_pattern(s) == Some(p) {
        assert(s.subrange(0, front.len() as int) =~= front);
        assert(s =~= front + s.skip(front.len() as int));
    }
}

/// A negation of files of a project is a pattern for files that count for nothing; a negation of
/// files at the workspace root is none.
pub proof fn lemma_negation_patterns(found: Seq<(Text, Text)>, p: Text)
    ensures
        negations_among(found).contains(p) <==> is_glob(p) && exists|i: int|
            0 <= i < found.len() && (#[trigger] found[i]).1 == "!{projectRoot}/"@ + p,
    decreases found.len(),
{
    if found.len() > 0 {
        let init = found.drop_last();
        let n = found.len() - 1;
        let last = found.last();
        lemma_negation_patterns(init, p);
        lemma_negation_pattern(last.1, p);
        assert(found[n] == last);
        if let Some(pattern) = negation_pattern(last.1) {
            lemma_negation_pattern(last.1, pattern);
            collections::lemma_push_contains(negations_among(init), pattern, p);
        }
        if exists|i: int|
            0 <= i < init.len() && (#[trigger] init[i]).1 == "!{projectRoot}/"@ + p {
            let i = choose|i: int|
                0 <= i < init.len() && (#[trigger] init[i]).1 == "!{projectRoot}/"@ + p;
            assert(found[i] == init[i]);
        }
        if exists|i: int|
            0 <= i < found.len() && (#[trigger] found[i]).1 == "!{projectRoot}/"@ + p {
            let i = choose|i: int|
                0 <= i < found.len() && (#[trigger] found[i]).1 == "!{projectRoot}/"@ + p;
            if i < n {
                assert(init[i] == found[i]);
            }
        }
    }
}

proof fn lemma_negation_pattern(s: Text, p: Text)
    ensures
        negation_pattern(s) == Some(p) <==> s == "!{projectRoot}/"@ + p && is_glob(p),
{
    reveal_strlit("!{projectRoot}/");
    reveal_strlit("{projectRoot}/");
    reveal_strlit("!");
    let whole = "!{projectRoot}/"@;
    let front = "{projectRoot}/"@;
    assert(whole =~= "!"@ + front);
    if s == whole + p {
        assert(s.subrange(0, 1) =~= "!"@);
        let t = s.skip(1);
        assert(t.subrange(0, front.len() as int) =~= front);
        assert(t.skip(front.len() as int) =~= p);
    }
    if negation_pattern(s) == Some(p) {
        assert(s.subrange(0, 1) =~= "!"@);
        let t = s.skip(1);
        assert(t.subrange(0, front.len() as int) =~= front);
        assert(s =~= whole + t.skip(front.len() as int));
    }
}

/// The global dependencies of Turborepo are patterns for files that all projects depend on: without a
/// `./` before them, and without negations and paths that lead out of the workspace.
pub proof fn lemma_turbo_patterns(dependencies: Seq<Text>, g: GlobalPatternView)
    ensures
        turbo_patterns(dependencies).contains(g) <==> {
            &&& dependencies.contains(g.raw_pattern)
            &&& g.named_input == TURBO_GLOBAL_DEPENDENCIES@
            &&& is_inner_path(g.raw_pattern)
            &&& g.raw_pattern == "./"@ + g.pattern || (g.raw_pattern == g.pattern && !has_prefix(
                g.pattern,
                "./"@,
            ))
            &&& is_glob(g.pattern)
        },
    decreases dependencies.len(),
{
    if dependencies.len() > 0 {
        let init = dependencies.drop_last();
        let last = dependencies.last();
        lemma_turbo_patterns(init, g);
        assert(dependencies =~= init.push(last));
        collections::lemma_push_contains(init, last, g.raw_pattern);
        collections::lemma_push_contains(
            turbo_patterns(init),
            GlobalPatternView {
                named_input: TURBO_GLOBAL_DEPENDENCIES@,
                raw_pattern: last,
                pattern: without_dot(last),
            },
            g,
        );
        lemma_inner_path(last);
        reveal_strlit("./");
        if has_prefix(last, "./"@) {
            assert(last.subrange(0, 2) =~= "./"@);
            assert(last =~= "./"@ + last.skip(2));
        }
        if last == "./"@ + g.pattern {
            assert(last.subrange(0, 2) =~= "./"@);
            assert(last.skip(2) =~= g.pattern);
        }
    }
}

/// The path is no negation and stays in the workspace: it begins with neither an exclamation mark nor
/// a slash, and does not climb.
pub open spec fn is_inner_path(s: Text) -> bool {
    &&& s.len() > 0 ==> s[0] != '!' && s[0] != '/'
    &&& s != ".."@
    &&& s.len() > 2 ==> s.take(3) != "../"@
}

proof fn lemma_inner_path(s: Text)
    ensures
        is_inner_path(s) <==> !has_prefix(s, "!"@) && !leads_out(s),
{
    reveal_strlit("!");
    reveal_strlit("/");
    reveal_strlit("../");
    if s.len() > 0 {
        let one = s.subrange(0, 1);
        assert(one[0] == s[0]);
        if s[0] == '!' {
            assert(one =~= "!"@);
        }
        if s[0] == '/' {
            assert(one =~= "/"@);
        }
    }
    if s.len() > 2 {
        assert(s.take(3) =~= s.subrange(0, 3));
    }
}

/// There is something to say where there is a pattern of either kind, and only there.
pub proof fn lemma_some_patterns(globals: Seq<GlobalPatternView>, negations: Seq<Text>)
    ensures
        globals.len() > 0 || negations.len() > 0 ==> (some_patterns(globals, negations) matches Some(v)
            && v.global_patterns == globals && v.negation_patterns == negations),
        globals.len() == 0 && negations.len() == 0 ==> some_patterns(globals, negations) is None,
{
}

/// Of the patterns that match, the first is named.
pub proof fn lemma_first_match_is_first(patterns: Seq<GlobalPatternView>, path: Text, i: int)
    requires
        0 <= i < patterns.len(),
        glob_matches(patterns[i].pattern, path, false),
        forall|j: int|
            0 <= j < i ==> !glob_matches((#[trigger] patterns[j]).pattern, path, false),
    ensures
        first_match(patterns, path) == Some(patterns[i]),
    decreases i,
{
    if i > 0 {
        assert(!glob_matches(patterns[0].pattern, path, false));
        let rest = patterns.drop_first();
        assert(rest[i - 1] == patterns[i]);
        assert forall|j: int| 0 <= j < i - 1 implies !glob_matches(
            (#[trigger] rest[j]).pattern,
            path,
            false,
        ) by {
            assert(rest[j] == patterns[j + 1]);
        }
        lemma_first_match_is_first(rest, path, i - 1);
    }
}

/// A file counts for nothing where a negation matches it as seen from the root of a project that it
/// lies in; the other projects do not matter.
pub proof fn lemma_negated(patterns: Seq<Text>, file: Text, roots: Seq<Text>, inner: Text, r: int, k: int)
    requires
        0 <= r < roots.len(),
        path_within(file, roots[r]) == Some(inner),
        0 <= k < patterns.len(),
        glob_matches(patterns[k], inner, false),
    ensures
        negated_in_any(patterns, file, roots),
{
    assert(negated_in(patterns, file, roots[r]));
}

/// A file that lies in no project, or that no negation matches there, counts.
pub proof fn lemma_not_negated(patterns: Seq<Text>, file: Text, roots: Seq<Text>)
    requires
        forall|r: int, k: int|
            0 <= r < roots.len() && 0 <= k < patterns.len() ==> (path_within(
                file,
                #[trigger] roots[r],
            ) matches Some(inner) ==> !glob_matches(#[trigger] patterns[k], inner, false)),
    ensures
        !negated_in_any(patterns, file, roots),
{
    if negated_in_any(patterns, file, roots) {
        let r = choose|r: int| 0 <= r < roots.len() && negated_in(patterns, file, #[trigger] roots[r]);
        let inner = path_within(file, roots[r])->0;
        let k = choose|k: int|
            0 <= k < patterns.len() && glob_matches(#[trigger] patterns[k], inner, false);
        assert(!glob_matches(patterns[k], inner, false));
    }
}

/// What is kept stays in its order.
pub proof fn lemma_kept_in_order(patterns: Seq<Text>, files: Seq<ChangedFileView>, roots: Seq<Text>)
    ensures
        kept(patterns, files, roots) == files.filter(
            |f: ChangedFileView| !negated_in_any(patterns, f.file_path, roots),
        ),
    decreases files.len(),
{
    reveal(Seq::filter);
    if files.len() > 0 {
        lemma_kept_in_order(patterns, files.drop_last(), roots);
    }
}

/// A changed file gives one trigger at most, by the first pattern that matches it; the triggers stand
/// in the order of the files.
pub proof fn lemma_triggers_in_order(
    patterns: Seq<GlobalPatternView>,
    a: Seq<ChangedFileView>,
    b: Seq<ChangedFileView>,
    f: ChangedFileView,
)
    ensures
        triggers_in(patterns, a + b) == triggers_in(patterns, a) + triggers_in(patterns, b),
        first_match(patterns, f.file_path) is None ==> triggers_in(patterns, seq![f]).len() == 0,
        first_match(patterns, f.file_path) matches Some(p) ==> triggers_in(patterns, seq![f])
            == seq![
            GlobalTriggerView {
                file: f.file_path,
                named_input: p.named_input,
                raw_pattern: p.raw_pattern,
            },
        ],
    decreases b.len(),
{
    let one = seq![f];
    reveal_with_fuel(triggers_in, 2);
    assert(one.drop_last() =~= Seq::<ChangedFileView>::empty());
    assert(one.last() == f);
    if let Some(p) = first_match(patterns, f.file_path) {
        assert(triggers_in(patterns, one) =~= seq![
            GlobalTriggerView {
                file: f.file_path,
                named_input: p.named_input,
                raw_pattern: p.raw_pattern,
            },
        ]);
    }
    if b.len() == 0 {
        assert(a + b =~= a);
        assert(triggers_in(patterns, a) + triggers_in(patterns, b) =~= triggers_in(patterns, a));
    } else {
        lemma_triggers_in_order(patterns, a, b.drop_last(), f);
        assert((a + b).drop_last() =~= a + b.drop_last());
        assert((a + b).last() == b.last());
        assert(triggers_in(patterns, a + b) =~= triggers_in(patterns, a) + triggers_in(patterns, b));
    }
}

/// Without an `nx.json` the inputs are those of Turborepo, where its configuration is there, and none
/// otherwise.
pub proof fn lemma_turbo_comes_second(tree: FileTree, cwd: Text)
    requires
        !tree.present(path_join(cwd, "nx.json"@)),
    ensures
        turbo_file(tree, cwd) is Some ==> global_inputs(tree, cwd) == turbo_named_inputs(tree, cwd),
        turbo_file(tree, cwd) is None ==> global_inputs(tree, cwd) is None,
{
}

} // verus!
