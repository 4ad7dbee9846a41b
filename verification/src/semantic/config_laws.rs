//! What holds of every `tsconfig.json` and of all that it extends.

use crate::files::FileTree;
use crate::json::{json_document, Json};
use crate::json_text::repeats;
use crate::paths::{absolute, path_join, path_parent, path_under, place, segments};
use crate::semantic::tsconfig_load::{
    aliases_among, ancestor, config_at, config_in_project, config_in_projects, config_installed,
    config_installed_above, effective, expanded, expanded_patterns, extended, inherited, loaded,
    manifest_at, overridden, package_config, path_in_package, patterns_in, tsconfig_at, tsconfig_in,
    EffectiveView, TsconfigView, MAX_EXTENDS_DEPTH,
};
use crate::semantic::tsconfig_paths::PatternsView;
use crate::text::{contains_text, has_prefix, occurs_at, Text};
use crate::text_laws;
use crate::types::ProjectView;
use vstd::prelude::*;

verus! {

// ---------------------------------------------------------------------------
// What one file says
// ---------------------------------------------------------------------------

/// A configuration extends one other, or several in order, and gives a base directory and aliases
/// among its options; each may be left out.
pub proof fn lemma_tsconfig_fields(
    config: Json,
    members: Vec<(String, Json)>,
    list: Seq<Text>,
    options: Vec<(String, Json)>,
)
    requires
        config == Json::Object(members),
    ensures
        config.member("extends"@) is None && config.member("compilerOptions"@) is None ==> (
        tsconfig_in(config) matches Some(t) && t.extends.len() == 0 && t.base_url is None
            && t.paths is None),
        config.member("compilerOptions"@) is None ==> (config.member("extends"@) matches Some(
            Json::Text(s),
        ) ==> (tsconfig_in(config) matches Some(t) && t.extends == seq![s@] && t.base_url is None
            && t.paths is None)),
        config.member("compilerOptions"@) is None ==> (config.member("extends"@) matches Some(
            Json::Array(items),
        ) ==> (Json::Array(items).text_list() == Some(list) ==> (tsconfig_in(config) matches Some(t)
            && t.extends == list))),
        config.member("extends"@) is None && config.member("compilerOptions"@) == Some(
            Json::Object(options),
        ) && Json::Object(options).member("paths"@) is None ==> (Json::Object(options).member(
            "baseUrl"@,
        ) matches Some(Json::Text(b)) ==> (tsconfig_in(config) matches Some(t) && t.base_url == Some(
            b@,
        ) && t.paths is None)),
        config.member("extends"@) is None && config.member("compilerOptions"@) == Some(
            Json::Object(options),
        ) && Json::Object(options).member("baseUrl"@) is None ==> (Json::Object(options).member(
            "paths"@,
        ) matches Some(Json::Object(paths)) ==> (patterns_in(paths@) matches Some(patterns) ==> (
        tsconfig_in(config) matches Some(t) && t.paths == Some(patterns) && t.base_url is None))),
{
}

/// Aliases are read in the order in which they are written, each with all its targets; one whose
/// targets are no list of texts spoils them all.
pub proof fn lemma_aliases_in_order(members: Seq<(Text, Text)>)
    ensures
        aliases_among(members) matches Some(list) ==> list.len() == members.len() && forall|i: int|
            0 <= i < members.len() ==> is_alias(#[trigger] members[i], list[i]),
        aliases_among(members) is None ==> exists|i: int|
            0 <= i < members.len() && !gives_targets(#[trigger] members[i].1),
    decreases members.len(),
{
    if members.len() > 0 {
        let init = members.drop_last();
        let n = members.len() - 1;
        lemma_aliases_in_order(init);
        assert(members[n] == members.last());
        if let Some(list) = aliases_among(members) {
            let before = aliases_among(init)->0;
            assert forall|i: int| 0 <= i < members.len() implies is_alias(
                #[trigger] members[i],
                list[i],
            ) by {
                if i < n {
                    assert(init[i] == members[i]);
                    assert(list[i] == before[i]);
                }
            }
        } else if aliases_among(init) is None {
            let i = choose|i: int| 0 <= i < init.len() && !gives_targets(#[trigger] init[i].1);
            assert(members[i] == init[i]);
            assert(!gives_targets(members[i].1));
        } else {
            assert(!gives_targets(members[n].1));
        }
    }
}

/// The text is a list of texts.
pub open spec fn gives_targets(content: Text) -> bool {
    json_document(content) matches Ok(v) && v.text_list() is Some
}

/// The alias has the key of the member and the targets that its text lists.
pub open spec fn is_alias(member: (Text, Text), alias: (Text, Seq<Text>)) -> bool {
    alias.0 == member.0 && (json_document(member.1) matches Ok(v) && v.text_list() == Some(alias.1))
}

// ---------------------------------------------------------------------------
// What it extends
// ---------------------------------------------------------------------------

/// A path that is there is the configuration; where it is not, the same path with `.json` behind it
/// may be.
pub proof fn lemma_config_at(tree: FileTree, path: Text)
    ensures
        tree.has_file(path) ==> config_at(tree, path) == Some(path),
        !tree.has_file(path) && tree.has_file(path + ".json"@) ==> config_at(tree, path) == Some(
            path + ".json"@,
        ),
        !tree.has_file(path) && !tree.has_file(path + ".json"@) ==> config_at(tree, path) is None,
{
}

/// What begins with a dot or a slash is seen from the directory of the configuration. Anything else is
/// looked for in the projects, and then among the installed packages.
pub proof fn lemma_extended(
    tree: FileTree,
    cwd: Text,
    projects: Seq<ProjectView>,
    dir: Text,
    specifier: Text,
)
    requires
        specifier.len() > 0,
    ensures
        specifier[0] == '.' || specifier[0] == '/' ==> extended(tree, cwd, projects, dir, specifier)
            == config_at(tree, path_join(dir, specifier)),
        specifier[0] != '.' && specifier[0] != '/' ==> match config_in_projects(
            tree,
            cwd,
            projects,
            specifier,
        ) {
            Some(path) => extended(tree, cwd, projects, dir, specifier) == Some(path),
            None => extended(tree, cwd, projects, dir, specifier) == config_installed_above(
                tree,
                cwd,
                dir,
                segments(dir).len(),
                specifier,
            ),
        },
{
    reveal_strlit(".");
    let one = specifier.subrange(0, 1);
    assert(one[0] == specifier[0]);
    if specifier[0] == '.' {
        assert(one =~= "."@);
    }
}

/// What follows the name of a package and a slash is the path inside it; the bare name stands for
/// the configuration that the package names; another name is another package.
pub proof fn lemma_path_in_package(tree: FileTree, name: Text, rest: Text, root: Text, c: char)
    requires
        c != '/',
    ensures
        path_in_package(tree, name + seq!['/'] + rest, name, root) == Some(rest),
        path_in_package(tree, name, name, root) == Some(package_config(tree, root)),
        path_in_package(tree, name + seq![c] + rest, name, root) is None,
{
    reveal_strlit("/");
    let n = name.len() as int;
    let inner = name + seq!['/'] + rest;
    assert(inner.subrange(0, n) =~= name);
    let tail = inner.skip(n);
    assert(tail =~= seq!['/'] + rest);
    assert(tail.subrange(0, 1) =~= "/"@);
    assert(tail.skip(1) =~= rest);
    assert(name.subrange(0, n) =~= name);
    assert(name.skip(n) =~= Seq::<char>::empty());
    let other = name + seq![c] + rest;
    assert(other.subrange(0, n) =~= name);
    let back = other.skip(n);
    assert(back =~= seq![c] + rest);
    if has_prefix(back, "/"@) {
        assert(back.subrange(0, 1)[0] == '/');
    }
}

/// The configuration that a package names is the one in its manifest, and else `tsconfig.json`.
pub proof fn lemma_package_config(tree: FileTree, root: Text, name: Option<Text>, config: Text)
    ensures
        manifest_at(tree, root) == Some((name, Some(config))) ==> package_config(tree, root)
            == config,
        manifest_at(tree, root) is None ==> package_config(tree, root) == "tsconfig.json"@,
        manifest_at(tree, root) == Some((name, None::<Text>)) ==> package_config(tree, root)
            == "tsconfig.json"@,
{
}

/// A project is found by its name, and else by the name in its manifest; what the specifier names must
/// be there.
pub proof fn lemma_config_in_project(tree: FileTree, cwd: Text, p: ProjectView, rest: Text, name: Text, config: Option<Text>)
    ensures
        config_in_project(tree, cwd, p, p.name + seq!['/'] + rest) == config_at(
            tree,
            path_join(path_join(cwd, p.root), rest),
        ),
        manifest_at(tree, path_join(cwd, p.root)) == Some((Some(name), config)) && !has_prefix(
            name + seq!['/'] + rest,
            p.name,
        ) ==> config_in_project(tree, cwd, p, name + seq!['/'] + rest) == config_at(
            tree,
            path_join(path_join(cwd, p.root), rest),
        ),
{
    let root = path_join(cwd, p.root);
    lemma_path_in_package(tree, p.name, rest, root, 'x');
    lemma_path_in_package(tree, name, rest, root, 'x');
}

/// The first project that has the configuration gives it.
pub proof fn lemma_config_in_projects(
    tree: FileTree,
    cwd: Text,
    projects: Seq<ProjectView>,
    specifier: Text,
    i: int,
)
    requires
        0 <= i < projects.len(),
        config_in_project(tree, cwd, projects[i], specifier) is Some,
        forall|j: int|
            0 <= j < i ==> config_in_project(
                tree,
                cwd,
                #[trigger] projects[j],
                specifier,
            ) is None,
    ensures
        config_in_projects(tree, cwd, projects, specifier) == config_in_project(
            tree,
            cwd,
            projects[i],
            specifier,
        ),
    decreases i,
{
    if i > 0 {
        assert(config_in_project(tree, cwd, projects[0], specifier) is None);
        let rest = projects.drop_first();
        assert(rest[i - 1] == projects[i]);
        assert forall|j: int| 0 <= j < i - 1 implies config_in_project(
            tree,
            cwd,
            #[trigger] rest[j],
            specifier,
        ) is None by {
            assert(rest[j] == projects[j + 1]);
        }
        lemma_config_in_projects(tree, cwd, rest, specifier, i - 1);
    }
}

/// An installed package is looked for in the nearest directory above that has it, as long as the way up
/// stays in the workspace.
pub proof fn lemma_config_installed(
    tree: FileTree,
    cwd: Text,
    dir: Text,
    k: nat,
    specifier: Text,
    found: nat,
)
    requires
        found <= k,
        config_installed(tree, ancestor(dir, found as int), specifier) is Some,
        forall|j: int|
            found < j <= k ==> config_installed(
                tree,
                #[trigger] ancestor(dir, j),
                specifier,
            ) is None,
        forall|j: int| found <= j <= k ==> path_under(#[trigger] ancestor(dir, j), cwd),
    ensures
        config_installed_above(tree, cwd, dir, k, specifier) == config_installed(
            tree,
            ancestor(dir, found as int),
            specifier,
        ),
    decreases k,
{
    assert(path_under(ancestor(dir, k as int), cwd));
    if found < k {
        assert(config_installed(tree, ancestor(dir, k as int), specifier) is None);
        lemma_config_installed(tree, cwd, dir, (k - 1) as nat, specifier, found);
    }
}

/// An installed package that is a directory gives the configuration that it names; one that is a file,
/// with or without its ending, is the configuration.
pub proof fn lemma_installed_package(tree: FileTree, dir: Text, specifier: Text)
    ensures
        ({
            let package = path_join(path_join(dir, "node_modules"@), specifier);
            &&& tree.has_dir(package) ==> config_installed(tree, dir, specifier) == config_at(
                tree,
                path_join(package, package_config(tree, package)),
            )
            &&& !tree.has_dir(package) ==> config_installed(tree, dir, specifier) == config_at(
                tree,
                package,
            )
        }),
{
}

// ---------------------------------------------------------------------------
// What holds in the end
// ---------------------------------------------------------------------------

/// A value without the template stays as it is; the template stands for the directory of the
/// configuration that was asked for.
pub proof fn lemma_expanded(value: Text, config_dir: Text, rest: Text)
    ensures
        !contains_text(value, "${configDir}"@) ==> expanded(value, config_dir) == value,
        !contains_text(rest, "${configDir}"@) ==> expanded("${configDir}"@ + rest, config_dir)
            == config_dir + rest,
{
    reveal_strlit("${configDir}");
    let word = "${configDir}"@;
    if !contains_text(value, word) {
        assert forall|at: int| !occurs_at(value, word, at) by {}
        text_laws::lemma_nothing_replaced(value, word, config_dir);
    }
    if !contains_text(rest, word) {
        assert forall|at: int| !occurs_at(rest, word, at) by {}
        text_laws::lemma_nothing_replaced(rest, word, config_dir);
        let none = Seq::<char>::empty();
        text_laws::lemma_first_replaced(none, word, rest, config_dir);
        assert(none + word + rest =~= word + rest);
        assert(none + config_dir + rest =~= config_dir + rest);
    }
}

/// The options of a configuration itself hold, whatever it extends: its base directory as seen from
/// its own directory, and its aliases in place of all others. What it does not give is inherited.
pub proof fn lemma_own_options(
    tree: FileTree,
    cwd: Text,
    projects: Seq<ProjectView>,
    config_dir: Text,
    tsconfig: Text,
    chain: Seq<Text>,
    config: TsconfigView,
    dir: Text,
)
    requires
        !chain.contains(place(tsconfig)),
        chain.len() < MAX_EXTENDS_DEPTH,
        tsconfig_at(tree, tsconfig) == Some(config),
        path_parent(tsconfig) == Some(dir),
    ensures
        effective(tree, cwd, projects, config_dir, tsconfig, chain) matches Some(e) && {
            let above = inherited(
                tree,
                cwd,
                projects,
                config_dir,
                dir,
                config.extends,
                chain.push(place(tsconfig)),
            );
            &&& config.base_url is None ==> e.base_url == above.base_url
            &&& (config.base_url matches Some(b) ==> e.base_url == Some(
                path_join(dir, expanded(b, config_dir)),
            ))
            &&& config.paths is None ==> e.paths == above.paths
            &&& (config.paths matches Some(own) ==> (e.paths matches Some(held) && held.1 == dir
                && held.0.len() == own.len() && forall|i: int, t: int|
                0 <= i < own.len() && 0 <= t < own[i].1.len() ==> held.0[i].0 == own[i].0
                    && held.0[i].1.len() == own[i].1.len() && #[trigger] held.0[i].1[t] == expanded(
                    own[i].1[t],
                    config_dir,
                )))
        },
{
}

/// A configuration that extends itself, however far round, gives nothing, and neither does one that
/// cannot be read.
pub proof fn lemma_no_circle(
    tree: FileTree,
    cwd: Text,
    projects: Seq<ProjectView>,
    config_dir: Text,
    tsconfig: Text,
    chain: Seq<Text>,
)
    ensures
        chain.contains(place(tsconfig)) ==> effective(
            tree,
            cwd,
            projects,
            config_dir,
            tsconfig,
            chain,
        ) is None,
        tsconfig_at(tree, tsconfig) is None ==> effective(
            tree,
            cwd,
            projects,
            config_dir,
            tsconfig,
            chain,
        ) is None,
{
}

/// Of the configurations that one extends, each overrides those before it in what it gives; one that
/// cannot be found or read changes nothing.
pub proof fn lemma_later_overrides(
    tree: FileTree,
    cwd: Text,
    projects: Seq<ProjectView>,
    config_dir: Text,
    dir: Text,
    specifiers: Seq<Text>,
    last: Text,
    chain: Seq<Text>,
)
    ensures
        ({
            let before = inherited(tree, cwd, projects, config_dir, dir, specifiers, chain);
            let after = inherited(
                tree,
                cwd,
                projects,
                config_dir,
                dir,
                specifiers.push(last),
                chain,
            );
            match extended(tree, cwd, projects, dir, last) {
                Some(parent) => match effective(tree, cwd, projects, config_dir, parent, chain) {
                    Some(e) => {
                        &&& e.base_url is Some ==> after.base_url == e.base_url
                        &&& e.base_url is None ==> after.base_url == before.base_url
                        &&& e.paths is Some ==> after.paths == e.paths
                        &&& e.paths is None ==> after.paths == before.paths
                    },
                    None => after == before,
                },
                None => after == before,
            }
        }),
        inherited(
            tree,
            cwd,
            projects,
            config_dir,
            dir,
            Seq::<Text>::empty(),
            chain,
        ).base_url is None,
        inherited(
            tree,
            cwd,
            projects,
            config_dir,
            dir,
            Seq::<Text>::empty(),
            chain,
        ).paths is None,
{
    assert(specifiers.push(last).drop_last() =~= specifiers);
    assert(specifiers.push(last).last() == last);
}

/// Aliases are seen from the base directory where there is one, and else from the directory of the
/// configuration that gives them; where neither aliases nor a base directory hold there is nothing.
pub proof fn lemma_loaded(
    tree: FileTree,
    cwd: Text,
    projects: Seq<ProjectView>,
    tsconfig: Text,
    config_dir: Text,
    e: EffectiveView,
)
    requires
        path_parent(tsconfig) == Some(config_dir),
        effective(tree, cwd, projects, config_dir, tsconfig, Seq::<Text>::empty()) == Some(e),
    ensures
        e.base_url is None && e.paths is None ==> loaded(tree, cwd, projects, tsconfig) is None,
        e.base_url matches Some(base) ==> (loaded(tree, cwd, projects, tsconfig) matches Some(t)
            && t.base_dir == base && t.base_url == Some(base)),
        e.paths matches Some(p) ==> (loaded(tree, cwd, projects, tsconfig) matches Some(t)
            && t.patterns == p.0 && (e.base_url is None ==> t.base_dir == p.1 && t.base_url is None)),
        e.paths is None && e.base_url is Some ==> loaded(tree, cwd, projects, tsconfig)->0.patterns.len() == 0,
{
}

/// A configuration can be written as a list of its two fields, what it extends and its options, and
/// these as a list of theirs, the base directory and the aliases.
pub proof fn lemma_tsconfig_list(
    items: Vec<Json>,
    options: Vec<Json>,
    extended: String,
    base_url: String,
    paths: Vec<(String, Json)>,
)
    requires
        items@.len() == 2,
        items@[0] == Json::Text(extended),
        items@[1] == Json::Array(options),
        options@.len() == 2,
        options@[0] == Json::Text(base_url),
        options@[1] == Json::Object(paths),
    ensures
        patterns_in(paths@) matches Some(patterns) ==> (tsconfig_in(Json::Array(items)) matches Some(
            t,
        ) && t.extends == seq![extended@] && t.base_url == Some(base_url@) && t.paths == Some(
            patterns,
        )),
        patterns_in(paths@) is None ==> tsconfig_in(Json::Array(items)) is None,
{
}

/// A document is no configuration where it is neither an object nor a list of two, nor where a field of
/// it has another shape.
pub proof fn lemma_no_tsconfig(
    config: Json,
    members: Vec<(String, Json)>,
    options: Vec<(String, Json)>,
    items: Vec<Json>,
    n: Option<u64>,
)
    ensures
        tsconfig_in(Json::Null) is None && tsconfig_in(Json::Number(n)) is None,
        items@.len() != 2 ==> tsconfig_in(Json::Array(items)) is None,
        config == Json::Object(members) && config.member("extends"@) == Some(Json::Number(n))
            ==> tsconfig_in(config) is None,
        config == Json::Object(members) && config.member("compilerOptions"@) == Some(Json::Number(n))
            ==> tsconfig_in(config) is None,
        config == Json::Object(members) && config.member("compilerOptions"@) == Some(
            Json::Object(options),
        ) && Json::Object(options).member("baseUrl"@) == Some(Json::Number(n)) ==> tsconfig_in(config)
            is None,
        config == Json::Object(members) && config.member("compilerOptions"@) == Some(
            Json::Object(options),
        ) && Json::Object(options).member("paths"@) == Some(Json::Number(n)) ==> tsconfig_in(config)
            is None,
{
}

/// Aliases among the members of an object are read in order, each with its targets.
pub proof fn lemma_patterns_in(members: Seq<(String, Json)>, key: String, v: Json, targets: Seq<Text>)
    ensures
        patterns_in(Seq::empty()) matches Some(list) && list.len() == 0,
        patterns_in(members) matches Some(list) ==> (v.text_list() == Some(targets) ==> patterns_in(
            members.push((key, v)),
        ) == Some(list.push((key@, targets)))),
        v.text_list() is None || patterns_in(members) is None ==> patterns_in(
            members.push((key, v)),
        ) is None,
{
    assert(members.push((key, v)).drop_last() =~= members);
}

/// A package names its configuration under `tsconfig` in its manifest, beside its name.
pub proof fn lemma_manifest_at(
    tree: FileTree,
    root: Text,
    content: Text,
    members: Vec<(String, Json)>,
    name: String,
    config: String,
)
    requires
        tree.content(path_join(root, "package.json"@)) == Some(content),
        !repeats(content, "name"@),
        !repeats(content, "tsconfig"@),
    ensures
        json_document(content) == Ok::<Json, Text>(Json::Object(members)) && Json::Object(
            members,
        ).member("tsconfig"@) == Some(Json::Text(config)) && (Json::Object(members).member("name"@)
            is None || Json::Object(members).member("name"@) == Some(Json::Text(name)))
            ==> package_config(tree, root) == config@,
        json_document(content) == Ok::<Json, Text>(Json::Object(members)) && Json::Object(
            members,
        ).member("name"@) == Some(Json::Text(name)) && Json::Object(members).member("tsconfig"@)
            is None ==> manifest_at(tree, root) == Some((Some(name@), None::<Text>))
            && package_config(tree, root) == "tsconfig.json"@,
        json_document(content) is Err ==> manifest_at(tree, root) is None,
{
}

/// A manifest that is not there, or that repeats a field, gives nothing.
pub proof fn lemma_no_manifest_at(tree: FileTree, root: Text)
    ensures
        tree.content(path_join(root, "package.json"@)) is None ==> manifest_at(tree, root) is None,
        tree.content(path_join(root, "package.json"@)) matches Some(content) ==> (repeats(
            content,
            "name"@,
        ) || repeats(content, "tsconfig"@) ==> manifest_at(tree, root) is None),
        manifest_at(tree, root) is None ==> package_config(tree, root) == "tsconfig.json"@,
{
}

} // verus!
