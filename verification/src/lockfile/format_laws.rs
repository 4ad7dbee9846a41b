//! What holds of every lockfile of each format.

use crate::json::{member_of, Json};
use crate::lockfile::bun;
use crate::lockfile::bun::{bun_lockfile, text_members_in, with_text_members, workspaces_names};
use crate::lockfile::data::{
    member_names, names_under, requested_names, text_or_empty, with_members, with_object, PackageView,
};
use crate::lockfile::keys::{berry_name, package_name, pnpm_key};
use crate::lockfile::npm;
use crate::lockfile::npm::{npm_lockfile, with_nested, NPM_V1_MAX_DEPTH};
use crate::lockfile::pnpm;
use crate::lockfile::pnpm::{
    importer_names, importers_names, pnpm_lockfile, text_keys, with_entries, with_mapping,
};
use crate::lockfile::yarn::{
    berry_packages, berry_packages_in, manifests_names, with_written, with_written_under,
};
use crate::json::json_document;
use crate::text::{contains_text, has_prefix, Text};
use crate::yaml::{entry_of, Yaml};
use vstd::prelude::*;

verus! {

// ---------------------------------------------------------------------------
// Objects
// ---------------------------------------------------------------------------

/// No key stands twice among the members.
pub open spec fn are_distinct(members: Seq<(String, Json)>) -> bool {
    forall|i: int, j: int|
        0 <= i < j < members.len() ==> (#[trigger] members[i]).0@ != (#[trigger] members[j]).0@
}

/// The object holds, under the section, an object with the name.
pub open spec fn lists(v: Json, section: Text, name: Text) -> bool {
    v.member(section) matches Some(Json::Object(members)) && exists|i: int|
        0 <= i < members@.len() && (#[trigger] members@[i]).0@ == name
}

/// The object holds, under the section, an object with the name and the text for it.
pub open spec fn lists_with(v: Json, section: Text, name: Text, range: Text) -> bool {
    v.member(section) matches Some(Json::Object(members)) && are_distinct(members@) && exists|i: int|
        0 <= i < members@.len() && (#[trigger] members@[i]).0@ == name && members@[i].1.as_text()
            == Some(range)
}

/// A manifest asks for the packages that its dependencies, its development dependencies and its
/// optional dependencies name, and for no other.
pub proof fn lemma_requested(v: Json, name: Text)
    ensures
        requested_names(v).contains(name) <==> lists(v, "dependencies"@, name) || lists(
            v,
            "devDependencies"@,
            name,
        ) || lists(v, "optionalDependencies"@, name),
{
    lemma_names_under(v, "dependencies"@, name);
    lemma_names_under(v, "devDependencies"@, name);
    lemma_names_under(v, "optionalDependencies"@, name);
}

proof fn lemma_names_under(v: Json, section: Text, name: Text)
    ensures
        names_under(v, section).contains(name) <==> lists(v, section, name),
{
    if let Some(Json::Object(members)) = v.member(section) {
        let ms = members@;
        if names_under(v, section).contains(name) {
            let i = choose|i: int| 0 <= i < ms.len() && #[trigger] ms[i].0@ == name;
            assert(ms[i].0@ == name);
        }
        if lists(v, section, name) {
            let i = choose|i: int| 0 <= i < ms.len() && (#[trigger] ms[i]).0@ == name;
            assert(ms[i].0@ == name);
            assert(member_names(ms).contains(name));
        }
    }
}

proof fn lemma_with_members(m: Map<Text, Text>, members: Seq<(String, Json)>, name: Text)
    ensures
        with_members(m, members).contains_key(name) <==> m.contains_key(name) || exists|i: int|
            0 <= i < members.len() && (#[trigger] members[i]).0@ == name,
        (forall|i: int| 0 <= i < members.len() ==> (#[trigger] members[i]).0@ != name)
            ==> with_members(m, members)[name] == m[name],
        forall|i: int|
            0 <= i < members.len() && (#[trigger] members[i]).0@ == name && are_distinct(members)
                ==> with_members(m, members)[name] == text_or_empty(members[i].1),
    decreases members.len(),
{
    if members.len() > 0 {
        let init = members.drop_last();
        let n = members.len() - 1;
        lemma_with_members(m, init, name);
        assert forall|i: int| 0 <= i < n implies init[i] == #[trigger] members[i] by {}
        assert(members[n] == members.last());
        if with_members(m, init).contains_key(name) && !m.contains_key(name) {
            let i = choose|i: int| 0 <= i < init.len() && (#[trigger] init[i]).0@ == name;
            assert(members[i].0@ == name);
        }
        if exists|i: int| 0 <= i < members.len() && (#[trigger] members[i]).0@ == name {
            let i = choose|i: int| 0 <= i < members.len() && (#[trigger] members[i]).0@ == name;
            if i < n {
                assert(init[i].0@ == name);
            }
        }
        if forall|i: int| 0 <= i < members.len() ==> (#[trigger] members[i]).0@ != name {
            assert forall|i: int| 0 <= i < init.len() implies (#[trigger] init[i]).0@ != name by {
                assert(members[i].0@ != name);
            }
        }
        assert forall|i: int|
            0 <= i < members.len() && (#[trigger] members[i]).0@ == name && are_distinct(
                members,
            ) implies with_members(m, members)[name] == text_or_empty(members[i].1) by {
            if i < n {
                assert(init[i].0@ == name);
                assert(are_distinct(init)) by {
                    assert forall|a: int, b: int| 0 <= a < b < init.len() implies (
                    #[trigger] init[a]).0@ != (#[trigger] init[b]).0@ by {
                        assert(members[a].0@ != members[b].0@);
                    }
                }
                assert(members[n].0@ != name);
            }
        }
    }
}

proof fn lemma_with_object(m: Map<Text, Text>, v: Json, section: Text, name: Text, range: Text)
    ensures
        with_object(m, v, section).contains_key(name) <==> m.contains_key(name) || lists(
            v,
            section,
            name,
        ),
        !lists(v, section, name) ==> with_object(m, v, section)[name] == m[name],
        lists_with(v, section, name, range) ==> with_object(m, v, section)[name] == range && lists(
            v,
            section,
            name,
        ),
{
    if let Some(Json::Object(members)) = v.member(section) {
        lemma_with_members(m, members@, name);
        if lists_with(v, section, name, range) {
            let i = choose|i: int|
                0 <= i < members@.len() && (#[trigger] members@[i]).0@ == name
                    && members@[i].1.as_text() == Some(range);
            assert(members@[i].0@ == name);
        }
    }
}

// ---------------------------------------------------------------------------
// npm
// ---------------------------------------------------------------------------

/// The lockfile gives its format as a number of at least two.
pub open spec fn has_packages(v: Json) -> bool {
    v.member("lockfileVersion"@) matches Some(Json::Number(Some(n))) && n >= 2
}

/// From format two on, npm lists its packages under `packages`: each is taken over under its full key,
/// with its version and all that it depends on, for use, for development or where it can be had.
pub proof fn lemma_npm_package(v: Json, members: Vec<(String, Json)>, i: int, name: Text, range: Text)
    requires
        has_packages(v),
        v.member("packages"@) == Some(Json::Object(members)),
        are_distinct(members@),
        0 <= i < members@.len(),
        members@[i].0@.len() > 0,
        package_name(members@[i].0@).len() > 0,
    ensures
        npm_lockfile(v).packages.contains_key(members@[i].0@),
        ({
            let package = members@[i].1;
            let read = npm_lockfile(v).packages[members@[i].0@];
            &&& package.member("version"@) matches Some(Json::Text(s)) ==> read.version == s@
            &&& package.member("version"@) is None ==> read.version.len() == 0
            &&& read.dependencies.contains_key(name) <==> lists(package, "dependencies"@, name)
                || lists(package, "devDependencies"@, name) || lists(
                package,
                "optionalDependencies"@,
                name,
            )
            &&& lists_with(package, "dependencies"@, name, range) && !lists(
                package,
                "devDependencies"@,
                name,
            ) && !lists(package, "optionalDependencies"@, name) ==> read.dependencies[name] == range
        }),
{
    let package = members@[i].1;
    lemma_npm_packages(members@, i);
    let none = Map::<Text, Text>::empty();
    let one = with_object(none, package, "dependencies"@);
    let two = with_object(one, package, "devDependencies"@);
    lemma_with_object(none, package, "dependencies"@, name, range);
    lemma_with_object(one, package, "devDependencies"@, name, range);
    lemma_with_object(two, package, "optionalDependencies"@, name, range);
}

proof fn lemma_npm_packages(members: Seq<(String, Json)>, i: int)
    requires
        are_distinct(members),
        0 <= i < members.len(),
        members[i].0@.len() > 0,
        package_name(members[i].0@).len() > 0,
    ensures
        npm::packages_in(members).contains_pair(
            members[i].0@,
            (PackageView {
                version: npm::version_of(members[i].1),
                dependencies: npm::dependencies_of(members[i].1),
            }),
        ),
    decreases members.len(),
{
    let init = members.drop_last();
    let n = members.len() - 1;
    if i < n {
        assert(init[i] == members[i]);
        assert forall|a: int, b: int| 0 <= a < b < init.len() implies (#[trigger] init[a]).0@ != (
        #[trigger] init[b]).0@ by {
            assert(members[a].0@ != members[b].0@);
        }
        lemma_npm_packages(init, i);
        assert(members[n].0@ != members[i].0@);
    }
}

/// From format two on, the workspace asks for what the package with the empty key asks for; the
/// packages are all that `packages` lists besides, and no other.
pub proof fn lemma_npm_root(
    v: Json,
    members: Vec<(String, Json)>,
    root: Json,
    name: Text,
    key: Text,
)
    requires
        has_packages(v),
        v.member("packages"@) == Some(Json::Object(members)),
        member_of(members@, ""@) == Some(root),
    ensures
        npm_lockfile(v).direct_dependencies.contains(name) <==> lists(root, "dependencies"@, name)
            || lists(root, "devDependencies"@, name) || lists(root, "optionalDependencies"@, name),
        npm_lockfile(v).packages.contains_key(key) ==> key.len() > 0 && exists|i: int|
            0 <= i < members@.len() && (#[trigger] members@[i]).0@ == key,
{
    lemma_requested(root, name);
    lemma_npm_keys(members@, key);
}

proof fn lemma_npm_keys(members: Seq<(String, Json)>, key: Text)
    ensures
        npm::packages_in(members).contains_key(key) ==> key.len() > 0 && exists|i: int|
            0 <= i < members.len() && (#[trigger] members[i]).0@ == key,
    decreases members.len(),
{
    if members.len() > 0 {
        let init = members.drop_last();
        lemma_npm_keys(init, key);
        if npm::packages_in(init).contains_key(key) {
            let i = choose|i: int| 0 <= i < init.len() && (#[trigger] init[i]).0@ == key;
            assert(members[i].0@ == key);
        }
        assert(members[members.len() - 1] == members.last());
    }
}

/// Before format two, npm lists its packages under `dependencies`, those at the top being what the
/// workspace asks for; each is listed, and so is each that is nested in one of these.
pub proof fn lemma_npm_nested(
    v: Json,
    members: Vec<(String, Json)>,
    i: int,
    nested: Vec<(String, Json)>,
    j: int,
)
    requires
        !has_packages(v),
        v.member("dependencies"@) == Some(Json::Object(members)),
        0 <= i < members@.len(),
    ensures
        npm_lockfile(v).direct_dependencies.contains(members@[i].0@),
        npm_lockfile(v).packages.contains_key(members@[i].0@),
        members@[i].1.member("dependencies"@) == Some(Json::Object(nested)) && 0 <= j < nested@.len()
            ==> npm_lockfile(v).packages.contains_key(nested@[j].0@),
{
    let none = Map::<Text, PackageView>::empty();
    assert(members@[i].0@ == members@[i].0@);
    assert(member_names(members@).contains(members@[i].0@));
    lemma_nested(none, members@, 0, i);
    if members@[i].1.member("dependencies"@) == Some(Json::Object(nested)) && 0 <= j
        < nested@.len() {
        lemma_nested_in(none, members@, 0, i, nested@, j);
    }
}

proof fn lemma_nested_grows(m: Map<Text, PackageView>, members: Seq<(String, Json)>, depth: nat, k: Text)
    requires
        m.contains_key(k),
    ensures
        with_nested(m, members, depth).contains_key(k),
    decreases NPM_V1_MAX_DEPTH + 1 - depth, members.len(),
{
    if depth <= NPM_V1_MAX_DEPTH && members.len() > 0 {
        let before = with_nested(m, members.drop_last(), depth);
        lemma_nested_grows(m, members.drop_last(), depth, k);
        let v = members.last().1;
        let own = before.insert(
            members.last().0@,
            PackageView {
                version: npm::version_of(v),
                dependencies: with_object(Map::empty(), v, "requires"@),
            },
        );
        assert(own.contains_key(k));
        if let Some(Json::Object(nested)) = v.member("dependencies"@) {
            lemma_nested_grows(own, nested@, depth + 1, k);
        }
    }
}

proof fn lemma_nested(m: Map<Text, PackageView>, members: Seq<(String, Json)>, depth: nat, i: int)
    requires
        depth <= NPM_V1_MAX_DEPTH,
        0 <= i < members.len(),
    ensures
        with_nested(m, members, depth).contains_key(members[i].0@),
    decreases members.len(),
{
    let init = members.drop_last();
    let before = with_nested(m, init, depth);
    let v = members.last().1;
    let k = members[i].0@;
    let own = before.insert(
        members.last().0@,
        PackageView {
            version: npm::version_of(v),
            dependencies: with_object(Map::empty(), v, "requires"@),
        },
    );
    if i < init.len() {
        assert(init[i] == members[i]);
        lemma_nested(m, init, depth, i);
    }
    assert(own.contains_key(k));
    if let Some(Json::Object(nested)) = v.member("dependencies"@) {
        lemma_nested_grows(own, nested@, depth + 1, k);
    }
}

proof fn lemma_nested_in(
    m: Map<Text, PackageView>,
    members: Seq<(String, Json)>,
    depth: nat,
    i: int,
    nested: Seq<(String, Json)>,
    j: int,
)
    requires
        depth < NPM_V1_MAX_DEPTH,
        0 <= i < members.len(),
        members[i].1.member("dependencies"@) matches Some(Json::Object(inner)) && inner@ == nested,
        0 <= j < nested.len(),
    ensures
        with_nested(m, members, depth).contains_key(nested[j].0@),
    decreases members.len(),
{
    let init = members.drop_last();
    let before = with_nested(m, init, depth);
    let v = members.last().1;
    let k = nested[j].0@;
    let own = before.insert(
        members.last().0@,
        PackageView {
            version: npm::version_of(v),
            dependencies: with_object(Map::empty(), v, "requires"@),
        },
    );
    if i < init.len() {
        assert(init[i] == members[i]);
        lemma_nested_in(m, init, depth, i, nested, j);
        assert(own.contains_key(k));
        if let Some(Json::Object(inner)) = v.member("dependencies"@) {
            lemma_nested_grows(own, inner@, depth + 1, k);
        }
    } else {
        lemma_nested(own, nested, depth + 1, j);
    }
}

/// Before format two, a package without nested ones is listed with its version and with what it
/// requires, unless a later one has the same name.
pub proof fn lemma_npm_old_package(
    m: Map<Text, PackageView>,
    members: Seq<(String, Json)>,
    depth: nat,
    name: Text,
    range: Text,
)
    requires
        depth <= NPM_V1_MAX_DEPTH,
        members.len() > 0,
        members.last().1.member("dependencies"@) is None,
    ensures
        ({
            let package = members.last().1;
            let read = with_nested(m, members, depth)[members.last().0@];
            &&& package.member("version"@) matches Some(Json::Text(s)) ==> read.version == s@
            &&& read.dependencies.contains_key(name) <==> lists(package, "requires"@, name)
            &&& lists_with(package, "requires"@, name, range) ==> read.dependencies[name] == range
        }),
        forall|k: Text|
            k != members.last().0@ ==> with_nested(m, members, depth)[k] == #[trigger] with_nested(
                m,
                members.drop_last(),
                depth,
            )[k],
{
    lemma_with_object(
        Map::<Text, Text>::empty(),
        members.last().1,
        "requires"@,
        name,
        range,
    );
}

/// A package with nested ones comes with all of these: they are read after it.
pub proof fn lemma_npm_nested_last(
    m: Map<Text, PackageView>,
    members: Seq<(String, Json)>,
    depth: nat,
    nested: Vec<(String, Json)>,
    k: Text,
)
    requires
        depth < NPM_V1_MAX_DEPTH,
        members.len() > 0,
        members.last().1.member("dependencies"@) == Some(Json::Object(nested)),
        nested@.len() > 0,
        nested@.last().0@ == k,
        nested@.last().1.member("dependencies"@) is None,
    ensures
        nested@.last().1.member("version"@) matches Some(Json::Text(s)) ==> with_nested(
            m,
            members,
            depth,
        )[k].version == s@,
{
    reveal_with_fuel(with_nested, 3);
}

// ---------------------------------------------------------------------------
// bun
// ---------------------------------------------------------------------------

/// The workspace asks for what any of its members asks for.
pub proof fn lemma_bun_direct(v: Json, members: Vec<(String, Json)>, name: Text)
    requires
        v.member("workspaces"@) == Some(Json::Object(members)),
    ensures
        bun_lockfile(v).direct_dependencies.contains(name) <==> exists|i: int|
            0 <= i < members@.len() && (lists(
                (#[trigger] members@[i]).1,
                "dependencies"@,
                name,
            ) || lists(members@[i].1, "devDependencies"@, name) || lists(
                members@[i].1,
                "optionalDependencies"@,
                name,
            )),
{
    lemma_bun_workspaces(members@, name);
}

proof fn lemma_bun_workspaces(members: Seq<(String, Json)>, name: Text)
    ensures
        workspaces_names(members).contains(name) <==> exists|i: int|
            0 <= i < members.len() && (lists((#[trigger] members[i]).1, "dependencies"@, name)
                || lists(members[i].1, "devDependencies"@, name) || lists(
                members[i].1,
                "optionalDependencies"@,
                name,
            )),
    decreases members.len(),
{
    if members.len() > 0 {
        let init = members.drop_last();
        let n = members.len() - 1;
        lemma_bun_workspaces(init, name);
        lemma_requested(members.last().1, name);
        assert(members[n] == members.last());
        if workspaces_names(init).contains(name) {
            let i = choose|i: int|
                0 <= i < init.len() && (lists((#[trigger] init[i]).1, "dependencies"@, name)
                    || lists(init[i].1, "devDependencies"@, name) || lists(
                    init[i].1,
                    "optionalDependencies"@,
                    name,
                ));
            assert(members[i] == init[i]);
        }
        if exists|i: int|
            0 <= i < members.len() && (lists((#[trigger] members[i]).1, "dependencies"@, name)
                || lists(members[i].1, "devDependencies"@, name) || lists(
                members[i].1,
                "optionalDependencies"@,
                name,
            )) {
            let i = choose|i: int|
                0 <= i < members.len() && (lists((#[trigger] members[i]).1, "dependencies"@, name)
                    || lists(members[i].1, "devDependencies"@, name) || lists(
                    members[i].1,
                    "optionalDependencies"@,
                    name,
                ));
            if i < n {
                assert(init[i] == members[i]);
            }
        }
    }
}

/// The value is an object with a text under the name.
pub open spec fn gives_text(item: Json, name: Text) -> bool {
    item matches Json::Object(inner) && exists|j: int|
        0 <= j < inner@.len() && (#[trigger] inner@[j]).0@ == name && inner@[j].1 is Text
}

/// A package is an array: its version first, and its dependencies in every object behind that.
pub proof fn lemma_bun_package(
    v: Json,
    members: Vec<(String, Json)>,
    i: int,
    items: Vec<Json>,
    name: Text,
)
    requires
        v.member("packages"@) == Some(Json::Object(members)),
        are_distinct(members@),
        0 <= i < members@.len(),
        members@[i].1 == Json::Array(items),
        items@.len() > 0,
    ensures
        bun_lockfile(v).packages.contains_key(members@[i].0@),
        items@[0] matches Json::Text(s) ==> bun_lockfile(v).packages[members@[i].0@].version == s@,
        bun_lockfile(v).packages[members@[i].0@].dependencies.contains_key(name) <==> exists|k: int|
            0 < k < items@.len() && gives_text(#[trigger] items@[k], name),
{
    lemma_bun_packages(members@, i);
    let rest = items@.skip(1);
    lemma_bun_dependencies(rest, name);
    if exists|k: int| 0 <= k < rest.len() && gives_text(#[trigger] rest[k], name) {
        let k = choose|k: int| 0 <= k < rest.len() && gives_text(#[trigger] rest[k], name);
        assert(items@[k + 1] == rest[k]);
    }
    if exists|k: int| 0 < k < items@.len() && gives_text(#[trigger] items@[k], name) {
        let k = choose|k: int| 0 < k < items@.len() && gives_text(#[trigger] items@[k], name);
        assert(rest[k - 1] == items@[k]);
    }
}

proof fn lemma_bun_packages(members: Seq<(String, Json)>, i: int)
    requires
        are_distinct(members),
        0 <= i < members.len(),
        members[i].1 is Array,
    ensures
        bun::packages_in(members).contains_pair(
            members[i].0@,
            bun::package_in(members[i].1->Array_0@),
        ),
    decreases members.len(),
{
    let init = members.drop_last();
    let n = members.len() - 1;
    if i < n {
        assert(init[i] == members[i]);
        assert forall|a: int, b: int| 0 <= a < b < init.len() implies (#[trigger] init[a]).0@ != (
        #[trigger] init[b]).0@ by {
            assert(members[a].0@ != members[b].0@);
        }
        lemma_bun_packages(init, i);
        assert(members[n].0@ != members[i].0@);
    }
}

proof fn lemma_bun_dependencies(items: Seq<Json>, name: Text)
    ensures
        text_members_in(items).contains_key(name) <==> exists|k: int|
            0 <= k < items.len() && gives_text(#[trigger] items[k], name),
    decreases items.len(),
{
    if items.len() > 0 {
        let init = items.drop_last();
        let n = items.len() - 1;
        lemma_bun_dependencies(init, name);
        let before = text_members_in(init);
        if let Json::Object(members) = items.last() {
            lemma_with_text_members(before, members@, name);
        }
        assert(items[n] == items.last());
        assert(text_members_in(items).contains_key(name) <==> before.contains_key(name)
            || gives_text(items[n], name));
        if before.contains_key(name) {
            let k = choose|k: int| 0 <= k < init.len() && gives_text(#[trigger] init[k], name);
            assert(items[k] == init[k]);
        }
        if exists|k: int| 0 <= k < items.len() && gives_text(#[trigger] items[k], name) {
            let k = choose|k: int| 0 <= k < items.len() && gives_text(#[trigger] items[k], name);
            if k < n {
                assert(init[k] == items[k]);
            }
        }
    }
}

proof fn lemma_with_text_members(m: Map<Text, Text>, members: Seq<(String, Json)>, name: Text)
    ensures
        with_text_members(m, members).contains_key(name) <==> m.contains_key(name) || exists|j: int|
            0 <= j < members.len() && (#[trigger] members[j]).0@ == name && members[j].1 is Text,
    decreases members.len(),
{
    if members.len() > 0 {
        let init = members.drop_last();
        let n = members.len() - 1;
        lemma_with_text_members(m, init, name);
        assert(members[n] == members.last());
        if with_text_members(m, init).contains_key(name) && !m.contains_key(name) {
            let j = choose|j: int|
                0 <= j < init.len() && (#[trigger] init[j]).0@ == name && init[j].1 is Text;
            assert(members[j] == init[j]);
        }
        if exists|j: int|
            0 <= j < members.len() && (#[trigger] members[j]).0@ == name && members[j].1 is Text {
            let j = choose|j: int|
                0 <= j < members.len() && (#[trigger] members[j]).0@ == name && members[j].1 is Text;
            if j < n {
                assert(init[j] == members[j]);
            }
        }
    }
}

// ---------------------------------------------------------------------------
// pnpm
// ---------------------------------------------------------------------------

/// The mapping holds, under the section, a mapping with the name as a key.
pub open spec fn has_entry(v: Yaml, section: Text, name: Text) -> bool {
    v.entry(section) matches Some(m) && (m.entries() matches Some(entries) && exists|i: int|
        0 <= i < entries.len() && (#[trigger] entries[i]).0.as_text() == Some(name))
}

/// The workspace asks for what any of its members asks for: for use, for development or where it can
/// be had.
pub proof fn lemma_pnpm_direct(v: Yaml, members: Seq<(Yaml, Yaml)>, name: Text)
    requires
        v.entry("importers"@) matches Some(m) && m.entries() == Some(members),
    ensures
        pnpm_lockfile(v).direct_dependencies.contains(name) <==> exists|i: int|
            0 <= i < members.len() && asks_for((#[trigger] members[i]).1, name),
{
    lemma_importers(members, name);
}

/// A member of the workspace asks for the package.
pub open spec fn asks_for(member: Yaml, name: Text) -> bool {
    has_entry(member, "dependencies"@, name) || has_entry(member, "devDependencies"@, name)
        || has_entry(member, "optionalDependencies"@, name)
}

proof fn lemma_text_keys_under(v: Yaml, section: Text, name: Text)
    ensures
        pnpm::text_keys_under(v, section).contains(name) <==> has_entry(v, section, name),
{
    if let Some(m) = v.entry(section) {
        if let Some(entries) = m.entries() {
            if text_keys(entries).contains(name) {
                let i = choose|i: int|
                    0 <= i < entries.len() && #[trigger] entries[i].0.as_text() == Some(name);
                assert(entries[i].0.as_text() == Some(name));
            }
            if has_entry(v, section, name) {
                let i = choose|i: int|
                    0 <= i < entries.len() && (#[trigger] entries[i]).0.as_text() == Some(name);
                assert(entries[i].0.as_text() == Some(name));
                assert(text_keys(entries).contains(name));
            }
        }
    }
}

proof fn lemma_importers(members: Seq<(Yaml, Yaml)>, name: Text)
    ensures
        importers_names(members).contains(name) <==> exists|i: int|
            0 <= i < members.len() && asks_for((#[trigger] members[i]).1, name),
    decreases members.len(),
{
    if members.len() > 0 {
        let init = members.drop_last();
        let n = members.len() - 1;
        lemma_importers(init, name);
        lemma_text_keys_under(members.last().1, "dependencies"@, name);
        lemma_text_keys_under(members.last().1, "devDependencies"@, name);
        lemma_text_keys_under(members.last().1, "optionalDependencies"@, name);
        assert(importer_names(members.last().1).contains(name) <==> asks_for(
            members.last().1,
            name,
        ));
        assert(members[n] == members.last());
        if importers_names(init).contains(name) {
            let i = choose|i: int| 0 <= i < init.len() && asks_for((#[trigger] init[i]).1, name);
            assert(members[i] == init[i]);
        }
        if exists|i: int| 0 <= i < members.len() && asks_for((#[trigger] members[i]).1, name) {
            let i = choose|i: int|
                0 <= i < members.len() && asks_for((#[trigger] members[i]).1, name);
            if i < n {
                assert(init[i] == members[i]);
            }
        }
    }
}

/// The mapping holds, under the section, a mapping with the name as a key and a text for it.
pub open spec fn has_text_entry(v: Yaml, section: Text, name: Text) -> bool {
    v.entry(section) matches Some(m) && (m.entries() matches Some(entries) && exists|i: int|
        0 <= i < entries.len() && (#[trigger] entries[i]).0.as_text() == Some(name)
            && entries[i].1.as_text() is Some)
}

/// A package is taken over under its full key, with the version in the key and all that it depends
/// on, for use or where it can be had.
pub proof fn lemma_pnpm_package(v: Yaml, packages: Seq<(Yaml, Yaml)>, i: int, key: Text, name: Text)
    requires
        v.entry("packages"@) matches Some(m) && m.entries() == Some(packages),
        0 <= i < packages.len(),
        packages[i].0.as_text() == Some(key),
        forall|j: int|
            0 <= j < packages.len() && j != i ==> (#[trigger] packages[j]).0.as_text() != Some(key),
        pnpm_key(key).0.len() > 0,
    ensures
        pnpm_lockfile(v).packages.contains_key(key),
        pnpm_lockfile(v).packages[key].version == pnpm_key(key).1,
        pnpm_lockfile(v).packages[key].dependencies.contains_key(name) <==> has_text_entry(
            packages[i].1,
            "dependencies"@,
            name,
        ) || has_text_entry(packages[i].1, "optionalDependencies"@, name),
{
    lemma_pnpm_packages(packages, i, key);
    let none = Map::<Text, Text>::empty();
    let package = packages[i].1;
    lemma_with_mapping(none, package, "dependencies"@, name);
    lemma_with_mapping(
        with_mapping(none, package, "dependencies"@),
        package,
        "optionalDependencies"@,
        name,
    );
}

proof fn lemma_pnpm_packages(packages: Seq<(Yaml, Yaml)>, i: int, key: Text)
    requires
        0 <= i < packages.len(),
        packages[i].0.as_text() == Some(key),
        forall|j: int|
            0 <= j < packages.len() && j != i ==> (#[trigger] packages[j]).0.as_text() != Some(key),
        pnpm_key(key).0.len() > 0,
    ensures
        pnpm::packages_in(packages).contains_pair(
            key,
            (PackageView {
                version: pnpm_key(key).1,
                dependencies: with_mapping(
                    with_mapping(Map::empty(), packages[i].1, "dependencies"@),
                    packages[i].1,
                    "optionalDependencies"@,
                ),
            }),
        ),
    decreases packages.len(),
{
    let init = packages.drop_last();
    let n = packages.len() - 1;
    if i < n {
        assert(init[i] == packages[i]);
        assert forall|j: int| 0 <= j < init.len() && j != i implies (
        #[trigger] init[j]).0.as_text() != Some(key) by {
            assert(packages[j].0.as_text() != Some(key));
        }
        lemma_pnpm_packages(init, i, key);
        assert(packages[n].0.as_text() != Some(key));
    }
}

proof fn lemma_with_mapping(m: Map<Text, Text>, v: Yaml, section: Text, name: Text)
    ensures
        with_mapping(m, v, section).contains_key(name) <==> m.contains_key(name) || has_text_entry(
            v,
            section,
            name,
        ),
{
    if let Some(x) = v.entry(section) {
        if let Some(entries) = x.entries() {
            lemma_with_entries(m, entries, name);
        }
    }
}

proof fn lemma_with_entries(m: Map<Text, Text>, entries: Seq<(Yaml, Yaml)>, name: Text)
    ensures
        with_entries(m, entries).contains_key(name) <==> m.contains_key(name) || exists|i: int|
            0 <= i < entries.len() && (#[trigger] entries[i]).0.as_text() == Some(name)
                && entries[i].1.as_text() is Some,
    decreases entries.len(),
{
    if entries.len() > 0 {
        let init = entries.drop_last();
        let n = entries.len() - 1;
        lemma_with_entries(m, init, name);
        assert(entries[n] == entries.last());
        if with_entries(m, init).contains_key(name) && !m.contains_key(name) {
            let i = choose|i: int|
                0 <= i < init.len() && (#[trigger] init[i]).0.as_text() == Some(name)
                    && init[i].1.as_text() is Some;
            assert(entries[i] == init[i]);
        }
        if exists|i: int|
            0 <= i < entries.len() && (#[trigger] entries[i]).0.as_text() == Some(name)
                && entries[i].1.as_text() is Some {
            let i = choose|i: int|
                0 <= i < entries.len() && (#[trigger] entries[i]).0.as_text() == Some(name)
                    && entries[i].1.as_text() is Some;
            if i < n {
                assert(init[i] == entries[i]);
            }
        }
    }
}

// ---------------------------------------------------------------------------
// yarn, version 2 and later
// ---------------------------------------------------------------------------

/// The entries hold, under the section, a mapping with the name as a key.
pub open spec fn holds_entry(package: Seq<(Yaml, Yaml)>, section: Text, name: Text) -> bool {
    entry_of(package, section) matches Some(m) && (m.entries() matches Some(entries) && exists|
        i: int,
    |
        0 <= i < entries.len() && (#[trigger] entries[i]).0.as_text() == Some(name))
}

/// A package is taken over under its full key, with its version and all that it depends on: for use,
/// where it can be had, or as a peer.
pub proof fn lemma_berry_package(
    v: Yaml,
    entries: Seq<(Yaml, Yaml)>,
    i: int,
    key: Text,
    package: Seq<(Yaml, Yaml)>,
    name: Text,
)
    requires
        v.entries() == Some(entries),
        0 <= i < entries.len(),
        entries[i].0.as_text() == Some(key),
        entries[i].1.entries() == Some(package),
        forall|j: int|
            0 <= j < entries.len() && j != i ==> (#[trigger] entries[j]).0.as_text() != Some(key),
        key != "__metadata"@,
        contains_text(key, "@"@),
        berry_name(key).len() > 0,
    ensures
        berry_packages(v).contains_key(key),
        entry_of(package, "version"@) matches Some(x) ==> berry_packages(v)[key].version
            == x.written(),
        berry_packages(v)[key].dependencies.contains_key(name) <==> holds_entry(
            package,
            "dependencies"@,
            name,
        ) || holds_entry(package, "optionalDependencies"@, name) || holds_entry(
            package,
            "peerDependencies"@,
            name,
        ),
{
    lemma_berry_packages(entries, i, key);
    let none = Map::<Text, Text>::empty();
    let one = with_written_under(none, package, "dependencies"@);
    let two = with_written_under(one, package, "optionalDependencies"@);
    lemma_with_written_under(none, package, "dependencies"@, name);
    lemma_with_written_under(one, package, "optionalDependencies"@, name);
    lemma_with_written_under(two, package, "peerDependencies"@, name);
}

proof fn lemma_berry_packages(entries: Seq<(Yaml, Yaml)>, i: int, key: Text)
    requires
        0 <= i < entries.len(),
        entries[i].0.as_text() == Some(key),
        entries[i].1.entries() is Some,
        forall|j: int|
            0 <= j < entries.len() && j != i ==> (#[trigger] entries[j]).0.as_text() != Some(key),
        key != "__metadata"@,
        contains_text(key, "@"@),
        berry_name(key).len() > 0,
    ensures
        berry_packages_in(entries).contains_pair(
            key,
            crate::lockfile::yarn::berry_package(entries[i].1.entries()->0),
        ),
    decreases entries.len(),
{
    let init = entries.drop_last();
    let n = entries.len() - 1;
    if i < n {
        assert(init[i] == entries[i]);
        assert forall|j: int| 0 <= j < init.len() && j != i implies (
        #[trigger] init[j]).0.as_text() != Some(key) by {
            assert(entries[j].0.as_text() != Some(key));
        }
        lemma_berry_packages(init, i, key);
        assert(entries[n].0.as_text() != Some(key));
    }
}

proof fn lemma_with_written_under(
    m: Map<Text, Text>,
    package: Seq<(Yaml, Yaml)>,
    section: Text,
    name: Text,
)
    ensures
        with_written_under(m, package, section).contains_key(name) <==> m.contains_key(name)
            || holds_entry(package, section, name),
{
    if let Some(x) = entry_of(package, section) {
        if let Some(entries) = x.entries() {
            lemma_with_written(m, entries, name);
        }
    }
}

proof fn lemma_with_written(m: Map<Text, Text>, entries: Seq<(Yaml, Yaml)>, name: Text)
    ensures
        with_written(m, entries).contains_key(name) <==> m.contains_key(name) || exists|i: int|
            0 <= i < entries.len() && (#[trigger] entries[i]).0.as_text() == Some(name),
    decreases entries.len(),
{
    if entries.len() > 0 {
        let init = entries.drop_last();
        let n = entries.len() - 1;
        lemma_with_written(m, init, name);
        assert(entries[n] == entries.last());
        if with_written(m, init).contains_key(name) && !m.contains_key(name) {
            let i = choose|i: int|
                0 <= i < init.len() && (#[trigger] init[i]).0.as_text() == Some(name);
            assert(entries[i] == init[i]);
        }
        if exists|i: int|
            0 <= i < entries.len() && (#[trigger] entries[i]).0.as_text() == Some(name) {
            let i = choose|i: int|
                0 <= i < entries.len() && (#[trigger] entries[i]).0.as_text() == Some(name);
            if i < n {
                assert(init[i] == entries[i]);
            }
        }
    }
}

/// The workspace asks for what any of its manifests asks for; a manifest that cannot be read asks for
/// nothing.
pub proof fn lemma_yarn_direct(manifests: Seq<Text>, name: Text)
    ensures
        manifests_names(manifests).contains(name) <==> exists|i: int|
            0 <= i < manifests.len() && (json_document(#[trigger] manifests[i]) matches Ok(v) && (
            lists(v, "dependencies"@, name) || lists(v, "devDependencies"@, name) || lists(
                v,
                "optionalDependencies"@,
                name,
            ))),
    decreases manifests.len(),
{
    if manifests.len() > 0 {
        let init = manifests.drop_last();
        let n = manifests.len() - 1;
        lemma_yarn_direct(init, name);
        assert(manifests[n] == manifests.last());
        if let Ok(v) = json_document(manifests.last()) {
            lemma_requested(v, name);
        }
        if manifests_names(init).contains(name) {
            let i = choose|i: int|
                0 <= i < init.len() && (json_document(#[trigger] init[i]) matches Ok(v) && (lists(
                    v,
                    "dependencies"@,
                    name,
                ) || lists(v, "devDependencies"@, name) || lists(
                    v,
                    "optionalDependencies"@,
                    name,
                )));
            assert(manifests[i] == init[i]);
        }
        if exists|i: int|
            0 <= i < manifests.len() && (json_document(#[trigger] manifests[i]) matches Ok(v) && (
            lists(v, "dependencies"@, name) || lists(v, "devDependencies"@, name) || lists(
                v,
                "optionalDependencies"@,
                name,
            ))) {
            let i = choose|i: int|
                0 <= i < manifests.len() && (json_document(#[trigger] manifests[i]) matches Ok(v)
                    && (lists(v, "dependencies"@, name) || lists(v, "devDependencies"@, name)
                    || lists(v, "optionalDependencies"@, name)));
            if i < n {
                assert(init[i] == manifests[i]);
            }
        }
    }
}

} // verus!
