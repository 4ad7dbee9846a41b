//! Lockfiles of npm.

use crate::collections::{StringMap, StringSet};
use crate::error::{DominoError, ErrorView};
use crate::json;
use crate::json::{json_document, Json};
use crate::lockfile::data;
use crate::lockfile::data::{
    member_names, requested_names, text_or_empty, texts, with_object, LockfileData, LockfileView,
    PackageInfo, PackageView, package_views,
};
use crate::lockfile::keys;
use crate::lockfile::keys::package_name;
use crate::text;
use crate::text::Text;
use vstd::prelude::*;

verus! {

/// How deep nested packages of an old lockfile are followed.
pub const NPM_V1_MAX_DEPTH: usize = 64;

/// The version that a package of a lockfile has; empty where none is given.
pub open spec fn version_of(v: Json) -> Text {
    match v.member("version"@) {
        Some(x) => text_or_empty(x),
        None => Seq::empty(),
    }
}

/// The packages that a package asks for, with their version ranges.
pub open spec fn dependencies_of(v: Json) -> Map<Text, Text> {
    with_object(
        with_object(
            with_object(Map::empty(), v, "dependencies"@),
            v,
            "devDependencies"@,
        ),
        v,
        "optionalDependencies"@,
    )
}

/// The packages among the members of `packages`: all whose key names one, under their full key.
pub open spec fn packages_in(members: Seq<(String, Json)>) -> Map<Text, PackageView>
    decreases members.len(),
{
    if members.len() == 0 {
        Map::empty()
    } else {
        let before = packages_in(members.drop_last());
        let key = members.last().0@;
        let v = members.last().1;
        if key.len() == 0 || package_name(key).len() == 0 {
            before
        } else {
            before.insert(
                key,
                PackageView { version: version_of(v), dependencies: dependencies_of(v) },
            )
        }
    }
}

/// `m` with a package and the packages nested in it added, under their bare names: what is added
/// later replaces what has the same name. Nesting beyond the maximum depth is left out.
pub open spec fn with_nested(
    m: Map<Text, PackageView>,
    members: Seq<(String, Json)>,
    depth: nat,
) -> Map<Text, PackageView>
    decreases NPM_V1_MAX_DEPTH + 1 - depth, members.len(),
{
    if depth > NPM_V1_MAX_DEPTH || members.len() == 0 {
        m
    } else {
        let before = with_nested(m, members.drop_last(), depth);
        let v = members.last().1;
        let own = before.insert(
            members.last().0@,
            PackageView {
                version: version_of(v),
                dependencies: with_object(Map::empty(), v, "requires"@),
            },
        );
        match v.member("dependencies"@) {
            Some(Json::Object(nested)) => with_nested(own, nested@, depth + 1),
            _ => own,
        }
    }
}

/// The format of a lockfile: 1 where it gives none.
pub open spec fn lockfile_version(v: Json) -> u64 {
    match v.member("lockfileVersion"@) {
        Some(x) => match x.as_number() {
            Some(n) => n,
            None => 1,
        },
        None => 1,
    }
}

/// What an npm lockfile says.
pub open spec fn npm_lockfile(v: Json) -> LockfileView {
    if lockfile_version(v) >= 2 {
        match v.member("packages"@) {
            Some(Json::Object(members)) => LockfileView {
                direct_dependencies: match json::member_of(members@, ""@) {
                    Some(root) => requested_names(root),
                    None => Set::empty(),
                },
                packages: packages_in(members@),
            },
            _ => LockfileView { direct_dependencies: Set::empty(), packages: Map::empty() },
        }
    } else {
        match v.member("dependencies"@) {
            Some(Json::Object(members)) => LockfileView {
                direct_dependencies: member_names(members@),
                packages: with_nested(Map::empty(), members@, 0),
            },
            _ => LockfileView { direct_dependencies: Set::empty(), packages: Map::empty() },
        }
    }
}

/// What the text of an npm lockfile says.
pub open spec fn npm_lockfile_text(content: Text) -> Result<LockfileView, ErrorView> {
    match json_document(content) {
        Ok(v) => Ok(npm_lockfile(v)),
        Err(e) => Err(ErrorView::Parse("npm lockfile: "@ + e)),
    }
}

/// The version that a package of a lockfile has.
fn read_version(v: &Json) -> (r: String)
    ensures
        r@ == version_of(*v),
{
    match v.get_text("version") {
        Some(s) => s.to_owned(),
        None => String::new(),
    }
}

/// The packages among the members of `packages`.
fn read_packages(members: &Vec<(String, Json)>) -> (r: StringMap<PackageInfo>)
    ensures
        package_views(r@) == packages_in(members@),
{
    let mut packages: StringMap<PackageInfo> = StringMap::new();
    let mut i: usize = 0;
    assert(package_views(packages@) =~= Map::<Text, PackageView>::empty());
    assert(members@.take(0) =~= Seq::<(String, Json)>::empty());
    while i < members.len()
        invariant
            i <= members.len(),
            package_views(packages@) == packages_in(members@.take(i as int)),
        decreases members.len() - i,
    {
        assert(members@.take(i + 1).drop_last() =~= members@.take(i as int));
        let key = members[i].0.as_str();
        let v = &members[i].1;
        if !key.is_empty() && !keys::package_name_from_key(key).is_empty() {
            let mut dependencies: StringMap<String> = StringMap::new();
            assert(texts(dependencies@) =~= Map::<Text, Text>::empty());
            data::add_object(v, "dependencies", &mut dependencies);
            data::add_object(v, "devDependencies", &mut dependencies);
            data::add_object(v, "optionalDependencies", &mut dependencies);
            let info = PackageInfo { version: read_version(v), dependencies };
            let ghost before = packages@;
            packages.insert(key.to_owned(), info);
            proof {
                data::lemma_packages_insert(before, key@, info);
            }
        }
        i += 1;
    }
    assert(members@.take(i as int) =~= members@);
    packages
}

/// Adds packages and the packages nested in them to a map.
fn parse_npm_v1_deps(
    members: &Vec<(String, Json)>,
    packages: &mut StringMap<PackageInfo>,
    depth: usize,
)
    requires
        depth <= NPM_V1_MAX_DEPTH + 1,
    ensures
        package_views(final(packages)@) == with_nested(
            package_views(old(packages)@),
            members@,
            depth as nat,
        ),
    decreases NPM_V1_MAX_DEPTH + 1 - depth,
{
    if depth > NPM_V1_MAX_DEPTH {
        return;
    }
    let ghost start = package_views(packages@);
    let mut i: usize = 0;
    assert(members@.take(0) =~= Seq::<(String, Json)>::empty());
    while i < members.len()
        invariant
            i <= members.len(),
            depth <= NPM_V1_MAX_DEPTH,
            package_views(packages@) == with_nested(start, members@.take(i as int), depth as nat),
        decreases members.len() - i,
    {
        assert(members@.take(i + 1).drop_last() =~= members@.take(i as int));
        let v = &members[i].1;
        let mut dependencies: StringMap<String> = StringMap::new();
        assert(texts(dependencies@) =~= Map::<Text, Text>::empty());
        data::add_object(v, "requires", &mut dependencies);
        let info = PackageInfo { version: read_version(v), dependencies };
        let ghost before = packages@;
        packages.insert(members[i].0.clone(), info);
        proof {
            data::lemma_packages_insert(before, members@[i as int].0@, info);
        }
        if let Some(nested) = v.get_object("dependencies") {
            parse_npm_v1_deps(nested, packages, depth + 1);
        }
        i += 1;
    }
    assert(members@.take(i as int) =~= members@);
}

/// What an npm lockfile says.
pub fn npm_lockfile_data(parsed: &Json) -> (r: LockfileData)
    ensures
        r.deep_view() == npm_lockfile(*parsed),
{
    let lockfile_version: u64 = match parsed.get("lockfileVersion") {
        Some(Json::Number(Some(n))) => *n,
        _ => 1,
    };
    let mut data = LockfileData::empty();
    if lockfile_version >= 2 {
        if let Some(members) = parsed.get_object("packages") {
            let mut direct = StringSet::new();
            if let Some(root) = json::get_member(members, "") {
                data::add_requested(root, &mut direct);
                assert(direct@ =~= requested_names(*root));
            }
            data = LockfileData { direct_dependencies: direct, packages: read_packages(members) };
        }
    } else if let Some(members) = parsed.get_object("dependencies") {
        let mut direct = StringSet::new();
        data::add_names(members, &mut direct);
        assert(direct@ =~= member_names(members@));
        let mut packages: StringMap<PackageInfo> = StringMap::new();
        assert(package_views(packages@) =~= Map::<Text, PackageView>::empty());
        parse_npm_v1_deps(members, &mut packages, 0);
        data = LockfileData { direct_dependencies: direct, packages };
    }
    data
}

/// What the text of an npm lockfile says.
pub fn parse_npm_lockfile(content: &str) -> (r: Result<LockfileData, DominoError>)
    ensures
        match r {
            Ok(d) => npm_lockfile_text(content@) == Ok::<LockfileView, ErrorView>(d.deep_view()),
            Err(e) => npm_lockfile_text(content@) == Err::<LockfileView, ErrorView>(e.deep_view()),
        },
{
    match json::parse_json(content) {
        Ok(parsed) => Ok(npm_lockfile_data(&parsed)),
        Err(e) => Err(DominoError::Parse(text::cat("npm lockfile: ", e.as_str()))),
    }
}

} // verus!
