//! Lockfiles of bun.

use crate::collections::{StringMap, StringSet};
use crate::error::{DominoError, ErrorView};
use crate::json;
use crate::json::{commented_json_document, Json};
use crate::lockfile::data;
use crate::lockfile::data::{
    package_views, requested_names, text_or_empty, texts, LockfileData, LockfileView, PackageInfo,
    PackageView,
};
use crate::text;
use crate::text::Text;
use vstd::prelude::*;

verus! {

/// The packages that any of the members of the workspace asks for.
pub open spec fn workspaces_names(members: Seq<(String, Json)>) -> Set<Text>
    decreases members.len(),
{
    if members.len() == 0 {
        Set::empty()
    } else {
        workspaces_names(members.drop_last()).union(requested_names(members.last().1))
    }
}

/// `m` with the members added whose value is a text.
pub open spec fn with_text_members(m: Map<Text, Text>, members: Seq<(String, Json)>) -> Map<
    Text,
    Text,
>
    decreases members.len(),
{
    if members.len() == 0 {
        m
    } else {
        let before = with_text_members(m, members.drop_last());
        match members.last().1.as_text() {
            Some(version) => before.insert(members.last().0@, version),
            None => before,
        }
    }
}

/// The text members of the objects among some values.
pub open spec fn text_members_in(items: Seq<Json>) -> Map<Text, Text>
    decreases items.len(),
{
    if items.len() == 0 {
        Map::empty()
    } else {
        match items.last() {
            Json::Object(members) => with_text_members(
                text_members_in(items.drop_last()),
                members@,
            ),
            _ => text_members_in(items.drop_last()),
        }
    }
}

/// The package that an array of a lockfile describes: its version first, its dependencies in the
/// objects behind it.
pub open spec fn package_in(items: Seq<Json>) -> PackageView {
    PackageView {
        version: if items.len() > 0 {
            text_or_empty(items[0])
        } else {
            Seq::empty()
        },
        dependencies: if items.len() > 0 {
            text_members_in(items.skip(1))
        } else {
            Map::empty()
        },
    }
}

/// The packages among the members of `packages`.
pub open spec fn packages_in(members: Seq<(String, Json)>) -> Map<Text, PackageView>
    decreases members.len(),
{
    if members.len() == 0 {
        Map::empty()
    } else {
        let before = packages_in(members.drop_last());
        match members.last().1 {
            Json::Array(items) => before.insert(members.last().0@, package_in(items@)),
            _ => before,
        }
    }
}

/// What a bun lockfile says.
pub open spec fn bun_lockfile(v: Json) -> LockfileView {
    LockfileView {
        direct_dependencies: match v.member("workspaces"@) {
            Some(Json::Object(members)) => workspaces_names(members@),
            _ => Set::empty(),
        },
        packages: match v.member("packages"@) {
            Some(Json::Object(members)) => packages_in(members@),
            _ => Map::empty(),
        },
    }
}

/// What the text of a bun lockfile says.
pub open spec fn bun_lockfile_text(content: Text) -> Result<LockfileView, ErrorView> {
    match commented_json_document(content) {
        Ok(v) => Ok(bun_lockfile(v)),
        Err(e) => Err(ErrorView::Parse("bun lockfile: "@ + e)),
    }
}

/// Adds the members whose value is a text to a map.
fn add_text_members(members: &Vec<(String, Json)>, out: &mut StringMap<String>)
    ensures
        texts(final(out)@) == with_text_members(texts(old(out)@), members@),
{
    let ghost before = texts(out@);
    let mut i: usize = 0;
    assert(members@.take(0) =~= Seq::<(String, Json)>::empty());
    while i < members.len()
        invariant
            i <= members.len(),
            texts(out@) == with_text_members(before, members@.take(i as int)),
        decreases members.len() - i,
    {
        assert(members@.take(i + 1).drop_last() =~= members@.take(i as int));
        let ghost mid = out@;
        if let Some(version) = members[i].1.text() {
            let value = version.to_owned();
            out.insert(members[i].0.clone(), value);
            proof {
                data::lemma_texts_insert(mid, members@[i as int].0@, value);
            }
        }
        i += 1;
    }
    assert(members@.take(i as int) =~= members@);
}

/// The package that an array of a lockfile describes.
fn read_package(items: &Vec<Json>) -> (r: PackageInfo)
    ensures
        r.deep_view() == package_in(items@),
{
    let mut dependencies: StringMap<String> = StringMap::new();
    assert(texts(dependencies@) =~= Map::<Text, Text>::empty());
    if items.len() == 0 {
        return PackageInfo { version: String::new(), dependencies };
    }
    let version = match items[0].text() {
        Some(s) => s.to_owned(),
        None => String::new(),
    };
    let ghost tail = items@.skip(1);
    let mut i: usize = 1;
    assert(tail.take(0) =~= Seq::<Json>::empty());
    while i < items.len()
        invariant
            1 <= i <= items.len(),
            tail == items@.skip(1),
            texts(dependencies@) == text_members_in(tail.take(i - 1)),
        decreases items.len() - i,
    {
        assert(tail.take(i as int).drop_last() =~= tail.take(i - 1));
        assert(tail.take(i as int).last() == items@[i as int]);
        match &items[i] {
            Json::Object(members) => {
                add_text_members(members, &mut dependencies);
            },
            _ => {},
        }
        i += 1;
    }
    assert(tail.take(i - 1) =~= tail);
    PackageInfo { version, dependencies }
}

/// The packages among the members of `packages`.
fn read_packages(members: &Vec<(String, Json)>) -> (r: StringMap<PackageInfo>)
    ensures
        package_views(r@) == packages_in(members@),
{
    let mut packages: StringMap<PackageInfo> = StringMap::new();
    let mut i: usize = 0;
    assert(package_views(packages@) =~= Map::<Text, PackageView>::empty());
    assert(members@.take(0) =~= Seq::<(String, Json)>::empty());
    while i < members.len()
        invariant
            i <= members.len(),
            package_views(packages@) == packages_in(members@.take(i as int)),
        decreases members.len() - i,
    {
        assert(members@.take(i + 1).drop_last() =~= members@.take(i as int));
        match &members[i].1 {
            Json::Array(items) => {
                let info = read_package(items);
                let ghost before = packages@;
                packages.insert(members[i].0.clone(), info);
                proof {
                    data::lemma_packages_insert(before, members@[i as int].0@, info);
                }
            },
            _ => {},
        }
        i += 1;
    }
    assert(members@.take(i as int) =~= members@);
    packages
}

/// The packages that any of the members of the workspace asks for.
fn read_workspaces(members: &Vec<(String, Json)>) -> (r: StringSet)
    ensures
        r@ == workspaces_names(members@),
{
    let mut direct = StringSet::new();
    let mut i: usize = 0;
    assert(members@.take(0) =~= Seq::<(String, Json)>::empty());
    while i < members.len()
        invariant
            i <= members.len(),
            direct@ == workspaces_names(members@.take(i as int)),
        decreases members.len() - i,
    {
        assert(members@.take(i + 1).drop_last() =~= members@.take(i as int));
        data::add_requested(&members[i].1, &mut direct);
        i += 1;
    }
    assert(members@.take(i as int) =~= members@);
    direct
}

/// What a bun lockfile says.
pub fn bun_lockfile_data(parsed: &Json) -> (r: LockfileData)
    ensures
        r.deep_view() == bun_lockfile(*parsed),
{
    let empty = LockfileData::empty();
    let direct_dependencies = match parsed.get_object("workspaces") {
        Some(members) => read_workspaces(members),
        None => empty.direct_dependencies,
    };
    let packages = match parsed.get_object("packages") {
        Some(members) => read_packages(members),
        None => empty.packages,
    };
    LockfileData { direct_dependencies, packages }
}

/// What the text of a bun lockfile says.
pub fn parse_bun_lockfile(content: &str) -> (r: Result<LockfileData, DominoError>)
    ensures
        match r {
            Ok(d) => bun_lockfile_text(content@) == Ok::<LockfileView, ErrorView>(d.deep_view()),
            Err(e) => bun_lockfile_text(content@) == Err::<LockfileView, ErrorView>(e.deep_view()),
        },
{
    match json::parse_commented_json(content) {
        Ok(parsed) => Ok(bun_lockfile_data(&parsed)),
        Err(e) => Err(DominoError::Parse(text::cat("bun lockfile: ", e.as_str()))),
    }
}

} // verus!
