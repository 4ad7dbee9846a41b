//! A lockfile, whatever package manager wrote it.

use crate::collections::{StringMap, StringSet};
use crate::json::Json;
use crate::text::Text;
use vstd::prelude::*;

verus! {

/// A package that a lockfile lists: its version and what it depends on (name to version range).
pub struct PackageInfo {
    pub version: String,
    pub dependencies: StringMap<String>,
}

/// The view of a [`PackageInfo`].
pub struct PackageView {
    pub version: Text,
    pub dependencies: Map<Text, Text>,
}

impl DeepView for PackageInfo {
    type V = PackageView;

    open spec fn deep_view(&self) -> PackageView {
        PackageView { version: self.version@, dependencies: texts(self.dependencies@) }
    }
}

/// A lockfile: the packages that the workspace itself asks for, and all that it lists.
pub struct LockfileData {
    pub direct_dependencies: StringSet,
    pub packages: StringMap<PackageInfo>,
}

/// The view of a [`LockfileData`].
pub struct LockfileView {
    pub direct_dependencies: Set<Text>,
    pub packages: Map<Text, PackageView>,
}

impl DeepView for LockfileData {
    type V = LockfileView;

    open spec fn deep_view(&self) -> LockfileView {
        LockfileView {
            direct_dependencies: self.direct_dependencies@,
            packages: package_views(self.packages@),
        }
    }
}

/// A map of texts as seen by its views.
pub open spec fn texts(m: Map<Text, String>) -> Map<Text, Text> {
    m.map_values(|s: String| s@)
}

/// A map of packages as seen by their views.
pub open spec fn package_views(m: Map<Text, PackageInfo>) -> Map<Text, PackageView> {
    m.map_values(|p: PackageInfo| p.deep_view())
}

/// Inserting a text shows in the view.
pub proof fn lemma_texts_insert(m: Map<Text, String>, k: Text, v: String)
    ensures
        texts(m.insert(k, v)) == texts(m).insert(k, v@),
{
    assert(texts(m.insert(k, v)) =~= texts(m).insert(k, v@));
}

/// Inserting a package shows in the view.
pub proof fn lemma_packages_insert(m: Map<Text, PackageInfo>, k: Text, v: PackageInfo)
    ensures
        package_views(m.insert(k, v)) == package_views(m).insert(k, v.deep_view()),
{
    assert(package_views(m.insert(k, v)) =~= package_views(m).insert(k, v.deep_view()));
}

impl LockfileData {
    /// The lockfile that lists nothing: what a workspace without a lockfile starts from.
    pub fn empty() -> (r: Self)
        ensures
            r.deep_view() == (LockfileView {
                direct_dependencies: Set::empty(),
                packages: Map::empty(),
            }),
    {
        let r = LockfileData { direct_dependencies: StringSet::new(), packages: StringMap::new() };
        assert(r.deep_view().packages =~= Map::<Text, PackageView>::empty());
        r
    }
}

// ---------------------------------------------------------------------------
// Dependencies in JSON objects
// ---------------------------------------------------------------------------

/// The keys of an object's members.
pub open spec fn member_names(members: Seq<(String, Json)>) -> Set<Text> {
    Set::new(|k: Text| exists|i: int| 0 <= i < members.len() && #[trigger] members[i].0@ == k)
}

/// The keys of the object that `v` holds under `key`; none where there is no such object.
pub open spec fn names_under(v: Json, key: Text) -> Set<Text> {
    match v.member(key) {
        Some(Json::Object(members)) => member_names(members@),
        _ => Set::empty(),
    }
}

/// The packages that a manifest asks for: its dependencies, development dependencies and optional
/// dependencies.
pub open spec fn requested_names(v: Json) -> Set<Text> {
    names_under(v, "dependencies"@).union(names_under(v, "devDependencies"@)).union(
        names_under(v, "optionalDependencies"@),
    )
}

/// The text of a value; empty where it is none.
pub open spec fn text_or_empty(v: Json) -> Text {
    match v.as_text() {
        Some(s) => s,
        None => Seq::empty(),
    }
}

/// `m` with the members added, each as a text.
pub open spec fn with_members(m: Map<Text, Text>, members: Seq<(String, Json)>) -> Map<Text, Text>
    decreases members.len(),
{
    if members.len() == 0 {
        m
    } else {
        with_members(m, members.drop_last()).insert(
            members.last().0@,
            text_or_empty(members.last().1),
        )
    }
}

/// `m` with the members of the object under `key` added.
pub open spec fn with_object(m: Map<Text, Text>, v: Json, key: Text) -> Map<Text, Text> {
    match v.member(key) {
        Some(Json::Object(members)) => with_members(m, members@),
        _ => m,
    }
}

/// Adds the keys of some members to a set.
pub fn add_names(members: &Vec<(String, Json)>, out: &mut StringSet)
    ensures
        final(out)@ == old(out)@.union(member_names(members@)),
{
    let ghost before = out@;
    let mut i: usize = 0;
    while i < members.len()
        invariant
            i <= members.len(),
            forall|k: Text| #[trigger]
                out@.contains(k) <==> before.contains(k) || exists|j: int|
                    0 <= j < i && #[trigger] members@[j].0@ == k,
        decreases members.len() - i,
    {
        let ghost mid = out@;
        out.insert(members[i].0.clone());
        proof {
            let key = members@[i as int].0@;
            assert forall|k: Text| #[trigger] out@.contains(k) implies before.contains(k)
                || exists|j: int| 0 <= j < i + 1 && #[trigger] members@[j].0@ == k by {
                if k != key {
                    assert(mid.contains(k));
                }
            }
            assert forall|k: Text|
                before.contains(k) || exists|j: int|
                    0 <= j < i + 1 && #[trigger] members@[j].0@ == k implies #[trigger] out@.contains(
                k,
            ) by {
                if k != key {
                    assert(mid.contains(k));
                }
            }
        }
        i += 1;
    }
    assert(out@ =~= before.union(member_names(members@)));
}

/// Adds the keys of the object under `key` to a set.
pub fn add_names_under(v: &Json, key: &str, out: &mut StringSet)
    ensures
        final(out)@ == old(out)@.union(names_under(*v, key@)),
{
    match v.get(key) {
        Some(Json::Object(members)) => {
            add_names(members, out);
        },
        _ => {
            assert(out@.union(Set::empty()) =~= out@);
        },
    }
}

/// Adds the packages that a manifest asks for to a set.
pub fn add_requested(v: &Json, out: &mut StringSet)
    ensures
        final(out)@ == old(out)@.union(requested_names(*v)),
{
    let ghost before = out@;
    add_names_under(v, "dependencies", out);
    add_names_under(v, "devDependencies", out);
    add_names_under(v, "optionalDependencies", out);
    assert(out@ =~= before.union(requested_names(*v)));
}

/// Adds some members to a map, each as a text.
pub fn add_members(members: &Vec<(String, Json)>, out: &mut StringMap<String>)
    ensures
        texts(final(out)@) == with_members(texts(old(out)@), members@),
{
    let ghost before = texts(out@);
    let mut i: usize = 0;
    assert(members@.take(0) =~= Seq::<(String, Json)>::empty());
    while i < members.len()
        invariant
            i <= members.len(),
            texts(out@) == with_members(before, members@.take(i as int)),
        decreases members.len() - i,
    {
        assert(members@.take(i + 1).drop_last() =~= members@.take(i as int));
        let ghost mid = out@;
        let version = match members[i].1.text() {
            Some(s) => s.to_owned(),
            None => String::new(),
        };
        out.insert(members[i].0.clone(), version);
        proof {
            lemma_texts_insert(mid, members@[i as int].0@, version);
        }
        i += 1;
    }
    assert(members@.take(i as int) =~= members@);
}

/// Adds the members of the object under `key` to a map.
pub fn add_object(v: &Json, key: &str, out: &mut StringMap<String>)
    ensures
        texts(final(out)@) == with_object(texts(old(out)@), *v, key@),
{
    match v.get(key) {
        Some(Json::Object(members)) => {
            add_members(members, out);
        },
        _ => {},
    }
}

} // verus!
