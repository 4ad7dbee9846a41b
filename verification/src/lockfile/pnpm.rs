//! Lockfiles of pnpm.

use crate::collections::{StringMap, StringSet};
use crate::error::{DominoError, ErrorView};
use crate::lockfile::data;
use crate::lockfile::data::{
    package_views, texts, LockfileData, LockfileView, PackageInfo, PackageView,
};
use crate::lockfile::keys;
use crate::lockfile::keys::pnpm_key;
use crate::text;
use crate::text::Text;
use crate::yaml;
use crate::yaml::{yaml_document, Yaml};
use vstd::prelude::*;

verus! {

/// The texts among the keys of some entries.
pub open spec fn text_keys(entries: Seq<(Yaml, Yaml)>) -> Set<Text> {
    Set::new(
        |k: Text|
            exists|i: int| 0 <= i < entries.len() && #[trigger] entries[i].0.as_text() == Some(k),
    )
}

/// The texts among the keys of the mapping that `v` holds under `key`.
pub open spec fn text_keys_under(v: Yaml, key: Text) -> Set<Text> {
    match v.entry(key) {
        Some(m) => match m.entries() {
            Some(entries) => text_keys(entries),
            None => Set::empty(),
        },
        None => Set::empty(),
    }
}

/// The packages that one member of the workspace asks for.
pub open spec fn importer_names(v: Yaml) -> Set<Text> {
    text_keys_under(v, "dependencies"@).union(text_keys_under(v, "devDependencies"@)).union(
        text_keys_under(v, "optionalDependencies"@),
    )
}

/// The packages that any of the members asks for.
pub open spec fn importers_names(entries: Seq<(Yaml, Yaml)>) -> Set<Text>
    decreases entries.len(),
{
    if entries.len() == 0 {
        Set::empty()
    } else {
        importers_names(entries.drop_last()).union(importer_names(entries.last().1))
    }
}

/// `m` with the entries added whose key and value are texts.
pub open spec fn with_entries(m: Map<Text, Text>, entries: Seq<(Yaml, Yaml)>) -> Map<Text, Text>
    decreases entries.len(),
{
    if entries.len() == 0 {
        m
    } else {
        let before = with_entries(m, entries.drop_last());
        match (entries.last().0.as_text(), entries.last().1.as_text()) {
            (Some(name), Some(version)) => before.insert(name, version),
            _ => before,
        }
    }
}

/// `m` with the entries of the mapping under `key` added.
pub open spec fn with_mapping(m: Map<Text, Text>, v: Yaml, key: Text) -> Map<Text, Text> {
    match v.entry(key) {
        Some(x) => match x.entries() {
            Some(entries) => with_entries(m, entries),
            None => m,
        },
        None => m,
    }
}

/// The packages among the entries of `packages`, under their full key.
pub open spec fn packages_in(entries: Seq<(Yaml, Yaml)>) -> Map<Text, PackageView>
    decreases entries.len(),
{
    if entries.len() == 0 {
        Map::empty()
    } else {
        let before = packages_in(entries.drop_last());
        let v = entries.last().1;
        match entries.last().0.as_text() {
            Some(key) => if pnpm_key(key).0.len() == 0 {
                before
            } else {
                before.insert(
                    key,
                    PackageView {
                        version: pnpm_key(key).1,
                        dependencies: with_mapping(
                            with_mapping(Map::empty(), v, "dependencies"@),
                            v,
                            "optionalDependencies"@,
                        ),
                    },
                )
            },
            None => before,
        }
    }
}

/// The entries of the mapping that `v` holds under `key`; none where there is no such mapping.
pub open spec fn entries_under(v: Yaml, key: Text) -> Seq<(Yaml, Yaml)> {
    match v.entry(key) {
        Some(x) => match x.entries() {
            Some(entries) => entries,
            None => Seq::empty(),
        },
        None => Seq::empty(),
    }
}

/// What a pnpm lockfile says.
pub open spec fn pnpm_lockfile(v: Yaml) -> LockfileView {
    LockfileView {
        direct_dependencies: importers_names(entries_under(v, "importers"@)),
        packages: packages_in(entries_under(v, "packages"@)),
    }
}

/// What the text of a pnpm lockfile says.
pub open spec fn pnpm_lockfile_text(content: Text) -> Result<LockfileView, ErrorView> {
    match yaml_document(content) {
        Ok(v) => Ok(pnpm_lockfile(v)),
        Err(e) => Err(ErrorView::Parse("pnpm lockfile: "@ + e)),
    }
}

/// Adds the texts among the keys of the mapping under `key` to a set.
fn add_text_keys_under(v: &Yaml, key: &str, out: &mut StringSet)
    ensures
        final(out)@ == old(out)@.union(text_keys_under(*v, key@)),
{
    let ghost before = out@;
    let entries = match v.get(key) {
        Some(m) => match m.mapping() {
            Some(entries) => entries,
            None => {
                assert(out@.union(Set::empty()) =~= out@);
                return ;
            },
        },
        None => {
            assert(out@.union(Set::empty()) =~= out@);
            return ;
        },
    };
    let mut i: usize = 0;
    while i < entries.len()
        invariant
            i <= entries.len(),
            forall|k: Text| #[trigger]
                out@.contains(k) <==> before.contains(k) || exists|j: int|
                    0 <= j < i && #[trigger] entries@[j].0.as_text() == Some(k),
        decreases entries.len() - i,
    {
        let ghost mid = out@;
        let ghost here = entries@[i as int].0.as_text();
        if let Some(name) = entries[i].0.text() {
            out.insert(name.to_owned());
        }
        proof {
            assert forall|k: Text| #[trigger] out@.contains(k) implies before.contains(k)
                || exists|j: int|
                0 <= j < i + 1 && #[trigger] entries@[j].0.as_text() == Some(k) by {
                if here != Some(k) {
                    assert(mid.contains(k));
                }
            }
            assert forall|k: Text|
                before.contains(k) || exists|j: int|
                    0 <= j < i + 1 && #[trigger] entries@[j].0.as_text() == Some(
                        k,
                    ) implies #[trigger] out@.contains(k) by {
                if here != Some(k) {
                    assert(mid.contains(k));
                }
            }
        }
        i += 1;
    }
    assert(out@ =~= before.union(text_keys(entries@)));
}

/// Adds the entries of the mapping under `key` to a map.
fn add_mapping(v: &Yaml, key: &str, out: &mut StringMap<String>)
    ensures
        texts(final(out)@) == with_mapping(texts(old(out)@), *v, key@),
{
    let ghost before = texts(out@);
    let entries = match v.get(key) {
        Some(m) => match m.mapping() {
            Some(entries) => entries,
            None => {
                return ;
            },
        },
        None => {
            return ;
        },
    };
    let mut i: usize = 0;
    assert(entries@.take(0) =~= Seq::<(Yaml, Yaml)>::empty());
    while i < entries.len()
        invariant
            i <= entries.len(),
            texts(out@) == with_entries(before, entries@.take(i as int)),
        decreases entries.len() - i,
    {
        assert(entries@.take(i + 1).drop_last() =~= entries@.take(i as int));
        let ghost mid = out@;
        match (entries[i].0.text(), entries[i].1.text()) {
            (Some(name), Some(version)) => {
                let value = version.to_owned();
                out.insert(name.to_owned(), value);
                proof {
                    data::lemma_texts_insert(mid, name@, value);
                }
            },
            _ => {},
        }
        i += 1;
    }
    assert(entries@.take(i as int) =~= entries@);
}

/// The packages that any of the members of the workspace asks for.
fn read_importers(entries: &Vec<(Yaml, Yaml)>) -> (r: StringSet)
    ensures
        r@ == importers_names(entries@),
{
    let mut direct = StringSet::new();
    let mut i: usize = 0;
    assert(entries@.take(0) =~= Seq::<(Yaml, Yaml)>::empty());
    while i < entries.len()
        invariant
            i <= entries.len(),
            direct@ == importers_names(entries@.take(i as int)),
        decreases entries.len() - i,
    {
        assert(entries@.take(i + 1).drop_last() =~= entries@.take(i as int));
        let ghost before = direct@;
        let v = &entries[i].1;
        add_text_keys_under(v, "dependencies", &mut direct);
        add_text_keys_under(v, "devDependencies", &mut direct);
        add_text_keys_under(v, "optionalDependencies", &mut direct);
        assert(direct@ =~= before.union(importer_names(*v)));
        i += 1;
    }
    assert(entries@.take(i as int) =~= entries@);
    direct
}

/// The packages among the entries of `packages`.
fn read_packages(entries: &Vec<(Yaml, Yaml)>) -> (r: StringMap<PackageInfo>)
    ensures
        package_views(r@) == packages_in(entries@),
{
    let mut packages: StringMap<PackageInfo> = StringMap::new();
    let mut i: usize = 0;
    assert(package_views(packages@) =~= Map::<Text, PackageView>::empty());
    assert(entries@.take(0) =~= Seq::<(Yaml, Yaml)>::empty());
    while i < entries.len()
        invariant
            i <= entries.len(),
            package_views(packages@) == packages_in(entries@.take(i as int)),
        decreases entries.len() - i,
    {
        assert(entries@.take(i + 1).drop_last() =~= entries@.take(i as int));
        if let Some(key) = entries[i].0.text() {
            let (name, version) = keys::parse_pnpm_package_key(key);
            if !name.as_str().is_empty() {
                let v = &entries[i].1;
                let mut dependencies: StringMap<String> = StringMap::new();
                assert(texts(dependencies@) =~= Map::<Text, Text>::empty());
                add_mapping(v, "dependencies", &mut dependencies);
                add_mapping(v, "optionalDependencies", &mut dependencies);
                let info = PackageInfo { version, dependencies };
                let ghost before = packages@;
                packages.insert(key.to_owned(), info);
                proof {
                    data::lemma_packages_insert(before, key@, info);
                }
            }
        }
        i += 1;
    }
    assert(entries@.take(i as int) =~= entries@);
    packages
}

/// The entries of the mapping that `v` holds under `key`.
fn get_entries<'a>(v: &'a Yaml, key: &str) -> (r: Option<&'a Vec<(Yaml, Yaml)>>)
    ensures
        entries_under(*v, key@) == match r {
            Some(entries) => entries@,
            None => Seq::empty(),
        },
{
    match v.get(key) {
        Some(m) => m.mapping(),
        None => None,
    }
}

/// What a pnpm lockfile says.
pub fn pnpm_lockfile_data(parsed: &Yaml) -> (r: LockfileData)
    ensures
        r.deep_view() == pnpm_lockfile(*parsed),
{
    let empty = LockfileData::empty();
    let direct_dependencies = match get_entries(parsed, "importers") {
        Some(entries) => read_importers(entries),
        None => empty.direct_dependencies,
    };
    let packages = match get_entries(parsed, "packages") {
        Some(entries) => read_packages(entries),
        None => empty.packages,
    };
    LockfileData { direct_dependencies, packages }
}

/// What the text of a pnpm lockfile says.
pub fn parse_pnpm_lockfile(content: &str) -> (r: Result<LockfileData, DominoError>)
    ensures
        match r {
            Ok(d) => pnpm_lockfile_text(content@) == Ok::<LockfileView, ErrorView>(d.deep_view()),
            Err(e) => pnpm_lockfile_text(content@) == Err::<LockfileView, ErrorView>(e.deep_view()),
        },
{
    match yaml::parse_yaml(content) {
        Ok(parsed) => Ok(pnpm_lockfile_data(&parsed)),
        Err(e) => Err(DominoError::Parse(text::cat("pnpm lockfile: ", e.as_str()))),
    }
}

} // verus!
