//! Lockfiles of yarn: the text format of version 1 and the YAML of version 2 and later.

use crate::captures;
use crate::captures::{first_groups, group_text};
use crate::collections::{StringMap, StringSet};
use crate::error::{DominoError, ErrorView};
use crate::json;
use crate::json::json_document;
use crate::lockfile::data;
use crate::lockfile::data::{
    package_views, requested_names, texts, LockfileData, LockfileView, PackageInfo, PackageView,
};
use crate::lockfile::keys;
use crate::lockfile::keys::{berry_name, dependency_line};
use crate::text;
use crate::text::{
    contains_text, drop_prefixes, has_prefix, lines_of, trimmed, trimmed_of, Text,
};
use crate::yaml;
use crate::yaml::{entry_of, yaml_document, Yaml};
use vstd::prelude::*;

verus! {

// ---------------------------------------------------------------------------
// Direct dependencies
// ---------------------------------------------------------------------------

/// The packages that the manifests ask for. A text that is no JSON document asks for none.
pub open spec fn manifests_names(manifests: Seq<Text>) -> Set<Text>
    decreases manifests.len(),
{
    if manifests.len() == 0 {
        Set::empty()
    } else {
        let before = manifests_names(manifests.drop_last());
        match json_document(manifests.last()) {
            Ok(v) => before.union(requested_names(v)),
            Err(_) => before,
        }
    }
}

/// Adds the packages that a manifest asks for to a set.
pub fn extract_direct_deps_into(manifest: &str, out: &mut StringSet)
    ensures
        final(out)@ == match json_document(manifest@) {
            Ok(v) => old(out)@.union(requested_names(v)),
            Err(_) => old(out)@,
        },
{
    match json::parse_json(manifest) {
        Ok(parsed) => {
            data::add_requested(&parsed, out);
        },
        Err(_) => {},
    }
}

/// The packages that the manifests ask for.
fn read_manifests(manifests: &Vec<String>) -> (r: StringSet)
    ensures
        r@ == manifests_names(manifests.deep_view()),
{
    let mut direct = StringSet::new();
    let ghost all = manifests.deep_view();
    let mut i: usize = 0;
    assert(all.take(0) =~= Seq::<Text>::empty());
    while i < manifests.len()
        invariant
            i <= manifests.len(),
            all == manifests.deep_view(),
            direct@ == manifests_names(all.take(i as int)),
        decreases manifests.len() - i,
    {
        assert(all.take(i + 1).drop_last() =~= all.take(i as int));
        assert(all.take(i + 1).last() == manifests@[i as int]@);
        extract_direct_deps_into(manifests[i].as_str(), &mut direct);
        i += 1;
    }
    assert(all.take(i as int) =~= all);
    direct
}

// ---------------------------------------------------------------------------
// Version 2 and later
// ---------------------------------------------------------------------------

/// A version range without the `npm:` protocol.
pub open spec fn without_npm(version: Text) -> Text {
    if has_prefix(version, "npm:"@) {
        version.skip("npm:"@.len() as int)
    } else {
        version
    }
}

/// `m` with the entries added whose key is a text, each with its value as written.
pub open spec fn with_written(m: Map<Text, Text>, entries: Seq<(Yaml, Yaml)>) -> Map<Text, Text>
    decreases entries.len(),
{
    if entries.len() == 0 {
        m
    } else {
        let before = with_written(m, entries.drop_last());
        match entries.last().0.as_text() {
            Some(name) => before.insert(name, without_npm(entries.last().1.written())),
            None => before,
        }
    }
}

/// `m` with the entries of the mapping under `key` added.
pub open spec fn with_written_under(
    m: Map<Text, Text>,
    package: Seq<(Yaml, Yaml)>,
    key: Text,
) -> Map<Text, Text> {
    match entry_of(package, key) {
        Some(x) => match x.entries() {
            Some(entries) => with_written(m, entries),
            None => m,
        },
        None => m,
    }
}

/// The package that some entries describe.
pub open spec fn berry_package(package: Seq<(Yaml, Yaml)>) -> PackageView {
    PackageView {
        version: match entry_of(package, "version"@) {
            Some(v) => v.written(),
            None => Seq::empty(),
        },
        dependencies: with_written_under(
            with_written_under(
                with_written_under(Map::empty(), package, "dependencies"@),
                package,
                "optionalDependencies"@,
            ),
            package,
            "peerDependencies"@,
        ),
    }
}

/// A key that names a package.
pub open spec fn is_berry_key(key: Text) -> bool {
    key != "__metadata"@ && contains_text(key, "@"@) && berry_name(key).len() > 0
}

/// The packages among the entries of a lockfile, under their full key.
pub open spec fn berry_packages_in(entries: Seq<(Yaml, Yaml)>) -> Map<Text, PackageView>
    decreases entries.len(),
{
    if entries.len() == 0 {
        Map::empty()
    } else {
        let before = berry_packages_in(entries.drop_last());
        match (entries.last().0.as_text(), entries.last().1.entries()) {
            (Some(key), Some(package)) => if is_berry_key(key) {
                before.insert(key, berry_package(package))
            } else {
                before
            },
            _ => before,
        }
    }
}

/// The packages of a lockfile.
pub open spec fn berry_packages(v: Yaml) -> Map<Text, PackageView> {
    match v.entries() {
        Some(entries) => berry_packages_in(entries),
        None => Map::empty(),
    }
}

/// Adds the entries of the mapping under `key` to a map, each with its value as written.
fn add_written(package: &Vec<(Yaml, Yaml)>, key: &str, out: &mut StringMap<String>)
    ensures
        texts(final(out)@) == with_written_under(texts(old(out)@), package@, key@),
{
    let ghost before = texts(out@);
    let entries = match yaml::get_entry(package, key) {
        Some(m) => match m.mapping() {
            Some(entries) => entries,
            None => {
                return ;
            },
        },
        None => {
            return ;
        },
    };
    let mut i: usize = 0;
    assert(entries@.take(0) =~= Seq::<(Yaml, Yaml)>::empty());
    while i < entries.len()
        invariant
            i <= entries.len(),
            texts(out@) == with_written(before, entries@.take(i as int)),
        decreases entries.len() - i,
    {
        assert(entries@.take(i + 1).drop_last() =~= entries@.take(i as int));
        let ghost mid = out@;
        if let Some(name) = entries[i].0.text() {
            let written = yaml::yaml_value_to_string(&entries[i].1);
            let value = match text::strip_prefix(written.as_str(), "npm:") {
                Some(s) => s.to_owned(),
                None => written.clone(),
            };
            out.insert(name.to_owned(), value);
            proof {
                data::lemma_texts_insert(mid, name@, value);
            }
        }
        i += 1;
    }
    assert(entries@.take(i as int) =~= entries@);
}

/// The package that some entries describe.
fn read_berry_package(package: &Vec<(Yaml, Yaml)>) -> (r: PackageInfo)
    ensures
        r.deep_view() == berry_package(package@),
{
    let version = match yaml::get_entry(package, "version") {
        Some(v) => yaml::yaml_value_to_string(v),
        None => String::new(),
    };
    let mut dependencies: StringMap<String> = StringMap::new();
    assert(texts(dependencies@) =~= Map::<Text, Text>::empty());
    add_written(package, "dependencies", &mut dependencies);
    add_written(package, "optionalDependencies", &mut dependencies);
    add_written(package, "peerDependencies", &mut dependencies);
    PackageInfo { version, dependencies }
}

/// The packages of a lockfile.
pub fn berry_package_map(parsed: &Yaml) -> (r: StringMap<PackageInfo>)
    ensures
        package_views(r@) == berry_packages(*parsed),
{
    let mut packages: StringMap<PackageInfo> = StringMap::new();
    assert(package_views(packages@) =~= Map::<Text, PackageView>::empty());
    let entries = match parsed.mapping() {
        Some(entries) => entries,
        None => {
            return packages;
        },
    };
    let mut i: usize = 0;
    assert(entries@.take(0) =~= Seq::<(Yaml, Yaml)>::empty());
    while i < entries.len()
        invariant
            i <= entries.len(),
            package_views(packages@) == berry_packages_in(entries@.take(i as int)),
        decreases entries.len() - i,
    {
        assert(entries@.take(i + 1).drop_last() =~= entries@.take(i as int));
        match (entries[i].0.text(), entries[i].1.mapping()) {
            (Some(key), Some(package)) => {
                if !text::same(key, "__metadata") && text::contains(key, "@")
                    && !keys::extract_yarn_berry_name(key).is_empty() {
                    let info = read_berry_package(package);
                    let ghost before = packages@;
                    packages.insert(key.to_owned(), info);
                    proof {
                        data::lemma_packages_insert(before, key@, info);
                    }
                }
            },
            _ => {},
        }
        i += 1;
    }
    assert(entries@.take(i as int) =~= entries@);
    packages
}

/// The packages of a lockfile of version 2 or later.
pub fn parse_yarn_berry_packages(content: &str) -> (r: Result<StringMap<PackageInfo>, DominoError>)
    ensures
        match yaml_document(content@) {
            Ok(v) => r is Ok && package_views(r->Ok_0@) == berry_packages(v),
            Err(e) => r is Err && r->Err_0.deep_view() == ErrorView::Parse(
                "yarn berry lockfile: "@ + e,
            ),
        },
{
    match yaml::parse_yaml(content) {
        Ok(parsed) => Ok(berry_package_map(&parsed)),
        Err(e) => Err(DominoError::Parse(text::cat("yarn berry lockfile: ", e.as_str()))),
    }
}

// ---------------------------------------------------------------------------
// Version 1
// ---------------------------------------------------------------------------

/// The pattern for a line that begins an entry; its group is the key.
pub const ENTRY_PATTERN: &'static str = r#"^("?@?[^@"\s]+@[^":\s]+"?(?:,\s*"?@?[^@"\s]+@[^":\s]+"?)*):"#;

/// The key of the entry that a line begins.
pub open spec fn entry_key_match(line: Text) -> Option<Text> {
    match first_groups(ENTRY_PATTERN@, line) {
        Some(groups) => group_text(groups, 1),
        None => None,
    }
}

/// The key of the entry that a line begins.
fn entry_key(line: &str) -> (r: Option<String>)
    ensures
        r.deep_view() == entry_key_match(line@),
{
    match captures::capture_first(ENTRY_PATTERN, line) {
        Some(groups) => captures::copy_group_text(&groups, 1),
        None => None,
    }
}

/// How far the reading of a lockfile has come: the finished packages, and the entry being read.
pub struct ClassicView {
    pub packages: Map<Text, PackageView>,
    pub key: Option<Text>,
    pub version: Text,
    pub dependencies: Map<Text, Text>,
    pub in_dependencies: bool,
}

/// Nothing is read yet.
pub open spec fn classic_start() -> ClassicView {
    ClassicView {
        packages: Map::empty(),
        key: None,
        version: Seq::empty(),
        dependencies: Map::empty(),
        in_dependencies: false,
    }
}

/// The entry being read, if any, is finished.
pub open spec fn classic_flushed(s: ClassicView) -> ClassicView {
    match s.key {
        Some(key) => ClassicView {
            packages: s.packages.insert(
                key,
                PackageView { version: s.version, dependencies: s.dependencies },
            ),
            key: None,
            version: Seq::empty(),
            dependencies: Map::empty(),
            in_dependencies: s.in_dependencies,
        },
        None => s,
    }
}

/// A comment or an empty line.
pub open spec fn is_blank(line: Text) -> bool {
    has_prefix(line, "#"@) || trimmed(line).len() == 0
}

/// A line that belongs to the entry above it.
pub open spec fn is_indented(line: Text) -> bool {
    has_prefix(line, " "@) || has_prefix(line, "\t"@)
}

/// One line is read; `key` is the key of the entry that it begins, where it begins one.
pub open spec fn classic_step(s: ClassicView, line: Text, key: Option<Text>) -> ClassicView {
    let t = trimmed(line);
    if is_blank(line) {
        ClassicView { in_dependencies: false, ..classic_flushed(s) }
    } else if !is_indented(line) {
        ClassicView { in_dependencies: false, key: key, ..classic_flushed(s) }
    } else if has_prefix(t, "version "@) {
        ClassicView { version: trimmed_of(drop_prefixes(t, "version "@), '"'), ..s }
    } else if t == "dependencies:"@ || t == "optionalDependencies:"@ {
        ClassicView { in_dependencies: true, ..s }
    } else if s.in_dependencies {
        match dependency_line(t) {
            Some((name, version)) => ClassicView {
                dependencies: s.dependencies.insert(name, version),
                ..s
            },
            None => ClassicView { in_dependencies: false, ..s },
        }
    } else {
        s
    }
}

/// Some lines are read.
pub open spec fn classic_read(lines: Seq<Text>) -> ClassicView
    decreases lines.len(),
{
    if lines.len() == 0 {
        classic_start()
    } else {
        classic_step(
            classic_read(lines.drop_last()),
            lines.last(),
            entry_key_match(lines.last()),
        )
    }
}

/// The packages of a lockfile.
pub open spec fn classic_packages(content: Text) -> Map<Text, PackageView> {
    classic_flushed(classic_read(lines_of(content))).packages
}

/// How far the reading of a lockfile has come.
pub struct ClassicReader {
    packages: StringMap<PackageInfo>,
    key: Option<String>,
    version: String,
    dependencies: StringMap<String>,
    in_dependencies: bool,
}

impl View for ClassicReader {
    type V = ClassicView;

    closed spec fn view(&self) -> ClassicView {
        ClassicView {
            packages: package_views(self.packages@),
            key: self.key.deep_view(),
            version: self.version@,
            dependencies: texts(self.dependencies@),
            in_dependencies: self.in_dependencies,
        }
    }
}

impl ClassicReader {
    /// Nothing is read yet.
    pub fn new() -> (r: Self)
        ensures
            r@ == classic_start(),
    {
        let r = ClassicReader {
            packages: StringMap::new(),
            key: None,
            version: String::new(),
            dependencies: StringMap::new(),
            in_dependencies: false,
        };
        assert(r@.packages =~= Map::<Text, PackageView>::empty());
        assert(r@.dependencies =~= Map::<Text, Text>::empty());
        r
    }

    /// Finishes the entry being read, if any.
    fn flush(&mut self)
        ensures
            final(self)@ == classic_flushed(old(self)@),
    {
        let ghost start = self@;
        match self.key.take() {
            Some(key) => {
                let mut version: String = String::new();
                let mut dependencies: StringMap<String> = StringMap::new();
                assert(texts(dependencies@) =~= Map::<Text, Text>::empty());
                std::mem::swap(&mut version, &mut self.version);
                std::mem::swap(&mut dependencies, &mut self.dependencies);
                let info = PackageInfo { version, dependencies };
                let ghost before = self.packages@;
                let ghost key_text = key@;
                self.packages.insert(key, info);
                proof {
                    data::lemma_packages_insert(before, key_text, info);
                }
            },
            None => {},
        }
    }

    /// Reads one line; `key` is the key of the entry that it begins, where it begins one.
    pub fn step(&mut self, line: &str, key: Option<String>)
        ensures
            final(self)@ == classic_step(old(self)@, line@, key.deep_view()),
    {
        if text::starts_with(line, "#") || text::trim(line).is_empty() {
            self.flush();
            self.in_dependencies = false;
            return;
        }
        if !text::starts_with(line, " ") && !text::starts_with(line, "\t") {
            self.flush();
            self.in_dependencies = false;
            self.key = key;
            return;
        }
        let t = text::trim(line);
        if text::starts_with(t, "version ") {
            proof {
                reveal_strlit("version ");
            }
            let rest = text::trim_start_text(t, "version ");
            self.version = text::trim_matches(rest, '"').to_owned();
            return;
        }
        if text::same(t, "dependencies:") || text::same(t, "optionalDependencies:") {
            self.in_dependencies = true;
            return;
        }
        if self.in_dependencies {
            match keys::parse_yarn_classic_dep_line(t) {
                Some((name, version)) => {
                    let ghost before = self.dependencies@;
                    let ghost name_text = name@;
                    self.dependencies.insert(name, version);
                    proof {
                        data::lemma_texts_insert(before, name_text, version);
                    }
                },
                None => {
                    self.in_dependencies = false;
                },
            }
        }
    }

    /// The packages, once all lines are read.
    pub fn finish(self) -> (r: StringMap<PackageInfo>)
        ensures
            package_views(r@) == classic_flushed(self@).packages,
    {
        let mut reader = self;
        reader.flush();
        reader.packages
    }
}

/// The packages of a lockfile of version 1.
pub fn parse_yarn_classic_packages(content: &str) -> (r: Result<
    StringMap<PackageInfo>,
    DominoError,
>)
    ensures
        r is Ok,
        package_views(r->Ok_0@) == classic_packages(content@),
{
    let lines = text::lines(content);
    let ghost all = lines.deep_view();
    let mut reader = ClassicReader::new();
    let mut i: usize = 0;
    assert(all.take(0) =~= Seq::<Text>::empty());
    while i < lines.len()
        invariant
            i <= lines.len(),
            all == lines.deep_view(),
            reader@ == classic_read(all.take(i as int)),
        decreases lines.len() - i,
    {
        assert(all.take(i + 1).drop_last() =~= all.take(i as int));
        assert(all.take(i + 1).last() == lines@[i as int]@);
        let line = lines[i].as_str();
        let key = if text::starts_with(line, "#") || text::starts_with(line, " ")
            || text::starts_with(line, "\t") {
            None
        } else {
            entry_key(line)
        };
        reader.step(line, key);
        i += 1;
    }
    assert(all.take(i as int) =~= all);
    Ok(reader.finish())
}

// ---------------------------------------------------------------------------
// Either version
// ---------------------------------------------------------------------------

/// What the text of a yarn lockfile says, with the manifests of the workspace: these, not the
/// lockfile, tell the direct dependencies.
pub open spec fn yarn_lockfile_text(content: Text, manifests: Seq<Text>) -> Result<
    LockfileView,
    ErrorView,
> {
    if contains_text(content, "__metadata:"@) {
        match yaml_document(content) {
            Ok(v) => Ok(
                LockfileView {
                    direct_dependencies: manifests_names(manifests),
                    packages: berry_packages(v),
                },
            ),
            Err(e) => Err(ErrorView::Parse("yarn berry lockfile: "@ + e)),
        }
    } else {
        Ok(
            LockfileView {
                direct_dependencies: manifests_names(manifests),
                packages: classic_packages(content),
            },
        )
    }
}

/// What the text of a yarn lockfile says, with the manifests of the workspace.
pub fn parse_yarn_lockfile(content: &str, manifests: &Vec<String>) -> (r: Result<
    LockfileData,
    DominoError,
>)
    ensures
        match r {
            Ok(d) => yarn_lockfile_text(content@, manifests.deep_view()) == Ok::<
                LockfileView,
                ErrorView,
            >(d.deep_view()),
            Err(e) => yarn_lockfile_text(content@, manifests.deep_view()) == Err::<
                LockfileView,
                ErrorView,
            >(e.deep_view()),
        },
{
    let direct_dependencies = read_manifests(manifests);
    let parsed = if text::contains(content, "__metadata:") {
        parse_yarn_berry_packages(content)
    } else {
        parse_yarn_classic_packages(content)
    };
    match parsed {
        Ok(packages) => Ok(LockfileData { direct_dependencies, packages }),
        Err(e) => Err(e),
    }
}

} // verus!
