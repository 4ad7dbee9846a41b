//! What holds of every yarn lockfile of version 1.

use crate::lockfile::data::PackageView;
use crate::lockfile::keys::dependency_line;
use crate::lockfile::yarn::{
    classic_flushed, classic_packages, classic_read, classic_step, entry_key_match, ClassicView,
};
use crate::text::{has_prefix, lines_of, trimmed, trimmed_of, Text};
use crate::text_laws;
use crate::text_laws::is_tight;
use vstd::prelude::*;

verus! {

/// A line that belongs to the entry above it: it begins with a space or a tab, and it is not empty.
pub open spec fn is_entry_line(line: Text) -> bool {
    (has_prefix(line, " "@) || has_prefix(line, "\t"@)) && trimmed(line).len() > 0
}

/// The line begins the dependencies, or the optional dependencies, of an entry.
pub open spec fn begins_dependencies(line: Text) -> bool {
    is_entry_line(line) && (trimmed(line) == "dependencies:"@ || trimmed(line)
        == "optionalDependencies:"@)
}

/// The line gives the version of an entry.
pub open spec fn gives_version(line: Text) -> bool {
    is_entry_line(line) && has_prefix(trimmed(line), "version "@)
}

/// The line is a dependency: a name and a version.
pub open spec fn is_dependency(line: Text, name: Text, version: Text) -> bool {
    &&& is_entry_line(line)
    &&& !gives_version(line)
    &&& !begins_dependencies(line)
    &&& dependency_line(trimmed(line)) == Some((name, version))
}

/// The line begins the entry with the key.
pub open spec fn begins_entry(line: Text, key: Text) -> bool {
    &&& !has_prefix(line, "#"@)
    &&& trimmed(line).len() > 0
    &&& !has_prefix(line, " "@)
    &&& !has_prefix(line, "\t"@)
    &&& entry_key_match(line) == Some(key)
}

/// The lines from `first` up to `end` are the entry with the key, all of it: the next line, if any,
/// no longer belongs to it, and no later entry has the same key.
pub open spec fn is_entry(lines: Seq<Text>, first: int, end: int, key: Text) -> bool {
    &&& 0 <= first < end <= lines.len()
    &&& begins_entry(lines[first], key)
    &&& forall|i: int| first < i < end ==> is_entry_line(#[trigger] lines[i])
    &&& end < lines.len() ==> !is_entry_line(lines[end])
    &&& forall|i: int| end <= i < lines.len() ==> !begins_entry(#[trigger] lines[i], key)
}

/// The lines between `section` and `last` and `last` itself are dependencies below the line that
/// begins them.
pub open spec fn is_section(lines: Seq<Text>, section: int, last: int) -> bool {
    &&& begins_dependencies(lines[section])
    &&& section < last
    &&& forall|i: int|
        section < i <= last ==> exists|n: Text, v: Text| is_dependency(#[trigger] lines[i], n, v)
}

proof fn lemma_no_comment(line: Text)
    requires
        is_entry_line(line),
    ensures
        !has_prefix(line, "#"@),
{
    reveal_strlit("#");
    reveal_strlit(" ");
    reveal_strlit("\t");
    if has_prefix(line, "#"@) {
        assert(line.subrange(0, 1)[0] == '#');
    }
}

proof fn lemma_headers_give_no_version(line: Text)
    requires
        begins_dependencies(line),
    ensures
        !has_prefix(trimmed(line), "version "@),
{
    reveal_strlit("dependencies:");
    reveal_strlit("optionalDependencies:");
    reveal_strlit("version ");
    let t = trimmed(line);
    if has_prefix(t, "version "@) {
        assert(t.subrange(0, 8)[0] == 'v');
        assert(t[0] == 'v');
    }
}

/// One line more is read.
proof fn lemma_next(lines: Seq<Text>, i: int)
    requires
        0 <= i < lines.len(),
    ensures
        classic_read(lines.take(i + 1)) == classic_step(
            classic_read(lines.take(i)),
            lines[i],
            entry_key_match(lines[i]),
        ),
{
    assert(lines.take(i + 1).drop_last() =~= lines.take(i));
    assert(lines.take(i + 1).last() == lines[i]);
}

/// While its lines are read the entry stays open under its key.
proof fn lemma_entry_open(lines: Seq<Text>, first: int, end: int, key: Text, i: int)
    requires
        is_entry(lines, first, end, key),
        first < i <= end,
    ensures
        classic_read(lines.take(i)).key == Some(key),
    decreases i,
{
    lemma_next(lines, i - 1);
    if i - 1 > first {
        lemma_entry_open(lines, first, end, key, i - 1);
        lemma_no_comment(lines[i - 1]);
    }
}

/// Below the line that begins the dependencies, every line is read as one.
proof fn lemma_section_open(lines: Seq<Text>, section: int, last: int, i: int)
    requires
        0 <= section,
        last < lines.len(),
        is_section(lines, section, last),
        section < i <= last + 1,
    ensures
        classic_read(lines.take(i)).in_dependencies,
    decreases i,
{
    lemma_next(lines, i - 1);
    lemma_no_comment(lines[i - 1]);
    if i - 1 > section {
        lemma_section_open(lines, section, last, i - 1);
        assert(section < i - 1 <= last);
        let line = lines[i - 1];
        let (n, v) = choose|n: Text, v: Text| is_dependency(line, n, v);
        assert(is_dependency(line, n, v));
    } else {
        lemma_headers_give_no_version(lines[section]);
    }
}

/// A dependency that has been read stays, as long as no later line of the entry names it again.
proof fn lemma_dependency_stays(
    lines: Seq<Text>,
    first: int,
    end: int,
    key: Text,
    section: int,
    at: int,
    name: Text,
    version: Text,
    i: int,
)
    requires
        is_entry(lines, first, end, key),
        first < section < at < end,
        is_section(lines, section, at),
        is_dependency(lines[at], name, version),
        forall|j: int, v: Text| at < j < end ==> !(#[trigger] is_dependency(lines[j], name, v)),
        at < i <= end,
    ensures
        classic_read(lines.take(i)).dependencies.contains_pair(name, version),
    decreases i,
{
    lemma_next(lines, i - 1);
    lemma_no_comment(lines[i - 1]);
    if i - 1 > at {
        lemma_dependency_stays(lines, first, end, key, section, at, name, version, i - 1);
        if let Some(nv) = dependency_line(trimmed(lines[i - 1])) {
            assert(!is_dependency(lines[i - 1], name, nv.1));
        }
    } else {
        lemma_section_open(lines, section, at, at);
    }
}

/// The finished package of a key stays as it is until an entry with the same key ends.
proof fn lemma_package_stays(lines: Seq<Text>, end: int, key: Text, p: PackageView, i: int)
    requires
        0 <= end < i <= lines.len(),
        forall|j: int| end <= j < lines.len() ==> !begins_entry(#[trigger] lines[j], key),
        !is_entry_line(lines[end]),
        classic_flushed(classic_read(lines.take(end))).packages.contains_pair(key, p),
    ensures
        classic_read(lines.take(i)).packages.contains_pair(key, p),
        classic_read(lines.take(i)).key != Some(key),
    decreases i,
{
    lemma_next(lines, i - 1);
    let line = lines[i - 1];
    if i - 1 > end {
        lemma_package_stays(lines, end, key, p, i - 1);
    }
    assert(!begins_entry(line, key));
    if is_entry_line(line) {
        lemma_no_comment(line);
    }
}

/// Every dependency of an entry is among the dependencies of its package, with the version on its
/// line: each line below the one that begins them is read, up to the first that is none.
pub proof fn lemma_dependencies_are_read(
    content: Text,
    first: int,
    end: int,
    key: Text,
    section: int,
    at: int,
    name: Text,
    version: Text,
)
    requires
        is_entry(lines_of(content), first, end, key),
        first < section < at < end,
        is_section(lines_of(content), section, at),
        is_dependency(lines_of(content)[at], name, version),
        forall|j: int, v: Text|
            at < j < end ==> !(#[trigger] is_dependency(lines_of(content)[j], name, v)),
    ensures
        classic_packages(content).contains_key(key),
        classic_packages(content)[key].dependencies.contains_pair(name, version),
{
    let lines = lines_of(content);
    let s = classic_read(lines.take(end));
    lemma_entry_open(lines, first, end, key, end);
    lemma_dependency_stays(lines, first, end, key, section, at, name, version, end);
    lemma_package_is_kept(lines, first, end, key);
}

/// The package of an entry is what has been read of it when it ends.
proof fn lemma_package_is_kept(lines: Seq<Text>, first: int, end: int, key: Text)
    requires
        is_entry(lines, first, end, key),
    ensures
        classic_flushed(classic_read(lines)).packages.contains_pair(
            key,
            (PackageView {
                version: classic_read(lines.take(end)).version,
                dependencies: classic_read(lines.take(end)).dependencies,
            }),
        ),
{
    let s = classic_read(lines.take(end));
    let p = PackageView { version: s.version, dependencies: s.dependencies };
    lemma_entry_open(lines, first, end, key, end);
    assert(classic_flushed(s).packages.contains_pair(key, p));
    if end < lines.len() {
        lemma_package_stays(lines, end, key, p, lines.len() as int);
    }
    assert(lines.take(lines.len() as int) =~= lines);
}

/// The version of a package is what the last line of its entry that gives one says, without quotes.
pub proof fn lemma_version_is_read(
    content: Text,
    first: int,
    end: int,
    key: Text,
    at: int,
    version: Text,
)
    requires
        is_entry(lines_of(content), first, end, key),
        first < at < end,
        is_entry_line(lines_of(content)[at]),
        trimmed(lines_of(content)[at]) == "version \""@ + version + "\""@,
        version.len() > 0 ==> version[0] != '"' && version[version.len() - 1] != '"',
        forall|j: int| at < j < end ==> !gives_version(#[trigger] lines_of(content)[j]),
    ensures
        classic_packages(content).contains_key(key),
        classic_packages(content)[key].version == version,
{
    let lines = lines_of(content);
    lemma_version_stays(lines, first, end, key, at, version, end);
    lemma_package_is_kept(lines, first, end, key);
}

proof fn lemma_version_stays(
    lines: Seq<Text>,
    first: int,
    end: int,
    key: Text,
    at: int,
    version: Text,
    i: int,
)
    requires
        is_entry(lines, first, end, key),
        first < at < end,
        is_entry_line(lines[at]),
        trimmed(lines[at]) == "version \""@ + version + "\""@,
        version.len() > 0 ==> version[0] != '"' && version[version.len() - 1] != '"',
        forall|j: int| at < j < end ==> !gives_version(#[trigger] lines[j]),
        at < i <= end,
    ensures
        classic_read(lines.take(i)).version == version,
    decreases i,
{
    lemma_next(lines, i - 1);
    lemma_no_comment(lines[i - 1]);
    if i - 1 > at {
        lemma_version_stays(lines, first, end, key, at, version, i - 1);
        assert(!gives_version(lines[i - 1]));
    } else {
        reveal_strlit("version ");
        reveal_strlit("version \"");
        reveal_strlit("\"");
        let word = "version "@;
        let quoted = seq!['"'] + version + seq!['"'];
        let t = trimmed(lines[at]);
        assert(t =~= word + quoted);
        assert(t.subrange(0, word.len() as int) =~= word);
        if has_prefix(quoted, word) {
            assert(quoted.subrange(0, word.len() as int)[0] == 'v');
        }
        text_laws::lemma_prefix_dropped(word, quoted);
        text_laws::lemma_unquoted(version, '"');
    }
}

/// Lines that belong to no entry, such as comments and empty lines, end an entry and say nothing
/// more: reading them twice makes no difference.
pub proof fn lemma_blank_line(s: ClassicView, line: Text, key: Option<Text>)
    requires
        has_prefix(line, "#"@) || trimmed(line).len() == 0,
    ensures
        classic_step(classic_step(s, line, key), line, key) == classic_step(s, line, key),
        classic_step(s, line, key).key is None,
        s.key matches Some(k) ==> classic_step(s, line, key).packages.contains_pair(
            k,
            (PackageView { version: s.version, dependencies: s.dependencies }),
        ),
        s.key is None ==> classic_step(s, line, key).packages == s.packages,
{
}

} // verus!
