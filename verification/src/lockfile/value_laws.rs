//! What holds of every version and range that a lockfile gives.

use crate::error::ErrorView;
use crate::json::{commented_json_document, json_document, Json};
use crate::lockfile::bun;
use crate::lockfile::bun::{bun_lockfile, bun_lockfile_text, with_text_members};
use crate::lockfile::data::{with_members, LockfileView};
use crate::lockfile::keys::{bare_package, before_char, berry_name};
use crate::lockfile::npm::{npm_lockfile, npm_lockfile_text};
use crate::lockfile::pnpm;
use crate::lockfile::pnpm::{pnpm_lockfile, pnpm_lockfile_text, with_entries};
use crate::lockfile::yarn::{
    berry_packages, berry_packages_in, classic_packages, classic_step, is_blank, is_indented,
    manifests_names, with_written, without_npm, yarn_lockfile_text, ClassicView,
};
use crate::text::{char_from, contains_text, has_prefix, last, trimmed, Text};
use crate::text_laws;
use crate::text_laws::{is_tight, is_without};
use crate::yaml::{yaml_document, Yaml};
use vstd::prelude::*;

verus! {

proof fn lemma_char_at(s: Text, c: char, from: int, at: int)
    requires
        0 <= from <= at <= s.len(),
        forall|i: int| from <= i < at ==> #[trigger] s[i] != c,
    ensures
        at < s.len() && s[at] == c ==> char_from(s, c, from) == Some(at),
        at == s.len() ==> char_from(s, c, from) is None,
    decreases at - from,
{
    if from < at {
        lemma_char_at(s, c, from + 1, at);
    }
}

// ---------------------------------------------------------------------------
// Specifiers
// ---------------------------------------------------------------------------

/// The package of a specifier is what stands before its first slash, or of a scoped one before its
/// second; one with no more than that is a package itself.
pub proof fn lemma_bare_package(scope: Text, name: Text, rest: Text)
    requires
        is_without(scope, '/'),
        is_without(name, '/'),
        name.len() > 0 && name[0] != '@',
        scope.len() > 0 && scope[0] == '@',
    ensures
        bare_package(name) == name,
        bare_package(name + seq!['/'] + rest) == name,
        bare_package(scope + seq!['/'] + name) == scope + seq!['/'] + name,
        bare_package(scope + seq!['/'] + name + seq!['/'] + rest) == scope + seq!['/'] + name,
{
    lemma_char_at(name, '/', 0, name.len() as int);
    let a = name + seq!['/'] + rest;
    assert forall|i: int| 0 <= i < name.len() implies #[trigger] a[i] != '/' by {
        assert(a[i] == name[i]);
    }
    assert(a[0] == name[0]);
    lemma_char_at(a, '/', 0, name.len() as int);
    assert(a.take(name.len() as int) =~= name);
    let n = scope.len() as int;
    let full = scope + seq!['/'] + name;
    assert forall|i: int| 0 <= i < n implies #[trigger] full[i] != '/' by {
        assert(full[i] == scope[i]);
    }
    assert(full[n] == '/' && full[0] == scope[0]);
    lemma_char_at(full, '/', 0, n);
    assert forall|i: int| n + 1 <= i < full.len() implies #[trigger] full[i] != '/' by {
        assert(full[i] == name[i - n - 1]);
    }
    lemma_char_at(full, '/', n + 1, full.len() as int);
    let long = full + seq!['/'] + rest;
    let m = full.len() as int;
    assert forall|i: int| 0 <= i < m implies #[trigger] long[i] == full[i] by {}
    assert(long[n] == '/' && long[0] == scope[0] && long[m] == '/');
    lemma_char_at(long, '/', 0, n);
    lemma_char_at(long, '/', n + 1, m);
    assert(long.take(m) =~= full);
}

// ---------------------------------------------------------------------------
// Ranges
// ---------------------------------------------------------------------------

/// A range is kept without its protocol `npm:`, and as it is where it has none.
pub proof fn lemma_without_npm(range: Text)
    ensures
        without_npm("npm:"@ + range) == range,
        !has_prefix(range, "npm:"@) ==> without_npm(range) == range,
{
    let s = "npm:"@ + range;
    let n = "npm:"@.len() as int;
    assert(s.subrange(0, n) =~= "npm:"@);
    assert(s.skip(n) =~= range);
}

/// One more entry whose key is a text is one more dependency, under that name and with that range; a
/// later one replaces an earlier one of its name.
pub proof fn lemma_berry_range(
    m: Map<Text, Text>,
    entries: Seq<(Yaml, Yaml)>,
    key: Yaml,
    value: Yaml,
    name: Text,
)
    ensures
        with_written(m, Seq::empty()) == m,
        key.as_text() == Some(name) ==> with_written(m, entries.push((key, value))) == with_written(
            m,
            entries,
        ).insert(name, without_npm(value.written())),
        key.as_text() is None ==> with_written(m, entries.push((key, value))) == with_written(
            m,
            entries,
        ),
{
    assert(entries.push((key, value)).drop_last() =~= entries);
}

/// The same of pnpm, where the range must be a text too, and is kept as it is.
pub proof fn lemma_pnpm_range(
    m: Map<Text, Text>,
    entries: Seq<(Yaml, Yaml)>,
    key: Yaml,
    value: Yaml,
    name: Text,
    range: Text,
)
    ensures
        with_entries(m, Seq::empty()) == m,
        key.as_text() == Some(name) && value.as_text() == Some(range) ==> with_entries(
            m,
            entries.push((key, value)),
        ) == with_entries(m, entries).insert(name, range),
        key.as_text() is None || value.as_text() is None ==> with_entries(
            m,
            entries.push((key, value)),
        ) == with_entries(m, entries),
{
    assert(entries.push((key, value)).drop_last() =~= entries);
}

/// The same of bun, where a range that is no text is passed over, and of npm, where it is empty.
pub proof fn lemma_json_range(
    m: Map<Text, Text>,
    members: Seq<(String, Json)>,
    name: String,
    range: String,
    other: Json,
)
    requires
        !(other is Text),
    ensures
        with_text_members(m, members.push((name, Json::Text(range)))) == with_text_members(
            m,
            members,
        ).insert(name@, range@),
        with_text_members(m, members.push((name, other))) == with_text_members(m, members),
        with_members(m, members.push((name, Json::Text(range)))) == with_members(m, members).insert(
            name@,
            range@,
        ),
        with_members(m, members.push((name, other))) == with_members(m, members).insert(
            name@,
            Seq::empty(),
        ),
{
    assert(members.push((name, Json::Text(range))).drop_last() =~= members);
    assert(members.push((name, other)).drop_last() =~= members);
}

// ---------------------------------------------------------------------------
// What is no package
// ---------------------------------------------------------------------------

/// In a lockfile of yarn 2 or later, the metadata, keys without `@` and keys without a name are no
/// packages, and each other key with a mapping is one.
pub proof fn lemma_berry_keys(entries: Seq<(Yaml, Yaml)>, key: Text)
    ensures
        berry_packages_in(entries).contains_key(key) <==> key != "__metadata"@ && contains_text(
            key,
            "@"@,
        ) && berry_name(key).len() > 0 && exists|i: int|
            0 <= i < entries.len() && (#[trigger] entries[i]).0.as_text() == Some(key)
                && entries[i].1.entries() is Some,
    decreases entries.len(),
{
    if entries.len() > 0 {
        let init = entries.drop_last();
        let n = entries.len() - 1;
        lemma_berry_keys(init, key);
        assert(entries[n] == entries.last());
        if berry_packages_in(init).contains_key(key) {
            let i = choose|i: int|
                0 <= i < init.len() && (#[trigger] init[i]).0.as_text() == Some(key)
                    && init[i].1.entries() is Some;
            assert(entries[i] == init[i]);
        }
        if exists|i: int|
            0 <= i < entries.len() && (#[trigger] entries[i]).0.as_text() == Some(key)
                && entries[i].1.entries() is Some {
            let i = choose|i: int|
                0 <= i < entries.len() && (#[trigger] entries[i]).0.as_text() == Some(key)
                    && entries[i].1.entries() is Some;
            if i < n {
                assert(init[i] == entries[i]);
            }
        }
    }
}

/// In a lockfile of pnpm each key that names a package is one.
pub proof fn lemma_pnpm_keys(entries: Seq<(Yaml, Yaml)>, key: Text)
    ensures
        pnpm::packages_in(entries).contains_key(key) <==> crate::lockfile::keys::pnpm_key(key).0.len()
            > 0 && exists|i: int|
            0 <= i < entries.len() && (#[trigger] entries[i]).0.as_text() == Some(key),
    decreases entries.len(),
{
    if entries.len() > 0 {
        let init = entries.drop_last();
        let n = entries.len() - 1;
        lemma_pnpm_keys(init, key);
        assert(entries[n] == entries.last());
        if pnpm::packages_in(init).contains_key(key) {
            let i = choose|i: int|
                0 <= i < init.len() && (#[trigger] init[i]).0.as_text() == Some(key);
            assert(entries[i] == init[i]);
        }
        if exists|i: int| 0 <= i < entries.len() && (#[trigger] entries[i]).0.as_text() == Some(key) {
            let i = choose|i: int|
                0 <= i < entries.len() && (#[trigger] entries[i]).0.as_text() == Some(key);
            if i < n {
                assert(init[i] == entries[i]);
            }
        }
    }
}

/// In a lockfile of bun each member that is an array is a package.
pub proof fn lemma_bun_keys(members: Seq<(String, Json)>, key: Text)
    ensures
        bun::packages_in(members).contains_key(key) <==> exists|i: int|
            0 <= i < members.len() && (#[trigger] members[i]).0@ == key && members[i].1 is Array,
    decreases members.len(),
{
    if members.len() > 0 {
        let init = members.drop_last();
        let n = members.len() - 1;
        lemma_bun_keys(init, key);
        assert(members[n] == members.last());
        if bun::packages_in(init).contains_key(key) {
            let i = choose|i: int|
                0 <= i < init.len() && (#[trigger] init[i]).0@ == key && init[i].1 is Array;
            assert(members[i] == init[i]);
        }
        if exists|i: int|
            0 <= i < members.len() && (#[trigger] members[i]).0@ == key && members[i].1 is Array {
            let i = choose|i: int|
                0 <= i < members.len() && (#[trigger] members[i]).0@ == key && members[i].1 is Array;
            if i < n {
                assert(init[i] == members[i]);
            }
        }
    }
}

/// The protocols by which yarn 2 or later names where a package comes from.
pub open spec fn is_protocol(word: Text) -> bool {
    word == "@npm:"@ || word == "@workspace:"@ || word == "@patch:"@ || word == "@file:"@ || word
        == "@link:"@ || word == "@portal:"@
}

/// A key names the package before its protocol, whichever that is.
pub proof fn lemma_berry_protocol(name: Text, word: Text, range: Text)
    requires
        is_protocol(word),
        name.len() > 0,
        is_without(name + word + range, ','),
        is_tight(name + word + range),
        last(name + word + range, word) == Some(name.len() as int),
        forall|w: Text|
            #[trigger] is_protocol(w) && w != word ==> last(name + word + range, w) is None,
    ensures
        berry_name(name + word + range) == name,
{
    let s = name + word + range;
    lemma_char_at(s, ',', 0, s.len() as int);
    assert(before_char(s, ',') == s);
    text_laws::lemma_tight_is_trimmed(s);
    assert(is_protocol("@npm:"@) && is_protocol("@workspace:"@) && is_protocol("@patch:"@)
        && is_protocol("@file:"@) && is_protocol("@link:"@) && is_protocol("@portal:"@));
    assert(s.take(name.len() as int) =~= name);
}

/// A key without a protocol names the package before its last `@`; the `@` of a scope alone ends no
/// name.
pub proof fn lemma_berry_plain(s: Text, i: int)
    requires
        is_without(s, ','),
        is_tight(s),
        forall|w: Text| #[trigger] is_protocol(w) ==> last(s, w) is None,
    ensures
        last(s, "@"@) == Some(i) && i > 0 ==> berry_name(s) == s.take(i),
        last(s, "@"@) == Some(0int) ==> berry_name(s) == s,
        last(s, "@"@) is None ==> berry_name(s) == s,
{
    lemma_char_at(s, ',', 0, s.len() as int);
    assert(before_char(s, ',') == s);
    text_laws::lemma_tight_is_trimmed(s);
    assert(is_protocol("@npm:"@) && is_protocol("@workspace:"@) && is_protocol("@patch:"@)
        && is_protocol("@file:"@) && is_protocol("@link:"@) && is_protocol("@portal:"@));
}

// ---------------------------------------------------------------------------
// Formats
// ---------------------------------------------------------------------------

/// An npm lockfile that gives no format, or a lower one than two, lists its packages under
/// `dependencies`, and these are its direct dependencies; without them it says nothing.
pub proof fn lemma_npm_old_format(v: Json, members: Vec<(String, Json)>, name: Text)
    requires
        v.member("lockfileVersion"@) is None || (v.member("lockfileVersion"@) matches Some(
            Json::Number(Some(n)),
        ) && n < 2),
    ensures
        v.member("dependencies"@) == Some(Json::Object(members)) ==> (npm_lockfile(
            v,
        ).direct_dependencies.contains(name) <==> exists|i: int|
            0 <= i < members@.len() && #[trigger] members@[i].0@ == name),
        v.member("dependencies"@) is None ==> npm_lockfile(v).direct_dependencies
            == Set::<Text>::empty() && npm_lockfile(v).packages == Map::<
            Text,
            crate::lockfile::data::PackageView,
        >::empty(),
{
}

/// A text that is no document is no lockfile, and its error is passed on.
pub proof fn lemma_unreadable_lockfile(content: Text, manifests: Seq<Text>, e: Text)
    ensures
        json_document(content) == Err::<Json, Text>(e) ==> npm_lockfile_text(content) == Err::<
            LockfileView,
            ErrorView,
        >(ErrorView::Parse("npm lockfile: "@ + e)),
        yaml_document(content) == Err::<Yaml, Text>(e) ==> pnpm_lockfile_text(content) == Err::<
            LockfileView,
            ErrorView,
        >(ErrorView::Parse("pnpm lockfile: "@ + e)),
        commented_json_document(content) == Err::<Json, Text>(e) ==> bun_lockfile_text(content)
            == Err::<LockfileView, ErrorView>(ErrorView::Parse("bun lockfile: "@ + e)),
        contains_text(content, "__metadata:"@) && yaml_document(content) == Err::<Yaml, Text>(e)
            ==> yarn_lockfile_text(content, manifests) == Err::<LockfileView, ErrorView>(
            ErrorView::Parse("yarn berry lockfile: "@ + e),
        ),
{
}

/// A document is read as its format says; a yarn lockfile is of the later format where it has metadata,
/// and its direct dependencies are those of the manifests.
pub proof fn lemma_readable_lockfile(content: Text, manifests: Seq<Text>, j: Json, y: Yaml)
    ensures
        json_document(content) == Ok::<Json, Text>(j) ==> npm_lockfile_text(content) == Ok::<
            LockfileView,
            ErrorView,
        >(npm_lockfile(j)),
        yaml_document(content) == Ok::<Yaml, Text>(y) ==> pnpm_lockfile_text(content) == Ok::<
            LockfileView,
            ErrorView,
        >(pnpm_lockfile(y)),
        commented_json_document(content) == Ok::<Json, Text>(j) ==> bun_lockfile_text(content)
            == Ok::<LockfileView, ErrorView>(bun_lockfile(j)),
        contains_text(content, "__metadata:"@) && yaml_document(content) == Ok::<Yaml, Text>(y)
            ==> yarn_lockfile_text(content, manifests) == Ok::<LockfileView, ErrorView>(
            (LockfileView {
                direct_dependencies: manifests_names(manifests),
                packages: berry_packages(y),
            }),
        ),
        !contains_text(content, "__metadata:"@) ==> yarn_lockfile_text(content, manifests) == Ok::<
            LockfileView,
            ErrorView,
        >(
            (LockfileView {
                direct_dependencies: manifests_names(manifests),
                packages: classic_packages(content),
            }),
        ),
{
}

// ---------------------------------------------------------------------------
// Lines of a yarn 1 lockfile
// ---------------------------------------------------------------------------

/// Inside an entry, a line that is neither its version nor the head of its dependencies changes nothing
/// outside these; the heads are `dependencies:` and `optionalDependencies:`.
pub proof fn lemma_other_line(s: ClassicView, line: Text, key: Option<Text>)
    requires
        !is_blank(line),
        is_indented(line),
        !has_prefix(trimmed(line), "version "@),
    ensures
        trimmed(line) != "dependencies:"@ && trimmed(line) != "optionalDependencies:"@
            && !s.in_dependencies ==> classic_step(s, line, key) == s,
        trimmed(line) == "dependencies:"@ || trimmed(line) == "optionalDependencies:"@
            ==> classic_step(s, line, key).in_dependencies && classic_step(s, line, key).dependencies
            == s.dependencies,
        classic_step(s, line, key).version == s.version,
        classic_step(s, line, key).key == s.key,
        classic_step(s, line, key).packages == s.packages,
{
}

/// A line is a comment where it begins with `#`, and blank where it is white space; it belongs to the
/// entry above it where it begins with a space or a tab.
pub proof fn lemma_line_kinds(line: Text)
    ensures
        line.len() > 0 && line[0] == '#' ==> is_blank(line),
        trimmed(line).len() == 0 ==> is_blank(line),
        trimmed(line).len() > 0 && line[0] != '#' ==> !is_blank(line),
        line.len() > 0 && (line[0] == ' ' || line[0] == '\t') ==> is_indented(line),
        line.len() > 0 && line[0] != ' ' && line[0] != '\t' ==> !is_indented(line),
{
    reveal_strlit("#");
    reveal_strlit(" ");
    reveal_strlit("\t");
    if line.len() > 0 {
        let front = line.subrange(0, 1);
        assert(front[0] == line[0]);
        assert(line[0] == '#' ==> front =~= "#"@);
        assert(line[0] == ' ' ==> front =~= " "@);
        assert(line[0] == '\t' ==> front =~= "\t"@);
        assert("#"@[0] == '#' && " "@[0] == ' ' && "\t"@[0] == '\t');
    }
}

} // verus!
