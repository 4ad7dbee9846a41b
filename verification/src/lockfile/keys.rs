//! Package names inside the keys of lockfiles and inside import specifiers.

use crate::text;
use crate::text::{
    char_from, contains_text, has_suffix, last, occurs_at, trimmed, trimmed_of, Text,
};
use vstd::prelude::*;

verus! {

/// The part of `s` before the first `c`; all of it where there is none.
pub open spec fn before_char(s: Text, c: char) -> Text {
    match char_from(s, c, 0) {
        Some(i) => s.take(i),
        None => s,
    }
}

/// `s` without a slash at its front.
pub open spec fn without_slash(s: Text) -> Text {
    if s.len() > 0 && s[0] == '/' {
        s.skip(1)
    } else {
        s
    }
}

/// Where to look for the `@` before a version: behind the `@` of a scope.
pub open spec fn after_scope(s: Text) -> int {
    if s.len() > 0 && s[0] == '@' {
        1
    } else {
        0
    }
}

/// The name before the `@` of a version; all of `s` where there is no version.
pub open spec fn name_before_version(s: Text) -> Text {
    match char_from(s, '@', after_scope(s)) {
        Some(i) => s.take(i),
        None => s,
    }
}

/// The package that a key of a lockfile names: the last `node_modules/` entry of an npm path, else
/// the name before the version, without the slash of pnpm and the quotes of yarn.
pub open spec fn package_name(key: Text) -> Text {
    match last(key, "node_modules/"@) {
        Some(i) => key.skip(i + "node_modules/"@.len()),
        None => name_before_version(trimmed_of(without_slash(key), '"')),
    }
}

/// Searching a character gives a position inside the text.
proof fn lemma_char_in(s: Text, c: char, from: int)
    requires
        0 <= from,
    ensures
        char_from(s, c, from) matches Some(i) ==> from <= i < s.len(),
    decreases s.len() - from,
{
    text::lemma_char_from(s, c, from);
}

/// The first position of `c` in `s` at or after `from`.
pub fn find_char(s: &str, c: char, from: usize) -> (r: Option<usize>)
    ensures
        match char_from(s@, c, from as int) {
            Some(i) => r == Some(i as usize) && from <= i < s@.len() && s@.len() <= usize::MAX,
            None => r is None,
        },
{
    let v = text::chars_of(s);
    proof {
        lemma_char_in(s@, c, from as int);
    }
    if from >= v.len() {
        return None;
    }
    let mut i: usize = from;
    while i < v.len()
        invariant
            v@ == s@,
            from <= i <= v.len(),
            char_from(s@, c, from as int) == char_from(s@, c, i as int),
        decreases v.len() - i,
    {
        if v[i] == c {
            assert(v.len() <= usize::MAX);
            return Some(i);
        }
        i += 1;
    }
    None
}

/// The part of `s` before the first `c`; all of it where there is none.
pub fn cut_at<'a>(s: &'a str, c: char) -> (r: &'a str)
    ensures
        r@ == before_char(s@, c),
{
    match find_char(s, c, 0) {
        Some(i) => text::front(s, i),
        None => s,
    }
}

/// Whether the first character of `s` is `c`.
pub fn first_is(s: &str, c: char) -> (r: bool)
    ensures
        r == (s@.len() > 0 && s@[0] == c),
{
    !s.is_empty() && s.get_char(0) == c
}

/// `s` without a slash at its front.
fn strip_slash<'a>(s: &'a str) -> (r: &'a str)
    ensures
        r@ == without_slash(s@),
{
    if first_is(s, '/') {
        text::rest(s, 1)
    } else {
        s
    }
}

/// The package that a key of a lockfile names:
/// - npm paths: `node_modules/debug/node_modules/ms` is `ms`
/// - pnpm keys: `/foo@1.0.0(bar@2.0.0)` is `foo`
/// - yarn keys: `"image-lib@npm:^2.6.0"` is `image-lib`, `lib-a@^1.0.0` is `lib-a`
/// - plain names (bun, old npm): `foo` is `foo`
pub fn package_name_from_key<'a>(key: &'a str) -> (r: &'a str)
    ensures
        r@ == package_name(key@),
{
    if let Some(last_nm) = text::rfind(key, "node_modules/") {
        let skip: usize = "node_modules/".unicode_len();
        return text::rest(key, last_nm + skip);
    }
    let stripped = text::trim_matches(strip_slash(key), '"');
    let search_start: usize = if first_is(stripped, '@') {
        1
    } else {
        0
    };
    match find_char(stripped, '@', search_start) {
        Some(at) => text::front(stripped, at),
        None => stripped,
    }
}

/// The name and the version in a pnpm key: without a leading slash, without the peers in
/// parentheses, and without the peers behind an underscore.
pub open spec fn pnpm_key(key: Text) -> (Text, Text) {
    let k = before_char(without_slash(key), '(');
    match char_from(k, '@', after_scope(k)) {
        Some(i) => (k.take(i), before_char(k.skip(i + 1), '_')),
        None => (k, Seq::empty()),
    }
}

/// The name and the version in a pnpm key.
pub fn parse_pnpm_package_key(key: &str) -> (r: (String, String))
    ensures
        (r.0@, r.1@) == pnpm_key(key@),
{
    let k = cut_at(strip_slash(key), '(');
    let search_start: usize = if first_is(k, '@') {
        1
    } else {
        0
    };
    match find_char(k, '@', search_start) {
        Some(at) => {
            let version = cut_at(text::rest(k, at + 1), '_');
            (text::front(k, at).to_owned(), version.to_owned())
        },
        None => (k.to_owned(), String::new()),
    }
}

/// Where the protocol of a yarn key begins: the last `@npm:`, else the last `@workspace:`, and so
/// on down the list.
pub open spec fn protocol_at(s: Text) -> Option<int> {
    if last(s, "@npm:"@) is Some {
        last(s, "@npm:"@)
    } else if last(s, "@workspace:"@) is Some {
        last(s, "@workspace:"@)
    } else if last(s, "@patch:"@) is Some {
        last(s, "@patch:"@)
    } else if last(s, "@file:"@) is Some {
        last(s, "@file:"@)
    } else if last(s, "@link:"@) is Some {
        last(s, "@link:"@)
    } else {
        last(s, "@portal:"@)
    }
}

/// The package that a key of a yarn 2 lockfile names, by the first of its specifiers.
pub open spec fn berry_name(key: Text) -> Text {
    let s = trimmed(before_char(key, ','));
    match protocol_at(s) {
        Some(i) => s.take(i),
        None => match last(s, "@"@) {
            Some(i) => if i > 0 {
                s.take(i)
            } else {
                s
            },
            None => s,
        },
    }
}

/// The package that a key of a yarn 2 lockfile names. Keys look like `"image-lib@npm:^2.6.0"`,
/// `"@scope/pkg@npm:^1.0.0"` or, with several specifiers, `"pkg@npm:^1.0.0, pkg@npm:^2.0.0"`.
pub fn extract_yarn_berry_name<'a>(key: &'a str) -> (r: &'a str)
    ensures
        r@ == berry_name(key@),
{
    let s = text::trim(cut_at(key, ','));
    let mut found: Option<usize> = text::rfind(s, "@npm:");
    if found.is_none() {
        found = text::rfind(s, "@workspace:");
    }
    if found.is_none() {
        found = text::rfind(s, "@patch:");
    }
    if found.is_none() {
        found = text::rfind(s, "@file:");
    }
    if found.is_none() {
        found = text::rfind(s, "@link:");
    }
    if found.is_none() {
        found = text::rfind(s, "@portal:");
    }
    if let Some(pos) = found {
        return text::front(s, pos);
    }
    if let Some(at) = text::rfind(s, "@") {
        if at > 0 {
            return text::front(s, at);
        }
    }
    s
}

/// The dependency on a line of a yarn 1 lockfile: a name, quoted or not, and a version.
pub open spec fn dependency_line(line: Text) -> Option<(Text, Text)> {
    let l = trimmed(line);
    if l.len() == 0 || has_suffix(l, ":"@) {
        None
    } else if l[0] == '"' {
        let stripped = l.skip(1);
        match char_from(stripped, '"', 0) {
            Some(i) => Some(
                (stripped.take(i), trimmed_of(trimmed(stripped.skip(i + 1)), '"')),
            ),
            None => None,
        }
    } else {
        match char_from(l, ' ', 0) {
            Some(i) => Some((trimmed_of(l.take(i), '"'), trimmed_of(l.skip(i + 1), '"'))),
            None => None,
        }
    }
}

/// The dependency on a line of a yarn 1 lockfile, like `lib-a "^1.0.0"` or
/// `"@scope/pkg" "^1.0.0"`.
pub fn parse_yarn_classic_dep_line(line: &str) -> (r: Option<(String, String)>)
    ensures
        r.deep_view() == dependency_line(line@),
{
    let l = text::trim(line);
    if l.is_empty() || text::ends_with(l, ":") {
        return None;
    }
    if first_is(l, '"') {
        let stripped = text::rest(l, 1);
        return match find_char(stripped, '"', 0) {
            Some(end_quote) => {
                let name = text::front(stripped, end_quote);
                let after = text::trim(text::rest(stripped, end_quote + 1));
                Some((name.to_owned(), text::trim_matches(after, '"').to_owned()))
            },
            None => None,
        };
    }
    match find_char(l, ' ', 0) {
        Some(at) => {
            let name = text::trim_matches(text::front(l, at), '"');
            let version = text::trim_matches(text::rest(l, at + 1), '"');
            Some((name.to_owned(), version.to_owned()))
        },
        None => None,
    }
}

/// The package that an import specifier names: its first segment, or the first two of a scoped
/// one.
pub open spec fn bare_package(specifier: Text) -> Text {
    if specifier.len() > 0 && specifier[0] == '@' {
        match char_from(specifier, '/', 0) {
            Some(i) => match char_from(specifier, '/', i + 1) {
                Some(j) => specifier.take(j),
                None => specifier,
            },
            None => specifier,
        }
    } else {
        before_char(specifier, '/')
    }
}

/// The package that an import specifier names: `@scope/pkg/sub/path` is `@scope/pkg`, `lib/utils`
/// is `lib`.
pub fn bare_package_from_specifier<'a>(specifier: &'a str) -> (r: &'a str)
    ensures
        r@ == bare_package(specifier@),
{
    if first_is(specifier, '@') {
        if let Some(first_slash) = find_char(specifier, '/', 0) {
            if let Some(second_slash) = find_char(specifier, '/', first_slash + 1) {
                return text::front(specifier, second_slash);
            }
        }
        specifier
    } else {
        cut_at(specifier, '/')
    }
}

/// A name with at most a scope: no slash but the one behind the scope.
pub open spec fn is_plain_name(name: Text) -> bool {
    if name.len() > 0 && name[0] == '@' {
        exists|k: int|
            0 < k < name.len() && #[trigger] name[k] == '/' && forall|j: int|
                0 <= j < name.len() && j != k ==> name[j] != '/'
    } else {
        forall|j: int| 0 <= j < name.len() ==> name[j] != '/'
    }
}

/// An import names the package by itself or by any path inside it.
pub proof fn lemma_import_of_package(name: Text, inside: Text)
    requires
        name.len() > 0,
        is_plain_name(name),
    ensures
        bare_package(name) == name,
        bare_package(name + seq!['/'] + inside) == name,
{
    let deep = name + seq!['/'] + inside;
    assert(deep[0] == name[0]);
    assert(deep[name.len() as int] == '/');
    assert(deep.take(name.len() as int) =~= name);
    text::lemma_char_from(name, '/', 0);
    text::lemma_char_from(deep, '/', 0);
    if name[0] == '@' {
        let k = choose|k: int|
            0 < k < name.len() && #[trigger] name[k] == '/' && forall|j: int|
                0 <= j < name.len() && j != k ==> name[j] != '/';
        assert(char_from(name, '/', 0) == Some(k));
        assert(deep[k] == '/');
        assert(forall|j: int| 0 <= j < k ==> deep[j] == name[j]);
        assert(char_from(deep, '/', 0) == Some(k));
        text::lemma_char_from(name, '/', k + 1);
        text::lemma_char_from(deep, '/', k + 1);
        assert(forall|j: int| k < j < name.len() ==> deep[j] == name[j]);
    } else {
        assert(forall|j: int| 0 <= j < name.len() ==> deep[j] == name[j]);
    }
}

/// The key of a package in `node_modules` names the package, however deep it is nested.
pub proof fn lemma_installed_key(path: Text, name: Text)
    requires
        !contains_text(name, "node_modules/"@),
    ensures
        package_name(path + "node_modules/"@ + name) == name,
{
    reveal_strlit("node_modules/");
    let dir = "node_modules/"@;
    let key = path + dir + name;
    let n = path.len() as int;
    assert(key.subrange(n, n + dir.len()) =~= dir);
    text::lemma_last_upto(key, dir, key.len() - dir.len());
    let i = last(key, dir)->0;
    assert(occurs_at(key, dir, n));
    if i > n {
        let found = key.subrange(i, i + dir.len());
        if i < n + dir.len() {
            let at = n + dir.len() - 1 - i;
            assert(found[at] == key[i + at]);
            assert(key[n + dir.len() - 1] == '/');
            assert(dir[at] == '/');
        } else {
            assert(name.subrange(i - n - dir.len(), i - n) =~= found);
            assert(occurs_at(name, dir, i - n - dir.len()));
        }
    }
    assert(key.skip(n + dir.len()) =~= name);
}

} // verus!
