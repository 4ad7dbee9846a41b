//! What holds of every key of a lockfile, and of every line with a dependency.

use crate::lockfile::keys::{before_char, berry_name, dependency_line, package_name, pnpm_key};
use crate::text;
use crate::text::{char_from, contains_text, has_suffix, last, last_upto, occurs_at, trimmed, Text};
use crate::text_laws;
use crate::text_laws::{is_tight, is_without};
use vstd::prelude::*;

verus! {

/// A package name as it stands in keys: not empty, with no `@` but that of a scope, and with no
/// quote at either end.
pub open spec fn is_key_name(name: Text) -> bool {
    &&& name.len() > 0
    &&& name[0] != '"' && name[name.len() - 1] != '"' && name[0] != '/'
    &&& forall|i: int| 0 < i < name.len() ==> #[trigger] name[i] != '@'
    &&& name[0] == '@' ==> name.len() > 1
}

/// The first place of a character is where it stands and nothing before it is one.
proof fn lemma_char_at(s: Text, c: char, from: int, at: int)
    requires
        0 <= from <= at < s.len(),
        s[at] == c,
        forall|i: int| from <= i < at ==> #[trigger] s[i] != c,
    ensures
        char_from(s, c, from) == Some(at),
    decreases at - from,
{
    if from < at {
        lemma_char_at(s, c, from + 1, at);
    }
}

proof fn lemma_char_nowhere(s: Text, c: char, from: int)
    requires
        0 <= from,
        forall|i: int| from <= i < s.len() ==> #[trigger] s[i] != c,
    ensures
        char_from(s, c, from) is None,
    decreases s.len() - from,
{
    if from < s.len() {
        lemma_char_nowhere(s, c, from + 1);
    }
}

proof fn lemma_nowhere_last(s: Text, p: Text)
    requires
        !contains_text(s, p),
    ensures
        last(s, p) is None,
{
    text::lemma_last_upto(s, p, s.len() - p.len());
    if let Some(i) = last(s, p) {
        assert(occurs_at(s, p, i));
    }
}

/// The key of a yarn or pnpm package, with a name, an `@` and a version, names the package: with or
/// without quotes around it, with or without a slash before it.
pub proof fn lemma_versioned_key(name: Text, version: Text)
    requires
        is_key_name(name),
        version.len() > 0 ==> version[version.len() - 1] != '"',
        !contains_text(name + seq!['@'] + version, "node_modules/"@),
        !contains_text(seq!['/'] + name + seq!['@'] + version, "node_modules/"@),
        !contains_text(seq!['"'] + name + seq!['@'] + version + seq!['"'], "node_modules/"@),
    ensures
        package_name(name + seq!['@'] + version) == name,
        package_name(seq!['/'] + name + seq!['@'] + version) == name,
        package_name(seq!['"'] + name + seq!['@'] + version + seq!['"']) == name,
{
    let key = name + seq!['@'] + version;
    let slashed = seq!['/'] + name + seq!['@'] + version;
    let quoted = seq!['"'] + name + seq!['@'] + version + seq!['"'];
    lemma_nowhere_last(key, "node_modules/"@);
    lemma_nowhere_last(slashed, "node_modules/"@);
    lemma_nowhere_last(quoted, "node_modules/"@);
    assert(slashed.skip(1) =~= key);
    assert(quoted =~= seq!['"'] + key + seq!['"']);
    assert(key[0] == name[0]);
    text_laws::lemma_unquoted(key, '"');
    let n = name.len() as int;
    assert(key[n] == '@');
    assert(forall|i: int| 0 < i < n ==> #[trigger] key[i] == name[i]);
    lemma_char_at(key, '@', if name[0] == '@' { 1 } else { 0 }, n);
    assert(key.take(n) =~= name);
}

/// A key that is a bare name names that package.
pub proof fn lemma_bare_key(name: Text)
    requires
        is_key_name(name),
        !contains_text(name, "node_modules/"@),
    ensures
        package_name(name) == name,
{
    lemma_nowhere_last(name, "node_modules/"@);
    text_laws::lemma_unquoted(name, '"');
    lemma_char_nowhere(name, '@', if name[0] == '@' { 1 } else { 0 });
}

/// A pnpm key gives the name and the version of its package, with or without a slash before it. Peers,
/// in parentheses or behind an underscore, are no part of the version.
pub proof fn lemma_pnpm_key(name: Text, version: Text, peers: Text)
    requires
        is_key_name(name),
        is_without(name, '('),
        is_without(version, '('),
        is_without(version, '_'),
        peers.len() > 0 ==> peers[0] == '(' || peers[0] == '_',
    ensures
        pnpm_key(name + seq!['@'] + version + peers) == (name, version),
        pnpm_key(seq!['/'] + name + seq!['@'] + version + peers) == (name, version),
{
    let key = name + seq!['@'] + version + peers;
    let slashed = seq!['/'] + name + seq!['@'] + version + peers;
    assert(slashed.skip(1) =~= key);
    assert(key[0] == name[0]);
    lemma_pnpm_unslashed(name, version, peers);
}

proof fn lemma_pnpm_unslashed(name: Text, version: Text, peers: Text)
    requires
        is_key_name(name),
        is_without(name, '('),
        is_without(version, '('),
        is_without(version, '_'),
        peers.len() > 0 ==> peers[0] == '(' || peers[0] == '_',
    ensures
        ({
            let k = before_char(name + seq!['@'] + version + peers, '(');
            let n = name.len() as int;
            &&& char_from(k, '@', if k.len() > 0 && k[0] == '@' { 1 } else { 0 }) == Some(n)
            &&& k.take(n) == name
            &&& before_char(k.skip(n + 1), '_') == version
        }),
{
    let key = name + seq!['@'] + version + peers;
    let n = name.len() as int;
    let m = n + 1 + version.len();
    let k = before_char(key, '(');
    text::lemma_char_from(key, '(', 0);
    assert forall|i: int| 0 <= i < m implies #[trigger] key[i] != '(' by {
        if i < n {
            assert(key[i] == name[i]);
        } else if i > n {
            assert(key[i] == version[i - n - 1]);
        }
    }
    if let Some(i) = char_from(key, '(', 0) {
        assert(i >= m);
    }
    assert(k.len() >= m);
    assert(forall|i: int| 0 <= i < k.len() ==> #[trigger] k[i] == key[i]);
    assert(k[n] == '@');
    assert(forall|i: int| 0 <= i < n ==> #[trigger] k[i] == name[i]);
    lemma_char_at(k, '@', if k[0] == '@' { 1 } else { 0 }, n);
    assert(k.take(n) =~= name);
    let rest = k.skip(n + 1);
    assert forall|i: int| 0 <= i < version.len() implies #[trigger] rest[i] == version[i] by {
        assert(rest[i] == key[n + 1 + i]);
    }
    if rest.len() > version.len() {
        assert(rest[version.len() as int] == peers[0]);
        assert(key[m] == peers[0]);
        if peers[0] == '(' {
            text::lemma_char_from(key, '(', 0);
            assert(char_from(key, '(', 0)->0 <= m);
        }
        lemma_char_at(rest, '_', 0, version.len() as int);
        assert(rest.take(version.len() as int) =~= version);
    } else {
        lemma_char_nowhere(rest, '_', 0);
        assert(rest =~= version);
    }
}

/// A key of yarn 2 or later names the package before the protocol, by the first of its specifiers.
pub proof fn lemma_berry_key(name: Text, range: Text, more: Text)
    requires
        name.len() > 0,
        is_without(name, ','),
        is_without(range, ','),
        is_tight(name + "@npm:"@ + range),
        !contains_text(range, "@npm:"@),
        more.len() > 0 ==> more[0] == ',',
    ensures
        berry_name(name + "@npm:"@ + range + more) == name,
{
    reveal_strlit("@npm:");
    let word = "@npm:"@;
    let one = name + word + range;
    let key = one + more;
    let n = name.len() as int;
    assert forall|i: int| 0 <= i < one.len() implies #[trigger] key[i] == one[i] && key[i] != ',' by {
        if i < n {
            assert(key[i] == name[i]);
        } else if i >= n + word.len() {
            assert(key[i] == range[i - n - word.len()]);
        } else {
            assert(key[i] == word[i - n]);
        }
    }
    if more.len() > 0 {
        assert(key[one.len() as int] == more[0]);
        lemma_char_at(key, ',', 0, one.len() as int);
        assert(key.take(one.len() as int) =~= one);
    } else {
        assert(key =~= one);
        lemma_char_nowhere(key, ',', 0);
    }
    text_laws::lemma_tight_is_trimmed(one);
    text::lemma_last_upto(one, word, one.len() - word.len());
    assert(one.subrange(n, n + word.len()) =~= word);
    assert(occurs_at(one, word, n));
    let i = last(one, word)->0;
    if i > n {
        let found = one.subrange(i, i + word.len());
        if i < n + word.len() {
            assert(found[0] == one[i]);
            assert(one[i] == word[i - n]);
        } else {
            assert(range.subrange(i - n - word.len(), i - n) =~= found);
            assert(occurs_at(range, word, i - n - word.len()));
        }
    }
    assert(one.take(n) =~= name);
}

/// A dependency is a name and a quoted version with a space between them; the name may be quoted, as
/// one with a scope is.
pub proof fn lemma_dependency_line(name: Text, version: Text)
    requires
        name.len() > 0,
        is_without(name, '"'),
        is_without(name, ' '),
        is_tight(name),
        version.len() > 0,
        is_without(version, '"'),
    ensures
        dependency_line(name + " \""@ + version + "\""@) == Some((name, version)),
        dependency_line("\""@ + name + "\" \""@ + version + "\""@) == Some((name, version)),
{
    reveal_strlit(" \"");
    reveal_strlit("\"");
    reveal_strlit("\" \"");
    reveal_strlit(":");
    let n = name.len() as int;
    let quoted = seq!['"'] + version + seq!['"'];
    text_laws::lemma_unquoted(version, '"');
    text_laws::lemma_unquoted(name, '"');
    let plain = name + " \""@ + version + "\""@;
    assert(plain =~= name + seq![' '] + quoted);
    assert(plain[0] == name[0]);
    assert(plain[plain.len() - 1] == '"');
    text_laws::lemma_tight_is_trimmed(plain);
    if has_suffix(plain, ":"@) {
        assert(plain.subrange(plain.len() - 1, plain.len() as int)[0] == ':');
    }
    assert(forall|i: int| 0 <= i < n ==> #[trigger] plain[i] == name[i]);
    assert(plain[n] == ' ');
    lemma_char_at(plain, ' ', 0, n);
    assert(plain.take(n) =~= name);
    assert(plain.skip(n + 1) =~= quoted);
    let scoped = "\""@ + name + "\" \""@ + version + "\""@;
    assert(scoped =~= seq!['"'] + name + seq!['"', ' '] + quoted);
    assert(scoped[scoped.len() - 1] == '"');
    text_laws::lemma_tight_is_trimmed(scoped);
    if has_suffix(scoped, ":"@) {
        assert(scoped.subrange(scoped.len() - 1, scoped.len() as int)[0] == ':');
    }
    let stripped = scoped.skip(1);
    assert(stripped =~= name + seq!['"', ' '] + quoted);
    assert(forall|i: int| 0 <= i < n ==> #[trigger] stripped[i] == name[i]);
    assert(stripped[n] == '"');
    lemma_char_at(stripped, '"', 0, n);
    assert(stripped.take(n) =~= name);
    let rest = stripped.skip(n + 1);
    assert(rest =~= seq![' '] + quoted + Seq::<char>::empty());
    text_laws::lemma_trimmed(seq![' '], quoted, Seq::<char>::empty());
}

} // verus!
