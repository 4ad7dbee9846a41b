//! What holds of every specifier of a package and of every `exports`.

use crate::collections::lemma_push_contains;
use crate::files::FileTree;
use crate::json::{json_document, member_of, Json};
use crate::paths::{normal, path_join, tidy};
use crate::semantic::package_exports::{
    best_key, distinct_roots, files_of, has_subpaths, package_at, package_files, put_in, strings_in,
    strings_in_items, strings_in_members, subpath_of, subpath_targets, targets_of, with_stars, PackageView,
};
use crate::semantic::tsconfig_paths::{captured, prefix_len};
use crate::text;
use crate::text::{bytes_in, first, has_prefix, has_suffix, occurs_at, replaced, Text};
use crate::text_laws::is_without;
use crate::types::ProjectView;
use vstd::prelude::*;

verus! {

// ---------------------------------------------------------------------------
// Stars
// ---------------------------------------------------------------------------

/// A key with a `*` fits what begins as it does before the `*` and ends as it does behind it; the
/// `*` stands for what lies between.
pub proof fn lemma_star_captures(prefix: Text, suffix: Text, middle: Text)
    requires
        is_without(prefix, '*'),
    ensures
        captured(prefix + seq!['*'] + suffix, prefix + middle + suffix) == Some(middle),
        prefix_len(prefix + seq!['*'] + suffix) == prefix.len(),
{
    let key = prefix + seq!['*'] + suffix;
    let n = prefix.len() as int;
    lemma_star_at(prefix, suffix);
    let specifier = prefix + middle + suffix;
    assert(key.take(n) =~= prefix);
    assert(key.skip(n + 1) =~= suffix);
    assert(specifier.subrange(0, n) =~= prefix);
    let rest = specifier.skip(n);
    assert(rest =~= middle + suffix);
    assert(rest.subrange(middle.len() as int, rest.len() as int) =~= suffix);
    assert(rest.take(middle.len() as int) =~= middle);
}

proof fn lemma_star_at(prefix: Text, suffix: Text)
    requires
        is_without(prefix, '*'),
    ensures
        first(prefix + seq!['*'] + suffix, "*"@) == Some(prefix.len() as int),
{
    reveal_strlit("*");
    let key = prefix + seq!['*'] + suffix;
    let n = prefix.len() as int;
    let star = "*"@;
    text::lemma_first_from(key, star, 0);
    assert(key.subrange(n, n + 1) =~= star);
    assert(occurs_at(key, star, n));
    let i = first(key, star)->0;
    if i < n {
        assert(key.subrange(i, i + 1)[0] == prefix[i]);
    }
}

/// What a key captures lies between its two parts: a specifier that does not begin and end as the
/// key does is captured by none.
pub proof fn lemma_star_fits(key: Text, specifier: Text)
    requires
        captured(key, specifier) is Some,
    ensures
        exists|prefix: Text, suffix: Text|
            is_without(prefix, '*') && key == #[trigger] (prefix + seq!['*'] + suffix) && specifier
                == prefix + captured(key, specifier)->0 + suffix,
{
    reveal_strlit("*");
    text::lemma_first_from(key, "*"@, 0);
    let i = first(key, "*"@)->0;
    let prefix = key.take(i);
    let suffix = key.skip(i + 1);
    assert(key.subrange(i, i + 1)[0] == '*');
    assert forall|j: int| 0 <= j < prefix.len() implies #[trigger] prefix[j] != '*' by {
        if prefix[j] == '*' {
            assert(key.subrange(j, j + 1) =~= "*"@);
            assert(occurs_at(key, "*"@, j));
        }
    }
    let rest = specifier.skip(i);
    let middle = captured(key, specifier)->0;
    assert(rest.subrange(rest.len() - suffix.len(), rest.len() as int) =~= suffix);
    assert(rest =~= middle + suffix);
    assert(specifier.subrange(0, i) =~= prefix);
    assert(specifier =~= prefix + middle + suffix);
    assert(key =~= prefix + seq!['*'] + suffix);
}

// ---------------------------------------------------------------------------
// The texts in a value
// ---------------------------------------------------------------------------

/// The text stands in the value, as the value itself or at any depth in its lists and members.
pub open spec fn is_inside(value: Json, t: Text) -> bool
    decreases value,
{
    match value {
        Json::Text(s) => s@ == t,
        Json::Array(items) => exists|i: int|
            0 <= i < items@.len() && is_inside(#[trigger] items@[i], t),
        Json::Object(members) => exists|i: int|
            0 <= i < members@.len() && is_inside((#[trigger] members@[i]).1, t),
        _ => false,
    }
}

/// The targets in a value are all texts in it, with the stars filled in, and no other.
proof fn lemma_strings(value: Json, wildcard: Option<Text>, target: Text)
    ensures
        strings_in(value, wildcard).contains(target) <==> exists|t: Text| #[trigger]
            is_inside(value, t) && target == with_stars(t, wildcard),
    decreases value,
{
    match value {
        Json::Text(s) => {
            assert(strings_in(value, wildcard) =~= seq![with_stars(s@, wildcard)]);
            if strings_in(value, wildcard).contains(target) {
                assert(is_inside(value, s@));
            }
            if exists|t: Text| #[trigger] is_inside(value, t) && target == with_stars(t, wildcard) {
                assert(strings_in(value, wildcard)[0] == target);
            }
        },
        Json::Array(items) => {
            assert(decreases_to!(value => value->Array_0));
            assert(decreases_to!(value->Array_0 => value->Array_0@));
            lemma_strings_of_items(items@, wildcard, target);
            if strings_in(value, wildcard).contains(target) {
                let (i, t) = choose|i: int, t: Text|
                    0 <= i < items@.len() && #[trigger] is_inside(items@[i], t) && target
                        == with_stars(t, wildcard);
                assert(is_inside(value, t));
            }
            if exists|t: Text| #[trigger] is_inside(value, t) && target == with_stars(t, wildcard) {
                let t = choose|t: Text| #[trigger]
                    is_inside(value, t) && target == with_stars(t, wildcard);
                let i = choose|i: int| 0 <= i < items@.len() && is_inside(#[trigger] items@[i], t);
                assert(is_inside(items@[i], t));
            }
        },
        Json::Object(members) => {
            assert(decreases_to!(value => value->Object_0));
            assert(decreases_to!(value->Object_0 => value->Object_0@));
            lemma_strings_of_members(members@, wildcard, target);
            if strings_in(value, wildcard).contains(target) {
                let (i, t) = choose|i: int, t: Text|
                    0 <= i < members@.len() && #[trigger] is_inside(members@[i].1, t) && target
                        == with_stars(t, wildcard);
                assert(is_inside(members@[i].1, t));
                assert(is_inside(value, t));
            }
            if exists|t: Text| #[trigger] is_inside(value, t) && target == with_stars(t, wildcard) {
                let t = choose|t: Text| #[trigger]
                    is_inside(value, t) && target == with_stars(t, wildcard);
                let i = choose|i: int|
                    0 <= i < members@.len() && is_inside((#[trigger] members@[i]).1, t);
                assert(is_inside(members@[i].1, t));
            }
        },
        _ => {},
    }
}

proof fn lemma_strings_of_items(items: Seq<Json>, wildcard: Option<Text>, target: Text)
    ensures
        strings_in_items(items, wildcard).contains(target) <==> exists|i: int, t: Text|
            0 <= i < items.len() && #[trigger] is_inside(items[i], t) && target == with_stars(
                t,
                wildcard,
            ),
    decreases items,
{
    if items.len() > 0 {
        let n = items.len() - 1;
        let init = items.subrange(0, n);
        lemma_strings_of_items(init, wildcard, target);
        lemma_strings(items[n], wildcard, target);
        lemma_in_both(strings_in_items(init, wildcard), strings_in(items[n], wildcard), target);
        assert forall|i: int| 0 <= i < n implies init[i] == #[trigger] items[i] by {}
        if strings_in_items(init, wildcard).contains(target) {
            let (i, t) = choose|i: int, t: Text|
                0 <= i < init.len() && #[trigger] is_inside(init[i], t) && target == with_stars(
                    t,
                    wildcard,
                );
            assert(is_inside(items[i], t));
        }
        if exists|i: int, t: Text|
            0 <= i < items.len() && #[trigger] is_inside(items[i], t) && target == with_stars(
                t,
                wildcard,
            ) {
            let (i, t) = choose|i: int, t: Text|
                0 <= i < items.len() && #[trigger] is_inside(items[i], t) && target == with_stars(
                    t,
                    wildcard,
                );
            if i < n {
                assert(is_inside(init[i], t));
            }
        }
    }
}

proof fn lemma_strings_of_members(
    members: Seq<(String, Json)>,
    wildcard: Option<Text>,
    target: Text,
)
    ensures
        strings_in_members(members, wildcard).contains(target) <==> exists|i: int, t: Text|
            0 <= i < members.len() && #[trigger] is_inside(members[i].1, t) && target == with_stars(
                t,
                wildcard,
            ),
    decreases members,
{
    if members.len() > 0 {
        let n = members.len() - 1;
        let init = members.subrange(0, n);
        lemma_strings_of_members(init, wildcard, target);
        assert(decreases_to!(members => members[n]));
        assert(decreases_to!(members[n] => members[n].1));
        lemma_strings(members[n].1, wildcard, target);
        lemma_in_both(
            strings_in_members(init, wildcard),
            strings_in(members[n].1, wildcard),
            target,
        );
        assert forall|i: int| 0 <= i < n implies init[i] == #[trigger] members[i] by {}
        if strings_in_members(init, wildcard).contains(target) {
            let (i, t) = choose|i: int, t: Text|
                0 <= i < init.len() && #[trigger] is_inside(init[i].1, t) && target == with_stars(
                    t,
                    wildcard,
                );
            assert(is_inside(members[i].1, t));
        }
        if exists|i: int, t: Text|
            0 <= i < members.len() && #[trigger] is_inside(members[i].1, t) && target == with_stars(
                t,
                wildcard,
            ) {
            let (i, t) = choose|i: int, t: Text|
                0 <= i < members.len() && #[trigger] is_inside(members[i].1, t) && target
                    == with_stars(t, wildcard);
            if i < n {
                assert(is_inside(init[i].1, t));
            }
        }
    }
}

proof fn lemma_in_both(x: Seq<Text>, y: Seq<Text>, t: Text)
    ensures
        (x + y).contains(t) <==> x.contains(t) || y.contains(t),
{
    if x.contains(t) {
        let i = choose|i: int| 0 <= i < x.len() && x[i] == t;
        assert((x + y)[i] == t);
    }
    if y.contains(t) {
        let i = choose|i: int| 0 <= i < y.len() && y[i] == t;
        assert((x + y)[x.len() + i] == t);
    }
    if (x + y).contains(t) {
        let i = choose|i: int| 0 <= i < (x + y).len() && (x + y)[i] == t;
        if i < x.len() {
            assert(x[i] == t);
        } else {
            assert(y[i - x.len()] == t);
        }
    }
}

// ---------------------------------------------------------------------------
// The files of a subpath
// ---------------------------------------------------------------------------

/// The file of a target: below the root of the package.
pub open spec fn file_at(p: PackageView, target: Text) -> Text {
    normal(path_join(p.root, target))
}

/// The key says where a subpath of the package leads.
pub open spec fn is_subpath_key(key: Text) -> bool {
    key.len() > 0 && key[0] == '.'
}

/// No key says where a subpath leads.
pub open spec fn has_conditions_only(members: Seq<(String, Json)>) -> bool {
    forall|i: int| 0 <= i < members.len() ==> !is_subpath_key((#[trigger] members[i]).0@)
}

proof fn lemma_subpath_keys(members: Seq<(String, Json)>)
    ensures
        has_subpaths(members) <==> !has_conditions_only(members),
{
    reveal_strlit(".");
    assert forall|i: int| 0 <= i < members.len() implies (has_prefix(members[i].0@, "."@)
        <==> is_subpath_key((#[trigger] members[i]).0@)) by {
        let key = members[i].0@;
        if has_prefix(key, "."@) {
            assert(key.subrange(0, 1)[0] == '.');
        }
        if is_subpath_key(key) {
            assert(key.subrange(0, 1) =~= "."@);
        }
    }
    if has_subpaths(members) {
        let i = choose|i: int|
            0 <= i < members.len() && has_prefix((#[trigger] members[i]).0@, "."@);
        assert(is_subpath_key(members[i].0@));
    }
    if !has_conditions_only(members) {
        let i = choose|i: int| 0 <= i < members.len() && is_subpath_key((#[trigger] members[i]).0@);
        assert(has_prefix(members[i].0@, "."@));
    }
}

proof fn lemma_files(p: PackageView, subpath: Text, exports: Json, file: Text)
    requires
        p.manifest.member("exports"@) == Some(exports),
    ensures
        files_of(p, subpath).contains(file) <==> exists|target: Text| #[trigger]
            targets_of(exports, subpath).contains(target) && file == file_at(p, target),
{
    let targets = targets_of(exports, subpath);
    let files = files_of(p, subpath);
    if files.contains(file) {
        let i = choose|i: int| 0 <= i < files.len() && files[i] == file;
        assert(targets.contains(targets[i]) && file == file_at(p, targets[i]));
    }
    if exists|target: Text| #[trigger] targets.contains(target) && file == file_at(p, target) {
        let target = choose|target: Text| #[trigger]
            targets.contains(target) && file == file_at(p, target);
        let i = choose|i: int| 0 <= i < targets.len() && targets[i] == target;
        assert(files[i] == file);
    }
}

/// A package without `exports` gives out every file: a subpath is the file of that name.
pub proof fn lemma_no_exports(p: PackageView, subpath: Text)
    requires
        p.manifest.member("exports"@) is None,
    ensures
        files_of(p, subpath) == seq![file_at(p, subpath)],
{
    assert(files_of(p, subpath) =~= seq![file_at(p, subpath)]);
}

/// An `exports` that is one path is what the package itself stands for; no subpath leads anywhere.
pub proof fn lemma_single_export(p: PackageView, target: String, subpath: Text)
    requires
        p.manifest.member("exports"@) == Some(Json::Text(target)),
    ensures
        files_of(p, "."@) == seq![file_at(p, target@)],
        subpath != "."@ ==> files_of(p, subpath) == Seq::<Text>::empty(),
{
    assert(files_of(p, "."@) =~= seq![file_at(p, target@)]);
    assert(subpath != "."@ ==> files_of(p, subpath) =~= Seq::<Text>::empty());
}

/// An `exports` without subpaths, such as one of conditions alone or a list, gives every file that it
/// names for the package itself, under whatever condition, and no other; no subpath leads anywhere.
pub proof fn lemma_conditional_exports(p: PackageView, exports: Json, subpath: Text, file: Text)
    requires
        p.manifest.member("exports"@) == Some(exports),
        exports matches Json::Object(members) ==> has_conditions_only(members@),
    ensures
        files_of(p, "."@).contains(file) <==> exists|t: Text| #[trigger]
            is_inside(exports, t) && file == file_at(p, t),
        subpath != "."@ ==> files_of(p, subpath) == Seq::<Text>::empty(),
{
    if let Json::Object(members) = exports {
        lemma_subpath_keys(members@);
    }
    lemma_files(p, "."@, exports, file);
    assert forall|target: Text| #[trigger] targets_of(exports, "."@).contains(target)
        <==> is_inside(exports, target) by {
        lemma_strings(exports, None, target);
        if is_inside(exports, target) {
            assert(target == with_stars(target, None));
        }
    }
    if files_of(p, "."@).contains(file) {
        let target = choose|target: Text| #[trigger]
            targets_of(exports, "."@).contains(target) && file == file_at(p, target);
        assert(is_inside(exports, target));
    }
    if exists|t: Text| #[trigger] is_inside(exports, t) && file == file_at(p, t) {
        let t = choose|t: Text| #[trigger] is_inside(exports, t) && file == file_at(p, t);
        assert(targets_of(exports, "."@).contains(t));
    }
    assert(subpath != "."@ ==> files_of(p, subpath) =~= Seq::<Text>::empty());
}

/// A subpath that `exports` names leads to every file that stands there, and to no other.
pub proof fn lemma_named_subpath(
    p: PackageView,
    members: Vec<(String, Json)>,
    i: int,
    file: Text,
)
    requires
        p.manifest.member("exports"@) == Some(Json::Object(members)),
        0 <= i < members@.len(),
        is_subpath_key(members@[i].0@),
        forall|j: int| 0 <= j < i ==> (#[trigger] members@[j]).0@ != members@[i].0@,
    ensures
        files_of(p, members@[i].0@).contains(file) <==> exists|t: Text| #[trigger]
            is_inside(members@[i].1, t) && file == file_at(p, t),
{
    let exports = Json::Object(members);
    let subpath = members@[i].0@;
    let value = members@[i].1;
    lemma_subpath_keys(members@);
    lemma_member(members@, i);
    lemma_files(p, subpath, exports, file);
    assert forall|target: Text| #[trigger] targets_of(exports, subpath).contains(target)
        <==> is_inside(value, target) by {
        lemma_strings(value, None, target);
        if is_inside(value, target) {
            assert(target == with_stars(target, None));
        }
    }
    if files_of(p, subpath).contains(file) {
        let target = choose|target: Text| #[trigger]
            targets_of(exports, subpath).contains(target) && file == file_at(p, target);
        assert(is_inside(value, target));
    }
    if exists|t: Text| #[trigger] is_inside(value, t) && file == file_at(p, t) {
        let t = choose|t: Text| #[trigger] is_inside(value, t) && file == file_at(p, t);
        assert(targets_of(exports, subpath).contains(t));
    }
}

/// The first member with a key is the member with that key.
pub proof fn lemma_member(members: Seq<(String, Json)>, i: int)
    requires
        0 <= i < members.len(),
        forall|j: int| 0 <= j < i ==> (#[trigger] members[j]).0@ != members[i].0@,
    ensures
        member_of(members, members[i].0@) == Some(members[i].1),
    decreases members.len(),
{
    if i > 0 {
        assert(members[0].0@ != members[i].0@);
        let rest = members.drop_first();
        assert(rest[i - 1] == members[i]);
        assert forall|j: int| 0 <= j < i - 1 implies (#[trigger] rest[j]).0@ != members[i].0@ by {
            assert(rest[j] == members[j + 1]);
        }
        lemma_member(rest, i - 1);
    }
}

/// A key that no member has leads to none.
pub proof fn lemma_no_member(members: Seq<(String, Json)>, key: Text)
    requires
        forall|i: int| 0 <= i < members.len() ==> (#[trigger] members[i]).0@ != key,
    ensures
        member_of(members, key) is None,
    decreases members.len(),
{
    if members.len() > 0 {
        assert(members[0].0@ != key);
        let rest = members.drop_first();
        assert forall|i: int| 0 <= i < rest.len() implies (#[trigger] rest[i]).0@ != key by {
            assert(rest[i] == members[i + 1]);
        }
        lemma_no_member(rest, key);
    }
}

/// A subpath that `exports` does not name leads where the key with a `*` says that fits it best: with
/// what the `*` stands for put in for every `*` of the targets.
pub proof fn lemma_starred_subpath(
    p: PackageView,
    members: Vec<(String, Json)>,
    b: int,
    prefix: Text,
    suffix: Text,
    middle: Text,
    file: Text,
)
    requires
        p.manifest.member("exports"@) == Some(Json::Object(members)),
        0 <= b < members@.len(),
        is_without(prefix, '*'),
        members@[b].0@ == prefix + seq!['*'] + suffix,
        is_subpath_key(members@[b].0@),
        forall|i: int|
            0 <= i < members@.len() ==> (#[trigger] members@[i]).0@ != prefix + middle + suffix,
        forall|i: int|
            0 <= i < members@.len() && i != b && captured(
                (#[trigger] members@[i]).0@,
                prefix + middle + suffix,
            ) is Some ==> prefix_len(members@[i].0@) < prefix.len(),
    ensures
        files_of(p, prefix + middle + suffix).contains(file) <==> exists|t: Text| #[trigger]
            is_inside(members@[b].1, t) && file == file_at(p, replaced(t, "*"@, middle)),
{
    let exports = Json::Object(members);
    let subpath = prefix + middle + suffix;
    let value = members@[b].1;
    lemma_subpath_keys(members@);
    lemma_no_member(members@, subpath);
    lemma_star_captures(prefix, suffix, middle);
    lemma_best_key(members@, subpath, b);
    lemma_files(p, subpath, exports, file);
    if files_of(p, subpath).contains(file) {
        let target = choose|target: Text| #[trigger]
            targets_of(exports, subpath).contains(target) && file == file_at(p, target);
        lemma_strings(value, Some(middle), target);
        let t = choose|t: Text| #[trigger]
            is_inside(value, t) && target == with_stars(t, Some(middle));
        assert(is_inside(value, t) && file == file_at(p, replaced(t, "*"@, middle)));
    }
    if exists|t: Text| #[trigger]
        is_inside(value, t) && file == file_at(p, replaced(t, "*"@, middle)) {
        let t = choose|t: Text| #[trigger]
            is_inside(value, t) && file == file_at(p, replaced(t, "*"@, middle));
        lemma_strings(value, Some(middle), replaced(t, "*"@, middle));
        assert(targets_of(exports, subpath).contains(replaced(t, "*"@, middle)));
    }
}

proof fn lemma_best_key(members: Seq<(String, Json)>, subpath: Text, b: int)
    requires
        0 <= b < members.len(),
        captured(members[b].0@, subpath) is Some,
        forall|i: int|
            0 <= i < members.len() && i != b && captured((#[trigger] members[i]).0@, subpath) is Some
                ==> prefix_len(members[i].0@) < prefix_len(members[b].0@),
    ensures
        best_key(members, subpath) == Some(b),
    decreases members.len(),
{
    let init = members.drop_last();
    let n = members.len() - 1;
    if b < n {
        assert(init[b] == members[b]);
        assert forall|i: int|
            0 <= i < init.len() && i != b && captured(
                (#[trigger] init[i]).0@,
                subpath,
            ) is Some implies prefix_len(init[i].0@) < prefix_len(init[b].0@) by {
            assert(init[i] == members[i]);
        }
        lemma_best_key(init, subpath, b);
        assert(members[n] == members.last());
    } else {
        lemma_best_key_fits(init, subpath);
        if let Some(c) = best_key(init, subpath) {
            assert(init[c] == members[c]);
        }
    }
}

proof fn lemma_best_key_fits(members: Seq<(String, Json)>, subpath: Text)
    ensures
        best_key(members, subpath) matches Some(b) ==> 0 <= b < members.len() && captured(
            members[b].0@,
            subpath,
        ) is Some,
    decreases members.len(),
{
    if members.len() > 0 {
        lemma_best_key_fits(members.drop_last(), subpath);
        if let Some(b) = best_key(members.drop_last(), subpath) {
            assert(members.drop_last()[b] == members[b]);
        }
    }
}

/// A subpath that no key names and no key with a `*` fits leads nowhere.
pub proof fn lemma_unknown_subpath(p: PackageView, members: Vec<(String, Json)>, subpath: Text)
    requires
        p.manifest.member("exports"@) == Some(Json::Object(members)),
        !has_conditions_only(members@),
        forall|i: int|
            0 <= i < members@.len() ==> (#[trigger] members@[i]).0@ != subpath && captured(
                members@[i].0@,
                subpath,
            ) is None,
    ensures
        files_of(p, subpath) == Seq::<Text>::empty(),
{
    lemma_subpath_keys(members@);
    lemma_no_member(members@, subpath);
    lemma_best_key_fits(members@, subpath);
    assert(files_of(p, subpath) =~= Seq::<Text>::empty());
}

// ---------------------------------------------------------------------------
// The package of a specifier
// ---------------------------------------------------------------------------

/// The specifier names the package itself or something in it: what follows the name, if anything,
/// begins with a slash.
pub open spec fn is_of_package(specifier: Text, name: Text) -> bool {
    specifier == name || exists|rest: Text| specifier == #[trigger] (name + seq!['/'] + rest)
}

proof fn lemma_subpath(specifier: Text, name: Text)
    ensures
        subpath_of(specifier, name) is Some <==> is_of_package(specifier, name),
        specifier == name ==> subpath_of(specifier, name) == Some("."@),
        forall|rest: Text|
            specifier == #[trigger] (name + seq!['/'] + rest) ==> subpath_of(specifier, name)
                == Some("./"@ + rest),
{
    reveal_strlit("/");
    let n = name.len() as int;
    if specifier == name {
        assert(specifier.subrange(0, n) =~= name);
    }
    assert forall|rest: Text| specifier == #[trigger] (name + seq!['/'] + rest) implies subpath_of(
        specifier,
        name,
    ) == Some("./"@ + rest) by {
        assert(specifier.subrange(0, n) =~= name);
        let tail = specifier.skip(n);
        assert(tail =~= seq!['/'] + rest);
        assert(tail.subrange(0, 1) =~= "/"@);
        assert(tail.skip(1) =~= rest);
    }
    if subpath_of(specifier, name) is Some && specifier != name {
        let tail = specifier.skip(n);
        assert(specifier.subrange(0, n) =~= name);
        if tail.len() == 0 {
            assert(specifier =~= name);
        } else {
            assert(tail.subrange(0, 1)[0] == '/');
            assert(specifier =~= name + seq!['/'] + tail.skip(1));
        }
    }
}

/// A specifier stands for what the first package that it names gives out: for the package itself
/// where it is the name alone, and for the subpath behind the name where there is one.
pub proof fn lemma_specifier_of_package(
    packages: Seq<PackageView>,
    i: int,
    specifier: Text,
    rest: Text,
)
    requires
        0 <= i < packages.len(),
        forall|j: int| 0 <= j < i ==> !is_of_package(specifier, (#[trigger] packages[j]).name),
    ensures
        specifier == packages[i].name ==> package_files(packages, specifier) == files_of(
            packages[i],
            "."@,
        ),
        specifier == packages[i].name + seq!['/'] + rest ==> package_files(packages, specifier)
            == files_of(packages[i], "./"@ + rest),
    decreases i,
{
    if i == 0 {
        lemma_subpath(specifier, packages[0].name);
    } else {
        assert(!is_of_package(specifier, packages[0].name));
        lemma_subpath(specifier, packages[0].name);
        let tail = packages.drop_first();
        assert(tail[i - 1] == packages[i]);
        assert forall|j: int| 0 <= j < i - 1 implies !is_of_package(
            specifier,
            (#[trigger] tail[j]).name,
        ) by {
            assert(tail[j] == packages[j + 1]);
        }
        lemma_specifier_of_package(tail, i - 1, specifier, rest);
    }
}

/// A specifier that names no package stands for no file.
pub proof fn lemma_foreign_specifier(packages: Seq<PackageView>, specifier: Text)
    requires
        forall|j: int|
            0 <= j < packages.len() ==> !is_of_package(specifier, (#[trigger] packages[j]).name),
    ensures
        package_files(packages, specifier) == Seq::<Text>::empty(),
    decreases packages.len(),
{
    if packages.len() > 0 {
        assert(!is_of_package(specifier, packages[0].name));
        lemma_subpath(specifier, packages[0].name);
        let tail = packages.drop_first();
        assert forall|j: int| 0 <= j < tail.len() implies !is_of_package(
            specifier,
            (#[trigger] tail[j]).name,
        ) by {
            assert(tail[j] == packages[j + 1]);
        }
        lemma_foreign_specifier(tail, specifier);
    }
}

/// The texts in a value come in order, at any depth, with the stars filled in.
pub proof fn lemma_strings_in_order(
    items: Seq<Json>,
    members: Seq<(String, Json)>,
    key: String,
    v: Json,
    s: String,
    wildcard: Option<Text>,
)
    ensures
        strings_in(Json::Text(s), wildcard) == seq![with_stars(s@, wildcard)],
        strings_in_items(Seq::empty(), wildcard).len() == 0,
        strings_in_items(items.push(v), wildcard) == strings_in_items(items, wildcard) + strings_in(
            v,
            wildcard,
        ),
        strings_in_members(Seq::empty(), wildcard).len() == 0,
        strings_in_members(members.push((key, v)), wildcard) == strings_in_members(members, wildcard)
            + strings_in(v, wildcard),
        strings_in(Json::Null, wildcard).len() == 0,
{
    let more = items.push(v);
    assert(more.subrange(0, more.len() - 1) =~= items);
    assert(more[more.len() - 1] == v);
    let all = members.push((key, v));
    assert(all.subrange(0, all.len() - 1) =~= members);
    assert(all[all.len() - 1] == (key, v));
}

/// A package is put behind all whose names are as long or longer, and before the others.
pub proof fn lemma_put_in(a: Seq<PackageView>, b: Seq<PackageView>, p: PackageView)
    requires
        a.len() > 0 ==> bytes_in(a.last().name) >= bytes_in(p.name),
        forall|i: int| 0 <= i < b.len() ==> bytes_in((#[trigger] b[i]).name) < bytes_in(p.name),
    ensures
        put_in(a + b, p) == a.push(p) + b,
    decreases b.len(),
{
    let list = a + b;
    if b.len() > 0 {
        let init = b.drop_last();
        let n = b.len() - 1;
        assert(list.last() == b[n]);
        assert(list.drop_last() =~= a + init);
        assert forall|i: int| 0 <= i < init.len() implies bytes_in((#[trigger] init[i]).name)
            < bytes_in(p.name) by {
            assert(init[i] == b[i]);
        }
        lemma_put_in(a, init, p);
        assert((a.push(p) + init).push(b[n]) =~= a.push(p) + b);
    } else {
        assert(list =~= a);
        assert(a.push(p) + b =~= a.push(p));
    }
}

/// The key with a star that fits best fits, and no other that fits has more before its star, or as much
/// and comes later.
pub proof fn lemma_best_star(members: Seq<(String, Json)>, subpath: Text, j: int)
    requires
        0 <= j < members.len(),
        captured(members[j].0@, subpath) is Some,
    ensures
        best_key(members, subpath) matches Some(b) && 0 <= b < members.len() && captured(
            members[b].0@,
            subpath,
        ) is Some && (prefix_len(members[j].0@) < prefix_len(members[b].0@) || (prefix_len(
            members[j].0@,
        ) == prefix_len(members[b].0@) && j <= b)),
    decreases members.len(),
{
    let init = members.drop_last();
    let n = members.len() - 1;
    if j < n {
        assert(init[j] == members[j]);
        lemma_best_star(init, subpath, j);
        let b = best_key(init, subpath)->0;
        assert(init[b] == members[b]);
    } else if exists|k: int| 0 <= k < init.len() && captured(#[trigger] init[k].0@, subpath) is Some {
        let k = choose|k: int| 0 <= k < init.len() && captured(#[trigger] init[k].0@, subpath) is Some;
        lemma_best_star(init, subpath, k);
        let b = best_key(init, subpath)->0;
        assert(init[b] == members[b]);
        lemma_best_of_some(init, subpath);
    } else {
        lemma_no_best(init, subpath);
    }
}

proof fn lemma_no_best(members: Seq<(String, Json)>, subpath: Text)
    requires
        forall|k: int| 0 <= k < members.len() ==> captured(#[trigger] members[k].0@, subpath) is None,
    ensures
        best_key(members, subpath) is None,
    decreases members.len(),
{
    if members.len() > 0 {
        let init = members.drop_last();
        assert forall|k: int| 0 <= k < init.len() implies captured(
            #[trigger] init[k].0@,
            subpath,
        ) is None by {
            assert(init[k] == members[k]);
        }
        lemma_no_best(init, subpath);
        assert(captured(members[members.len() - 1].0@, subpath) is None);
    }
}

proof fn lemma_best_of_some(members: Seq<(String, Json)>, subpath: Text)
    ensures
        best_key(members, subpath) matches Some(b) ==> 0 <= b < members.len(),
    decreases members.len(),
{
    if members.len() > 0 {
        lemma_best_of_some(members.drop_last(), subpath);
    }
}

/// The roots of projects are kept once each, in tidy form.
pub proof fn lemma_distinct_roots(projects: Seq<ProjectView>, root: Text)
    ensures
        distinct_roots(projects).no_duplicates(),
        distinct_roots(projects).contains(root) <==> exists|i: int|
            0 <= i < projects.len() && tidy((#[trigger] projects[i]).root) == root,
    decreases projects.len(),
{
    if projects.len() > 0 {
        let init = projects.drop_last();
        let n = projects.len() - 1;
        lemma_distinct_roots(init, root);
        lemma_push_contains(distinct_roots(init), tidy(projects.last().root), root);
        assert(projects[n] == projects.last());
        if distinct_roots(init).contains(root) {
            let i = choose|i: int| 0 <= i < init.len() && tidy((#[trigger] init[i]).root) == root;
            assert(projects[i] == init[i]);
        }
        if exists|i: int| 0 <= i < projects.len() && tidy((#[trigger] projects[i]).root) == root {
            let i = choose|i: int|
                0 <= i < projects.len() && tidy((#[trigger] projects[i]).root) == root;
            if i < n {
                assert(init[i] == projects[i]);
            }
        }
    }
}

/// The package of a root is what its manifest says, under the name that it gives; without a name there is
/// none.
pub proof fn lemma_package_at(
    tree: FileTree,
    cwd: Text,
    root: Text,
    content: Text,
    manifest: Json,
    name: String,
)
    requires
        tree.content(path_join(path_join(cwd, root), "package.json"@)) == Some(content),
    ensures
        json_document(content) == Ok::<Json, Text>(manifest) && manifest.member("name"@) == Some(
            Json::Text(name),
        ) ==> (package_at(tree, cwd, root) matches Some(p) && p.name == name@ && p.root == root
            && p.manifest == manifest),
        json_document(content) == Ok::<Json, Text>(manifest) && manifest.member("name"@) is None
            ==> package_at(tree, cwd, root) is None,
        json_document(content) is Err ==> package_at(tree, cwd, root) is None,
{
}

} // verus!
