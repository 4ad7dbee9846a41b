//! What holds of every path.

use crate::paths;
use crate::paths::{
    absolute, all_steps, climbed, component_less, components, components_less, folded, is_name, normal, path_join, path_name, path_of,
    path_parent, path_under, path_within, place, segments,
};
use crate::text::Text;
use vstd::prelude::*;

verus! {

/// What is left of some segments depends only on what is left of those before: the rest is applied to
/// that.
proof fn lemma_folded_alike(x: Seq<Text>, y: Seq<Text>, rest: Seq<Text>)
    requires
        folded(x) == folded(y),
    ensures
        folded(x + rest) == folded(y + rest),
    decreases rest.len(),
{
    if rest.len() == 0 {
        assert(x + rest =~= x);
        assert(y + rest =~= y);
    } else {
        lemma_folded_alike(x, y, rest.drop_last());
        assert((x + rest).drop_last() =~= x + rest.drop_last());
        assert((y + rest).drop_last() =~= y + rest.drop_last());
        assert((x + rest).last() == rest.last());
        assert((y + rest).last() == rest.last());
    }
}

/// A `.` in a path leads nowhere, and a `..` takes back the name before it, wherever they stand; at the
/// beginning a `..` has nothing to take back.
pub proof fn lemma_folded(before: Seq<Text>, name: Text, rest: Seq<Text>)
    requires
        is_name(name),
    ensures
        folded(before.push("."@) + rest) == folded(before + rest),
        folded(before.push(name).push(".."@) + rest) == folded(before + rest),
        folded(seq![".."@] + rest) == folded(rest),
        folded(seq![name]) == seq![name],
        folded(before.push(name)) == folded(before).push(name),
{
    reveal_strlit(".");
    reveal_strlit("..");
    reveal_with_fuel(folded, 3);
    let dot = before.push("."@);
    assert(dot.drop_last() =~= before);
    lemma_folded_alike(dot, before, rest);
    let named = before.push(name);
    let back = named.push(".."@);
    assert(named.drop_last() =~= before);
    assert(back.drop_last() =~= named);
    assert(folded(named) =~= folded(before).push(name));
    assert(back.last() == ".."@);
    assert(".."@.len() == 2 && "."@.len() == 1);
    assert(folded(before).push(name).drop_last() =~= folded(before));
    assert(folded(back) =~= folded(before));
    lemma_folded_alike(back, before, rest);
    let up = seq![".."@];
    assert(up.drop_last() =~= Seq::<Text>::empty());
    assert(folded(up) =~= Seq::<Text>::empty());
    lemma_folded_alike(up, Seq::<Text>::empty(), rest);
    assert(Seq::<Text>::empty() + rest =~= rest);
    let one = seq![name];
    assert(one.drop_last() =~= Seq::<Text>::empty());
    assert(folded(one) =~= seq![name]);
}

/// The normal form of a path is that of the path without a detour: into a directory and back out of
/// it.
pub proof fn lemma_detour(from_root: bool, before: Seq<Text>, name: Text, rest: Seq<Text>)
    requires
        all_steps(before),
        all_steps(rest),
        is_name(name),
    ensures
        normal(path_of(from_root, before.push(name).push(".."@) + rest)) == normal(
            path_of(from_root, before + rest),
        ),
{
    reveal_strlit(".");
    reveal_strlit("..");
    let long = before.push(name).push(".."@) + rest;
    let short = before + rest;
    assert forall|i: int| 0 <= i < long.len() implies paths::is_step(#[trigger] long[i]) by {
        if i < before.len() {
            assert(long[i] == before[i]);
        } else if i == before.len() {
            assert(long[i] == name);
        } else if i == before.len() + 1 {
            assert(long[i] == ".."@);
        } else {
            assert(long[i] == rest[i - before.len() - 2]);
        }
    }
    assert forall|i: int| 0 <= i < short.len() implies paths::is_step(#[trigger] short[i]) by {
        if i < before.len() {
            assert(short[i] == before[i]);
        } else {
            assert(short[i] == rest[i - before.len()]);
        }
    }
    paths::lemma_segments_of_path(from_root, long);
    paths::lemma_segments_of_path(from_root, short);
    lemma_folded(before, name, rest);
}

/// A path in a directory has that directory as its parent and its last segment as its name.
pub proof fn lemma_parent_and_name(from_root: bool, dir: Seq<Text>, name: Text)
    requires
        all_steps(dir),
        is_name(name),
    ensures
        path_parent(path_of(from_root, dir.push(name))) == Some(path_of(from_root, dir)),
        path_name(path_of(from_root, dir.push(name))) == Some(name),
{
    let segs = dir.push(name);
    assert forall|i: int| 0 <= i < segs.len() implies paths::is_step(#[trigger] segs[i]) by {
        if i < dir.len() {
            assert(segs[i] == dir[i]);
        }
    }
    paths::lemma_segments_of_path(from_root, segs);
    assert(segs.drop_last() =~= dir);
}

/// A path lies below another where it goes on from it, and then its way from there is the rest.
pub proof fn lemma_below(from_root: bool, base: Seq<Text>, rest: Seq<Text>)
    requires
        all_steps(base),
        all_steps(rest),
    ensures
        path_under(path_of(from_root, base + rest), path_of(from_root, base)),
        path_within(path_of(from_root, base + rest), path_of(from_root, base)) == Some(
            path_of(false, rest),
        ),
        !path_under(path_of(!from_root, base + rest), path_of(from_root, base)),
{
    let segs = base + rest;
    assert forall|i: int| 0 <= i < segs.len() implies paths::is_step(#[trigger] segs[i]) by {
        if i < base.len() {
            assert(segs[i] == base[i]);
        } else {
            assert(segs[i] == rest[i - base.len()]);
        }
    }
    paths::lemma_segments_of_path(from_root, segs);
    paths::lemma_segments_of_path(!from_root, segs);
    paths::lemma_segments_of_path(from_root, base);
    assert(segs.take(base.len() as int) =~= base);
    assert(segs.skip(base.len() as int) =~= rest);
}

/// A path that takes another way than the directory does not lie below it.
pub proof fn lemma_beside(from_root: bool, base: Seq<Text>, p: Seq<Text>, i: int)
    requires
        all_steps(base),
        all_steps(p),
        0 <= i < base.len(),
        i >= p.len() || p[i] != base[i],
    ensures
        !path_under(path_of(from_root, p), path_of(from_root, base)),
        path_within(path_of(from_root, p), path_of(from_root, base)) is None,
{
    paths::lemma_segments_of_path(from_root, p);
    paths::lemma_segments_of_path(from_root, base);
    if base.len() <= p.len() {
        assert(p.take(base.len() as int)[i] == p[i]);
    }
}

/// A path from the root stays what it is, whatever it is joined to; any other is what follows the
/// directory, with one slash between them.
pub proof fn lemma_joined(dir: Text, p: Text)
    requires
        dir.len() > 0,
    ensures
        p.len() > 0 && p[0] == '/' ==> path_join(dir, p) == p,
        !(p.len() > 0 && p[0] == '/') ==> path_join(dir, p) == dir + p && dir[dir.len() - 1] == '/'
            || path_join(dir, p) == dir + seq!['/'] + p && dir[dir.len() - 1] != '/',
        path_join(""@, p) == p,
{
    reveal_strlit("");
}

/// What lies in a directory comes behind the directory.
pub proof fn lemma_content_comes_behind(dir: Seq<Text>, rest: Seq<Text>)
    requires
        rest.len() > 0,
    ensures
        components_less(dir, dir + rest),
        !components_less(dir + rest, dir),
    decreases dir.len(),
{
    let all = dir + rest;
    if dir.len() > 0 {
        assert(all[0] == dir[0]);
        assert(all.drop_first() =~= dir.drop_first() + rest);
        lemma_content_comes_behind(dir.drop_first(), rest);
    }
}

/// A name leads on, `.` stays, and `..` takes back a name. With nothing to take back it leads nowhere at
/// the root, and stays where there is no root.
pub proof fn lemma_climbed(from_root: bool, before: Seq<Text>, name: Text)
    requires
        is_name(name),
    ensures
        climbed(from_root, before.push(name)) == climbed(from_root, before).push(name),
        climbed(from_root, before.push("."@)) == climbed(from_root, before),
        climbed(from_root, before.push(name).push(".."@)) == climbed(from_root, before),
        climbed(true, seq![".."@]).len() == 0,
        climbed(false, seq![".."@]) == seq![".."@],
        climbed(false, seq![".."@, ".."@]) == seq![".."@, ".."@],
{
    reveal_strlit(".");
    reveal_strlit("..");
    assert(".."@.len() == 2 && "."@.len() == 1);
    reveal_with_fuel(climbed, 3);
    let named = before.push(name);
    assert(named.drop_last() =~= before);
    assert(before.push("."@).drop_last() =~= before);
    let back = named.push(".."@);
    assert(back.drop_last() =~= named);
    assert(climbed(from_root, named) == climbed(from_root, before).push(name));
    assert(climbed(from_root, named).drop_last() =~= climbed(from_root, before));
    let up = seq![".."@];
    assert(up.drop_last() =~= Seq::<Text>::empty());
    assert(climbed(false, up) =~= up);
    let higher = seq![".."@, ".."@];
    assert(higher.drop_last() =~= up);
    assert(climbed(false, higher) =~= higher);
}

/// The components of a path from the root begin with the root; those of any other are its segments.
pub proof fn lemma_components(segs: Seq<Text>)
    requires
        all_steps(segs),
    ensures
        components(path_of(true, segs)) == seq!["/"@] + segs,
        segs.len() > 0 ==> components(path_of(false, segs)) == segs,
{
    paths::lemma_segments_of_path(true, segs);
    paths::lemma_segments_of_path(false, segs);
}

/// The root comes before `.`, that before `..`, and these before all names; names are ordered as texts.
pub proof fn lemma_component_order(a: Text, b: Text)
    requires
        is_name(a) && is_name(b),
    ensures
        component_less("/"@, "."@) && component_less("."@, ".."@) && component_less(".."@, a),
        component_less("/"@, a) && component_less("."@, a),
        !component_less(a, "/"@) && !component_less(a, "."@) && !component_less(a, ".."@),
        component_less(a, b) <==> crate::text::text_less(a, b),
{
    reveal_strlit("/");
    reveal_strlit(".");
    reveal_strlit("..");
    assert("/"@[0] == '/' && "."@[0] == '.' && ".."@.len() == 2 && "."@.len() == 1 && "/"@.len()
        == 1);
    assert("/"@ != "."@ && "/"@ != ".."@ && "."@ != ".."@);
    if a == "/"@ {
        assert(a[0] != '/');
    }
    if b == "/"@ {
        assert(b[0] != '/');
    }
}

/// Of two paths that differ first in one segment, the one comes first whose segment does.
pub proof fn lemma_first_difference(
    front: Seq<Text>,
    a: Text,
    b: Text,
    x: Seq<Text>,
    y: Seq<Text>,
)
    requires
        a != b,
    ensures
        components_less(front.push(a) + x, front.push(b) + y) <==> component_less(a, b),
    decreases front.len(),
{
    let p = front.push(a) + x;
    let q = front.push(b) + y;
    if front.len() > 0 {
        let rest = front.drop_first();
        assert(p[0] == front[0] && q[0] == front[0]);
        assert(p.drop_first() =~= rest.push(a) + x);
        assert(q.drop_first() =~= rest.push(b) + y);
        lemma_first_difference(rest, a, b, x, y);
    } else {
        assert(p[0] == a && q[0] == b);
    }
}

/// A path that leads by a name and back leads where it would without.
pub proof fn lemma_place_detour(from_root: bool, before: Seq<Text>, name: Text)
    requires
        all_steps(before),
        is_name(name),
        before.len() > 0,
    ensures
        place(path_of(from_root, before.push(name).push(".."@))) == place(
            path_of(from_root, before),
        ),
{
    reveal_strlit(".");
    reveal_strlit("..");
    assert(".."@.len() == 2 && "."@.len() == 1);
    let long = before.push(name).push(".."@);
    assert forall|i: int| 0 <= i < long.len() implies paths::is_step(#[trigger] long[i]) by {
        if i < before.len() {
            assert(long[i] == before[i]);
        } else if i == before.len() {
            assert(long[i] == name);
        } else {
            assert(long[i] == ".."@);
        }
    }
    paths::lemma_segments_of_path(from_root, long);
    paths::lemma_segments_of_path(from_root, before);
    lemma_climbed(from_root, before, name);
}

} // verus!
