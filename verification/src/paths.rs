//! Paths as texts with `/` between their segments.

use crate::text;
use crate::text::{char_from, joined, pieces, text_less, Text};
use vstd::prelude::*;

verus! {

/// The path begins at the root.
pub open spec fn absolute(p: Text) -> bool {
    p.len() > 0 && p[0] == '/'
}

/// A piece between two slashes counts as a segment unless it is empty, or is a `.` that does not
/// begin the path.
pub open spec fn is_segment(s: Text, at: int) -> bool {
    s.len() > 0 && (at == 0 || s != "."@)
}

/// The pieces that count as segments.
pub open spec fn counted(ps: Seq<Text>) -> Seq<Text>
    decreases ps.len(),
{
    if ps.len() == 0 {
        Seq::empty()
    } else if is_segment(ps.last(), ps.len() - 1) {
        counted(ps.drop_last()).push(ps.last())
    } else {
        counted(ps.drop_last())
    }
}

/// The segments of a path.
pub open spec fn segments(p: Text) -> Seq<Text> {
    counted(pieces(p, '/'))
}

/// The path made of some segments.
pub open spec fn path_of(from_root: bool, segs: Seq<Text>) -> Text {
    if from_root {
        seq!['/'] + joined(segs, seq!['/'])
    } else {
        joined(segs, seq!['/'])
    }
}

/// `b`, as seen from the directory `a`.
pub open spec fn path_join(a: Text, b: Text) -> Text {
    if absolute(b) || a.len() == 0 {
        b
    } else if a.last() == '/' {
        a + b
    } else {
        a + seq!['/'] + b
    }
}

/// The path `p` lies at or below `base`.
pub open spec fn path_under(p: Text, base: Text) -> bool {
    &&& absolute(p) == absolute(base)
    &&& segments(base).len() <= segments(p).len()
    &&& segments(p).take(segments(base).len() as int) == segments(base)
}

/// The way from `base` to `p`.
pub open spec fn path_beyond(p: Text, base: Text) -> Text {
    path_of(false, segments(p).skip(segments(base).len() as int))
}

/// `p` as seen from `base`, where it lies at or below it.
pub open spec fn path_within(p: Text, base: Text) -> Option<Text> {
    if path_under(p, base) {
        Some(path_beyond(p, base))
    } else {
        None
    }
}

/// The directory that holds `p`.
pub open spec fn path_parent(p: Text) -> Option<Text> {
    if segments(p).len() == 0 {
        None
    } else {
        Some(path_of(absolute(p), segments(p).drop_last()))
    }
}

/// The last segment of `p`, where it names something.
pub open spec fn path_name(p: Text) -> Option<Text> {
    let segs = segments(p);
    if segs.len() == 0 || segs.last() == ".."@ || segs.last() == "."@ {
        None
    } else {
        Some(segs.last())
    }
}

/// The path as its segments write it. Paths that differ in repeated or trailing slashes, or in a `.`
/// behind the beginning, are one and the same.
pub open spec fn tidy(p: Text) -> Text {
    path_of(absolute(p), segments(p))
}

/// The segments that are left when `.` is dropped and `..` takes back what precedes it.
pub open spec fn folded(segs: Seq<Text>) -> Seq<Text>
    decreases segs.len(),
{
    if segs.len() == 0 {
        Seq::empty()
    } else {
        let before = folded(segs.drop_last());
        if segs.last() == "."@ {
            before
        } else if segs.last() == ".."@ {
            if before.len() > 0 {
                before.drop_last()
            } else {
                before
            }
        } else {
            before.push(segs.last())
        }
    }
}

/// `p` without `.` and `..`.
pub open spec fn normal(p: Text) -> Text {
    path_of(absolute(p), folded(segments(p)))
}

/// The segments that are left when `.` is dropped and `..` takes back the name that precedes it. A
/// `..` with no name before it leads nowhere at the root, and stays where there is no root.
pub open spec fn climbed(from_root: bool, segs: Seq<Text>) -> Seq<Text>
    decreases segs.len(),
{
    if segs.len() == 0 {
        Seq::empty()
    } else {
        let before = climbed(from_root, segs.drop_last());
        if segs.last() == "."@ {
            before
        } else if segs.last() == ".."@ {
            if before.len() > 0 && before.last() != ".."@ {
                before.drop_last()
            } else if from_root {
                before
            } else {
                before.push(".."@)
            }
        } else {
            before.push(segs.last())
        }
    }
}

/// Where `p` leads: its shortest form, which climbs above the start only at its beginning.
pub open spec fn place(p: Text) -> Text {
    path_of(absolute(p), climbed(absolute(p), segments(p)))
}

// ---------------------------------------------------------------------------
// Executable operations
// ---------------------------------------------------------------------------

/// Whether the path begins at the root.
pub fn is_absolute(p: &str) -> (r: bool)
    ensures
        r == absolute(p@),
{
    !p.is_empty() && p.get_char(0) == '/'
}

/// The segments of a path.
pub fn split_path(p: &str) -> (r: Vec<String>)
    ensures
        r.deep_view() == segments(p@),
{
    let ps = text::split(p, '/');
    let ghost all = ps.deep_view();
    let mut out: Vec<String> = Vec::new();
    let mut i: usize = 0;
    assert(all.take(0) =~= Seq::<Text>::empty());
    assert(out.deep_view() =~= Seq::<Text>::empty());
    while i < ps.len()
        invariant
            i <= ps.len(),
            all == ps.deep_view(),
            out.deep_view() == counted(all.take(i as int)),
        decreases ps.len() - i,
    {
        let ghost before = out.deep_view();
        proof {
            assert(all.take(i + 1).drop_last() =~= all.take(i as int));
            assert(all.take(i + 1).last() == ps@[i as int]@);
        }
        if !ps[i].as_str().is_empty() && (i == 0 || !text::same(ps[i].as_str(), ".")) {
            out.push(ps[i].clone());
            assert(out.deep_view() =~= before.push(ps@[i as int]@));
        }
        i += 1;
    }
    assert(all.take(i as int) =~= all);
    out
}

/// The path made of some segments.
pub fn make_path(from_root: bool, segs: &Vec<String>) -> (r: String)
    ensures
        r@ == path_of(from_root, segs.deep_view()),
{
    proof {
        reveal_strlit("/");
        assert("/"@ =~= seq!['/']);
    }
    let rest = text::join(segs, "/");
    if from_root {
        text::cat("/", rest.as_str())
    } else {
        rest
    }
}

/// `b`, as seen from the directory `a`.
pub fn join(a: &str, b: &str) -> (r: String)
    ensures
        r@ == path_join(a@, b@),
{
    proof {
        reveal_strlit("/");
        assert("/"@ =~= seq!['/']);
    }
    if is_absolute(b) || a.is_empty() {
        b.to_owned()
    } else {
        let n: usize = a.unicode_len();
        if a.get_char(n - 1) == '/' {
            text::cat(a, b)
        } else {
            text::cat3(a, "/", b)
        }
    }
}

/// A copy of the first `n` texts.
pub fn first_texts(v: &Vec<String>, n: usize) -> (r: Vec<String>)
    requires
        n <= v.len(),
    ensures
        r.deep_view() == v.deep_view().take(n as int),
{
    let mut out: Vec<String> = Vec::new();
    let mut i: usize = 0;
    assert(out.deep_view() =~= v.deep_view().take(0));
    while i < n
        invariant
            i <= n <= v.len(),
            out.deep_view() == v.deep_view().take(i as int),
        decreases n - i,
    {
        let ghost before = out.deep_view();
        out.push(v[i].clone());
        assert(out.deep_view() =~= before.push(v.deep_view()[i as int]));
        assert(v.deep_view().take(i + 1) =~= v.deep_view().take(i as int).push(
            v.deep_view()[i as int],
        ));
        i += 1;
    }
    out
}

/// A copy of the texts from the `n`-th on.
pub fn last_texts(v: &Vec<String>, n: usize) -> (r: Vec<String>)
    requires
        n <= v.len(),
    ensures
        r.deep_view() == v.deep_view().skip(n as int),
{
    let mut out: Vec<String> = Vec::new();
    let mut i: usize = n;
    assert(out.deep_view() =~= v.deep_view().subrange(n as int, n as int));
    while i < v.len()
        invariant
            n <= i <= v.len(),
            out.deep_view() == v.deep_view().subrange(n as int, i as int),
        decreases v.len() - i,
    {
        let ghost before = out.deep_view();
        out.push(v[i].clone());
        assert(out.deep_view() =~= before.push(v.deep_view()[i as int]));
        assert(v.deep_view().subrange(n as int, i + 1) =~= v.deep_view().subrange(
            n as int,
            i as int,
        ).push(v.deep_view()[i as int]));
        i += 1;
    }
    assert(v.deep_view().subrange(n as int, i as int) =~= v.deep_view().skip(n as int));
    out
}

/// Whether the texts in `b` begin those in `a`.
fn begins_with(a: &Vec<String>, b: &Vec<String>) -> (r: bool)
    ensures
        r == (b.len() <= a.len() && a.deep_view().take(b.len() as int) == b.deep_view()),
{
    if b.len() > a.len() {
        return false;
    }
    let mut i: usize = 0;
    while i < b.len()
        invariant
            i <= b.len() <= a.len(),
            forall|j: int| 0 <= j < i ==> a.deep_view()[j] == b.deep_view()[j],
        decreases b.len() - i,
    {
        if !text::same(a[i].as_str(), b[i].as_str()) {
            assert(a.deep_view().take(b.len() as int)[i as int] != b.deep_view()[i as int]);
            return false;
        }
        i += 1;
    }
    assert(a.deep_view().take(b.len() as int) =~= b.deep_view());
    true
}

/// Whether `p` lies at or below `base`.
pub fn starts_with(p: &str, base: &str) -> (r: bool)
    ensures
        r == path_under(p@, base@),
{
    let ps = split_path(p);
    let bs = split_path(base);
    assert(ps.deep_view().len() == ps.len() && bs.deep_view().len() == bs.len());
    is_absolute(p) == is_absolute(base) && begins_with(&ps, &bs)
}

/// `p` as seen from `base`, where it lies at or below it.
pub fn strip_prefix(p: &str, base: &str) -> (r: Option<String>)
    ensures
        r.deep_view() == path_within(p@, base@),
{
    let ps = split_path(p);
    let bs = split_path(base);
    assert(ps.deep_view().len() == ps.len() && bs.deep_view().len() == bs.len());
    if is_absolute(p) == is_absolute(base) && begins_with(&ps, &bs) {
        Some(make_path(false, &last_texts(&ps, bs.len())))
    } else {
        None
    }
}

/// `p` as seen from `base`; `p` itself where it does not lie below it.
pub fn strip_prefix_or_self(p: &str, base: &str) -> (r: String)
    ensures
        r@ == match path_within(p@, base@) {
            Some(q) => q,
            None => p@,
        },
{
    match strip_prefix(p, base) {
        Some(q) => q,
        None => p.to_owned(),
    }
}

/// The directory that holds `p`.
pub fn parent(p: &str) -> (r: Option<String>)
    ensures
        r.deep_view() == path_parent(p@),
{
    let ps = split_path(p);
    assert(ps.deep_view().len() == ps.len());
    if ps.len() == 0 {
        None
    } else {
        let n: usize = ps.len() - 1;
        assert(ps.deep_view().take(n as int) =~= ps.deep_view().drop_last());
        Some(make_path(is_absolute(p), &first_texts(&ps, n)))
    }
}

/// The last segment of `p`, where it names something.
pub fn file_name(p: &str) -> (r: Option<String>)
    ensures
        r.deep_view() == path_name(p@),
{
    let mut ps = split_path(p);
    let ghost all = ps.deep_view();
    assert(all.len() == ps.len());
    match ps.pop() {
        Some(name) => {
            assert(name@ == all.last());
            if text::same(name.as_str(), "..") || text::same(name.as_str(), ".") {
                None
            } else {
                Some(name)
            }
        },
        None => None,
    }
}

/// The path as its segments write it.
pub fn tidied(p: &str) -> (r: String)
    ensures
        r@ == tidy(p@),
{
    make_path(is_absolute(p), &split_path(p))
}

/// The segments of `p` without `.` and `..`.
pub fn fold_path(p: &str) -> (r: Vec<String>)
    ensures
        r.deep_view() == folded(segments(p@)),
{
    let ps = split_path(p);
    let ghost all = ps.deep_view();
    let mut out: Vec<String> = Vec::new();
    let mut i: usize = 0;
    assert(all.take(0) =~= Seq::<Text>::empty());
    assert(out.deep_view() =~= Seq::<Text>::empty());
    while i < ps.len()
        invariant
            i <= ps.len(),
            all == ps.deep_view(),
            out.deep_view() == folded(all.take(i as int)),
        decreases ps.len() - i,
    {
        let ghost before = out.deep_view();
        proof {
            assert(all.take(i + 1).drop_last() =~= all.take(i as int));
            assert(all.take(i + 1).last() == ps@[i as int]@);
            assert(before.len() == out@.len());
        }
        if text::same(ps[i].as_str(), ".") {
        } else if text::same(ps[i].as_str(), "..") {
            out.pop();
            proof {
                if before.len() > 0 {
                    assert(out.deep_view() =~= before.drop_last());
                } else {
                    assert(out.deep_view() =~= before);
                }
            }
        } else {
            out.push(ps[i].clone());
            assert(out.deep_view() =~= before.push(ps@[i as int]@));
        }
        i += 1;
    }
    assert(all.take(i as int) =~= all);
    out
}

/// `p` without `.` and `..`.
pub fn normalize(p: &str) -> (r: String)
    ensures
        r@ == normal(p@),
{
    make_path(is_absolute(p), &fold_path(p))
}

/// The segments of the shortest form of `p`.
pub fn climb_path(p: &str) -> (r: Vec<String>)
    ensures
        r.deep_view() == climbed(absolute(p@), segments(p@)),
{
    let from_root = is_absolute(p);
    let ps = split_path(p);
    let ghost all = ps.deep_view();
    let mut out: Vec<String> = Vec::new();
    let mut i: usize = 0;
    assert(all.take(0) =~= Seq::<Text>::empty());
    assert(out.deep_view() =~= Seq::<Text>::empty());
    while i < ps.len()
        invariant
            i <= ps.len(),
            all == ps.deep_view(),
            out.deep_view() == climbed(from_root, all.take(i as int)),
        decreases ps.len() - i,
    {
        let ghost before = out.deep_view();
        proof {
            assert(all.take(i + 1).drop_last() =~= all.take(i as int));
            assert(all.take(i + 1).last() == ps@[i as int]@);
            assert(before.len() == out@.len());
        }
        if text::same(ps[i].as_str(), ".") {
        } else if text::same(ps[i].as_str(), "..") {
            let n: usize = out.len();
            if n > 0 && !text::same(out[n - 1].as_str(), "..") {
                out.pop();
                assert(out.deep_view() =~= before.drop_last());
            } else if !from_root {
                out.push(ps[i].clone());
                assert(out.deep_view() =~= before.push(".."@));
            }
        } else {
            out.push(ps[i].clone());
            assert(out.deep_view() =~= before.push(ps@[i as int]@));
        }
        i += 1;
    }
    assert(all.take(i as int) =~= all);
    out
}

/// Where `p` leads.
pub fn place_of(p: &str) -> (r: String)
    ensures
        r@ == place(p@),
{
    make_path(is_absolute(p), &climb_path(p))
}

// ---------------------------------------------------------------------------
// Order
// ---------------------------------------------------------------------------

/// The components of a path: the root, where it begins there, and the segments.
pub open spec fn components(p: Text) -> Seq<Text> {
    if absolute(p) {
        seq!["/"@] + segments(p)
    } else {
        segments(p)
    }
}

/// The root comes before `.`, that before `..`, and these before all names.
pub open spec fn component_rank(c: Text) -> int {
    if c == "/"@ {
        0
    } else if c == "."@ {
        1
    } else if c == ".."@ {
        2
    } else {
        3
    }
}

/// One component comes before another.
pub open spec fn component_less(a: Text, b: Text) -> bool {
    component_rank(a) < component_rank(b) || (component_rank(a) == component_rank(b) && text_less(
        a,
        b,
    ))
}

/// Some components come before others: by the first in which they differ, or as a beginning of
/// them.
pub open spec fn components_less(a: Seq<Text>, b: Seq<Text>) -> bool
    decreases b.len(),
{
    if b.len() == 0 {
        false
    } else if a.len() == 0 {
        true
    } else if a[0] != b[0] {
        component_less(a[0], b[0])
    } else {
        components_less(a.drop_first(), b.drop_first())
    }
}

/// The components of a path.
pub fn split_components(p: &str) -> (r: Vec<String>)
    ensures
        r.deep_view() == components(p@),
{
    let segs = split_path(p);
    if !is_absolute(p) {
        return segs;
    }
    let ghost all = segs.deep_view();
    let mut out: Vec<String> = Vec::new();
    out.push("/".to_owned());
    let mut segs = segs;
    out.append(&mut segs);
    assert(out.deep_view() =~= seq!["/"@] + all);
    out
}

/// The rank of a component.
fn rank_of(c: &str) -> (r: u8)
    ensures
        r == component_rank(c@),
{
    if text::same(c, "/") {
        0
    } else if text::same(c, ".") {
        1
    } else if text::same(c, "..") {
        2
    } else {
        3
    }
}

/// Whether some components come before others.
pub fn are_components_less(a: &Vec<String>, b: &Vec<String>) -> (r: bool)
    ensures
        r == components_less(a.deep_view(), b.deep_view()),
{
    let ghost x = a.deep_view();
    let ghost y = b.deep_view();
    let mut i: usize = 0;
    assert(x.skip(0) =~= x && y.skip(0) =~= y);
    assert(x.len() == a.len() && y.len() == b.len());
    loop
        invariant
            x == a.deep_view(),
            y == b.deep_view(),
            x.len() == a.len(),
            y.len() == b.len(),
            i <= a.len(),
            i <= b.len(),
            components_less(x, y) == components_less(x.skip(i as int), y.skip(i as int)),
        decreases b.len() - i,
    {
        if i == b.len() {
            return false;
        }
        if i == a.len() {
            return true;
        }
        let c = a[i].as_str();
        let d = b[i].as_str();
        assert(x.skip(i as int)[0] == c@);
        assert(y.skip(i as int)[0] == d@);
        if !text::same(c, d) {
            let m: u8 = rank_of(c);
            let n: u8 = rank_of(d);
            return m < n || (m == n && text::is_less(c, d));
        }
        assert(x.skip(i as int).drop_first() =~= x.skip(i + 1));
        assert(y.skip(i as int).drop_first() =~= y.skip(i + 1));
        i += 1;
    }
}

/// Of two different lists of components exactly one comes before the other.
pub proof fn lemma_components_less_total(a: Seq<Text>, b: Seq<Text>)
    ensures
        a == b ==> !components_less(a, b),
        components_less(a, b) ==> !components_less(b, a),
        a != b ==> components_less(a, b) || components_less(b, a),
    decreases a.len(),
{
    if a.len() > 0 && b.len() > 0 {
        text::lemma_text_less_total(a[0], b[0]);
        lemma_components_less_total(a.drop_first(), b.drop_first());
        if a[0] == b[0] && a.drop_first() == b.drop_first() {
            assert(a =~= seq![a[0]] + a.drop_first());
            assert(b =~= seq![b[0]] + b.drop_first());
        }
    } else if a.len() == 0 && b.len() == 0 {
        assert(a =~= b);
    }
}

/// What comes before a list of components comes before all that follow it.
pub proof fn lemma_components_less_transitive(a: Seq<Text>, b: Seq<Text>, c: Seq<Text>)
    requires
        components_less(a, b),
        components_less(b, c),
    ensures
        components_less(a, c),
    decreases a.len(),
{
    if a.len() > 0 && b.len() > 0 && c.len() > 0 {
        if a[0] == b[0] && b[0] == c[0] {
            lemma_components_less_transitive(a.drop_first(), b.drop_first(), c.drop_first());
        } else if a[0] != b[0] && b[0] != c[0] {
            text::lemma_text_less_total(a[0], c[0]);
            text::lemma_text_less_total(a[0], b[0]);
            if text_less(a[0], b[0]) && text_less(b[0], c[0]) {
                text::lemma_text_less_transitive(a[0], b[0], c[0]);
            }
        }
    }
}

// ---------------------------------------------------------------------------
// What holds of all paths
// ---------------------------------------------------------------------------

/// The segment is a step: a name, or `..`.
pub open spec fn is_step(s: Text) -> bool {
    s.len() > 0 && s != "."@ && forall|i: int| 0 <= i < s.len() ==> s[i] != '/'
}

/// All segments are steps.
pub open spec fn all_steps(segs: Seq<Text>) -> bool {
    forall|i: int| 0 <= i < segs.len() ==> is_step(#[trigger] segs[i])
}

/// The segment is a name: not empty, without a slash, and neither `.` nor `..`.
pub open spec fn is_name(s: Text) -> bool {
    is_step(s) && s != ".."@
}

/// All segments are names.
pub open spec fn all_names(segs: Seq<Text>) -> bool {
    forall|i: int| 0 <= i < segs.len() ==> is_name(#[trigger] segs[i])
}

/// Splitting undoes putting a separator between two texts.
proof fn lemma_pieces_split(a: Text, b: Text, c: char)
    ensures
        pieces(a + seq![c] + b, c) == pieces(a, c) + pieces(b, c),
    decreases a.len(),
{
    let s = a + seq![c] + b;
    text::lemma_char_from(a, c, 0);
    text::lemma_char_from(s, c, 0);
    match char_from(a, c, 0) {
        None => {
            assert(s[a.len() as int] == c);
            assert(forall|j: int| 0 <= j < a.len() ==> s[j] == a[j]);
            assert(char_from(s, c, 0) == Some(a.len() as int));
            assert(s.take(a.len() as int) =~= a);
            assert(s.skip(a.len() as int + 1) =~= b);
        },
        Some(i) => {
            assert(s[i] == c);
            assert(forall|j: int| 0 <= j < i ==> s[j] == a[j]);
            assert(char_from(s, c, 0) == Some(i));
            assert(s.take(i) =~= a.take(i));
            assert(s.skip(i + 1) =~= a.skip(i + 1) + seq![c] + b);
            lemma_pieces_split(a.skip(i + 1), b, c);
            assert(pieces(s, c) =~= pieces(a, c) + pieces(b, c));
        },
    }
}

/// The segments of one piece.
proof fn lemma_counted_one(s: Text)
    ensures
        counted(seq![s]) == if s.len() > 0 {
            seq![s]
        } else {
            Seq::empty()
        },
{
    reveal_with_fuel(counted, 2);
    let one = seq![s];
    assert(one.drop_last() =~= Seq::<Text>::empty());
    assert(Seq::<Text>::empty().push(s) =~= one);
}

/// The segments of two lists of pieces, where the second does not begin with a `.`.
proof fn lemma_counted_add(x: Seq<Text>, y: Seq<Text>)
    requires
        x.len() > 0,
        y.len() > 0,
        y[0] != "."@,
    ensures
        counted(x + y) == counted(x) + counted(y),
    decreases y.len(),
{
    let all = x + y;
    assert(all.drop_last() =~= x + y.drop_last());
    assert(all.last() == y.last());
    if y.len() == 1 {
        lemma_counted_one(y[0]);
        assert(y =~= seq![y[0]]);
        assert(x + y.drop_last() =~= x);
        assert(counted(all) =~= counted(x) + counted(y));
    } else {
        lemma_counted_add(x, y.drop_last());
        assert(counted(all) =~= counted(x) + counted(y));
    }
}

/// A name is one piece, and one segment.
proof fn lemma_name_pieces(s: Text)
    requires
        is_step(s),
    ensures
        pieces(s, '/') == seq![s],
        counted(seq![s]) == seq![s],
{
    text::lemma_char_from(s, '/', 0);
    lemma_counted_one(s);
}

/// Splitting undoes joining: a path made of steps has those steps as its segments.
pub proof fn lemma_segments_of_path(from_root: bool, segs: Seq<Text>)
    requires
        all_steps(segs),
    ensures
        segments(path_of(from_root, segs)) == segs,
        absolute(path_of(from_root, segs)) == from_root,
{
    let body = joined(segs, seq!['/']);
    lemma_joined_names(segs);
    if from_root {
        let p = path_of(true, segs);
        assert(p =~= Seq::<char>::empty() + seq!['/'] + body);
        lemma_pieces_split(Seq::empty(), body, '/');
        let first_pieces = pieces(Seq::<char>::empty(), '/');
        assert(first_pieces =~= seq![Seq::<char>::empty()]);
        lemma_counted_one(Seq::empty());
        lemma_counted_add(first_pieces, pieces(body, '/'));
        assert(counted(first_pieces) + counted(pieces(body, '/')) =~= segs);
    }
}

/// The pieces of joined names.
proof fn lemma_joined_names(segs: Seq<Text>)
    requires
        all_steps(segs),
    ensures
        counted(pieces(joined(segs, seq!['/']), '/')) == segs,
        pieces(joined(segs, seq!['/']), '/').len() > 0,
        pieces(joined(segs, seq!['/']), '/')[0] != "."@,
        !absolute(joined(segs, seq!['/'])),
        segs.len() > 0 ==> joined(segs, seq!['/']).len() > 0,
    decreases segs.len(),
{
    reveal_strlit(".");
    if segs.len() == 0 {
        let none = pieces(Seq::<char>::empty(), '/');
        assert(none =~= seq![Seq::<char>::empty()]);
        lemma_counted_one(Seq::empty());
        assert(counted(none) =~= segs);
    } else if segs.len() == 1 {
        assert(is_step(segs[0]));
        lemma_name_pieces(segs[0]);
        assert(seq![segs[0]] =~= segs);
    } else {
        let init = segs.drop_last();
        assert forall|i: int| 0 <= i < init.len() implies is_step(#[trigger] init[i]) by {
            assert(init[i] == segs[i]);
        }
        lemma_joined_names(init);
        let last = segs[segs.len() - 1];
        assert(is_step(last));
        lemma_name_pieces(last);
        let a = joined(init, seq!['/']);
        lemma_pieces_split(a, last, '/');
        lemma_counted_add(pieces(a, '/'), pieces(last, '/'));
        assert(init + seq![last] =~= segs);
    }
}

/// What is left when `.` and `..` are folded are names, for segments without slashes.
proof fn lemma_folded_names(segs: Seq<Text>)
    requires
        forall|i: int|
            0 <= i < segs.len() ==> (#[trigger] segs[i]).len() > 0 && forall|j: int|
                0 <= j < segs[i].len() ==> segs[i][j] != '/',
    ensures
        all_names(folded(segs)),
    decreases segs.len(),
{
    if segs.len() > 0 {
        let init = segs.drop_last();
        assert forall|i: int| 0 <= i < init.len() implies (#[trigger] init[i]).len() > 0 && forall|
            j: int,
        |
            0 <= j < init[i].len() ==> init[i][j] != '/' by {
            assert(init[i] == segs[i]);
        }
        lemma_folded_names(init);
        let before = folded(init);
        let last = segs[segs.len() - 1];
        assert(last.len() > 0);
        if last != "."@ && last != ".."@ {
            assert forall|i: int| 0 <= i < before.push(last).len() implies is_name(
                #[trigger] before.push(last)[i],
            ) by {
                if i < before.len() {
                    assert(before.push(last)[i] == before[i]);
                }
            }
        }
    }
}

/// Names stay as they are when `.` and `..` are folded.
proof fn lemma_folded_stays(segs: Seq<Text>)
    requires
        all_names(segs),
    ensures
        folded(segs) == segs,
    decreases segs.len(),
{
    if segs.len() > 0 {
        let init = segs.drop_last();
        assert forall|i: int| 0 <= i < init.len() implies is_name(#[trigger] init[i]) by {
            assert(init[i] == segs[i]);
        }
        lemma_folded_stays(init);
        assert(is_name(segs[segs.len() - 1]));
        assert(init.push(segs.last()) =~= segs);
    }
}

/// No piece holds the separator.
proof fn lemma_pieces_plain(s: Text, c: char)
    ensures
        forall|i: int, j: int|
            0 <= i < pieces(s, c).len() && 0 <= j < pieces(s, c)[i].len() ==> #[trigger] pieces(
                s,
                c,
            )[i][j] != c,
    decreases s.len(),
{
    text::lemma_char_from(s, c, 0);
    match char_from(s, c, 0) {
        None => {},
        Some(k) => {
            lemma_pieces_plain(s.skip(k + 1), c);
            let rest = pieces(s.skip(k + 1), c);
            assert forall|i: int, j: int|
                0 <= i < pieces(s, c).len() && 0 <= j < pieces(s, c)[i].len() implies
                #[trigger] pieces(s, c)[i][j] != c by {
                if i == 0 {
                    assert(pieces(s, c)[0] == s.take(k));
                } else {
                    assert(pieces(s, c)[i] == rest[i - 1]);
                }
            }
        },
    }
}

/// The pieces that count hold something, and no slash where no piece does.
proof fn lemma_counted_plain(ps: Seq<Text>)
    requires
        forall|i: int, j: int|
            0 <= i < ps.len() && 0 <= j < ps[i].len() ==> #[trigger] ps[i][j] != '/',
    ensures
        forall|i: int|
            0 <= i < counted(ps).len() ==> (#[trigger] counted(ps)[i]).len() > 0 && forall|j: int|
                0 <= j < counted(ps)[i].len() ==> counted(ps)[i][j] != '/',
    decreases ps.len(),
{
    if ps.len() > 0 {
        let init = ps.drop_last();
        assert forall|i: int, j: int| 0 <= i < init.len() && 0 <= j < init[i].len() implies
            #[trigger] init[i][j] != '/' by {
            assert(ps[i][j] != '/');
        }
        lemma_counted_plain(init);
        let before = counted(init);
        let last = ps.len() - 1;
        assert forall|i: int| 0 <= i < counted(ps).len() implies (#[trigger] counted(ps)[i]).len()
            > 0 && forall|j: int|
            0 <= j < counted(ps)[i].len() ==> counted(ps)[i][j] != '/' by {
            if i < before.len() {
                assert(counted(ps)[i] == before[i]);
            } else {
                assert(counted(ps)[i] == ps[last]);
                assert forall|j: int| 0 <= j < ps[last].len() implies ps[last][j] != '/' by {
                    assert(ps[last][j] != '/');
                }
            }
        }
    }
}

/// The normal form of a path holds names alone, and its segments are what folding leaves.
pub proof fn lemma_normal_names(p: Text)
    ensures
        all_names(segments(normal(p))),
        segments(normal(p)) == folded(segments(p)),
        absolute(normal(p)) == absolute(p),
{
    lemma_pieces_plain(p, '/');
    lemma_counted_plain(pieces(p, '/'));
    lemma_folded_names(segments(p));
    lemma_segments_of_path(absolute(p), folded(segments(p)));
}

/// The normal form of a path is its own normal form.
pub proof fn lemma_normal_stays(p: Text)
    ensures
        normal(normal(p)) == normal(p),
{
    lemma_normal_names(p);
    lemma_folded_stays(segments(normal(p)));
}

/// Taking a directory away undoes putting it in front: what is joined to a directory, seen from the
/// directory, is what it was.
pub proof fn lemma_within_joined(base: Text, segs: Seq<Text>)
    requires
        base.len() > 0,
        all_names(segs),
    ensures
        path_within(path_join(base, path_of(false, segs)), base) == Some(path_of(false, segs)),
{
    let rel = path_of(false, segs);
    lemma_joined_names(segs);
    let p = path_join(base, rel);
    assert(absolute(p) == absolute(base)) by {
        assert(p[0] == base[0]);
    }
    if base.last() == '/' {
        let a = base.drop_last();
        assert(p =~= a + seq!['/'] + rel);
        assert(base =~= a + seq!['/'] + Seq::<char>::empty());
        lemma_pieces_split(a, rel, '/');
        lemma_pieces_split(a, Seq::empty(), '/');
        let none = pieces(Seq::<char>::empty(), '/');
        assert(none =~= seq![Seq::<char>::empty()]);
        text::lemma_pieces_nonempty(a, '/');
        lemma_counted_add(pieces(a, '/'), pieces(rel, '/'));
        reveal_strlit(".");
        lemma_counted_add(pieces(a, '/'), none);
        lemma_counted_one(Seq::empty());
        assert(segments(base) =~= counted(pieces(a, '/')));
    } else {
        lemma_pieces_split(base, rel, '/');
        text::lemma_pieces_nonempty(base, '/');
        lemma_counted_add(pieces(base, '/'), pieces(rel, '/'));
    }
    assert(segments(p) =~= segments(base) + segs);
    assert(segments(p).take(segments(base).len() as int) =~= segments(base));
    assert(segments(p).skip(segments(base).len() as int) =~= segs);
}

/// The segments climb at their beginning alone, and not from the root.
spec fn climbs_first(from_root: bool, segs: Seq<Text>) -> bool {
    &&& all_steps(segs)
    &&& forall|i: int|
        0 <= i < segs.len() && (#[trigger] segs[i]) == ".."@ ==> !from_root && (i == 0 || segs[i
            - 1] == ".."@)
}

/// What is left of segments without slashes climbs at its beginning alone.
proof fn lemma_climbed_first(from_root: bool, segs: Seq<Text>)
    requires
        forall|i: int|
            0 <= i < segs.len() ==> (#[trigger] segs[i]).len() > 0 && forall|j: int|
                0 <= j < segs[i].len() ==> segs[i][j] != '/',
    ensures
        climbs_first(from_root, climbed(from_root, segs)),
    decreases segs.len(),
{
    reveal_strlit(".");
    reveal_strlit("..");
    if segs.len() > 0 {
        let init = segs.drop_last();
        assert forall|i: int| 0 <= i < init.len() implies (#[trigger] init[i]).len() > 0 && forall|
            j: int,
        |
            0 <= j < init[i].len() ==> init[i][j] != '/' by {
            assert(init[i] == segs[i]);
        }
        lemma_climbed_first(from_root, init);
        let before = climbed(from_root, init);
        let last = segs[segs.len() - 1];
        assert(last.len() > 0);
        let after = climbed(from_root, segs);
        assert forall|i: int| 0 <= i < after.len() implies is_step(#[trigger] after[i]) by {
            if i < before.len() {
                assert(after[i] == before[i]);
                assert(is_step(before[i]));
            }
        }
        assert forall|i: int| 0 <= i < after.len() && (#[trigger] after[i]) == ".."@ implies
            !from_root && (i == 0 || after[i - 1] == ".."@) by {
            if i < before.len() {
                assert(after[i] == before[i]);
                if i > 0 {
                    assert(after[i - 1] == before[i - 1]);
                }
            }
        }
    }
}

/// Segments that climb at their beginning alone stay as they are.
proof fn lemma_climbed_stays(from_root: bool, segs: Seq<Text>)
    requires
        climbs_first(from_root, segs),
    ensures
        climbed(from_root, segs) == segs,
    decreases segs.len(),
{
    if segs.len() > 0 {
        let init = segs.drop_last();
        assert forall|i: int| 0 <= i < init.len() implies is_step(#[trigger] init[i]) by {
            assert(init[i] == segs[i]);
        }
        assert forall|i: int| 0 <= i < init.len() && (#[trigger] init[i]) == ".."@ implies
            !from_root && (i == 0 || init[i - 1] == ".."@) by {
            assert(init[i] == segs[i]);
            if i > 0 {
                assert(init[i - 1] == segs[i - 1]);
            }
        }
        lemma_climbed_stays(from_root, init);
        assert(is_step(segs[segs.len() - 1]));
        assert(init.push(segs.last()) =~= segs);
    }
}

/// From the root nothing climbs, so that folding is all there is to do.
proof fn lemma_climbed_from_root(segs: Seq<Text>)
    ensures
        climbed(true, segs) == folded(segs),
        forall|i: int| 0 <= i < folded(segs).len() ==> #[trigger] folded(segs)[i] != ".."@,
    decreases segs.len(),
{
    if segs.len() > 0 {
        lemma_climbed_from_root(segs.drop_last());
        let before = folded(segs.drop_last());
        assert forall|i: int| 0 <= i < folded(segs).len() implies #[trigger] folded(segs)[i]
            != ".."@ by {
            if i < before.len() {
                assert(folded(segs)[i] == before[i]);
            }
        }
        if before.len() > 0 {
            assert(before[before.len() - 1] != ".."@);
        }
    }
}

/// A place is where it is: its shortest form is its own shortest form.
pub proof fn lemma_place_stays(p: Text)
    ensures
        place(place(p)) == place(p),
{
    lemma_pieces_plain(p, '/');
    lemma_counted_plain(pieces(p, '/'));
    let segs = climbed(absolute(p), segments(p));
    lemma_climbed_first(absolute(p), segments(p));
    lemma_segments_of_path(absolute(p), segs);
    lemma_climbed_stays(absolute(p), segs);
}

/// Where an absolute path leads is its normal form.
pub proof fn lemma_place_from_root(p: Text)
    requires
        absolute(p),
    ensures
        place(p) == normal(p),
{
    lemma_climbed_from_root(segments(p));
}

/// Only the first segment may be a `.`, and that only where the first piece is one.
proof fn lemma_counted_dots(ps: Seq<Text>)
    ensures
        forall|i: int|
            0 <= i < counted(ps).len() && (#[trigger] counted(ps)[i]) == "."@ ==> i == 0 && ps[0]
                == "."@,
    decreases ps.len(),
{
    if ps.len() > 0 {
        let init = ps.drop_last();
        lemma_counted_dots(init);
        let before = counted(init);
        assert forall|i: int| 0 <= i < counted(ps).len() && (#[trigger] counted(ps)[i])
            == "."@ implies i == 0 && ps[0] == "."@ by {
            if i < before.len() {
                assert(counted(ps)[i] == before[i]);
                assert(init[0] == ps[0]);
            } else {
                assert(ps.len() == 1);
            }
        }
    }
}

/// The segments of a relative path that begins with a `.`.
proof fn lemma_joined_from_dot(segs: Seq<Text>)
    requires
        segs.len() > 0,
        segs[0] == "."@,
        forall|i: int| 0 < i < segs.len() ==> is_step(#[trigger] segs[i]),
    ensures
        counted(pieces(joined(segs, seq!['/']), '/')) == segs,
        pieces(joined(segs, seq!['/']), '/').len() > 0,
        joined(segs, seq!['/']).len() > 0,
        joined(segs, seq!['/'])[0] == '.',
    decreases segs.len(),
{
    reveal_strlit(".");
    if segs.len() == 1 {
        let dot = "."@;
        text::lemma_char_from(dot, '/', 0);
        assert(pieces(dot, '/') =~= seq![dot]);
        lemma_counted_one(dot);
        assert(seq![dot] =~= segs);
    } else {
        let init = segs.drop_last();
        assert forall|i: int| 0 < i < init.len() implies is_step(#[trigger] init[i]) by {
            assert(init[i] == segs[i]);
        }
        lemma_joined_from_dot(init);
        let last = segs[segs.len() - 1];
        assert(is_step(last));
        lemma_name_pieces(last);
        let a = joined(init, seq!['/']);
        lemma_pieces_split(a, last, '/');
        lemma_counted_add(pieces(a, '/'), pieces(last, '/'));
        assert(init + seq![last] =~= segs);
    }
}

/// The tidy form of a path has the segments of the path, and begins where it begins.
pub proof fn lemma_tidy(p: Text)
    ensures
        segments(tidy(p)) == segments(p),
        absolute(tidy(p)) == absolute(p),
        tidy(tidy(p)) == tidy(p),
{
    reveal_strlit(".");
    let segs = segments(p);
    lemma_pieces_plain(p, '/');
    lemma_counted_plain(pieces(p, '/'));
    lemma_counted_dots(pieces(p, '/'));
    text::lemma_char_from(p, '/', 0);
    if segs.len() > 0 && segs[0] == "."@ {
        assert(!absolute(p)) by {
            if absolute(p) {
                assert(pieces(p, '/')[0] =~= Seq::<char>::empty());
            }
        }
        assert forall|i: int| 0 < i < segs.len() implies is_step(#[trigger] segs[i]) by {
            assert(segs[i].len() > 0);
        }
        lemma_joined_from_dot(segs);
    } else {
        assert forall|i: int| 0 <= i < segs.len() implies is_step(#[trigger] segs[i]) by {
            assert(segs[i].len() > 0);
        }
        lemma_segments_of_path(absolute(p), segs);
    }
}

/// Two paths have one tidy form exactly where they have the same components.
pub proof fn lemma_same_path(p: Text, q: Text)
    ensures
        tidy(p) == tidy(q) <==> absolute(p) == absolute(q) && segments(p) == segments(q),
{
    lemma_tidy(p);
    lemma_tidy(q);
}

} // verus!
