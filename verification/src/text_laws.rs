//! What holds of every text.

use crate::text;
use crate::text::{
    blanks, char_from, contains_text, decimal, drop_back, drop_front, drop_prefixes, drop_suffixes,
    first, grouped, has_prefix, has_suffix, is_space, joined, lines_of, occurs_at, pieces, pieces_by,
    replaced, right_aligned, spaces, text_less, the_char, trimmed, trimmed_of, without_cr, Text,
};
use vstd::prelude::*;

verus! {

/// The text has no white space at either end.
pub open spec fn is_tight(s: Text) -> bool {
    s.len() > 0 ==> !is_space(s[0]) && !is_space(s[s.len() - 1])
}

/// All characters are white space.
pub open spec fn is_spaces(s: Text) -> bool {
    forall|i: int| 0 <= i < s.len() ==> is_space(#[trigger] s[i])
}

/// The character stands nowhere in the text.
pub open spec fn is_without(s: Text, c: char) -> bool {
    forall|i: int| 0 <= i < s.len() ==> #[trigger] s[i] != c
}

/// Trimming takes away the white space around a text that has none at its ends, and nothing else.
pub proof fn lemma_trimmed(front: Text, s: Text, back: Text)
    requires
        is_spaces(front),
        is_spaces(back),
        is_tight(s),
        s.len() > 0,
    ensures
        trimmed(front + s + back) == s,
{
    let whole = front + s + back;
    let n = front.len() as int;
    assert forall|j: int| 0 <= j < n implies #[trigger] spaces()(whole[j]) by {
        assert(whole[j] == front[j]);
    }
    assert(whole[n] == s[0]);
    text::lemma_drop_front(whole, spaces(), n);
    let rest = whole.skip(n);
    assert forall|j: int| s.len() <= j < rest.len() implies #[trigger] spaces()(rest[j]) by {
        assert(rest[j] == back[j - s.len()]);
    }
    assert(rest[s.len() - 1] == s[s.len() - 1]);
    text::lemma_drop_back(rest, spaces(), s.len() as int);
    assert(rest.take(s.len() as int) =~= s);
}

/// A text without white space at its ends is trimmed already.
pub proof fn lemma_tight_is_trimmed(s: Text)
    requires
        is_tight(s),
    ensures
        trimmed(s) == s,
{
    if s.len() > 0 {
        let none = Seq::<char>::empty();
        lemma_trimmed(none, s, none);
        assert(none + s + none =~= s);
    } else {
        assert(trimmed(s) =~= s);
    }
}

/// Trimming leaves nothing but white space behind: no text of white space alone remains.
pub proof fn lemma_spaces_are_trimmed(s: Text)
    requires
        is_spaces(s),
    ensures
        trimmed(s).len() == 0,
{
    assert forall|j: int| 0 <= j < s.len() implies #[trigger] spaces()(s[j]) by {}
    text::lemma_drop_front(s, spaces(), s.len() as int);
    assert(s.skip(s.len() as int) =~= Seq::<char>::empty());
}

/// A text that has the character at neither end comes out from between two of them.
pub proof fn lemma_unquoted(s: Text, c: char)
    requires
        s.len() > 0 ==> s[0] != c && s[s.len() - 1] != c,
    ensures
        trimmed_of(s, c) == s,
        trimmed_of(seq![c] + s + seq![c], c) == s,
{
    if s.len() > 0 {
        text::lemma_drop_front(s, the_char(c), 0);
        assert(s.skip(0) =~= s);
        text::lemma_drop_back(s, the_char(c), s.len() as int);
        assert(s.take(s.len() as int) =~= s);
        let whole = seq![c] + s + seq![c];
        text::lemma_drop_front(whole, the_char(c), 1);
        let rest = whole.skip(1);
        assert(rest =~= s + seq![c]);
        text::lemma_drop_back(rest, the_char(c), s.len() as int);
        assert(rest.take(s.len() as int) =~= s);
    } else {
        assert(trimmed_of(s, c) =~= s);
        let whole = seq![c] + s + seq![c];
        text::lemma_drop_front(whole, the_char(c), 2);
        assert(whole.skip(2) =~= s);
    }
}

/// A prefix is taken off as often as it stands there: once, where the rest does not begin with it.
pub proof fn lemma_prefix_dropped(p: Text, rest: Text)
    requires
        p.len() > 0,
        !has_prefix(rest, p),
    ensures
        drop_prefixes(p + rest, p) == rest,
        drop_prefixes(rest, p) == rest,
{
    reveal_with_fuel(drop_prefixes, 2);
    assert((p + rest).subrange(0, p.len() as int) =~= p);
    assert((p + rest).skip(p.len() as int) =~= rest);
}

/// Nothing is replaced where nothing is found.
pub proof fn lemma_nothing_replaced(s: Text, p: Text, q: Text)
    requires
        forall|at: int| !occurs_at(s, p, at),
    ensures
        replaced(s, p, q) == s,
    decreases s.len(),
{
    if p.len() > 0 && s.len() >= p.len() {
        assert(!occurs_at(s, p, 0));
        let rest = s.skip(1);
        assert forall|at: int| !occurs_at(rest, p, at) by {
            assert(!occurs_at(s, p, at + 1));
            if 0 <= at && at + p.len() <= rest.len() {
                assert(rest.subrange(at, at + p.len()) =~= s.subrange(at + 1, at + 1 + p.len()));
            }
        }
        lemma_nothing_replaced(rest, p, q);
        assert(seq![s[0]] + rest =~= s);
    }
}

/// Replacing goes piece by piece: what stands before the first occurrence stays, the occurrence
/// gives way, and the rest is treated alike.
pub proof fn lemma_first_replaced(front: Text, p: Text, rest: Text, q: Text)
    requires
        p.len() > 0,
        forall|at: int| 0 <= at < front.len() ==> !occurs_at(front + p + rest, p, at),
    ensures
        replaced(front + p + rest, p, q) == front + q + replaced(rest, p, q),
    decreases front.len(),
{
    let whole = front + p + rest;
    if front.len() == 0 {
        assert(whole.subrange(0, p.len() as int) =~= p);
        assert(whole.skip(p.len() as int) =~= rest);
        assert(front + q + replaced(rest, p, q) =~= q + replaced(rest, p, q));
    } else {
        assert(!occurs_at(whole, p, 0));
        let tail = front.skip(1);
        let less = tail + p + rest;
        assert(whole.skip(1) =~= less);
        assert forall|at: int| 0 <= at < tail.len() implies !occurs_at(less, p, at) by {
            assert(!occurs_at(whole, p, at + 1));
            if at + p.len() <= less.len() {
                assert(less.subrange(at, at + p.len()) =~= whole.subrange(
                    at + 1,
                    at + 1 + p.len(),
                ));
            }
        }
        lemma_first_replaced(tail, p, rest, q);
        assert(seq![whole[0]] + (tail + q + replaced(rest, p, q)) =~= front + q + replaced(
            rest,
            p,
            q,
        ));
    }
}

/// The pieces of a text hold all of it but the separators, in order: none holds a separator, and
/// with separators between them they are the text again.
pub proof fn lemma_pieces(s: Text, c: char)
    ensures
        pieces(s, c).len() > 0,
        forall|i: int| 0 <= i < pieces(s, c).len() ==> is_without(#[trigger] pieces(s, c)[i], c),
        joined(pieces(s, c), seq![c]) == s,
    decreases s.len(),
{
    text::lemma_char_from(s, c, 0);
    match text::char_from(s, c, 0) {
        None => {
            assert(pieces(s, c) =~= seq![s]);
        },
        Some(i) => {
            let rest = s.skip(i + 1);
            lemma_pieces(rest, c);
            let tail = pieces(rest, c);
            let all = pieces(s, c);
            assert(all =~= seq![s.take(i)] + tail);
            assert forall|k: int| 0 <= k < all.len() implies is_without(#[trigger] all[k], c) by {
                if k > 0 {
                    assert(all[k] == tail[k - 1]);
                }
            }
            lemma_joined_front(s.take(i), tail, seq![c]);
            assert(s.take(i) + seq![c] + rest =~= s);
        },
    }
}

/// Joining begins with the first part and goes on with the others.
pub proof fn lemma_joined_front(first: Text, rest: Seq<Text>, sep: Text)
    requires
        rest.len() > 0,
    ensures
        joined(seq![first] + rest, sep) == first + sep + joined(rest, sep),
    decreases rest.len(),
{
    let all = seq![first] + rest;
    assert(all.last() == rest.last());
    if rest.len() == 1 {
        reveal_with_fuel(joined, 2);
        assert(all.drop_last() =~= seq![first]);
        assert(joined(all, sep) =~= first + sep + joined(rest, sep));
    } else {
        lemma_joined_front(first, rest.drop_last(), sep);
        assert(all.drop_last() =~= seq![first] + rest.drop_last());
        assert(joined(all, sep) =~= first + sep + joined(rest, sep));
    }
}

/// White space is what Unicode calls so, given by code points.
pub proof fn lemma_white_space(c: char)
    ensures
        is_space(c) <==> (9 <= c as u32 <= 13 || c as u32 == 32 || c as u32 == 133 || c as u32 == 160
            || c as u32 == 5760 || 8192 <= c as u32 <= 8202 || c as u32 == 8232 || c as u32 == 8233
            || c as u32 == 8239 || c as u32 == 8287 || c as u32 == 12288),
{
}

proof fn lemma_char_at(s: Text, c: char, from: int, at: int)
    requires
        0 <= from <= at <= s.len(),
        forall|j: int| from <= j < at ==> s[j] != c,
    ensures
        at < s.len() && s[at] == c ==> char_from(s, c, from) == Some(at),
        at == s.len() ==> char_from(s, c, from) is None,
    decreases at - from,
{
    if from < at {
        lemma_char_at(s, c, from + 1, at);
    }
}

/// A line ends at a line feed, and is without the carriage return before it. A last line that lacks its
/// end is one too, as it stands; behind the last line feed alone there is none.
pub proof fn lemma_lines(a: Text, rest: Text)
    requires
        is_without(a, '\n'),
    ensures
        lines_of(a + seq!['\n'] + rest) == seq![without_cr(a)] + lines_of(rest),
        a.len() > 0 ==> lines_of(a) == seq![a],
        lines_of(Seq::<char>::empty()).len() == 0,
        is_without(a, '\r') ==> without_cr(a) == a && without_cr(a.push('\r')) == a,
{
    let s = a + seq!['\n'] + rest;
    let n = a.len() as int;
    assert(s[n] == '\n');
    assert forall|j: int| 0 <= j < n implies s[j] != '\n' by {
        assert(s[j] == a[j]);
    }
    lemma_char_at(s, '\n', 0, n);
    assert(s.take(n) =~= a);
    assert(s.skip(n + 1) =~= rest);
    let tail = pieces(rest, '\n');
    crate::text::lemma_pieces_nonempty(rest, '\n');
    assert(pieces(s, '\n') =~= seq![a] + tail);
    assert(pieces(s, '\n').last() == tail.last());
    assert(lines_of(s) =~= seq![without_cr(a)] + lines_of(rest));
    lemma_char_at(a, '\n', 0, n);
    assert(pieces(a, '\n') =~= seq![a]);
    if n > 0 {
        assert(lines_of(a) =~= seq![a]);
        assert(a.last() == a[n - 1]);
    }
    let none = Seq::<char>::empty();
    lemma_char_at(none, '\n', 0, 0);
    assert(pieces(none, '\n') =~= seq![none]);
    assert(a.push('\r').drop_last() =~= a);
}

/// A text is split at each occurrence of another: no piece holds it, and with it between them the
/// pieces are the text again.
pub proof fn lemma_pieces_by(s: Text, p: Text)
    requires
        p.len() > 0,
    ensures
        pieces_by(s, p).len() > 0,
        joined(pieces_by(s, p), p) == s,
        !contains_text(pieces_by(s, p)[0], p),
    decreases s.len(),
{
    crate::text::lemma_first_from(s, p, 0);
    crate::text::lemma_contains_is_first(s, p);
    match first(s, p) {
        None => {
            assert(pieces_by(s, p) =~= seq![s]);
        },
        Some(i) => {
            let rest = s.skip(i + p.len());
            lemma_pieces_by(rest, p);
            let front = s.take(i);
            assert(pieces_by(s, p) =~= seq![front] + pieces_by(rest, p));
            lemma_joined_front(front, pieces_by(rest, p), p);
            assert(s.subrange(i, i + p.len()) == p);
            assert(front + p + rest =~= s);
            if contains_text(front, p) {
                let at = choose|at: int| occurs_at(front, p, at);
                assert(s.subrange(at, at + p.len()) =~= front.subrange(at, at + p.len()));
                assert(occurs_at(s, p, at));
            }
        },
    }
}

/// The same holds of what follows: the pieces behind the first occurrence are those of the rest.
pub proof fn lemma_pieces_behind(front: Text, p: Text, rest: Text)
    requires
        p.len() > 0,
        first(front + p + rest, p) == Some(front.len() as int),
    ensures
        pieces_by(front + p + rest, p) == seq![front] + pieces_by(rest, p),
{
    let s = front + p + rest;
    let n = front.len() as int;
    assert(s.take(n) =~= front);
    assert(s.skip(n + p.len()) =~= rest);
}

/// Copies of a text at the end are dropped, and nothing else.
pub proof fn lemma_suffix_dropped(p: Text, front: Text)
    requires
        p.len() > 0,
    ensures
        drop_suffixes(front + p, p) == drop_suffixes(front, p),
        !has_suffix(front, p) ==> drop_suffixes(front, p) == front,
{
    let s = front + p;
    assert(s.subrange(s.len() - p.len(), s.len() as int) =~= p);
    assert(s.take(s.len() - p.len()) =~= front);
}

/// A number has no zero at its front, unless it is zero.
pub proof fn lemma_no_leading_zero(n: nat)
    ensures
        n > 0 ==> decimal(n)[0] != '0',
        decimal(0) == seq!['0'],
        decimal(n).len() > 0,
    decreases n,
{
    assert(forall|d: nat| 0 < d < 10 ==> #[trigger] crate::text::digit(d) != '0');
    assert(crate::text::digit(0) == '0');
    if n >= 10 {
        lemma_no_leading_zero(n / 10);
    }
}

/// Digits are grouped by threes from the right: the digit that has `k` digits behind it has a comma
/// more behind it for every three of them.
pub proof fn lemma_groups(s: Text, k: int)
    requires
        0 <= k < s.len(),
    ensures
        grouped(s).len() == s.len() + (s.len() - 1) / 3,
        grouped(s)[grouped(s).len() - 1 - k - k / 3] == s[s.len() - 1 - k],
        k % 3 == 2 && k + 1 < s.len() ==> grouped(s)[grouped(s).len() - 2 - k - k / 3] == ',',
    decreases s.len(),
{
    if s.len() > 3 {
        let front = s.take(s.len() - 3);
        let back = s.skip(s.len() - 3);
        let g = grouped(s);
        assert(g == grouped(front).push(',') + back);
        if k >= 3 {
            lemma_groups(front, k - 3);
            assert((k - 3) / 3 == k / 3 - 1);
            assert(front[front.len() - 1 - (k - 3)] == s[s.len() - 1 - k]);
        } else {
            lemma_groups(front, 0);
            assert(k / 3 == 0);
        }
    }
}

/// A text that is moved to the right keeps its characters at the end, and blanks fill the field. One
/// that is too long stays as it is.
pub proof fn lemma_right_aligned(s: Text, width: nat, i: int)
    ensures
        s.len() <= width ==> right_aligned(s, width).len() == width,
        s.len() >= width ==> right_aligned(s, width) == s,
        has_suffix(right_aligned(s, width), s),
        0 <= i < width - s.len() ==> right_aligned(s, width)[i] == ' ',
{
    let r = right_aligned(s, width);
    assert(r.subrange(r.len() - s.len(), r.len() as int) =~= s);
    if s.len() < width {
        assert(r =~= blanks((width - s.len()) as nat) + s);
    }
}

/// Of two texts that differ first in one character, the one comes first whose character does; a
/// beginning of a text comes before it.
pub proof fn lemma_text_order(front: Text, a: char, b: char, x: Text, y: Text)
    requires
        a != b,
    ensures
        text_less(front.push(a) + x, front.push(b) + y) <==> a < b,
        text_less(front, front.push(a) + x),
        !text_less(front.push(a) + x, front),
    decreases front.len(),
{
    let p = front.push(a) + x;
    let q = front.push(b) + y;
    if front.len() > 0 {
        let rest = front.drop_first();
        assert(p[0] == front[0] && q[0] == front[0]);
        assert(p.drop_first() =~= rest.push(a) + x);
        assert(q.drop_first() =~= rest.push(b) + y);
        lemma_text_order(rest, a, b, x, y);
    } else {
        assert(p[0] == a && q[0] == b);
    }
}

} // verus!
