//! Strings as sequences of characters: searching, splitting, trimming, replacing.

use vstd::prelude::*;

verus! {

/// `String::push` appends one character.
pub assume_specification[ String::push ](s: &mut String, c: char)
    ensures
        final(s)@ == old(s)@.push(c),
;

/// `==` on `str` compares the two texts character by character.
pub assume_specification[ <str as PartialEq>::eq ](a: &str, b: &str) -> (r: bool)
    ensures
        r == (a@ == b@),
;

/// What `{:?}` writes for a text: the text in quotes, with escapes.
pub uninterp spec fn debug_quoted(s: Seq<char>) -> Seq<char>;

/// `format!` with `{:?}`: the text as `debug_quoted` names it.
#[verifier::external_body]
pub(crate) fn quote_debug(s: &str) -> (r: String)
    ensures
        r@ == debug_quoted(s@),
{
    format!("{:?}", s)
}

/// A text: what a `str` or a `String` holds.
pub type Text = Seq<char>;

// ---------------------------------------------------------------------------
// What the operations mean
// ---------------------------------------------------------------------------

/// `p` stands in `s` at position `at`.
pub open spec fn occurs_at(s: Text, p: Text, at: int) -> bool {
    0 <= at && at + p.len() <= s.len() && s.subrange(at, at + p.len()) == p
}

/// `s` begins with `p`.
pub open spec fn has_prefix(s: Text, p: Text) -> bool {
    occurs_at(s, p, 0)
}

/// `s` ends with `p`.
pub open spec fn has_suffix(s: Text, p: Text) -> bool {
    occurs_at(s, p, s.len() - p.len())
}

/// `p` stands somewhere in `s`.
pub open spec fn contains_text(s: Text, p: Text) -> bool {
    exists|at: int| occurs_at(s, p, at)
}

/// The first position at or after `from` where `p` stands in `s`.
pub open spec fn first_from(s: Text, p: Text, from: int) -> Option<int>
    decreases s.len() + 1 - from,
{
    if from < 0 || from + p.len() > s.len() {
        None
    } else if s.subrange(from, from + p.len()) == p {
        Some(from)
    } else {
        first_from(s, p, from + 1)
    }
}

/// The first position of `p` in `s`.
pub open spec fn first(s: Text, p: Text) -> Option<int> {
    first_from(s, p, 0)
}

/// The last position at or before `upto` where `p` stands in `s`.
pub open spec fn last_upto(s: Text, p: Text, upto: int) -> Option<int>
    decreases upto + 1,
{
    if upto < 0 {
        None
    } else if occurs_at(s, p, upto) {
        Some(upto)
    } else {
        last_upto(s, p, upto - 1)
    }
}

/// The last position of `p` in `s`.
pub open spec fn last(s: Text, p: Text) -> Option<int> {
    last_upto(s, p, s.len() - p.len())
}

/// The first position at or after `from` where the character `c` stands in `s`.
pub open spec fn char_from(s: Text, c: char, from: int) -> Option<int>
    decreases s.len() - from,
{
    if from < 0 || from >= s.len() {
        None
    } else if s[from] == c {
        Some(from)
    } else {
        char_from(s, c, from + 1)
    }
}

/// The pieces of `s` between the characters `c`: always at least one.
pub open spec fn pieces(s: Text, c: char) -> Seq<Text>
    decreases s.len(),
{
    match char_from(s, c, 0) {
        None => seq![s],
        Some(i) => if 0 <= i < s.len() {
            seq![s.take(i)] + pieces(s.skip(i + 1), c)
        } else {
            seq![s]
        },
    }
}

/// The pieces of `s` between the occurrences of the text `p`: always at least one.
pub open spec fn pieces_by(s: Text, p: Text) -> Seq<Text>
    decreases s.len(),
{
    match first(s, p) {
        None => seq![s],
        Some(i) => if p.len() > 0 && 0 <= i && i + p.len() <= s.len() {
            seq![s.take(i)] + pieces_by(s.skip(i + p.len()), p)
        } else {
            seq![s]
        },
    }
}

/// `s` without the occurrences of `p` that stand one after another at its front.
pub open spec fn drop_prefixes(s: Text, p: Text) -> Text
    decreases s.len(),
{
    if p.len() > 0 && has_prefix(s, p) {
        drop_prefixes(s.skip(p.len() as int), p)
    } else {
        s
    }
}

/// `s` without the copies of `p` at its end.
pub open spec fn drop_suffixes(s: Text, p: Text) -> Text
    decreases s.len(),
{
    if p.len() > 0 && has_suffix(s, p) {
        drop_suffixes(s.take(s.len() - p.len()), p)
    } else {
        s
    }
}

/// The texts in `parts` with `sep` between neighbours.
pub open spec fn joined(parts: Seq<Text>, sep: Text) -> Text
    decreases parts.len(),
{
    if parts.len() == 0 {
        Seq::empty()
    } else if parts.len() == 1 {
        parts[0]
    } else {
        joined(parts.drop_last(), sep) + sep + parts.last()
    }
}

/// `s` without a final carriage return.
pub open spec fn without_cr(s: Text) -> Text {
    if s.len() > 0 && s.last() == '\r' {
        s.drop_last()
    } else {
        s
    }
}

/// The lines of `s`: ended by a line feed, or by a carriage return and a line feed; the last
/// line may lack its end.
pub open spec fn lines_of(s: Text) -> Seq<Text> {
    let ps = pieces(s, '\n');
    let kept = if ps.last().len() == 0 {
        ps.drop_last()
    } else {
        ps
    };
    Seq::new(
        kept.len(),
        |i: int|
            if i + 1 < ps.len() {
                without_cr(kept[i])
            } else {
                kept[i]
            },
    )
}

/// The characters that Unicode calls white space.
pub open spec fn is_space(c: char) -> bool {
    ||| '\u{9}' <= c <= '\u{d}'
    ||| c == ' '
    ||| c == '\u{85}'
    ||| c == '\u{a0}'
    ||| c == '\u{1680}'
    ||| '\u{2000}' <= c <= '\u{200a}'
    ||| c == '\u{2028}'
    ||| c == '\u{2029}'
    ||| c == '\u{202f}'
    ||| c == '\u{205f}'
    ||| c == '\u{3000}'
}

/// The predicate that holds of white space.
pub open spec fn spaces() -> spec_fn(char) -> bool {
    |c: char| is_space(c)
}

/// The predicate that holds of the character `c` alone.
pub open spec fn the_char(c: char) -> spec_fn(char) -> bool {
    |x: char| x == c
}

/// `s` without the characters at its front that satisfy `p`.
pub open spec fn drop_front(s: Text, p: spec_fn(char) -> bool) -> Text
    decreases s.len(),
{
    if s.len() > 0 && p(s[0]) {
        drop_front(s.drop_first(), p)
    } else {
        s
    }
}

/// `s` without the characters at its end that satisfy `p`.
pub open spec fn drop_back(s: Text, p: spec_fn(char) -> bool) -> Text
    decreases s.len(),
{
    if s.len() > 0 && p(s.last()) {
        drop_back(s.drop_last(), p)
    } else {
        s
    }
}

/// `s` without white space at either end.
pub open spec fn trimmed(s: Text) -> Text {
    drop_back(drop_front(s, spaces()), spaces())
}

/// `s` without the character `c` at either end.
pub open spec fn trimmed_of(s: Text, c: char) -> Text {
    drop_back(drop_front(s, the_char(c)), the_char(c))
}

/// `s` with every occurrence of `p`, found from the left without overlaps, replaced by `q`.
pub open spec fn replaced(s: Text, p: Text, q: Text) -> Text
    decreases s.len(),
{
    if p.len() == 0 || s.len() < p.len() {
        s
    } else if s.subrange(0, p.len() as int) == p {
        q + replaced(s.skip(p.len() as int), p, q)
    } else {
        seq![s[0]] + replaced(s.skip(1), p, q)
    }
}

/// The decimal digit of `d`.
pub open spec fn digit(d: nat) -> char {
    ('0' as u32 + d) as char
}

/// Whether `c` is one of the ten ASCII digits.
pub open spec fn is_digit(c: char) -> bool {
    '0' <= c <= '9'
}

/// The number that a text of ASCII digits stands for.
pub open spec fn digits_value(s: Text) -> nat
    decreases s.len(),
{
    if s.len() == 0 {
        0
    } else {
        digits_value(s.drop_last()) * 10 + (s.last() as u32 - '0' as u32) as nat
    }
}

/// A text of ASCII digits.
pub open spec fn all_digits(s: Text) -> bool {
    forall|i: int| 0 <= i < s.len() ==> is_digit(#[trigger] s[i])
}

/// `s` without a plus sign at its front.
pub open spec fn unsigned_part(s: Text) -> Text {
    if s.len() > 0 && s[0] == '+' {
        s.skip(1)
    } else {
        s
    }
}

/// The number that a text stands for: ASCII digits, at least one, behind an optional plus sign.
/// `None` for any other text and for a number that a `usize` cannot hold.
pub open spec fn number(s: Text) -> Option<usize> {
    let ds = unsigned_part(s);
    if ds.len() > 0 && all_digits(ds) && digits_value(ds) <= usize::MAX {
        Some(digits_value(ds) as usize)
    } else {
        None
    }
}

/// The number that a text stands for; `None` also for one that 64 bits cannot hold.
pub open spec fn number_64(s: Text) -> Option<u64> {
    let ds = unsigned_part(s);
    if ds.len() > 0 && all_digits(ds) && digits_value(ds) <= u64::MAX {
        Some(digits_value(ds) as u64)
    } else {
        None
    }
}

/// `n` in decimal digits.
pub open spec fn decimal(n: nat) -> Text
    decreases n,
{
    if n < 10 {
        seq![digit(n)]
    } else {
        decimal(n / 10).push(digit(n % 10))
    }
}

// ---------------------------------------------------------------------------
// Facts
// ---------------------------------------------------------------------------

/// What `first_from` finds is an occurrence, and nothing before it is one.
pub proof fn lemma_first_from(s: Text, p: Text, from: int)
    requires
        0 <= from,
    ensures
        match first_from(s, p, from) {
            Some(i) => from <= i && occurs_at(s, p, i) && forall|j: int|
                from <= j < i ==> !occurs_at(s, p, j),
            None => forall|j: int| from <= j ==> !occurs_at(s, p, j),
        },
    decreases s.len() + 1 - from,
{
    if from + p.len() <= s.len() && s.subrange(from, from + p.len()) != p {
        lemma_first_from(s, p, from + 1);
    }
}

/// Searching from a position is searching the rest of the text.
pub proof fn lemma_first_skip(s: Text, p: Text, k: int)
    requires
        0 <= k <= s.len(),
    ensures
        match first_from(s, p, k) {
            Some(i) => first(s.skip(k), p) == Some(i - k),
            None => first(s.skip(k), p) is None,
        },
{
    lemma_first_from(s, p, k);
    lemma_first_from(s.skip(k), p, 0);
    assert forall|j: int| 0 <= j implies occurs_at(s.skip(k), p, j) == occurs_at(s, p, j + k) by {
        if j + p.len() <= s.len() - k {
            assert(s.skip(k).subrange(j, j + p.len()) =~= s.subrange(j + k, j + k + p.len()));
        }
    }
    match first_from(s, p, k) {
        Some(i) => {
            assert(occurs_at(s.skip(k), p, i - k));
            match first(s.skip(k), p) {
                Some(j) => {
                    assert(occurs_at(s, p, j + k));
                },
                None => {},
            }
        },
        None => {
            match first(s.skip(k), p) {
                Some(j) => {
                    assert(occurs_at(s, p, j + k));
                },
                None => {},
            }
        },
    }
}

/// What `char_from` finds holds the character, and nothing before it does.
pub proof fn lemma_char_from(s: Text, c: char, from: int)
    requires
        0 <= from,
    ensures
        match char_from(s, c, from) {
            Some(i) => from <= i < s.len() && s[i] == c && forall|j: int|
                from <= j < i ==> s[j] != c,
            None => forall|j: int| from <= j < s.len() ==> s[j] != c,
        },
    decreases s.len() - from,
{
    if from < s.len() && s[from] != c {
        lemma_char_from(s, c, from + 1);
    }
}

/// What `last_upto` finds is an occurrence, and nothing after it up to `upto` is one.
pub proof fn lemma_last_upto(s: Text, p: Text, upto: int)
    ensures
        match last_upto(s, p, upto) {
            Some(i) => i <= upto && occurs_at(s, p, i) && forall|j: int|
                i < j <= upto ==> !occurs_at(s, p, j),
            None => forall|j: int| j <= upto ==> !occurs_at(s, p, j),
        },
    decreases upto + 1,
{
    if upto >= 0 && !occurs_at(s, p, upto) {
        lemma_last_upto(s, p, upto - 1);
    }
}

/// A text contains another exactly where the search finds it.
pub proof fn lemma_contains_is_first(s: Text, p: Text)
    ensures
        contains_text(s, p) <==> first(s, p) is Some,
{
    lemma_first_from(s, p, 0);
}

// ---------------------------------------------------------------------------
// Executable operations
// ---------------------------------------------------------------------------

/// The characters of a text, in order.
pub fn chars_of(s: &str) -> (r: Vec<char>)
    ensures
        r@ == s@,
{
    let mut out: Vec<char> = Vec::new();
    for c in it: s.chars()
        invariant
            out@ == s@.take(it.index() as int),
            it.seq() == s@,
    {
        out.push(c);
    }
    assert(s@.take(s@.len() as int) =~= s@);
    out
}

/// The text made of the characters from `from` up to `to`.
pub fn text_of(v: &Vec<char>, from: usize, to: usize) -> (r: String)
    requires
        from <= to <= v.len(),
    ensures
        r@ == v@.subrange(from as int, to as int),
{
    let mut out: String = String::new();
    let mut i: usize = from;
    while i < to
        invariant
            from <= i <= to <= v.len(),
            out@ == v@.subrange(from as int, i as int),
        decreases to - i,
    {
        out.push(v[i]);
        assert(v@.subrange(from as int, i + 1) =~= v@.subrange(from as int, i as int).push(
            v@[i as int],
        ));
        i += 1;
    }
    out
}

/// Whether two texts are the same.
pub fn same(a: &str, b: &str) -> (r: bool)
    ensures
        r == (a@ == b@),
{
    *a == *b
}

/// Whether `p` stands in `s` at position `at`.
pub fn matches_at(s: &Vec<char>, p: &Vec<char>, at: usize) -> (r: bool)
    ensures
        r == occurs_at(s@, p@, at as int),
{
    if at > s.len() || p.len() > s.len() - at {
        return false;
    }
    let mut i: usize = 0;
    while i < p.len()
        invariant
            at + p.len() <= s.len(),
            i <= p.len(),
            forall|j: int| 0 <= j < i ==> s@[at + j] == p@[j],
        decreases p.len() - i,
    {
        if s[at + i] != p[i] {
            assert(s@.subrange(at as int, at + p@.len())[i as int] != p@[i as int]);
            return false;
        }
        i += 1;
    }
    assert(s@.subrange(at as int, at + p@.len()) =~= p@);
    true
}

/// The first position of `p` in `s` at or after `from`.
pub fn find_from(s: &Vec<char>, p: &Vec<char>, from: usize) -> (r: Option<usize>)
    ensures
        match first_from(s@, p@, from as int) {
            Some(i) => r == Some(i as usize) && i <= s.len(),
            None => r is None,
        },
{
    if from > s.len() {
        return None;
    }
    let mut i: usize = from;
    while i <= s.len() && p.len() <= s.len() - i
        invariant
            from <= i <= s.len() + 1,
            first_from(s@, p@, from as int) == first_from(s@, p@, i as int),
        decreases s.len() + 1 - i,
    {
        if matches_at(s, p, i) {
            return Some(i);
        }
        if i == s.len() {
            assert(first_from(s@, p@, i + 1) is None);
            return None;
        }
        i += 1;
    }
    None
}

/// The first position of `p` in `s`, counted in characters.
pub fn find(s: &str, p: &str) -> (r: Option<usize>)
    ensures
        match first(s@, p@) {
            Some(i) => r == Some(i as usize) && 0 <= i && i + p@.len() <= s@.len() && s@.len()
                <= usize::MAX,
            None => r is None,
        },
{
    let sv = chars_of(s);
    let pv = chars_of(p);
    proof {
        lemma_first_from(s@, p@, 0);
        assert(sv.len() <= usize::MAX);
    }
    find_from(&sv, &pv, 0)
}

/// The last position of `p` in `s`, counted in characters.
pub fn rfind(s: &str, p: &str) -> (r: Option<usize>)
    ensures
        match last(s@, p@) {
            Some(i) => r == Some(i as usize) && 0 <= i && i + p@.len() <= s@.len() && s@.len()
                <= usize::MAX,
            None => r is None,
        },
{
    let sv = chars_of(s);
    let pv = chars_of(p);
    if pv.len() > sv.len() {
        return None;
    }
    let mut i: usize = sv.len() - pv.len();
    loop
        invariant
            sv@ == s@,
            pv@ == p@,
            i + pv.len() <= sv.len(),
            last(s@, p@) == last_upto(s@, p@, i as int),
        decreases i,
    {
        if matches_at(&sv, &pv, i) {
            assert(sv.len() <= usize::MAX);
            return Some(i);
        }
        if i == 0 {
            assert(last_upto(s@, p@, -1) is None);
            return None;
        }
        i -= 1;
    }
}

/// Whether `p` stands somewhere in `s`.
pub fn contains(s: &str, p: &str) -> (r: bool)
    ensures
        r == contains_text(s@, p@),
{
    proof {
        lemma_contains_is_first(s@, p@);
    }
    find(s, p).is_some()
}

/// Whether `s` begins with `p`.
pub fn starts_with(s: &str, p: &str) -> (r: bool)
    ensures
        r == has_prefix(s@, p@),
{
    let sv = chars_of(s);
    let pv = chars_of(p);
    matches_at(&sv, &pv, 0)
}

/// Whether `s` ends with `p`.
pub fn ends_with(s: &str, p: &str) -> (r: bool)
    ensures
        r == has_suffix(s@, p@),
{
    let sv = chars_of(s);
    let pv = chars_of(p);
    if pv.len() > sv.len() {
        return false;
    }
    matches_at(&sv, &pv, sv.len() - pv.len())
}

/// The part of `s` from position `from` to its end.
pub fn rest<'a>(s: &'a str, from: usize) -> (r: &'a str)
    requires
        from <= s@.len(),
    ensures
        r@ == s@.skip(from as int),
{
    let n: usize = s.unicode_len();
    let r = s.substring_char(from, n);
    assert(s@.subrange(from as int, n as int) =~= s@.skip(from as int));
    r
}

/// The part of `s` before position `to`.
pub fn front<'a>(s: &'a str, to: usize) -> (r: &'a str)
    requires
        to <= s@.len(),
    ensures
        r@ == s@.take(to as int),
{
    let r = s.substring_char(0, to);
    assert(s@.subrange(0, to as int) =~= s@.take(to as int));
    r
}

/// `s` without the prefix `p`, where it has it.
pub fn strip_prefix<'a>(s: &'a str, p: &str) -> (r: Option<&'a str>)
    ensures
        match r {
            Some(t) => has_prefix(s@, p@) && t@ == s@.skip(p@.len() as int),
            None => !has_prefix(s@, p@),
        },
{
    if starts_with(s, p) {
        let n: usize = p.unicode_len();
        Some(rest(s, n))
    } else {
        None
    }
}

/// `s` without the suffix `p`, where it has it.
pub fn strip_suffix<'a>(s: &'a str, p: &str) -> (r: Option<&'a str>)
    ensures
        match r {
            Some(t) => has_suffix(s@, p@) && t@ == s@.take(s@.len() - p@.len()),
            None => !has_suffix(s@, p@),
        },
{
    if ends_with(s, p) {
        let n: usize = s.unicode_len();
        let k: usize = p.unicode_len();
        Some(front(s, n - k))
    } else {
        None
    }
}

/// The pieces of `s` between the characters `c`.
pub fn split(s: &str, c: char) -> (r: Vec<String>)
    ensures
        r.deep_view() == pieces(s@, c),
{
    let v = chars_of(s);
    let mut out: Vec<String> = Vec::new();
    let mut start: usize = 0;
    let mut i: usize = 0;
    assert(v@.skip(0) =~= v@);
    while i < v.len()
        invariant
            v@ == s@,
            start <= i <= v.len(),
            forall|j: int| start <= j < i ==> v@[j] != c,
            pieces(v@, c) == out.deep_view() + pieces(v@.skip(start as int), c),
        decreases v.len() - i,
    {
        if v[i] == c {
            let ghost before = out.deep_view();
            let ghost tail = v@.skip(start as int);
            out.push(text_of(&v, start, i));
            proof {
                lemma_char_from(tail, c, 0);
                assert(tail[i - start] == c);
                assert(char_from(tail, c, 0) == Some(i - start));
                assert(tail.take(i - start) =~= v@.subrange(start as int, i as int));
                assert(tail.skip(i - start + 1) =~= v@.skip(i + 1));
                assert(out.deep_view() =~= before.push(v@.subrange(start as int, i as int)));
                assert(pieces(v@, c) =~= out.deep_view() + pieces(v@.skip(i + 1), c));
            }
            start = i + 1;
        }
        i += 1;
    }
    let ghost before = out.deep_view();
    let ghost tail = v@.skip(start as int);
    out.push(text_of(&v, start, v.len()));
    proof {
        lemma_char_from(tail, c, 0);
        assert(char_from(tail, c, 0) is None);
        assert(tail =~= v@.subrange(start as int, v@.len() as int));
        assert(out.deep_view() =~= before.push(tail));
        assert(out.deep_view() =~= before + seq![tail]);
    }
    out
}

/// The pieces of `s` between the occurrences of `p`.
pub fn split_text(s: &str, p: &str) -> (r: Vec<String>)
    requires
        p@.len() > 0,
    ensures
        r.deep_view() == pieces_by(s@, p@),
{
    let sv = chars_of(s);
    let pv = chars_of(p);
    let mut out: Vec<String> = Vec::new();
    let mut start: usize = 0;
    assert(sv@.skip(0) =~= sv@);
    loop
        invariant
            sv@ == s@,
            pv@ == p@,
            pv.len() > 0,
            start <= sv.len(),
            pieces_by(s@, p@) == out.deep_view() + pieces_by(s@.skip(start as int), p@),
        decreases sv.len() - start,
    {
        let ghost tail = s@.skip(start as int);
        let ghost before = out.deep_view();
        proof {
            lemma_first_from(s@, p@, start as int);
            lemma_first_skip(s@, p@, start as int);
        }
        match find_from(&sv, &pv, start) {
            Some(i) => {
                out.push(text_of(&sv, start, i));
                proof {
                    assert(first(tail, p@) == Some(i - start));
                    assert(tail.take(i - start) =~= s@.subrange(start as int, i as int));
                    assert(tail.skip(i - start + p@.len()) =~= s@.skip(i + p@.len()));
                    assert(out.deep_view() =~= before.push(s@.subrange(start as int, i as int)));
                    assert(pieces_by(s@, p@) =~= out.deep_view() + pieces_by(
                        s@.skip(i + p@.len()),
                        p@,
                    ));
                }
                start = i + pv.len();
            },
            None => {
                out.push(text_of(&sv, start, sv.len()));
                proof {
                    assert(tail =~= s@.subrange(start as int, s@.len() as int));
                    assert(out.deep_view() =~= before.push(tail));
                    assert(out.deep_view() =~= before + seq![tail]);
                }
                return out;
            },
        }
    }
}

/// `s` without the occurrences of `p` that stand one after another at its front.
pub fn trim_start_text<'a>(s: &'a str, p: &str) -> (r: &'a str)
    requires
        p@.len() > 0,
    ensures
        r@ == drop_prefixes(s@, p@),
{
    let sv = chars_of(s);
    let pv = chars_of(p);
    let mut i: usize = 0;
    assert(s@.skip(0) =~= s@);
    while matches_at(&sv, &pv, i)
        invariant
            sv@ == s@,
            pv@ == p@,
            pv.len() > 0,
            i <= sv.len(),
            drop_prefixes(s@, p@) == drop_prefixes(s@.skip(i as int), p@),
        decreases sv.len() - i,
    {
        proof {
            let tail = s@.skip(i as int);
            assert(tail.subrange(0, p@.len() as int) =~= s@.subrange(i as int, i + p@.len()));
            assert(tail.skip(p@.len() as int) =~= s@.skip(i + p@.len()));
        }
        i += pv.len();
    }
    proof {
        let tail = s@.skip(i as int);
        if has_prefix(tail, p@) {
            assert(tail.subrange(0, p@.len() as int) =~= s@.subrange(i as int, i + p@.len()));
        }
    }
    rest(s, i)
}

/// `s` without the copies of `p` at its end.
pub fn trim_end_text<'a>(s: &'a str, p: &str) -> (r: &'a str)
    ensures
        r@ == drop_suffixes(s@, p@),
{
    if p.is_empty() {
        return s;
    }
    let mut out = s;
    loop
        invariant
            p@.len() > 0,
            drop_suffixes(s@, p@) == drop_suffixes(out@, p@),
        decreases out@.len(),
    {
        match strip_suffix(out, p) {
            Some(shorter) => {
                out = shorter;
            },
            None => {
                return out;
            },
        }
    }
}

/// `pieces` yields at least one piece.
pub proof fn lemma_pieces_nonempty(s: Text, c: char)
    ensures
        pieces(s, c).len() >= 1,
{
}

/// The lines of `s`.
pub fn lines(s: &str) -> (r: Vec<String>)
    ensures
        r.deep_view() == lines_of(s@),
{
    let ps = split(s, '\n');
    proof {
        lemma_pieces_nonempty(s@, '\n');
    }
    let ghost all = pieces(s@, '\n');
    assert(ps.deep_view().len() == ps@.len());
    let last_index: usize = ps.len() - 1;
    assert(ps.deep_view()[last_index as int] == ps@[last_index as int]@);
    let kept: usize = if ps[last_index].as_str().is_empty() {
        last_index
    } else {
        ps.len()
    };
    let mut out: Vec<String> = Vec::new();
    let mut i: usize = 0;
    while i < kept
        invariant
            i <= kept <= ps.len(),
            ps.deep_view() == all,
            all == pieces(s@, '\n'),
            kept == lines_of(s@).len(),
            out.deep_view() == lines_of(s@).take(i as int),
        decreases kept - i,
    {
        let ghost before = out.deep_view();
        assert(all[i as int] == ps@[i as int]@);
        let line: String = if i + 1 < ps.len() {
            let v = chars_of(ps[i].as_str());
            let n: usize = v.len();
            if n > 0 && v[n - 1] == '\r' {
                assert(v@.subrange(0, n - 1) =~= v@.drop_last());
                text_of(&v, 0, n - 1)
            } else {
                ps[i].clone()
            }
        } else {
            ps[i].clone()
        };
        assert(line@ == lines_of(s@)[i as int]);
        out.push(line);
        assert(out.deep_view() =~= before.push(line@));
        assert(lines_of(s@).take(i + 1) =~= lines_of(s@).take(i as int).push(
            lines_of(s@)[i as int],
        ));
        i += 1;
    }
    assert(lines_of(s@).take(kept as int) =~= lines_of(s@));
    out
}

/// Whether `c` is white space.
pub fn is_whitespace(c: char) -> (r: bool)
    ensures
        r == is_space(c),
{
    ('\u{9}' <= c && c <= '\u{d}') || c == ' ' || c == '\u{85}' || c == '\u{a0}' || c == '\u{1680}'
        || ('\u{2000}' <= c && c <= '\u{200a}') || c == '\u{2028}' || c == '\u{2029}' || c
        == '\u{202f}' || c == '\u{205f}' || c == '\u{3000}'
}

/// Dropping from the front leaves the rest from the first character that does not satisfy `p`.
pub proof fn lemma_drop_front(s: Text, p: spec_fn(char) -> bool, k: int)
    requires
        0 <= k <= s.len(),
        forall|j: int| 0 <= j < k ==> p(s[j]),
        k < s.len() ==> !p(s[k]),
    ensures
        drop_front(s, p) == s.skip(k),
    decreases k,
{
    if k == 0 {
        assert(s.skip(0) =~= s);
    } else {
        lemma_drop_front(s.drop_first(), p, k - 1);
        assert(s.drop_first().skip(k - 1) =~= s.skip(k));
    }
}

/// Dropping from the back leaves the text up to the last character that does not satisfy `p`.
pub proof fn lemma_drop_back(s: Text, p: spec_fn(char) -> bool, k: int)
    requires
        0 <= k <= s.len(),
        forall|j: int| k <= j < s.len() ==> p(s[j]),
        k > 0 ==> !p(s[k - 1]),
    ensures
        drop_back(s, p) == s.take(k),
    decreases s.len() - k,
{
    if k == s.len() {
        assert(s.take(k) =~= s);
    } else {
        lemma_drop_back(s.drop_last(), p, k);
        assert(s.drop_last().take(k) =~= s.take(k));
    }
}

/// `s` without white space at its front.
pub fn trim_start<'a>(s: &'a str) -> (r: &'a str)
    ensures
        r@ == drop_front(s@, spaces()),
{
    let v = chars_of(s);
    let mut i: usize = 0;
    while i < v.len() && is_whitespace(v[i])
        invariant
            i <= v.len(),
            forall|j: int| 0 <= j < i ==> is_space(v@[j]),
        decreases v.len() - i,
    {
        i += 1;
    }
    proof {
        lemma_drop_front(s@, spaces(), i as int);
    }
    rest(s, i)
}

/// `s` without white space at its end.
pub fn trim_end<'a>(s: &'a str) -> (r: &'a str)
    ensures
        r@ == drop_back(s@, spaces()),
{
    let v = chars_of(s);
    let mut i: usize = v.len();
    while i > 0 && is_whitespace(v[i - 1])
        invariant
            i <= v.len(),
            forall|j: int| i <= j < v.len() ==> is_space(v@[j]),
        decreases i,
    {
        i -= 1;
    }
    proof {
        lemma_drop_back(s@, spaces(), i as int);
    }
    front(s, i)
}

/// `s` without white space at either end.
pub fn trim<'a>(s: &'a str) -> (r: &'a str)
    ensures
        r@ == trimmed(s@),
{
    trim_end(trim_start(s))
}

/// `s` without the character `c` at its front.
pub fn trim_start_matches<'a>(s: &'a str, c: char) -> (r: &'a str)
    ensures
        r@ == drop_front(s@, the_char(c)),
{
    let v = chars_of(s);
    let mut i: usize = 0;
    while i < v.len() && v[i] == c
        invariant
            i <= v.len(),
            forall|j: int| 0 <= j < i ==> v@[j] == c,
        decreases v.len() - i,
    {
        i += 1;
    }
    proof {
        lemma_drop_front(s@, the_char(c), i as int);
    }
    rest(s, i)
}

/// `s` without the character `c` at its end.
pub fn trim_end_matches<'a>(s: &'a str, c: char) -> (r: &'a str)
    ensures
        r@ == drop_back(s@, the_char(c)),
{
    let v = chars_of(s);
    let mut i: usize = v.len();
    while i > 0 && v[i - 1] == c
        invariant
            i <= v.len(),
            forall|j: int| i <= j < v.len() ==> v@[j] == c,
        decreases i,
    {
        i -= 1;
    }
    proof {
        lemma_drop_back(s@, the_char(c), i as int);
    }
    front(s, i)
}

/// `s` without the character `c` at either end.
pub fn trim_matches<'a>(s: &'a str, c: char) -> (r: &'a str)
    ensures
        r@ == trimmed_of(s@, c),
{
    trim_end_matches(trim_start_matches(s, c), c)
}

/// `s` with every occurrence of `p` replaced by `q`.
pub fn replace(s: &str, p: &str, q: &str) -> (r: String)
    requires
        p@.len() > 0,
    ensures
        r@ == replaced(s@, p@, q@),
{
    let sv = chars_of(s);
    let pv = chars_of(p);
    let mut out: String = String::new();
    let mut i: usize = 0;
    assert(sv@.skip(0) =~= sv@);
    while i < sv.len()
        invariant
            sv@ == s@,
            pv@ == p@,
            pv.len() > 0,
            i <= sv.len(),
            replaced(s@, p@, q@) == out@ + replaced(s@.skip(i as int), p@, q@),
        decreases sv.len() - i,
    {
        let ghost tail = s@.skip(i as int);
        let ghost before = out@;
        if matches_at(&sv, &pv, i) {
            out.append(q);
            proof {
                assert(tail.subrange(0, p@.len() as int) =~= s@.subrange(i as int, i + p@.len()));
                assert(tail.skip(p@.len() as int) =~= s@.skip(i + p@.len()));
                assert(before + (q@ + replaced(tail.skip(p@.len() as int), p@, q@)) =~= out@
                    + replaced(s@.skip(i + p@.len()), p@, q@));
            }
            i += pv.len();
        } else {
            out.push(sv[i]);
            proof {
                if tail.len() >= p@.len() {
                    assert(tail.subrange(0, p@.len() as int) =~= s@.subrange(
                        i as int,
                        i + p@.len(),
                    ));
                    assert(tail.skip(1) =~= s@.skip(i + 1));
                    assert(before + (seq![tail[0]] + replaced(tail.skip(1), p@, q@)) =~= out@
                        + replaced(s@.skip(i + 1), p@, q@));
                } else {
                    assert(s@.skip(i + 1).len() < p@.len());
                    assert(before + tail =~= out@ + s@.skip(i + 1));
                }
            }
            i += 1;
        }
    }
    assert(s@.skip(i as int) =~= Seq::<char>::empty());
    assert(out@ + replaced(s@.skip(i as int), p@, q@) =~= out@);
    out
}

/// The texts in `parts` with `sep` between neighbours.
pub fn join(parts: &Vec<String>, sep: &str) -> (r: String)
    ensures
        r@ == joined(parts.deep_view(), sep@),
{
    let mut out: String = String::new();
    let mut i: usize = 0;
    let ghost all = parts.deep_view();
    while i < parts.len()
        invariant
            i <= parts.len(),
            all == parts.deep_view(),
            out@ == joined(all.take(i as int), sep@),
        decreases parts.len() - i,
    {
        let ghost upto = all.take(i + 1);
        assert(upto.drop_last() =~= all.take(i as int));
        assert(upto.last() == parts@[i as int]@);
        if i > 0 {
            out.append(sep);
        }
        out.append(parts[i].as_str());
        assert(out@ =~= joined(upto, sep@));
        i += 1;
    }
    assert(all.take(i as int) =~= all);
    out
}

/// More digits never make a number smaller.
pub proof fn lemma_digits_grow(s: Text, k: int)
    requires
        0 <= k <= s.len(),
    ensures
        digits_value(s.take(k)) <= digits_value(s),
    decreases s.len(),
{
    if k == s.len() {
        assert(s.take(k) =~= s);
    } else {
        lemma_digits_grow(s.drop_last(), k);
        assert(s.drop_last().take(k) =~= s.take(k));
    }
}

/// The number of 64 bits that a text stands for.
pub fn parse_u64(s: &str) -> (r: Option<u64>)
    ensures
        r == number_64(s@),
{
    let v = chars_of(s);
    let from: usize = if v.len() > 0 && v[0] == '+' {
        1
    } else {
        0
    };
    let ghost ds = unsigned_part(s@);
    if from == v.len() {
        return None;
    }
    let mut n: u64 = 0;
    let mut i: usize = from;
    assert(ds.take(0) =~= Seq::<char>::empty());
    while i < v.len()
        invariant
            v@ == s@,
            from <= i <= v.len(),
            from <= 1,
            ds == unsigned_part(s@),
            ds.len() == v.len() - from,
            ds.len() > 0,
            forall|j: int| 0 <= j < ds.len() ==> ds[j] == #[trigger] v@[from + j],
            forall|j: int| 0 <= j < i - from ==> is_digit(#[trigger] ds[j]),
            n == digits_value(ds.take(i - from)),
        decreases v.len() - i,
    {
        let c: char = v[i];
        assert(ds[i - from] == c);
        if !('0' <= c && c <= '9') {
            assert(!is_digit(ds[i - from]));
            return None;
        }
        let d: u64 = (c as u32 - '0' as u32) as u64;
        let ghost upto = ds.take(i - from + 1);
        proof {
            assert(upto.drop_last() =~= ds.take(i - from));
            assert(upto.last() == c);
            lemma_digits_grow(ds, i - from + 1);
        }
        if n > u64::MAX / 10 {
            assert(n * 10 > u64::MAX) by (nonlinear_arith)
                requires
                    n > u64::MAX / 10,
            ;
            return None;
        }
        assert(n * 10 <= u64::MAX);
        if d > u64::MAX - n * 10 {
            return None;
        }
        n = n * 10 + d;
        i += 1;
    }
    assert(ds.take(i - from) =~= ds);
    Some(n)
}

/// The number that a text stands for.
pub fn parse_number(s: &str) -> (r: Option<usize>)
    ensures
        r == number(s@),
{
    match parse_u64(s) {
        Some(n) => {
            if n <= usize::MAX as u64 {
                Some(n as usize)
            } else {
                None
            }
        },
        None => None,
    }
}

/// `n` in decimal digits.
pub fn decimal_of(n: u64) -> (r: String)
    ensures
        r@ == decimal(n as nat),
    decreases n,
{
    let d: u8 = (n % 10) as u8;
    let c: char = (48u8 + d) as char;
    assert(c == digit((n % 10) as nat));
    if n < 10 {
        let mut s: String = String::new();
        s.push(c);
        assert(s@ =~= seq![digit(n as nat)]);
        s
    } else {
        let mut s = decimal_of(n / 10);
        s.push(c);
        s
    }
}

/// The number of bytes of a text in UTF-8.
pub open spec fn bytes_in(s: Text) -> nat {
    vstd::utf8::encode_utf8(s).len()
}

/// The number of bytes of a text in UTF-8.
pub fn byte_len(s: &str) -> (r: usize)
    ensures
        r == bytes_in(s@),
{
    s.as_bytes().len()
}

/// `a` followed by `b`.
pub fn cat(a: &str, b: &str) -> (r: String)
    ensures
        r@ == a@ + b@,
{
    let mut s: String = a.to_owned();
    s.append(b);
    s
}

/// `a` followed by `b` and `c`.
pub fn cat3(a: &str, b: &str, c: &str) -> (r: String)
    ensures
        r@ == a@ + b@ + c@,
{
    let mut s = cat(a, b);
    s.append(c);
    s
}

// ---------------------------------------------------------------------------
// Numbers for people
// ---------------------------------------------------------------------------

/// Digits with a comma before each group of three, counted from the right.
pub open spec fn grouped(s: Text) -> Text
    decreases s.len(),
{
    if s.len() <= 3 {
        s
    } else {
        grouped(s.take(s.len() - 3)).push(',') + s.skip(s.len() - 3)
    }
}

/// The first `n` characters with a comma before each group of three.
fn group_digits(v: &Vec<char>, n: usize) -> (r: String)
    requires
        n <= v.len(),
    ensures
        r@ == grouped(v@.take(n as int)),
    decreases n,
{
    let ghost s = v@.take(n as int);
    if n <= 3 {
        assert(v@.subrange(0, n as int) =~= s);
        return text_of(v, 0, n);
    }
    let mut out = group_digits(v, n - 3);
    assert(s.take(n - 3) =~= v@.take(n - 3));
    assert(s.skip(n - 3) =~= v@.subrange(n - 3, n as int));
    out.push(',');
    out.append(text_of(v, n - 3, n).as_str());
    out
}

/// `n` in decimal digits, with a comma before each group of three: 1,234,567.
pub fn format_number(n: u64) -> (r: String)
    ensures
        r@ == grouped(decimal(n as nat)),
{
    let digits = chars_of(decimal_of(n).as_str());
    assert(digits@.take(digits.len() as int) =~= digits@);
    group_digits(&digits, digits.len())
}

/// `n` spaces.
pub open spec fn blanks(n: nat) -> Text {
    Seq::new(n, |i: int| ' ')
}

/// `s`, moved to the right end of a field of `width` characters.
pub open spec fn right_aligned(s: Text, width: nat) -> Text {
    if s.len() < width {
        blanks((width - s.len()) as nat) + s
    } else {
        s
    }
}

/// `s`, moved to the right end of a field of `width` characters.
pub fn align_right(s: &str, width: usize) -> (r: String)
    ensures
        r@ == right_aligned(s@, width as nat),
{
    let n: usize = s.unicode_len();
    let mut out: String = String::new();
    if n < width {
        let mut i: usize = 0;
        assert(out@ =~= blanks(0));
        while i < width - n
            invariant
                n < width,
                i <= width - n,
                out@ == blanks(i as nat),
            decreases width - n - i,
        {
            out.push(' ');
            i += 1;
            assert(out@ =~= blanks(i as nat));
        }
        out.append(s);
        out
    } else {
        s.to_owned()
    }
}

// ---------------------------------------------------------------------------
// Order
// ---------------------------------------------------------------------------

/// `a` comes before `b` in the order of a dictionary of characters.
pub open spec fn text_less(a: Text, b: Text) -> bool
    decreases b.len(),
{
    if b.len() == 0 {
        false
    } else if a.len() == 0 {
        true
    } else if a[0] != b[0] {
        a[0] < b[0]
    } else {
        text_less(a.drop_first(), b.drop_first())
    }
}

/// Whether `a` comes before `b`.
pub fn is_less(a: &str, b: &str) -> (r: bool)
    ensures
        r == text_less(a@, b@),
{
    let x = chars_of(a);
    let y = chars_of(b);
    let mut i: usize = 0;
    assert(x@.skip(0) =~= x@ && y@.skip(0) =~= y@);
    loop
        invariant
            x@ == a@,
            y@ == b@,
            i <= x.len(),
            i <= y.len(),
            text_less(a@, b@) == text_less(x@.skip(i as int), y@.skip(i as int)),
        decreases y.len() - i,
    {
        if i == y.len() {
            return false;
        }
        if i == x.len() {
            return true;
        }
        assert(x@.skip(i as int)[0] == x@[i as int]);
        assert(y@.skip(i as int)[0] == y@[i as int]);
        if x[i] != y[i] {
            return x[i] < y[i];
        }
        assert(x@.skip(i as int).drop_first() =~= x@.skip(i + 1));
        assert(y@.skip(i as int).drop_first() =~= y@.skip(i + 1));
        i += 1;
    }
}

/// A text does not come before itself.
proof fn lemma_text_less_strict(a: Text)
    ensures
        !text_less(a, a),
    decreases a.len(),
{
    if a.len() > 0 {
        lemma_text_less_strict(a.drop_first());
    }
}

/// A text does not come before itself, and of two different texts one comes before the other.
pub proof fn lemma_text_less_total(a: Text, b: Text)
    ensures
        !text_less(a, a),
        text_less(a, b) ==> !text_less(b, a),
        a != b ==> text_less(a, b) || text_less(b, a),
    decreases a.len() + b.len(),
{
    lemma_text_less_strict(a);
    if a.len() > 0 && b.len() > 0 && a[0] == b[0] {
        lemma_text_less_total(a.drop_first(), b.drop_first());
        if a.drop_first() == b.drop_first() {
            assert(a =~= seq![a[0]] + a.drop_first());
            assert(b =~= seq![b[0]] + b.drop_first());
        }
    } else if a.len() == 0 && b.len() == 0 {
        assert(a =~= b);
    }
}

/// What comes before a text comes before all that follow it.
pub proof fn lemma_text_less_transitive(a: Text, b: Text, c: Text)
    requires
        text_less(a, b),
        text_less(b, c),
    ensures
        text_less(a, c),
    decreases a.len(),
{
    if a.len() > 0 && b.len() > 0 && c.len() > 0 && a[0] == b[0] && b[0] == c[0] {
        lemma_text_less_transitive(a.drop_first(), b.drop_first(), c.drop_first());
    }
}

/// Reading a written number gives it back.
pub proof fn lemma_decimal_read(n: nat)
    ensures
        decimal(n).len() > 0,
        all_digits(decimal(n)),
        digits_value(decimal(n)) == n,
    decreases n,
{
    assert(forall|d: nat| d < 10 ==> is_digit(#[trigger] digit(d)) && digit(d) as u32 - '0' as u32
        == d);
    if n < 10 {
        let s = decimal(n);
        assert(s.drop_last() =~= Seq::<char>::empty());
        assert(digits_value(s.drop_last()) == 0);
        assert(is_digit(digit(n)));
    } else {
        lemma_decimal_read(n / 10);
        let s = decimal(n);
        assert(s.drop_last() =~= decimal(n / 10));
        assert(is_digit(digit(n % 10)));
        assert forall|i: int| 0 <= i < s.len() implies is_digit(#[trigger] s[i]) by {
            if i < s.len() - 1 {
                assert(s[i] == decimal(n / 10)[i]);
            }
        }
    }
}

/// A number that 64 bits hold reads back as it was written.
pub proof fn lemma_number_read(n: u64)
    ensures
        number_64(decimal(n as nat)) == Some(n),
{
    lemma_decimal_read(n as nat);
    let s = decimal(n as nat);
    assert(is_digit(s[0]));
    assert(unsigned_part(s) == s);
}

/// Without its commas a grouped number holds the digits that it was made of.
pub proof fn lemma_grouped_digits(s: Text)
    requires
        all_digits(s),
    ensures
        grouped(s).filter(|c: char| c != ',') == s,
    decreases s.len(),
{
    let keep = |c: char| c != ',';
    if s.len() <= 3 {
        lemma_filter_all(s, keep);
    } else {
        let front = s.take(s.len() - 3);
        let back = s.skip(s.len() - 3);
        assert forall|i: int| 0 <= i < front.len() implies is_digit(#[trigger] front[i]) by {
            assert(front[i] == s[i]);
        }
        assert forall|i: int| 0 <= i < back.len() implies is_digit(#[trigger] back[i]) by {
            assert(back[i] == s[s.len() - 3 + i]);
        }
        lemma_grouped_digits(front);
        lemma_filter_all(back, keep);
        let head = grouped(front).push(',');
        Seq::filter_distributes_over_add(head, back, keep);
        reveal(Seq::filter);
        assert(head.drop_last() =~= grouped(front));
        assert(head.filter(keep) == front);
        assert(front + back =~= s);
    }
}

/// A filter that all members pass changes nothing.
proof fn lemma_filter_all(s: Text, keep: spec_fn(char) -> bool)
    requires
        forall|i: int| 0 <= i < s.len() ==> keep(#[trigger] s[i]),
    ensures
        s.filter(keep) == s,
    decreases s.len(),
{
    reveal(Seq::filter);
    if s.len() > 0 {
        let init = s.drop_last();
        assert forall|i: int| 0 <= i < init.len() implies keep(#[trigger] init[i]) by {
            assert(init[i] == s[i]);
        }
        lemma_filter_all(init, keep);
        assert(keep(s[s.len() - 1]));
        assert(init.push(s.last()) =~= s);
    } else {
        assert(s.filter(keep) =~= s);
    }
}

} // verus!
