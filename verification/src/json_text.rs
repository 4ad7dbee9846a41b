//! The members of JSON documents as their texts list them: in order, and with every repetition.

use crate::json;
use crate::json::{json_document, Json};
use crate::text;
use crate::text::{char_from, Text};
use vstd::prelude::*;

verus! {

// ---------------------------------------------------------------------------
// Parts
// ---------------------------------------------------------------------------

/// Where a string ends whose first character behind the quote is the `i`-th: behind its other quote.
pub open spec fn string_end(s: Text, i: int) -> int
    decreases s.len() - i,
{
    if i < 0 || i >= s.len() {
        s.len() as int
    } else if s[i] == '\\' {
        if i + 2 < s.len() {
            string_end(s, i + 2)
        } else {
            s.len() as int
        }
    } else if s[i] == '"' {
        i + 1
    } else {
        string_end(s, i + 1)
    }
}

/// Where a part ends that goes on at the `i`-th character, inside as many brackets as `depth` says:
/// at the comma that follows it, at the bracket that closes what it is part of, or at the end.
pub open spec fn part_end(s: Text, i: int, depth: nat) -> int
    decreases s.len() - i,
{
    if i < 0 || i >= s.len() {
        s.len() as int
    } else if s[i] == '"' {
        if i < string_end(s, i + 1) <= s.len() {
            part_end(s, string_end(s, i + 1), depth)
        } else {
            s.len() as int
        }
    } else if s[i] == '{' || s[i] == '[' {
        part_end(s, i + 1, depth + 1)
    } else if s[i] == '}' || s[i] == ']' {
        if depth == 0 {
            i
        } else {
            part_end(s, i + 1, (depth - 1) as nat)
        }
    } else if s[i] == ',' && depth == 0 {
        i
    } else {
        part_end(s, i + 1, depth)
    }
}

/// The parts from the `i`-th character on, up to the bracket that closes them.
pub open spec fn parts_from(s: Text, i: int) -> Seq<Text>
    decreases s.len() - i,
{
    let end = part_end(s, i, 0);
    if i < 0 || end < i || end > s.len() {
        Seq::empty()
    } else if end < s.len() && s[end] == ',' {
        seq![s.subrange(i, end)] + parts_from(s, end + 1)
    } else {
        seq![s.subrange(i, end)]
    }
}

/// Where the first bracket of a text stands.
pub open spec fn opening(s: Text, i: int) -> Option<int>
    decreases s.len() - i,
{
    if i < 0 || i >= s.len() {
        None
    } else if s[i] == '{' || s[i] == '[' {
        Some(i)
    } else {
        opening(s, i + 1)
    }
}

/// The texts of the members of an object or the items of a list, in order. Where there are none, the
/// one part is blank.
pub open spec fn parts_in(s: Text) -> Seq<Text> {
    match opening(s, 0) {
        Some(i) => parts_from(s, i + 1),
        None => Seq::empty(),
    }
}

/// The text is that of an object.
pub open spec fn is_object_text(s: Text) -> bool {
    opening(s, 0) matches Some(i) && s[i] == '{'
}

/// The key of a member and the text of its value.
pub open spec fn member_in(part: Text) -> Option<(Text, Text)> {
    match char_from(part, '"', 0) {
        Some(q) => {
            let end = string_end(part, q + 1);
            if q < end <= part.len() {
                match json_document(part.subrange(q, end)) {
                    Ok(Json::Text(key)) => Some((key@, behind_colon(part, end))),
                    _ => None,
                }
            } else {
                None
            }
        },
        None => None,
    }
}

/// What follows the first colon from the `i`-th character on.
pub open spec fn behind_colon(part: Text, i: int) -> Text {
    match char_from(part, ':', i) {
        Some(c) => part.skip(c + 1),
        None => Seq::empty(),
    }
}

/// The members that some parts are, in order.
pub open spec fn members_among(parts: Seq<Text>) -> Seq<(Text, Text)>
    decreases parts.len(),
{
    if parts.len() == 0 {
        Seq::empty()
    } else {
        let before = members_among(parts.drop_last());
        match member_in(parts.last()) {
            Some(member) => before.push(member),
            None => before,
        }
    }
}

/// The keys and the texts of the values of an object, in order and with every repetition; none of
/// any other value.
pub open spec fn members_of_text(s: Text) -> Seq<(Text, Text)> {
    if is_object_text(s) {
        members_among(parts_in(s))
    } else {
        Seq::empty()
    }
}

/// How often a key occurs.
pub open spec fn times_named(members: Seq<(Text, Text)>, key: Text) -> nat
    decreases members.len(),
{
    if members.len() == 0 {
        0
    } else {
        times_named(members.drop_last(), key) + if members.last().0 == key {
            1nat
        } else {
            0nat
        }
    }
}

/// The object repeats the key.
pub open spec fn repeats(s: Text, key: Text) -> bool {
    times_named(members_of_text(s), key) > 1
}

/// The text of the last value under a key.
pub open spec fn value_under(members: Seq<(Text, Text)>, key: Text) -> Option<Text>
    decreases members.len(),
{
    if members.len() == 0 {
        None
    } else if members.last().0 == key {
        Some(members.last().1)
    } else {
        value_under(members.drop_last(), key)
    }
}

/// The text of a field of a record: of an object by the key, of a list by the place.
pub open spec fn field_text(s: Text, key: Text, at: int) -> Option<Text> {
    if is_object_text(s) {
        value_under(members_of_text(s), key)
    } else if 0 <= at < parts_in(s).len() {
        Some(parts_in(s)[at])
    } else {
        None
    }
}

// ---------------------------------------------------------------------------
// Executable operations
// ---------------------------------------------------------------------------

proof fn lemma_string_end(s: Text, i: int)
    ensures
        0 <= string_end(s, i) <= s.len(),
        0 <= i < s.len() ==> string_end(s, i) > i,
    decreases s.len() - i,
{
    if 0 <= i < s.len() {
        if s[i] == '\\' {
            if i + 2 < s.len() {
                lemma_string_end(s, i + 2);
            }
        } else if s[i] != '"' {
            lemma_string_end(s, i + 1);
        }
    }
}

proof fn lemma_part_end(s: Text, i: int, depth: nat)
    requires
        0 <= i <= s.len(),
    ensures
        i <= part_end(s, i, depth) <= s.len(),
    decreases s.len() - i,
{
    if i < s.len() {
        if s[i] == '"' {
            lemma_string_end(s, i + 1);
            if string_end(s, i + 1) > i {
                lemma_part_end(s, string_end(s, i + 1), depth);
            }
        } else if s[i] == '{' || s[i] == '[' {
            lemma_part_end(s, i + 1, depth + 1);
        } else if s[i] == '}' || s[i] == ']' {
            if depth > 0 {
                lemma_part_end(s, i + 1, (depth - 1) as nat);
            }
        } else if !(s[i] == ',' && depth == 0) {
            lemma_part_end(s, i + 1, depth);
        }
    }
}

/// Where a string ends.
fn find_string_end(s: &Vec<char>, from: usize) -> (r: usize)
    requires
        from <= s.len(),
    ensures
        r == string_end(s@, from as int),
        from <= r <= s.len(),
{
    let mut i: usize = from;
    while i < s.len()
        invariant
            from <= i <= s.len(),
            string_end(s@, from as int) == string_end(s@, i as int),
        decreases s.len() - i,
    {
        if s[i] == '\\' {
            if s.len() - i <= 2 {
                return s.len();
            }
            i += 2;
        } else if s[i] == '"' {
            return i + 1;
        } else {
            i += 1;
        }
    }
    s.len()
}

/// Where a part ends.
fn find_part_end(s: &Vec<char>, from: usize) -> (r: usize)
    requires
        from <= s.len(),
    ensures
        r == part_end(s@, from as int, 0),
        from <= r <= s.len(),
{
    let mut i: usize = from;
    let mut depth: usize = 0;
    proof {
        lemma_part_end(s@, from as int, 0);
    }
    while i < s.len()
        invariant
            from <= i <= s.len(),
            depth <= i,
            part_end(s@, from as int, 0) == part_end(s@, i as int, depth as nat),
        decreases s.len() - i,
    {
        let c = s[i];
        if c == '"' {
            proof {
                lemma_string_end(s@, i + 1);
            }
            i = find_string_end(s, i + 1);
        } else if c == '{' || c == '[' {
            depth += 1;
            i += 1;
        } else if c == '}' || c == ']' {
            if depth == 0 {
                return i;
            }
            depth -= 1;
            i += 1;
        } else if c == ',' && depth == 0 {
            return i;
        } else {
            i += 1;
        }
    }
    s.len()
}

/// Where the first bracket of a text stands.
fn find_opening(s: &Vec<char>) -> (r: Option<usize>)
    ensures
        match r {
            Some(i) => opening(s@, 0) == Some(i as int) && i < s.len(),
            None => opening(s@, 0) is None,
        },
{
    let mut i: usize = 0;
    while i < s.len()
        invariant
            i <= s.len(),
            opening(s@, 0) == opening(s@, i as int),
        decreases s.len() - i,
    {
        if s[i] == '{' || s[i] == '[' {
            return Some(i);
        }
        i += 1;
    }
    None
}

/// The texts of the members of an object or the items of a list, in order.
fn split_parts(s: &Vec<char>) -> (r: Vec<String>)
    ensures
        r.deep_view() == parts_in(s@),
{
    let mut out: Vec<String> = Vec::new();
    assert(out.deep_view() =~= Seq::<Text>::empty());
    let open: usize = match find_opening(s) {
        Some(i) => i,
        None => {
            return out;
        },
    };
    let mut i: usize = open + 1;
    assert(parts_in(s@) =~= out.deep_view() + parts_from(s@, i as int));
    loop
        invariant
            i <= s.len(),
            parts_in(s@) == out.deep_view() + parts_from(s@, i as int),
        decreases s.len() - i,
    {
        let ghost before = out.deep_view();
        let end: usize = find_part_end(s, i);
        let part = text::text_of(s, i, end);
        let ghost view = part@;
        out.push(part);
        assert(out.deep_view() =~= before.push(view));
        if end < s.len() && s[end] == ',' {
            assert(parts_in(s@) =~= out.deep_view() + parts_from(s@, end + 1));
            i = end + 1;
        } else {
            assert(parts_in(s@) =~= out.deep_view());
            return out;
        }
    }
}

/// The key of a member and the text of its value.
fn read_member(part: &str) -> (r: Option<(String, String)>)
    ensures
        r.deep_view() == member_in(part@),
{
    let s = text::chars_of(part);
    let mut q: usize = 0;
    while q < s.len() && s[q] != '"'
        invariant
            q <= s.len(),
            char_from(s@, '"', 0) == char_from(s@, '"', q as int),
        decreases s.len() - q,
    {
        q += 1;
    }
    if q >= s.len() {
        return None;
    }
    let end: usize = find_string_end(&s, q + 1);
    let literal = text::text_of(&s, q, end);
    let key = match json::parse_json(literal.as_str()) {
        Ok(Json::Text(key)) => key,
        _ => {
            return None;
        },
    };
    let mut i: usize = end;
    while i < s.len() && s[i] != ':'
        invariant
            end <= i <= s.len(),
            char_from(s@, ':', end as int) == char_from(s@, ':', i as int),
        decreases s.len() - i,
    {
        i += 1;
    }
    let value = if i < s.len() {
        assert(s@.skip(i + 1) =~= s@.subrange(i + 1, s@.len() as int));
        text::text_of(&s, i + 1, s.len())
    } else {
        String::new()
    };
    assert(value@ =~= behind_colon(s@, end as int));
    Some((key, value))
}

/// The keys and the texts of the values of an object, in order and with every repetition; none of
/// any other value.
pub fn list_members(source: &str) -> (r: Vec<(String, String)>)
    ensures
        r.deep_view() == members_of_text(source@),
{
    let s = text::chars_of(source);
    let mut out: Vec<(String, String)> = Vec::new();
    assert(out.deep_view() =~= Seq::<(Text, Text)>::empty());
    match find_opening(&s) {
        Some(i) => {
            if s[i] != '{' {
                return out;
            }
        },
        None => {
            return out;
        },
    }
    let parts = split_parts(&s);
    let ghost all = parts.deep_view();
    let mut i: usize = 0;
    assert(all.take(0) =~= Seq::<Text>::empty());
    while i < parts.len()
        invariant
            i <= parts.len(),
            all == parts.deep_view(),
            out.deep_view() == members_among(all.take(i as int)),
        decreases parts.len() - i,
    {
        let ghost before = out.deep_view();
        assert(all.take(i + 1).drop_last() =~= all.take(i as int));
        assert(all.take(i + 1).last() == parts@[i as int]@);
        if let Some(member) = read_member(parts[i].as_str()) {
            let ghost view = (member.0@, member.1@);
            out.push(member);
            assert(out.deep_view() =~= before.push(view));
        }
        i += 1;
    }
    assert(all.take(i as int) =~= all);
    out
}

/// Whether the object repeats the key.
pub fn repeats_key(source: &str, key: &str) -> (r: bool)
    ensures
        r == repeats(source@, key@),
{
    let members = list_members(source);
    let ghost all = members.deep_view();
    let mut n: usize = 0;
    let mut i: usize = 0;
    assert(all.take(0) =~= Seq::<(Text, Text)>::empty());
    while i < members.len()
        invariant
            i <= members.len(),
            n <= i,
            all == members.deep_view(),
            n == times_named(all.take(i as int), key@),
        decreases members.len() - i,
    {
        assert(all.take(i + 1).drop_last() =~= all.take(i as int));
        assert(all.take(i + 1).last() == (members@[i as int].0@, members@[i as int].1@));
        if text::same(members[i].0.as_str(), key) {
            n += 1;
        }
        i += 1;
    }
    assert(all.take(i as int) =~= all);
    n > 1
}

/// The text of a field of a record.
pub fn find_field_text(source: &str, key: &str, at: usize) -> (r: Option<String>)
    ensures
        r.deep_view() == field_text(source@, key@, at as int),
{
    let s = text::chars_of(source);
    let is_object = match find_opening(&s) {
        Some(i) => s[i] == '{',
        None => false,
    };
    if !is_object {
        let parts = split_parts(&s);
        assert(parts.deep_view().len() == parts.len());
        return if at < parts.len() {
            assert(parts.deep_view()[at as int] == parts@[at as int]@);
            Some(parts[at].clone())
        } else {
            None
        };
    }
    let members = list_members(source);
    let ghost all = members.deep_view();
    let mut i: usize = members.len();
    assert(all.take(i as int) =~= all);
    while i > 0
        invariant
            i <= members.len(),
            all == members.deep_view(),
            is_object_text(source@),
            all == members_of_text(source@),
            value_under(all, key@) == value_under(all.take(i as int), key@),
        decreases i,
    {
        i -= 1;
        assert(all.take(i + 1).drop_last() =~= all.take(i as int));
        assert(all.take(i + 1).last() == (members@[i as int].0@, members@[i as int].1@));
        if text::same(members[i].0.as_str(), key) {
            return Some(members[i].1.clone());
        }
    }
    None
}

} // verus!
