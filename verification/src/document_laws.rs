//! What holds of every look into a document.

use crate::json::{json_document, member_of, texts_in, Json};
use crate::json_text::{
    behind_colon, field_text, is_object_text, member_in, members_among, members_of_text, opening,
    part_end, parts_from, parts_in, repeats, string_end, times_named, value_under,
};
use crate::text::{char_from, Text};
use crate::yaml::{entry_of, Yaml};
use vstd::prelude::*;

verus! {

// ---------------------------------------------------------------------------
// Members and entries
// ---------------------------------------------------------------------------

/// The member under a key is the first that has it.
pub proof fn lemma_first_member(members: Seq<(String, Json)>, key: Text, i: int)
    requires
        0 <= i < members.len(),
        members[i].0@ == key,
        forall|j: int| 0 <= j < i ==> (#[trigger] members[j]).0@ != key,
    ensures
        member_of(members, key) == Some(members[i].1),
    decreases i,
{
    if i > 0 {
        let rest = members.drop_first();
        assert(members[0].0@ != key);
        assert forall|j: int| 0 <= j < i - 1 implies (#[trigger] rest[j]).0@ != key by {
            assert(rest[j] == members[j + 1]);
        }
        assert(rest[i - 1] == members[i]);
        lemma_first_member(rest, key, i - 1);
    }
}

/// Where no member has the key there is none.
pub proof fn lemma_no_such_member(members: Seq<(String, Json)>, key: Text)
    requires
        forall|j: int| 0 <= j < members.len() ==> (#[trigger] members[j]).0@ != key,
    ensures
        member_of(members, key) is None,
    decreases members.len(),
{
    if members.len() > 0 {
        let rest = members.drop_first();
        assert(members[0].0@ != key);
        assert forall|j: int| 0 <= j < rest.len() implies (#[trigger] rest[j]).0@ != key by {
            assert(rest[j] == members[j + 1]);
        }
        lemma_no_such_member(rest, key);
    }
}

/// A field of a record is the member of that name of an object, or the value at its place in a list.
pub proof fn lemma_field(members: Vec<(String, Json)>, items: Vec<Json>, key: Text, at: int)
    ensures
        Json::Object(members).field(key, at) == member_of(members@, key),
        0 <= at < items@.len() ==> Json::Array(items).field(key, at) == Some(items@[at]),
        at >= items@.len() ==> Json::Array(items).field(key, at) is None,
        Json::Null.field(key, at) is None,
{
}

/// The texts among some values: one more text is one more, any other value none.
pub proof fn lemma_texts(items: Seq<Json>, v: Json, s: String)
    ensures
        texts_in(Seq::<Json>::empty()).len() == 0,
        texts_in(items.push(Json::Text(s))) == texts_in(items).push(s@),
        !(v is Text) ==> texts_in(items.push(v)) == texts_in(items),
{
    assert(items.push(Json::Text(s)).drop_last() =~= items);
    assert(items.push(v).drop_last() =~= items);
}

/// The entry under a key is the first whose key is that text.
pub proof fn lemma_first_entry(entries: Seq<(Yaml, Yaml)>, key: Text, i: int)
    requires
        0 <= i < entries.len(),
        entries[i].0 is Text && entries[i].0->Text_0@ == key,
        forall|j: int|
            0 <= j < i ==> !((#[trigger] entries[j]).0 is Text && entries[j].0->Text_0@ == key),
    ensures
        entry_of(entries, key) == Some(entries[i].1),
    decreases i,
{
    if i > 0 {
        let rest = entries.drop_first();
        assert(!(entries[0].0 is Text && entries[0].0->Text_0@ == key));
        assert forall|j: int| 0 <= j < i - 1 implies !((#[trigger] rest[j]).0 is Text
            && rest[j].0->Text_0@ == key) by {
            assert(rest[j] == entries[j + 1]);
        }
        assert(rest[i - 1] == entries[i]);
        lemma_first_entry(rest, key, i - 1);
    }
}

// ---------------------------------------------------------------------------
// Parts
// ---------------------------------------------------------------------------

/// Nothing in a text opens, closes or ends a part.
pub open spec fn is_flat(s: Text) -> bool {
    forall|i: int|
        0 <= i < s.len() ==> (#[trigger] s[i]) != '"' && s[i] != '{' && s[i] != '[' && s[i] != '}'
            && s[i] != ']' && s[i] != ','
}

/// A text holds neither quotes nor backslashes.
pub open spec fn is_unquoted(s: Text) -> bool {
    forall|i: int| 0 <= i < s.len() ==> (#[trigger] s[i]) != '"' && s[i] != '\\'
}

proof fn lemma_flat_goes_on(s: Text, i: int, end: int, depth: nat)
    requires
        0 <= i <= end <= s.len(),
        is_flat(s.subrange(i, end)),
    ensures
        part_end(s, i, depth) == part_end(s, end, depth),
    decreases end - i,
{
    if i < end {
        let here = s.subrange(i, end);
        let later = s.subrange(i + 1, end);
        assert(here[0] == s[i]);
        assert forall|j: int| 0 <= j < later.len() implies (#[trigger] later[j]) != '"' && later[j]
            != '{' && later[j] != '[' && later[j] != '}' && later[j] != ']' && later[j] != ',' by {
            assert(later[j] == here[j + 1]);
        }
        lemma_flat_goes_on(s, i + 1, end, depth);
    }
}

proof fn lemma_string_goes_on(s: Text, i: int, end: int)
    requires
        0 <= i <= end < s.len(),
        is_unquoted(s.subrange(i, end)),
        s[end] == '"',
    ensures
        string_end(s, i) == end + 1,
    decreases end - i,
{
    if i < end {
        let here = s.subrange(i, end);
        let later = s.subrange(i + 1, end);
        assert(here[0] == s[i]);
        assert forall|j: int| 0 <= j < later.len() implies (#[trigger] later[j]) != '"' && later[j]
            != '\\' by {
            assert(later[j] == here[j + 1]);
        }
        lemma_string_goes_on(s, i + 1, end);
    }
}

/// A string ends behind the first quote that no backslash stands before; an escaped character does not
/// end it.
pub proof fn lemma_string_ends(front: Text, body: Text, c: char, more: Text, back: Text)
    requires
        is_unquoted(body) && is_unquoted(more),
    ensures
        string_end(front + body + seq!['"'] + back, front.len() as int) == front.len() + body.len()
            + 1,
        string_end(
            front + seq!['\\', c] + more + seq!['"'] + back,
            front.len() as int,
        ) == front.len() + 2 + more.len() + 1,
{
    let s = front + body + seq!['"'] + back;
    let n = front.len() as int;
    let m = n + body.len();
    assert(s.subrange(n, m) =~= body);
    assert(s[m] == '"');
    lemma_string_goes_on(s, n, m);
    let t = front + seq!['\\', c] + more + seq!['"'] + back;
    let k = n + 2 + more.len();
    assert(t[n] == '\\');
    assert(t.subrange(n + 2, k) =~= more);
    assert(t[k] == '"');
    lemma_string_goes_on(t, n + 2, k);
}

/// The items of a list are what stands between its commas.
pub proof fn lemma_items(a: Text, b: Text)
    requires
        is_flat(a) && is_flat(b),
    ensures
        parts_in(seq!['['] + a + seq![','] + b + seq![']']) == seq![a, b],
        parts_in(seq!['['] + a + seq![']']) == seq![a],
{
    let s = seq!['['] + a + seq![','] + b + seq![']'];
    let m = 1 + a.len() as int;
    let k = m + 1 + b.len();
    assert(s[0] == '[' && s[m] == ',' && s[k] == ']');
    assert(s.subrange(1, m) =~= a);
    assert(s.subrange(m + 1, k) =~= b);
    lemma_flat_goes_on(s, 1, m, 0);
    lemma_flat_goes_on(s, m + 1, k, 0);
    assert(opening(s, 0) == Some(0int));
    assert(part_end(s, 1, 0) == m);
    assert(part_end(s, m + 1, 0) == k);
    assert(parts_from(s, m + 1) =~= seq![b]);
    assert(parts_from(s, 1) =~= seq![a] + parts_from(s, m + 1));
    assert(seq![a] + seq![b] =~= seq![a, b]);
    let t = seq!['['] + a + seq![']'];
    assert(t[0] == '[' && t[m] == ']');
    assert(t.subrange(1, m) =~= a);
    lemma_flat_goes_on(t, 1, m, 0);
    assert(opening(t, 0) == Some(0int));
    assert(part_end(t, 1, 0) == m);
    assert(parts_from(t, 1) =~= seq![a]);
}

/// An item with brackets of its own is one item, commas and all.
pub proof fn lemma_nested_item(x: Text, y: Text, b: Text)
    requires
        is_flat(x) && is_flat(y) && is_flat(b),
    ensures
        parts_in(seq!['[', '{'] + x + seq![','] + y + seq!['}', ','] + b + seq![']']) == seq![
            seq!['{'] + x + seq![','] + y + seq!['}'],
            b,
        ],
{
    let s = seq!['[', '{'] + x + seq![','] + y + seq!['}', ','] + b + seq![']'];
    let i = 2 + x.len() as int;
    let j = i + 1 + y.len();
    let k = j + 2 + b.len();
    assert(s[0] == '[' && s[1] == '{' && s[i] == ',' && s[j] == '}' && s[j + 1] == ',' && s[k]
        == ']');
    assert(s.subrange(2, i) =~= x);
    assert(s.subrange(i + 1, j) =~= y);
    assert(s.subrange(j + 2, k) =~= b);
    lemma_flat_goes_on(s, 2, i, 1);
    lemma_flat_goes_on(s, i + 1, j, 1);
    lemma_flat_goes_on(s, j + 2, k, 0);
    assert(part_end(s, 2, 1) == part_end(s, i, 1));
    assert(part_end(s, i, 1) == part_end(s, i + 1, 1));
    assert(part_end(s, j, 1) == part_end(s, j + 1, 0));
    assert(part_end(s, j + 1, 0) == j + 1);
    assert(part_end(s, 1, 0) == part_end(s, 2, 1));
    assert(part_end(s, j + 2, 0) == k);
    let a = seq!['{'] + x + seq![','] + y + seq!['}'];
    assert(s.subrange(1, j + 1) =~= a);
    assert(parts_from(s, j + 2) =~= seq![b]);
    assert(parts_from(s, 1) =~= seq![a] + parts_from(s, j + 2));
    assert(opening(s, 0) == Some(0int));
    assert(seq![a] + seq![b] =~= seq![a, b]);
}

/// What stands in a string ends no item.
pub proof fn lemma_quoted_item(q: Text, b: Text)
    requires
        is_unquoted(q) && is_flat(b),
    ensures
        parts_in(seq!['[', '"'] + q + seq!['"', ','] + b + seq![']']) == seq![
            seq!['"'] + q + seq!['"'],
            b,
        ],
{
    let s = seq!['[', '"'] + q + seq!['"', ','] + b + seq![']'];
    let i = 2 + q.len() as int;
    let k = i + 2 + b.len();
    assert(s[0] == '[' && s[1] == '"' && s[i] == '"' && s[i + 1] == ',' && s[k] == ']');
    assert(s.subrange(2, i) =~= q);
    assert(s.subrange(i + 2, k) =~= b);
    lemma_string_goes_on(s, 2, i);
    lemma_flat_goes_on(s, i + 2, k, 0);
    assert(part_end(s, 1, 0) == part_end(s, i + 1, 0));
    assert(part_end(s, i + 1, 0) == i + 1);
    assert(part_end(s, i + 2, 0) == k);
    let a = seq!['"'] + q + seq!['"'];
    assert(s.subrange(1, i + 1) =~= a);
    assert(parts_from(s, i + 2) =~= seq![b]);
    assert(parts_from(s, 1) =~= seq![a] + parts_from(s, i + 2));
    assert(opening(s, 0) == Some(0int));
    assert(seq![a] + seq![b] =~= seq![a, b]);
}

proof fn lemma_char_first(s: Text, c: char, from: int, at: int)
    requires
        0 <= from <= at < s.len(),
        s[at] == c,
        forall|j: int| from <= j < at ==> s[j] != c,
    ensures
        char_from(s, c, from) == Some(at),
    decreases at - from,
{
    if from < at {
        lemma_char_first(s, c, from + 1, at);
    }
}

/// A member is its key, which is the string before the colon, and what stands behind the colon.
pub proof fn lemma_member_text(blank: Text, q: Text, gap: Text, value: Text, key: String)
    requires
        is_unquoted(blank) && is_unquoted(q),
        forall|j: int| 0 <= j < gap.len() ==> (#[trigger] gap[j]) != ':',
        json_document(seq!['"'] + q + seq!['"']) == Ok::<Json, Text>(Json::Text(key)),
    ensures
        member_in(blank + seq!['"'] + q + seq!['"'] + gap + seq![':'] + value) == Some(
            (key@, value),
        ),
{
    let s = blank + seq!['"'] + q + seq!['"'] + gap + seq![':'] + value;
    let i = blank.len() as int;
    let j = i + 1 + q.len();
    let k = j + 1 + gap.len();
    assert(s[i] == '"' && s[j] == '"' && s[k] == ':');
    assert forall|x: int| 0 <= x < i implies s[x] != '"' by {
        assert(s[x] == blank[x]);
    }
    lemma_char_first(s, '"', 0, i);
    assert(s.subrange(i + 1, j) =~= q);
    lemma_string_goes_on(s, i + 1, j);
    assert(s.subrange(i, j + 1) =~= seq!['"'] + q + seq!['"']);
    assert forall|x: int| j + 1 <= x < k implies s[x] != ':' by {
        assert(s[x] == gap[x - (j + 1)]);
    }
    lemma_char_first(s, ':', j + 1, k);
    assert(s.skip(k + 1) =~= value);
    assert(behind_colon(s, j + 1) == value);
}

/// The members of a text are those that its parts are, in order; a list has none.
pub proof fn lemma_members(parts: Seq<Text>, part: Text, s: Text)
    ensures
        members_among(Seq::<Text>::empty()).len() == 0,
        member_in(part) is Some ==> members_among(parts.push(part)) == members_among(parts).push(
            member_in(part)->0,
        ),
        member_in(part) is None ==> members_among(parts.push(part)) == members_among(parts),
        is_object_text(s) ==> members_of_text(s) == members_among(parts_in(s)),
        !is_object_text(s) ==> members_of_text(s).len() == 0,
{
    assert(parts.push(part).drop_last() =~= parts);
}

/// A key occurs as often as there are members that have it.
pub proof fn lemma_times_named(members: Seq<(Text, Text)>, key: Text)
    ensures
        times_named(members, key) == members.filter(|m: (Text, Text)| m.0 == key).len(),
    decreases members.len(),
{
    reveal(Seq::filter);
    if members.len() > 0 {
        lemma_times_named(members.drop_last(), key);
    }
}

proof fn lemma_named_twice(members: Seq<(Text, Text)>, key: Text, i: int, j: int)
    requires
        0 <= i < j < members.len(),
        members[i].0 == key && members[j].0 == key,
    ensures
        times_named(members, key) > 1,
    decreases members.len(),
{
    let init = members.drop_last();
    if j < members.len() - 1 {
        lemma_named_twice(init, key, i, j);
    } else {
        lemma_named_once(init, key, i);
    }
}

proof fn lemma_named_once(members: Seq<(Text, Text)>, key: Text, i: int)
    requires
        0 <= i < members.len(),
        members[i].0 == key,
    ensures
        times_named(members, key) > 0,
    decreases members.len(),
{
    if i < members.len() - 1 {
        lemma_named_once(members.drop_last(), key, i);
    }
}

/// An object repeats a key that two of its members have.
pub proof fn lemma_repeats(s: Text, key: Text, i: int, j: int)
    requires
        0 <= i < j < members_of_text(s).len(),
        members_of_text(s)[i].0 == key && members_of_text(s)[j].0 == key,
    ensures
        repeats(s, key),
{
    lemma_named_twice(members_of_text(s), key, i, j);
}

/// The value under a key is that of the last member that has it.
pub proof fn lemma_last_value(members: Seq<(Text, Text)>, key: Text, i: int)
    requires
        0 <= i < members.len(),
        members[i].0 == key,
        forall|j: int| i < j < members.len() ==> (#[trigger] members[j]).0 != key,
    ensures
        value_under(members, key) == Some(members[i].1),
    decreases members.len(),
{
    let n = members.len() - 1;
    if i < n {
        assert(members[n].0 != key);
        lemma_last_value(members.drop_last(), key, i);
    }
}

/// The text of a field is the value under its key in an object, or the part at its place in a list.
pub proof fn lemma_field_text(s: Text, key: Text, at: int)
    ensures
        is_object_text(s) ==> field_text(s, key, at) == value_under(members_of_text(s), key),
        !is_object_text(s) && 0 <= at < parts_in(s).len() ==> field_text(s, key, at) == Some(
            parts_in(s)[at],
        ),
        !is_object_text(s) && at >= parts_in(s).len() ==> field_text(s, key, at) is None,
{
}

} // verus!
