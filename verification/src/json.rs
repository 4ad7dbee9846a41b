//! JSON documents as trees of plain values.

use crate::text;
use crate::text::Text;
use vstd::prelude::*;

verus! {

/// A JSON value. An object keeps its members in the order of the document.
#[derive(Debug, PartialEq, Eq)]
pub enum Json {
    Null,
    Bool(bool),
    /// A number, with its value where that is a natural number of 64 bits.
    Number(Option<u64>),
    Text(String),
    Array(Vec<Json>),
    Object(Vec<(String, Json)>),
}

/// The declaration of `serde_json::Value`.
#[verifier::external_type_specification]
#[verifier::external_body]
pub struct ExJsonValue(serde_json::Value);

/// Turns a `serde_json::Value` into a [`Json`], one variant for one variant.
#[verifier::external_body]
fn json_of(value: serde_json::Value) -> Json {
    match value {
        serde_json::Value::Null => Json::Null,
        serde_json::Value::Bool(b) => Json::Bool(b),
        serde_json::Value::Number(n) => Json::Number(n.as_u64()),
        serde_json::Value::String(s) => Json::Text(s),
        serde_json::Value::Array(items) => Json::Array(items.into_iter().map(json_of).collect()),
        serde_json::Value::Object(members) => Json::Object(
            members.into_iter().map(|(key, member)| (key, json_of(member))).collect(),
        ),
    }
}

/// What `serde_json::from_str` makes of a text: the document, or the message of its error.
pub uninterp spec fn json_document(text: Seq<char>) -> Result<Json, Seq<char>>;

/// What `serde_json::from_reader` makes of a text that it reads through
/// `json_strip_comments::StripComments`.
pub uninterp spec fn commented_json_document(text: Seq<char>) -> Result<Json, Seq<char>>;

/// What `json_strip_comments::strip` leaves of a text; `None` where it fails.
pub uninterp spec fn stripped_json(text: Seq<char>) -> Option<Seq<char>>;

/// A result of one of the parsers agrees with a name.
pub open spec fn json_agrees(r: Result<Json, String>, named: Result<Json, Text>) -> bool {
    match r {
        Ok(v) => named == Ok::<Json, Text>(v),
        Err(e) => named == Err::<Json, Text>(e@),
    }
}

/// `serde_json::from_str`: the document in `text`, as `json_document` names it.
#[verifier::external_body]
pub(crate) fn parse_json(text: &str) -> (r: Result<Json, String>)
    ensures
        json_agrees(r, json_document(text@)),
{
    serde_json::from_str::<serde_json::Value>(text).map(json_of).map_err(|e| e.to_string())
}

/// `serde_json::from_reader` behind `json_strip_comments::StripComments`: the document in `text`,
/// as `commented_json_document` names it.
#[verifier::external_body]
pub(crate) fn parse_commented_json(text: &str) -> (r: Result<Json, String>)
    ensures
        json_agrees(r, commented_json_document(text@)),
{
    let stripped = json_strip_comments::StripComments::new(text.as_bytes());
    serde_json::from_reader::<_, serde_json::Value>(stripped)
        .map(json_of)
        .map_err(|e| e.to_string())
}

/// `json_strip_comments::strip`: `text` without comments and trailing commas, as `stripped_json`
/// names it.
#[verifier::external_body]
pub(crate) fn strip_json(text: &str) -> (r: Option<String>)
    ensures
        r.deep_view() == stripped_json(text@),
{
    let mut content = text.to_string();
    json_strip_comments::strip(&mut content).ok().map(|_| content)
}

// ---------------------------------------------------------------------------
// Looking into a document
// ---------------------------------------------------------------------------

/// The member of an object's members that has the key.
pub open spec fn member_of(members: Seq<(String, Json)>, key: Text) -> Option<Json>
    decreases members.len(),
{
    if members.len() == 0 {
        None
    } else if members[0].0@ == key {
        Some(members[0].1)
    } else {
        member_of(members.drop_first(), key)
    }
}

impl Json {
    /// The member of an object that has the key.
    pub open spec fn member(self, key: Text) -> Option<Json> {
        match self {
            Json::Object(members) => member_of(members@, key),
            _ => None,
        }
    }

    /// The value is a record: an object, or a list of the values of its fields in order, at least
    /// `least` and at most `most` of them.
    pub open spec fn is_record(self, least: int, most: int) -> bool {
        match self {
            Json::Object(_) => true,
            Json::Array(items) => least <= items@.len() <= most,
            _ => false,
        }
    }

    /// The field of a record: the member of an object that has the key, or the `at`-th value of a
    /// list.
    pub open spec fn field(self, key: Text, at: int) -> Option<Json> {
        match self {
            Json::Object(members) => member_of(members@, key),
            Json::Array(items) => if 0 <= at < items@.len() {
                Some(items@[at])
            } else {
                None
            },
            _ => None,
        }
    }

    /// The members, where the value is an object.
    pub open spec fn members(self) -> Option<Seq<(String, Json)>> {
        match self {
            Json::Object(members) => Some(members@),
            _ => None,
        }
    }

    /// The items, where the value is an array.
    pub open spec fn items(self) -> Option<Seq<Json>> {
        match self {
            Json::Array(items) => Some(items@),
            _ => None,
        }
    }

    /// The text, where the value is one.
    pub open spec fn as_text(self) -> Option<Text> {
        match self {
            Json::Text(s) => Some(s@),
            _ => None,
        }
    }

    /// The number, where the value is a natural number of 64 bits.
    pub open spec fn as_number(self) -> Option<u64> {
        match self {
            Json::Number(n) => n,
            _ => None,
        }
    }

    /// The member of an object that has the key.
    pub fn get<'a>(&'a self, key: &str) -> (r: Option<&'a Json>)
        ensures
            match r {
                Some(v) => self.member(key@) == Some(*v),
                None => self.member(key@) is None,
            },
    {
        match self {
            Json::Object(members) => get_member(members, key),
            _ => None,
        }
    }

    /// Whether the value is a record with at least `least` and at most `most` fields as a list.
    pub fn record(&self, least: usize, most: usize) -> (r: bool)
        ensures
            r == self.is_record(least as int, most as int),
    {
        match self {
            Json::Object(_) => true,
            Json::Array(items) => least <= items.len() && items.len() <= most,
            _ => false,
        }
    }

    /// The field of a record.
    pub fn get_field<'a>(&'a self, key: &str, at: usize) -> (r: Option<&'a Json>)
        ensures
            match r {
                Some(v) => self.field(key@, at as int) == Some(*v),
                None => self.field(key@, at as int) is None,
            },
    {
        match self {
            Json::Object(members) => get_member(members, key),
            Json::Array(items) => if at < items.len() {
                Some(&items[at])
            } else {
                None
            },
            _ => None,
        }
    }

    /// The member of an object that has the key, where it is itself an object.
    pub fn get_object<'a>(&'a self, key: &str) -> (r: Option<&'a Vec<(String, Json)>>)
        ensures
            match r {
                Some(ms) => self.member(key@) is Some && self.member(key@)->0.members() == Some(ms@),
                None => self.member(key@) is None || self.member(key@)->0.members() is None,
            },
    {
        match self.get(key) {
            Some(Json::Object(members)) => Some(members),
            _ => None,
        }
    }

    /// The text, where the value is one.
    pub fn text<'a>(&'a self) -> (r: Option<&'a str>)
        ensures
            r.deep_view() == self.as_text(),
    {
        match self {
            Json::Text(s) => Some(s.as_str()),
            _ => None,
        }
    }

    /// The text under a key, where there is one.
    pub fn get_text<'a>(&'a self, key: &str) -> (r: Option<&'a str>)
        ensures
            r.deep_view() == self.text_member(key@),
    {
        match self.get(key) {
            Some(v) => v.text(),
            None => None,
        }
    }

    /// The text under a key, where there is one.
    pub open spec fn text_member(self, key: Text) -> Option<Text> {
        match self.member(key) {
            Some(v) => v.as_text(),
            None => None,
        }
    }
}

/// The member of an object's members that has the key.
pub fn get_member<'a>(members: &'a Vec<(String, Json)>, key: &str) -> (r: Option<&'a Json>)
    ensures
        match r {
            Some(v) => member_of(members@, key@) == Some(*v),
            None => member_of(members@, key@) is None,
        },
{
    let mut i: usize = 0;
    assert(members@.skip(0) =~= members@);
    while i < members.len()
        invariant
            i <= members.len(),
            member_of(members@, key@) == member_of(members@.skip(i as int), key@),
        decreases members.len() - i,
    {
        let ghost tail = members@.skip(i as int);
        assert(tail[0] == members@[i as int]);
        assert(tail.drop_first() =~= members@.skip(i + 1));
        if text::same(members[i].0.as_str(), key) {
            return Some(&members[i].1);
        }
        i += 1;
    }
    None
}

/// The texts among some values, in order.
pub open spec fn texts_in(items: Seq<Json>) -> Seq<Text>
    decreases items.len(),
{
    if items.len() == 0 {
        Seq::empty()
    } else {
        match items.last().as_text() {
            Some(s) => texts_in(items.drop_last()).push(s),
            None => texts_in(items.drop_last()),
        }
    }
}

/// The texts among some values, in order.
pub fn collect_texts(items: &Vec<Json>) -> (r: Vec<String>)
    ensures
        r.deep_view() == texts_in(items@),
{
    let mut out: Vec<String> = Vec::new();
    let mut i: usize = 0;
    assert(items@.take(0) =~= Seq::<Json>::empty());
    assert(out.deep_view() =~= Seq::<Text>::empty());
    while i < items.len()
        invariant
            i <= items.len(),
            out.deep_view() == texts_in(items@.take(i as int)),
        decreases items.len() - i,
    {
        let ghost before = out.deep_view();
        assert(items@.take(i + 1).drop_last() =~= items@.take(i as int));
        if let Some(s) = items[i].text() {
            out.push(s.to_owned());
            assert(out.deep_view() =~= before.push(s@));
        }
        i += 1;
    }
    assert(items@.take(i as int) =~= items@);
    out
}

impl Json {
    /// The texts, where the value is an array of nothing else.
    pub open spec fn text_list(self) -> Option<Seq<Text>> {
        match self {
            Json::Array(items) => if texts_in(items@).len() == items@.len() {
                Some(texts_in(items@))
            } else {
                None
            },
            _ => None,
        }
    }

    /// The texts, where the value is an array of nothing else.
    pub fn texts(&self) -> (r: Option<Vec<String>>)
        ensures
            r.deep_view() == self.text_list(),
    {
        match self {
            Json::Array(items) => {
                let texts = collect_texts(items);
                assert(texts.deep_view().len() == texts.len());
                if texts.len() == items.len() {
                    Some(texts)
                } else {
                    None
                }
            },
            _ => None,
        }
    }
}

// ---------------------------------------------------------------------------
// Writing texts
// ---------------------------------------------------------------------------

/// The hexadecimal digit of `d`.
pub open spec fn hex_digit(d: nat) -> char {
    if d < 10 {
        ('0' as u32 + d) as char
    } else {
        ('a' as u32 + (d - 10)) as char
    }
}

/// How a character is written inside a JSON string.
pub open spec fn json_escaped(c: char) -> Text {
    if c == '"' {
        seq!['\\', '"']
    } else if c == '\\' {
        seq!['\\', '\\']
    } else if c == '\u{8}' {
        seq!['\\', 'b']
    } else if c == '\u{c}' {
        seq!['\\', 'f']
    } else if c == '\n' {
        seq!['\\', 'n']
    } else if c == '\r' {
        seq!['\\', 'r']
    } else if c == '\t' {
        seq!['\\', 't']
    } else if c as nat <= 31 {
        seq!['\\', 'u', '0', '0', hex_digit(c as nat / 16), hex_digit(c as nat % 16)]
    } else {
        seq![c]
    }
}

/// How the characters of a text are written inside a JSON string.
pub open spec fn json_escaped_all(s: Text) -> Text
    decreases s.len(),
{
    if s.len() == 0 {
        Seq::empty()
    } else {
        json_escaped_all(s.drop_last()) + json_escaped(s.last())
    }
}

/// A text as a JSON string, quotes included.
pub open spec fn json_quoted(s: Text) -> Text {
    seq!['"'] + json_escaped_all(s) + seq!['"']
}

/// `serde_json::to_string` of a text: the text between quotes, with quotes, backslashes and
/// control characters escaped.
#[verifier::external_body]
pub(crate) fn quote_json(s: &str) -> (r: String)
    ensures
        r@ == json_quoted(s@),
{
    serde_json::to_string(s).expect("a string serializes")
}

} // verus!
