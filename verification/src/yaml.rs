//! YAML documents as trees of plain values.

use crate::text;
use crate::text::{trimmed, Text};
use vstd::prelude::*;

verus! {

/// A YAML value. `shown` is the document that `serde_yaml::to_string` writes for it.
#[derive(Debug, PartialEq, Eq)]
pub enum Yaml {
    Text(String),
    Bool(bool),
    Mapping { entries: Vec<(Yaml, Yaml)>, shown: String },
    Sequence { items: Vec<Yaml>, shown: String },
    /// A null or a number.
    Scalar { shown: String },
    /// A value behind a tag.
    Tagged { value: Box<Yaml>, shown: String },
}

/// The declaration of `serde_yaml::Value`.
#[verifier::external_type_specification]
#[verifier::external_body]
pub struct ExYamlValue(serde_yaml::Value);

/// Turns a `serde_yaml::Value` into a [`Yaml`], with the document that `serde_yaml::to_string`
/// writes for it.
#[verifier::external_body]
fn yaml_of(value: serde_yaml::Value) -> Yaml {
    let shown = serde_yaml::to_string(&value).unwrap_or_default();
    match value {
        serde_yaml::Value::Null => Yaml::Scalar { shown },
        serde_yaml::Value::Number(_) => Yaml::Scalar { shown },
        serde_yaml::Value::Bool(b) => Yaml::Bool(b),
        serde_yaml::Value::String(s) => Yaml::Text(s),
        serde_yaml::Value::Sequence(items) => Yaml::Sequence { items: items.into_iter().map(yaml_of).collect(), shown },
        serde_yaml::Value::Mapping(entries) => Yaml::Mapping {
            entries: entries.into_iter().map(|(k, v)| (yaml_of(k), yaml_of(v))).collect(), shown },
        serde_yaml::Value::Tagged(tagged) => Yaml::Tagged { value: Box::new(yaml_of(tagged.value)), shown },
    }
}

/// What `serde_yaml::from_str` makes of a text, with what `serde_yaml::to_string` writes for each
/// value in it: the document, or the message of the error.
pub uninterp spec fn yaml_document(text: Seq<char>) -> Result<Yaml, Seq<char>>;

/// `serde_yaml::from_str`, and `serde_yaml::to_string` on each value of the result: the document in
/// `text`, as `yaml_document` names it.
#[verifier::external_body]
pub(crate) fn parse_yaml(text: &str) -> (r: Result<Yaml, String>)
    ensures
        match r {
            Ok(v) => yaml_document(text@) == Ok::<Yaml, Text>(v),
            Err(e) => yaml_document(text@) == Err::<Yaml, Text>(e@),
        },
{
    serde_yaml::from_str::<serde_yaml::Value>(text).map(yaml_of).map_err(|e| e.to_string())
}

/// What `serde_yaml::from_str` makes of a text as a map from texts to lists of texts, in the order
/// of the keys: scalars stand as they are written. Or the message of its error.
pub uninterp spec fn yaml_lists(text: Seq<char>) -> Result<Seq<(Seq<char>, Seq<Seq<char>>)>, Seq<char>>;

/// `serde_yaml::from_str` into a map from texts to lists of texts, as `yaml_lists` names it.
#[verifier::external_body]
pub(crate) fn parse_yaml_lists(text: &str) -> (r: Result<Vec<(String, Vec<String>)>, String>)
    ensures
        match r {
            Ok(v) => yaml_lists(text@) == Ok::<Seq<(Text, Seq<Text>)>, Text>(v.deep_view()),
            Err(e) => yaml_lists(text@) == Err::<Seq<(Text, Seq<Text>)>, Text>(e@),
        },
{
    serde_yaml::from_str::<std::collections::BTreeMap<String, Vec<String>>>(text)
        .map(|lists| lists.into_iter().collect())
        .map_err(|e| e.to_string())
}

// ---------------------------------------------------------------------------
// Looking into a document
// ---------------------------------------------------------------------------

/// The entry that has the text as its key.
pub open spec fn entry_of(entries: Seq<(Yaml, Yaml)>, key: Text) -> Option<Yaml>
    decreases entries.len(),
{
    if entries.len() == 0 {
        None
    } else if entries[0].0 is Text && entries[0].0->Text_0@ == key {
        Some(entries[0].1)
    } else {
        entry_of(entries.drop_first(), key)
    }
}

impl Yaml {
    /// The value behind the tags.
    pub open spec fn untagged(self) -> Yaml
        decreases self,
    {
        match self {
            Yaml::Tagged { value, .. } => (*value).untagged(),
            _ => self,
        }
    }

    /// The entries, where the value is a mapping.
    pub open spec fn entries(self) -> Option<Seq<(Yaml, Yaml)>> {
        match self.untagged() {
            Yaml::Mapping { entries, .. } => Some(entries@),
            _ => None,
        }
    }

    /// The items, where the value is a sequence.
    pub open spec fn items(self) -> Option<Seq<Yaml>> {
        match self.untagged() {
            Yaml::Sequence { items, .. } => Some(items@),
            _ => None,
        }
    }

    /// The text, where the value is one.
    pub open spec fn as_text(self) -> Option<Text> {
        match self.untagged() {
            Yaml::Text(s) => Some(s@),
            _ => None,
        }
    }

    /// The entry of a mapping that has the text as its key.
    pub open spec fn entry(self, key: Text) -> Option<Yaml> {
        match self.entries() {
            Some(entries) => entry_of(entries, key),
            None => None,
        }
    }

    /// The value as a text: as it would be written, without white space around it.
    pub open spec fn written(self) -> Text {
        match self {
            Yaml::Text(s) => s@,
            Yaml::Bool(b) => if b {
                "true"@
            } else {
                "false"@
            },
            Yaml::Mapping { shown, .. } => trimmed(shown@),
            Yaml::Sequence { shown, .. } => trimmed(shown@),
            Yaml::Scalar { shown } => trimmed(shown@),
            Yaml::Tagged { shown, .. } => trimmed(shown@),
        }
    }

    /// The value behind the tags.
    pub fn untag(&self) -> (r: &Yaml)
        ensures
            *r == self.untagged(),
        decreases self,
    {
        match self {
            Yaml::Tagged { value, .. } => (**value).untag(),
            _ => self,
        }
    }

    /// The entries, where the value is a mapping.
    pub fn mapping(&self) -> (r: Option<&Vec<(Yaml, Yaml)>>)
        ensures
            match r {
                Some(entries) => self.entries() == Some(entries@),
                None => self.entries() is None,
            },
    {
        match self.untag() {
            Yaml::Mapping { entries, .. } => Some(entries),
            _ => None,
        }
    }

    /// The text, where the value is one.
    pub fn text(&self) -> (r: Option<&str>)
        ensures
            r.deep_view() == self.as_text(),
    {
        match self.untag() {
            Yaml::Text(s) => Some(s.as_str()),
            _ => None,
        }
    }

    /// The entry of a mapping that has the text as its key.
    pub fn get(&self, key: &str) -> (r: Option<&Yaml>)
        ensures
            match r {
                Some(v) => self.entry(key@) == Some(*v),
                None => self.entry(key@) is None,
            },
    {
        match self.mapping() {
            Some(entries) => get_entry(entries, key),
            None => None,
        }
    }
}

/// The entry that has the text as its key.
pub fn get_entry<'a>(entries: &'a Vec<(Yaml, Yaml)>, key: &str) -> (r: Option<&'a Yaml>)
    ensures
        match r {
            Some(v) => entry_of(entries@, key@) == Some(*v),
            None => entry_of(entries@, key@) is None,
        },
{
    let mut i: usize = 0;
    assert(entries@.skip(0) =~= entries@);
    while i < entries.len()
        invariant
            i <= entries.len(),
            entry_of(entries@, key@) == entry_of(entries@.skip(i as int), key@),
        decreases entries.len() - i,
    {
        let ghost tail = entries@.skip(i as int);
        assert(tail[0] == entries@[i as int]);
        assert(tail.drop_first() =~= entries@.skip(i + 1));
        match &entries[i].0 {
            Yaml::Text(k) => {
                if text::same(k.as_str(), key) {
                    return Some(&entries[i].1);
                }
            },
            _ => {},
        }
        i += 1;
    }
    None
}

/// A value as a text: as it would be written (`1.0` stays `1.0`), without white space around it.
pub fn yaml_value_to_string(v: &Yaml) -> (r: String)
    ensures
        r@ == v.written(),
{
    match v {
        Yaml::Text(s) => s.clone(),
        Yaml::Bool(b) => {
            if *b {
                "true".to_owned()
            } else {
                "false".to_owned()
            }
        },
        Yaml::Mapping { shown, .. } => text::trim(shown.as_str()).to_owned(),
        Yaml::Sequence { shown, .. } => text::trim(shown.as_str()).to_owned(),
        Yaml::Scalar { shown } => text::trim(shown.as_str()).to_owned(),
        Yaml::Tagged { shown, .. } => text::trim(shown.as_str()).to_owned(),
    }
}

} // verus!
