//! JSON values as the library reads them.

use vstd::prelude::*;

use crate::access;
use crate::text::same_text;

verus! {

/// A JSON value. A number is held as the text that stands for it; the members of an object stand in
/// the order in which they were handed out, each key once.
#[derive(Debug)]
pub enum Json {
    Null,
    Bool(bool),
    Number(String),
    Str(String),
    Array(Vec<Json>),
    Object(Vec<(String, Json)>),
}

/// What a JSON value says.
pub enum JsonModel {
    Null,
    Bool(bool),
    Number(Seq<char>),
    Str(Seq<char>),
    Array(Seq<JsonModel>),
    Object(Seq<(Seq<char>, JsonModel)>),
}

impl View for Json {
    type V = JsonModel;

    open spec fn view(&self) -> JsonModel {
        json_view(*self)
    }
}

/// What a JSON value says, member by member.
pub open spec fn json_view(value: Json) -> JsonModel
    decreases value,
{
    match value {
        Json::Null => JsonModel::Null,
        Json::Bool(b) => JsonModel::Bool(b),
        Json::Number(n) => JsonModel::Number(n@),
        Json::Str(s) => JsonModel::Str(s@),
        Json::Array(items) => JsonModel::Array(
            Seq::new(
                items@.len(),
                |i: int|
                    if 0 <= i < items@.len() {
                        json_view(items@[i])
                    } else {
                        JsonModel::Null
                    },
            ),
        ),
        Json::Object(members) => JsonModel::Object(
            Seq::new(
                members@.len(),
                |i: int|
                    if 0 <= i < members@.len() {
                        (members@[i].0@, json_view(members@[i].1))
                    } else {
                        (Seq::empty(), JsonModel::Null)
                    },
            ),
        ),
    }
}

impl JsonModel {
    /// The member of an object under `key`; nothing of a value that is no object.
    pub open spec fn member(self, key: Seq<char>) -> Option<JsonModel> {
        match self {
            JsonModel::Object(members) => {
                let at = access::key_index(members, key);
                if at < members.len() {
                    Some(members[at as int].1)
                } else {
                    None
                }
            },
            _ => None,
        }
    }

    /// The text of a string.
    pub open spec fn string(self) -> Option<Seq<char>> {
        match self {
            JsonModel::Str(s) => Some(s),
            _ => None,
        }
    }

    /// The text under `key`, where a string stands there.
    pub open spec fn member_string(self, key: Seq<char>) -> Option<Seq<char>> {
        match self.member(key) {
            Some(value) => value.string(),
            None => None,
        }
    }

    /// The items of an array.
    pub open spec fn items(self) -> Option<Seq<JsonModel>> {
        match self {
            JsonModel::Array(items) => Some(items),
            _ => None,
        }
    }
}

/// The JSON value of the outside crate, opaque here.
#[verifier::external_type_specification]
#[verifier::external_body]
pub struct ExValue(serde_json::Value);

/// What a value of `serde_json` holds.
pub uninterp spec fn value_contents(value: serde_json::Value) -> JsonModel;

/// What `serde_json` makes of a text: a value, or nothing where the text is not JSON.
pub uninterp spec fn parsed_json(s: Seq<char>) -> Option<JsonModel>;

/// `serde_json::from_str::<Value>`: whether the text is JSON, and what it holds, depends on the
/// text alone.
#[verifier::external_body]
fn read_value(s: &str) -> (value: Option<serde_json::Value>)
    ensures
        parsed_json(s@) == match value {
            Some(v) => Some(value_contents(v)),
            None => None::<JsonModel>,
        },
{
    serde_json::from_str::<serde_json::Value>(s).ok()
}

/// Moves the contents of a `serde_json::Value` into a `Json`, variant by variant, a number by way
/// of `Number::to_string`.
#[verifier::external_body]
fn json_of(value: serde_json::Value) -> (json: Json)
    ensures
        json@ == value_contents(value),
{
    match value {
        serde_json::Value::Null => Json::Null,
        serde_json::Value::Bool(b) => Json::Bool(b),
        serde_json::Value::Number(n) => Json::Number(n.to_string()),
        serde_json::Value::String(s) => Json::Str(s),
        serde_json::Value::Array(items) => Json::Array(items.into_iter().map(json_of).collect()),
        serde_json::Value::Object(members) => {
            Json::Object(members.into_iter().map(|(key, item)| (key, json_of(item))).collect())
        },
    }
}

/// The value that a text holds, if it is JSON.
pub fn parse_json(s: &str) -> (json: Option<Json>)
    ensures
        parsed_json(s@) == match json {
            Some(j) => Some(j@),
            None => None::<JsonModel>,
        },
{
    match read_value(s) {
        Some(value) => Some(json_of(value)),
        None => None,
    }
}

impl Json {
    /// The member of an object under `key`; nothing of a value that is no object.
    pub fn get(&self, key: &str) -> (found: Option<&Json>)
        ensures
            self@.member(key@) == match found {
                Some(j) => Some(j@),
                None => None::<JsonModel>,
            },
    {
        match self {
            Json::Object(members) => {
                let ghost models = self@->Object_0;
                let mut at: usize = 0;
                while at < members.len() && !same_text(members[at].0.as_str(), key)
                    invariant
                        at <= members@.len(),
                        self@ == JsonModel::Object(models),
                        *self == Json::Object(*members),
                        models == self@->Object_0,
                        models.len() == members@.len(),
                        forall|i: int| 0 <= i < at ==> (#[trigger] models[i]).0 != key@,
                    decreases members@.len() - at,
                {
                    at += 1;
                }
                proof {
                    access::lemma_key_index(models, key@, at as int);
                }
                if at < members.len() {
                    Some(&members[at].1)
                } else {
                    None
                }
            },
            _ => None,
        }
    }

    /// The text of a string.
    pub fn as_str(&self) -> (s: Option<&str>)
        ensures
            self@.string() == match s {
                Some(t) => Some(t@),
                None => None::<Seq<char>>,
            },
    {
        match self {
            Json::Str(s) => Some(s.as_str()),
            _ => None,
        }
    }

    /// The text under `key`, where a string stands there.
    pub fn get_str(&self, key: &str) -> (s: Option<&str>)
        ensures
            self@.member_string(key@) == match s {
                Some(t) => Some(t@),
                None => None::<Seq<char>>,
            },
    {
        match self.get(key) {
            Some(value) => value.as_str(),
            None => None,
        }
    }
}

} // verus!
