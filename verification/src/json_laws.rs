//! Reading the members of a JSON object.

use vstd::prelude::*;

use crate::access;
use crate::json::{Json, JsonModel};

verus! {

/// Whether a value is an object that holds `found` under `key`: its first member of that name.
pub open spec fn holds(value: JsonModel, key: Seq<char>, found: JsonModel) -> bool {
    value matches JsonModel::Object(members) && exists|i: int|
        0 <= i < members.len() && (#[trigger] members[i]).0 == key && members[i].1 == found && (
        forall|j: int| 0 <= j < i ==> (#[trigger] members[j]).0 != key)
}

/// Whether a value holds nothing under `key`.
pub open spec fn lacks(value: JsonModel, key: Seq<char>) -> bool {
    value matches JsonModel::Object(members) ==> forall|i: int|
        0 <= i < members.len() ==> (#[trigger] members[i]).0 != key
}

/// Whether a value holds the text `s` under `key`.
pub open spec fn says(value: JsonModel, key: Seq<char>, s: Seq<char>) -> bool {
    holds(value, key, JsonModel::Str(s))
}

/// What is read under a name is what the first member of that name holds.
pub proof fn lemma_what_is_read(value: JsonModel, key: Seq<char>)
    ensures
        forall|found: JsonModel|
            value.member(key) == Some(found) <==> #[trigger] holds(value, key, found),
        value.member(key) is None <==> lacks(value, key),
        forall|s: Seq<char>| value.member_string(key) == Some(s) <==> #[trigger] says(value, key, s),
{
    if let JsonModel::Object(members) = value {
        access::lemma_key_index_first(members, key);
        let at = access::key_index(members, key) as int;
        assert forall|found: JsonModel| value.member(key) == Some(found) <==> #[trigger] holds(
            value,
            key,
            found,
        ) by {
            if holds(value, key, found) {
                let i = choose|i: int|
                    0 <= i < members.len() && (#[trigger] members[i]).0 == key && members[i].1
                        == found && (forall|j: int| 0 <= j < i ==> (#[trigger] members[j]).0 != key);
                if i < at {
                    assert(members[i].0 != key);
                } else if at < i {
                    assert(members[at].0 != key);
                }
            }
            if value.member(key) == Some(found) {
                assert(members[at].0 == key);
            }
        }
        if at < members.len() {
            assert(members[at].0 == key);
        }
    }
    assert forall|s: Seq<char>| value.member_string(key) == Some(s) <==> #[trigger] says(
        value,
        key,
        s,
    ) by {
        assert(holds(value, key, JsonModel::Str(s)) <==> value.member(key) == Some(
            JsonModel::Str(s),
        ));
    }
}

/// What is said of a JSON value is what it holds, item by item and member by member.
pub proof fn lemma_what_json_says(value: Json)
    ensures
        match value {
            Json::Null => value@ == JsonModel::Null,
            Json::Bool(b) => value@ == JsonModel::Bool(b),
            Json::Number(n) => value@ == JsonModel::Number(n@),
            Json::Str(s) => value@ == JsonModel::Str(s@),
            Json::Array(items) => value@ matches JsonModel::Array(said) && said.len()
                == items@.len() && forall|i: int|
                0 <= i < items@.len() ==> #[trigger] said[i] == items@[i]@,
            Json::Object(members) => value@ matches JsonModel::Object(said) && said.len()
                == members@.len() && forall|i: int|
                0 <= i < members@.len() ==> (#[trigger] said[i]).0 == members@[i].0@ && said[i].1
                    == members@[i].1@,
        },
{
}

} // verus!
