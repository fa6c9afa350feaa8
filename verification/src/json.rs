//! The schema as a tree of JSON values, and its text.

use crate::error::SerializationError;
use vstd::prelude::*;

verus! {

/// A JSON value. The members of an object keep the order they were given in.
#[derive(Debug, PartialEq, Eq)]
pub enum Json {
    Null,
    Bool(bool),
    Number(u8),
    Text(String),
    Array(Vec<Json>),
    Object(Vec<(String, Json)>),
}

/// A JSON value as plain sequences.
pub ghost enum JsonModel {
    Null,
    Bool(bool),
    Number(u8),
    Text(Seq<char>),
    Array(Seq<JsonModel>),
    Object(Seq<(Seq<char>, JsonModel)>),
}

impl Json {
    /// The value as plain sequences.
    pub open spec fn model(&self) -> JsonModel
        decreases self,
    {
        match self {
            Json::Null => JsonModel::Null,
            Json::Bool(b) => JsonModel::Bool(*b),
            Json::Number(n) => JsonModel::Number(*n),
            Json::Text(s) => JsonModel::Text(s@),
            Json::Array(items) => JsonModel::Array(
                Seq::new(
                    items@.len(),
                    |i: int|
                        if 0 <= i < items@.len() {
                            items@[i].model()
                        } else {
                            JsonModel::Null
                        },
                ),
            ),
            Json::Object(members) => JsonModel::Object(
                Seq::new(
                    members@.len(),
                    |i: int|
                        if 0 <= i < members@.len() {
                            (members@[i].0@, members@[i].1.model())
                        } else {
                            (Seq::empty(), JsonModel::Null)
                        },
                ),
            ),
        }
    }
}

impl View for Json {
    type V = JsonModel;

    open spec fn view(&self) -> JsonModel {
        self.model()
    }
}

/// The models of a list of values.
pub open spec fn items_model(items: Seq<Json>) -> Seq<JsonModel> {
    Seq::new(items.len(), |i: int| items[i]@)
}

/// The models of a list of named values.
pub open spec fn members_model(members: Seq<(String, Json)>) -> Seq<(Seq<char>, JsonModel)> {
    Seq::new(members.len(), |i: int| (members[i].0@, members[i].1@))
}

/// The value of the first of `members` that is called `name`.
pub open spec fn lookup(members: Seq<(Seq<char>, JsonModel)>, name: Seq<char>) -> Option<JsonModel>
    decreases members.len(),
{
    if members.len() == 0 {
        None
    } else if members[0].0 == name {
        Some(members[0].1)
    } else {
        lookup(members.drop_first(), name)
    }
}

/// A member whose name no earlier member has is found under its name.
pub proof fn lemma_lookup_finds(members: Seq<(Seq<char>, JsonModel)>, i: int)
    requires
        0 <= i < members.len(),
        forall|j: int| 0 <= j < i ==> members[j].0 != members[i].0,
    ensures
        lookup(members, members[i].0) == Some(members[i].1),
    decreases members.len(),
{
    if i > 0 {
        let rest = members.drop_first();
        assert(rest[i - 1] == members[i]);
        assert forall|j: int| 0 <= j < i - 1 implies (#[trigger] rest[j]).0 != rest[i - 1].0 by {
            assert(rest[j] == members[j + 1]);
        }
        lemma_lookup_finds(rest, i - 1);
    }
}

/// The JSON value of a tri-state: `null` where it is unknown.
pub open spec fn tristate_json(value: Option<bool>) -> JsonModel {
    match value {
        Some(b) => JsonModel::Bool(b),
        None => JsonModel::Null,
    }
}

/// The text that a member holds, where it is there and is a string.
pub open spec fn text_of(member: Option<JsonModel>) -> Option<Seq<char>> {
    match member {
        Some(JsonModel::Text(s)) => Some(s),
        _ => None,
    }
}

/// The wire code that a member holds, where it is there and is a number.
pub open spec fn code_of(member: Option<JsonModel>) -> Option<u8> {
    match member {
        Some(JsonModel::Number(n)) => Some(n),
        _ => None,
    }
}

/// The boolean that a member holds, where it is there and is one.
pub open spec fn flag_of(member: Option<JsonModel>) -> Option<bool> {
    match member {
        Some(JsonModel::Bool(b)) => Some(b),
        _ => None,
    }
}

/// The tri-state that a member holds: unknown where it is `null` or not
/// there. The outer `None` is a member that holds something else.
pub open spec fn tristate_of(member: Option<JsonModel>) -> Option<Option<bool>> {
    match member {
        None => Some(None),
        Some(JsonModel::Null) => Some(None),
        Some(JsonModel::Bool(b)) => Some(Some(b)),
        _ => None,
    }
}

impl Json {
    /// A JSON string with the characters of `s`.
    pub fn text(s: &str) -> (json: Json)
        ensures
            json@ == JsonModel::Text(s@),
    {
        Json::Text(s.to_owned())
    }

    /// The JSON value of a tri-state: `null` where it is unknown.
    pub fn tristate(value: Option<bool>) -> (json: Json)
        ensures
            json@ == tristate_json(value),
    {
        match value {
            Some(b) => Json::Bool(b),
            None => Json::Null,
        }
    }

    /// A JSON array of the given values, in their order.
    pub fn array(items: Vec<Json>) -> (json: Json)
        ensures
            json@ == JsonModel::Array(items_model(items@)),
    {
        let json = Json::Array(items);
        proof {
            assert(json@->Array_0 =~= items_model(items@));
        }
        json
    }

    /// A JSON object of the given members, in their order.
    pub fn object(members: Vec<(String, Json)>) -> (json: Json)
        ensures
            json@ == JsonModel::Object(members_model(members@)),
    {
        let json = Json::Object(members);
        proof {
            assert(json@->Object_0 =~= members_model(members@));
        }
        json
    }
}

#[verifier::external_type_specification]
#[verifier::external_body]
pub struct ExJsonValue(serde_json::Value);

#[verifier::external_type_specification]
#[verifier::external_body]
pub struct ExJsonError(serde_json::Error);

/// The text that `serde_json` writes for a JSON value in its pretty form:
/// members and items on lines of their own, indented by two spaces. `None`
/// where it reports an error instead.
pub uninterp spec fn pretty_text(json: JsonModel) -> Option<Seq<char>>;

/// Builds the `serde_json::Value` that stands for a tree: each variant
/// becomes the variant of the same name, an object's members are inserted
/// into a `serde_json::Map` in their order. Nothing is claimed of the result.
#[verifier::external_body]
fn to_value(json: &Json) -> (value: serde_json::Value) {
    match json {
        Json::Null => serde_json::Value::Null,
        Json::Bool(b) => serde_json::Value::Bool(*b),
        Json::Number(n) => serde_json::Value::from(*n),
        Json::Text(s) => serde_json::Value::String(s.clone()),
        Json::Array(items) => serde_json::Value::Array(items.iter().map(to_value).collect()),
        Json::Object(members) => serde_json::Value::Object(
            members.iter().map(|(name, member)| (name.clone(), to_value(member))).collect(),
        ),
    }
}

/// Calls `serde_json::to_string_pretty` on the value that stands for the
/// tree. The contract names what comes back: the text, or that there is
/// none.
#[verifier::external_body]
fn write_pretty(json: &Json) -> (r: Result<String, serde_json::Error>)
    ensures
        match r {
            Ok(text) => pretty_text(json@) == Some(text@),
            Err(_) => pretty_text(json@) is None,
        },
{
    serde_json::to_string_pretty(&to_value(json))
}

impl Json {
    /// The value as indented JSON text.
    pub fn to_pretty_text(&self) -> (r: Result<String, SerializationError>)
        ensures
            match r {
                Ok(text) => pretty_text(self@) == Some(text@),
                Err(_) => pretty_text(self@) is None,
            },
    {
        match write_pretty(self) {
            Ok(text) => Ok(text),
            Err(_) => Err(SerializationError),
        }
    }
}

} // verus!
