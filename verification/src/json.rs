//! Reading one member of a JSON object, the only use this library makes of
//! JSON. The parsing itself is `serde_json`'s.

use vstd::prelude::*;

verus! {

/// What one member of a JSON object holds, as far as this library reads it.
#[derive(Debug, Clone, PartialEq, Eq)]
pub enum JsonMember {
    /// The object has no member of that key.
    Absent,
    /// `null`.
    Null,
    /// A string, unescaped.
    Text(String),
    /// A number, as `serde_json` prints it.
    Number(String),
    /// A boolean, an array or an object.
    Other,
}

/// The model of a [`JsonMember`].
pub enum MemberShape {
    Absent,
    Null,
    Text(Seq<char>),
    Number(Seq<char>),
    Other,
}

impl View for JsonMember {
    type V = MemberShape;

    open spec fn view(&self) -> MemberShape {
        match self {
            JsonMember::Absent => MemberShape::Absent,
            JsonMember::Null => MemberShape::Null,
            JsonMember::Text(s) => MemberShape::Text(s@),
            JsonMember::Number(n) => MemberShape::Number(n@),
            JsonMember::Other => MemberShape::Other,
        }
    }
}

/// The model of the outcome of reading a member: `None` where the text is not
/// a JSON object.
pub open spec fn member_shape(member: Option<JsonMember>) -> Option<MemberShape> {
    match member {
        Some(m) => Some(m@),
        None => None,
    }
}

/// The members of the JSON object that `serde_json` makes of `text`, each with
/// what it holds; `None` where `text` as a whole is not one JSON object.
pub uninterp spec fn json_object(text: Seq<char>) -> Option<Map<Seq<char>, MemberShape>>;

/// What stands under `key` in the JSON object `text`: `None` where `text` is
/// no JSON object, else what the member of that key holds.
pub open spec fn json_member(text: Seq<char>, key: Seq<char>) -> Option<MemberShape> {
    match json_object(text) {
        None => None,
        Some(members) => Some(
            if members.contains_key(key) {
                members[key]
            } else {
                MemberShape::Absent
            },
        ),
    }
}

/// Parses `text` with `serde_json::from_str` into a `serde_json::Value` and,
/// where that is an object, looks `key` up in it with `serde_json::Map::get`.
/// Not proved: that what the parser makes of a text depends on the text
/// alone, and that the lookup gives the member of that key, or none where
/// the object has no such member. A string member is handed out as parsed, a
/// number member as `serde_json::Number` prints it.
#[verifier::external_body]
pub(crate) fn read_member(text: &str, key: &str) -> (member: Option<JsonMember>)
    ensures
        member_shape(member) == (match json_object(text@) {
            None => None,
            Some(members) => Some(
                if members.contains_key(key@) {
                    members[key@]
                } else {
                    MemberShape::Absent
                },
            ),
        }),
{
    match serde_json::from_str::<serde_json::Value>(text) {
        Ok(serde_json::Value::Object(members)) => Some(
            match members.get(key) {
                None => JsonMember::Absent,
                Some(serde_json::Value::Null) => JsonMember::Null,
                Some(serde_json::Value::String(s)) => JsonMember::Text(s.clone()),
                Some(serde_json::Value::Number(n)) => JsonMember::Number(n.to_string()),
                Some(_) => JsonMember::Other,
            },
        ),
        _ => None,
    }
}

} // verus!
