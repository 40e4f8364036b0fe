//! JSON text, as far as payloads need it: an object is read into its
//! members and written from them. Reading and writing are the JSON
//! library's; what they give is named here, and the library's contracts
//! speak of those names.
use vstd::prelude::*;

verus! {

/// `serde_json::Error`, of which nothing is known here: why the decoder
/// turned a text down.
#[verifier::external_type_specification]
#[verifier::external_body]
pub struct ExJsonError(serde_json::Error);

/// One member of a JSON object: its key, and its value where that is a
/// string.
pub struct Member {
    /// The member's key.
    pub key: String,
    /// The member's value if it is a string; `None` for any other value.
    pub text: Option<String>,
}

/// A member as contracts see it.
pub struct Entry {
    pub key: Seq<char>,
    pub text: Option<Seq<char>>,
}

impl View for Member {
    type V = Entry;

    open spec fn view(&self) -> Entry {
        Entry { key: self.key@, text: self.text.deep_view() }
    }
}

/// The members as contracts see them.
pub open spec fn entries(members: Seq<Member>) -> Seq<Entry> {
    members.map_values(|member: Member| member@)
}

/// What the JSON decoder makes of `text` when it is asked for an object: the
/// object's members, or nothing where `text` is not the JSON text of an
/// object.
pub uninterp spec fn json_object(text: Seq<char>) -> Option<Seq<Entry>>;

/// `serde_json::from_str`, asked for a `serde_json::Map`. What it gives is
/// `json_object(text)`: with the members in the order in which the map
/// hands them out, each with its value if that is a `Value::String`; or the
/// decoder's error where `json_object(text)` is nothing. Nothing is claimed
/// here of which texts are objects.
#[verifier::external_body]
pub(crate) fn decode_object(text: &str) -> (decoded: Result<Vec<Member>, serde_json::Error>)
    ensures
        decoded matches Ok(members) ==> json_object(text@) == Some(entries(members@)),
        decoded is Err ==> json_object(text@) is None,
{
    let object: serde_json::Map<String, serde_json::Value> = serde_json::from_str(text)?;
    let member = |(key, value)| match value {
        serde_json::Value::String(text) => Member { key, text: Some(text) },
        serde_json::Value::Null => Member { key, text: None },
        serde_json::Value::Bool(_) => Member { key, text: None },
        serde_json::Value::Number(_) => Member { key, text: None },
        serde_json::Value::Array(_) => Member { key, text: None },
        serde_json::Value::Object(_) => Member { key, text: None },
    };
    Ok(object.into_iter().map(member).collect())
}

/// A member whose value is a string, as contracts see it: key and value.
pub open spec fn pairs(members: Seq<(String, String)>) -> Seq<(Seq<char>, Seq<char>)> {
    members.map_values(|member: (String, String)| (member.0@, member.1@))
}

/// The compact JSON text of the object that has `members`, each with a
/// string for its value.
pub uninterp spec fn json_text(members: Seq<(Seq<char>, Seq<char>)>) -> Seq<char>;

/// `to_string` of a `serde_json::Value::Object` that is collected from
/// `members`, each value a `Value::String`. What it gives is
/// `json_text` of the members. Nothing is claimed here of what that text
/// looks like.
#[verifier::external_body]
pub(crate) fn encode_object(members: &Vec<(String, String)>) -> (encoded: String)
    ensures
        encoded@ == json_text(pairs(members@)),
{
    let text = |(key, value): &(String, String)| {
        (key.clone(), serde_json::Value::String(value.clone()))
    };
    let object: serde_json::Map<String, serde_json::Value> = members.iter().map(text).collect();
    serde_json::Value::Object(object).to_string()
}

} // verus!
