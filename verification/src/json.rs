//! JSON values as the gateway sees them: the members of an object, and the text
//! of a string.

use serde_json::Value;
use vstd::prelude::*;

verus! {

/// A JSON value.
#[verifier::external_type_specification]
#[verifier::external_body]
pub struct ExValue(Value);

/// The error of text that is not JSON, or of a value that cannot be written.
#[verifier::external_type_specification]
#[verifier::external_body]
pub struct ExJsonError(serde_json::Error);

/// What a JSON value holds. A value that is neither a string nor an object
/// stands as its compact text.
pub enum JsonView {
    Str(Seq<char>),
    Object(Map<Seq<char>, JsonView>),
    Other(Seq<u8>),
}

/// What a JSON value holds: a string its text, an object its members.
pub uninterp spec fn json_view(value: Value) -> JsonView;

/// What the JSON text `text` denotes for `serde_json::from_slice`, if it is JSON.
pub uninterp spec fn json_parse(text: Seq<u8>) -> Option<JsonView>;

/// The compact text that `serde_json::to_vec` writes of a value, if it can.
pub uninterp spec fn json_text(value: JsonView) -> Option<Seq<u8>>;

/// `serde_json::from_slice` reads one JSON value that fills the whole input.
#[verifier::external_body]
pub(crate) fn parse_json(text: &[u8]) -> (r: Result<Value, serde_json::Error>)
    ensures
        match r {
            Ok(value) => json_parse(text@) == Some(json_view(value)),
            Err(_) => json_parse(text@) is None,
        },
{
    serde_json::from_slice(text)
}

/// `Value::is_object` tells objects from all other values.
pub assume_specification[ Value::is_object ](value: &Value) -> (r: bool)
    ensures
        r == (json_view(*value) is Object),
;

/// `Value::as_str` gives the text of a string, and nothing of any other value.
pub assume_specification[ Value::as_str ](value: &Value) -> (r: Option<&str>)
    ensures
        match json_view(*value) {
            JsonView::Str(text) => r matches Some(s) && s@ == text,
            _ => r is None,
        },
;

/// `Value::get` with a string gives the member of that name, if the value is an
/// object that has one.
#[verifier::external_body]
pub(crate) fn member<'a>(value: &'a Value, name: &str) -> (r: Option<&'a Value>)
    ensures
        match r {
            Some(found) => {
                &&& json_view(*value) matches JsonView::Object(members)
                &&& members.contains_key(name@)
                &&& json_view(*found) == members[name@]
            },
            None => json_view(*value) matches JsonView::Object(members)
                ==> !members.contains_key(name@),
        },
{
    value.get(name)
}

/// `Map::insert`, on the members of an object, gives a member of that name the
/// new value and leaves all other members as they are.
#[verifier::external_body]
pub(crate) fn put_text_member(value: &mut Value, name: &str, text: &str)
    requires
        json_view(*old(value)) is Object,
    ensures
        json_view(*final(value)) == JsonView::Object(
            json_view(*old(value))->Object_0.insert(name@, JsonView::Str(text@)),
        ),
{
    let members = value.as_object_mut().unwrap();
    members.insert(name.to_string(), Value::String(text.to_string()));
}

/// The name by which `serde_json` marks JSON text that is kept as it is. An object
/// with a member of this name alone is read as what the member's text denotes.
pub open spec fn raw_value_name() -> Seq<char> {
    "$serde_json::private::RawValue"@
}

/// `serde_json::to_vec` writes a value as compact text. Where it writes an object
/// that has a member under another name than the mark of kept text, and what it
/// wrote can be read again, then the names of the members and the members that are
/// strings come back. Of other members nothing is claimed: a number with a fraction
/// may be read as a neighbouring one.
#[verifier::external_body]
pub(crate) fn write_json(value: &Value) -> (r: Result<Vec<u8>, serde_json::Error>)
    ensures
        match r {
            Ok(bytes) => json_text(json_view(*value)) == Some(bytes@),
            Err(_) => json_text(json_view(*value)) is None,
        },
        r matches Ok(bytes) ==> (json_view(*value) matches JsonView::Object(members)
            ==> (exists|other: Seq<char>| #[trigger]
            members.contains_key(other) && other != raw_value_name()) ==> (json_parse(
            bytes@,
        ) matches Some(again) ==> {
            &&& again is Object
            &&& again->Object_0.dom() == members.dom()
            &&& forall|name: Seq<char>|
                members.contains_key(name) && (#[trigger] members[name] is Str)
                    ==> again->Object_0[name] == members[name]
        })),
{
    serde_json::to_vec(value)
}

} // verus!
