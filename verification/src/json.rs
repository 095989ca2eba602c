//! JSON values, as `serde_json` parses and holds them, and what this library
//! takes for granted of them.
//!
//! Nothing in this file is proved. Each item states what the named function
//! of `serde_json` does, in terms of [`JsonModel`].

use vstd::prelude::*;

verus! {

/// `serde_json::Value`: a parsed JSON value. Verified code carries it and
/// reads it only through the functions specified below.
#[verifier::external_type_specification]
#[verifier::external_body]
pub struct ExJsonValue(serde_json::Value);

/// `serde_json::Error`: why a text could not be parsed. Verified code never
/// looks inside.
#[verifier::external_type_specification]
#[verifier::external_body]
pub struct ExJsonError(serde_json::Error);

/// The mathematical value of a JSON document: one case for each kind of
/// JSON value. An object maps each of its keys to one value.
pub ghost enum JsonModel {
    Null,
    Bool(bool),
    Number,
    Text(Seq<char>),
    Array(Seq<JsonModel>),
    Object(Map<Seq<char>, JsonModel>),
}

/// What a `serde_json::Value` holds.
pub uninterp spec fn json_model(v: serde_json::Value) -> JsonModel;

/// What `serde_json::from_str` makes of a text: the value that the text
/// denotes, or `None` where the text is not one JSON document.
pub uninterp spec fn json_document(text: Seq<char>) -> Option<JsonModel>;

/// What a run of values holds.
pub open spec fn item_models(items: Seq<serde_json::Value>) -> Seq<JsonModel> {
    items.map_values(|v: serde_json::Value| json_model(v))
}

/// The member of `m` under `key`: the value that an object holds for the
/// key; `Null` where `m` has no such key or is no object.
pub open spec fn member_of(m: JsonModel, key: Seq<char>) -> JsonModel {
    match m {
        JsonModel::Object(fields) => if fields.dom().contains(key) {
            fields[key]
        } else {
            JsonModel::Null
        },
        _ => JsonModel::Null,
    }
}

/// `serde_json::from_str::<serde_json::Value>`: parses a text as one JSON
/// document. The same text always gives the same outcome; an error comes
/// exactly where the text is not a JSON document.
#[verifier::external_body]
pub(crate) fn parse_json(text: &str) -> (r: Result<serde_json::Value, serde_json::Error>)
    ensures
        match r {
            Ok(v) => json_document(text@) == Some(json_model(v)),
            Err(_) => json_document(text@) is None,
        },
{
    serde_json::from_str::<serde_json::Value>(text)
}

/// Indexing a `serde_json::Value` by a string, `value[key]`: gives the
/// member of an object under the key, and a null value where the value is no
/// object or has no such key. It never panics.
#[verifier::external_body]
pub(crate) fn json_member<'a>(v: &'a serde_json::Value, key: &str) -> (r: &'a serde_json::Value)
    ensures
        json_model(*r) == member_of(json_model(*v), key@),
{
    &v[key]
}

/// `serde_json::Value::as_str`: the string of a string value, `None` for a
/// value of any other kind.
pub assume_specification[ serde_json::Value::as_str ](v: &serde_json::Value) -> (r: Option<&str>)
    ensures
        match r {
            Some(s) => json_model(*v) == JsonModel::Text(s@),
            None => !(json_model(*v) is Text),
        },
;

/// `serde_json::Value::as_array`: the items of an array value, `None` for a
/// value of any other kind.
pub assume_specification[ serde_json::Value::as_array ](v: &serde_json::Value) -> (r: Option<
    &Vec<serde_json::Value>,
>)
    ensures
        match r {
            Some(items) => json_model(*v) == JsonModel::Array(item_models(items@)),
            None => !(json_model(*v) is Array),
        },
;

/// `serde_json::Value::is_null`: whether the value is the null value.
pub assume_specification[ serde_json::Value::is_null ](v: &serde_json::Value) -> (r: bool)
    ensures
        r == (json_model(*v) is Null),
;

} // verus!
