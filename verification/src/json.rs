//! JSON values, held by `serde_json`.

use vstd::prelude::*;

verus! {

/// A JSON value of `serde_json`.
#[verifier::external_type_specification]
#[verifier::external_body]
pub struct ExJsonValue(serde_json::Value);

/// What a JSON value is. A number is known by the way it is written.
pub enum Json {
    Null,
    Bool(bool),
    Number(Seq<char>),
    Text(Seq<char>),
    List(Seq<Json>),
    Object(Map<Seq<char>, Json>),
}

/// What a value of `serde_json` holds.
pub uninterp spec fn json_of(v: serde_json::Value) -> Json;

/// What `serde_json` reads in a text: a value, or what is wrong with the text.
pub uninterp spec fn json_read(text: Seq<char>) -> Result<Json, Seq<char>>;

/// How `serde_json` writes a value over several lines.
pub uninterp spec fn json_pretty(j: Json) -> Option<Seq<char>>;

/// The values of several.
pub open spec fn json_list(vs: Seq<serde_json::Value>) -> Seq<Json> {
    vs.map_values(|v: serde_json::Value| json_of(v))
}

/// An object of pairs; of two with one name the later one counts.
pub open spec fn json_fields(fs: Seq<(String, serde_json::Value)>) -> Map<Seq<char>, Json>
    decreases fs.len(),
{
    if fs.len() == 0 {
        Map::empty()
    } else {
        json_fields(fs.drop_last()).insert(fs.last().0@, json_of(fs.last().1))
    }
}

/// A member of an object.
pub open spec fn json_field(j: Json, key: Seq<char>) -> Option<Json> {
    match j {
        Json::Object(m) => if m.contains_key(key) {
            Some(m[key])
        } else {
            None
        },
        _ => None,
    }
}

/// `serde_json::from_str`: reads a text as JSON. The result is a function of the text.
#[verifier::external_body]
pub(crate) fn parse_json(text: &str) -> (r: Result<serde_json::Value, String>)
    ensures
        (match r {
            Ok(v) => Ok(json_of(v)),
            Err(m) => Err(m@),
        }) == json_read(text@),
{
    serde_json::from_str(text).map_err(|e: serde_json::Error| e.to_string())
}

/// `serde_json::to_string_pretty`: writes a value over several lines. The result is a function of
/// what the value holds; members are written in the order of their names.
#[verifier::external_body]
pub(crate) fn pretty_json(v: &serde_json::Value) -> (r: Option<String>)
    ensures
        (match r {
            Some(s) => Some(s@),
            None => None,
        }) == json_pretty(json_of(*v)),
{
    serde_json::to_string_pretty(v).ok()
}

/// `serde_json::Value::get` with a name: the member of that name, if the value is an object that
/// has one.
#[verifier::external_body]
pub(crate) fn field<'a>(v: &'a serde_json::Value, key: &str) -> (r: Option<&'a serde_json::Value>)
    ensures
        (match r {
            Some(f) => Some(json_of(*f)),
            None => None,
        }) == json_field(json_of(*v), key@),
{
    v.get(key)
}

/// `serde_json::Value::as_str`: the text of a value that is one.
pub assume_specification[ serde_json::Value::as_str ](v: &serde_json::Value) -> (r: Option<&str>)
    ensures
        r matches Some(s) ==> json_of(*v) == Json::Text(s@),
        r is None ==> !(json_of(*v) is Text),
;

/// `serde_json::Value::as_array`: the elements of a value that is a list.
pub assume_specification[ serde_json::Value::as_array ](v: &serde_json::Value) -> (r: Option<
    &Vec<serde_json::Value>,
>)
    ensures
        r matches Some(a) ==> json_of(*v) == Json::List(json_list(a@)),
        r is None ==> !(json_of(*v) is List),
;

/// `serde_json::Value::as_array_mut`: the elements of a value that is a list, to change.
pub assume_specification[ serde_json::Value::as_array_mut ](v: &mut serde_json::Value) -> (r: Option<
    &mut Vec<serde_json::Value>,
>)
    ensures
        r matches Some(a) ==> json_of(*old(v)) == Json::List(json_list(a@)),
        r matches Some(a) ==> json_of(*final(v)) == Json::List(json_list(final(a)@)),
        r is None ==> !(json_of(*old(v)) is List),
        r is None ==> json_of(*final(v)) == json_of(*old(v)),
;

/// `serde_json::Map::entry` and `or_insert`, in the object that `as_object_mut` finds: the member of
/// that name, put there first where there is none. A value that is no object stays as it is.
#[verifier::external_body]
pub(crate) fn member_or<'a>(
    v: &'a mut serde_json::Value,
    key: &str,
    default: serde_json::Value,
) -> (r: Option<&'a mut serde_json::Value>)
    ensures
        r is Some == json_of(*old(v)) is Object,
        r matches Some(m) ==> json_of(*m) == (match json_field(json_of(*old(v)), key@) {
            Some(j) => j,
            None => json_of(default),
        }),
        r matches Some(m) ==> json_of(*final(v)) == Json::Object(
            json_of(*old(v))->Object_0.insert(key@, json_of(*final(m))),
        ),
        r is None ==> json_of(*final(v)) == json_of(*old(v)),
{
    v.as_object_mut().map(|o| o.entry(key).or_insert(default))
}

/// The variant `serde_json::Value::Null`.
#[verifier::external_body]
pub(crate) fn null_value() -> (v: serde_json::Value)
    ensures
        json_of(v) == Json::Null,
{
    serde_json::Value::Null
}

/// The variant `serde_json::Value::String`.
#[verifier::external_body]
pub(crate) fn text_value(s: String) -> (v: serde_json::Value)
    ensures
        json_of(v) == Json::Text(s@),
{
    serde_json::Value::String(s)
}

/// The variant `serde_json::Value::Array`.
#[verifier::external_body]
pub(crate) fn list_value(items: Vec<serde_json::Value>) -> (v: serde_json::Value)
    ensures
        json_of(v) == Json::List(json_list(items@)),
{
    serde_json::Value::Array(items)
}

/// The variant `serde_json::Value::Object`, of a map collected from pairs: a pair behind another
/// one of its name takes its place.
#[verifier::external_body]
pub(crate) fn object_value(fields: Vec<(String, serde_json::Value)>) -> (v: serde_json::Value)
    ensures
        json_of(v) == Json::Object(json_fields(fields@)),
{
    serde_json::Value::Object(fields.into_iter().collect())
}

} // verus!
