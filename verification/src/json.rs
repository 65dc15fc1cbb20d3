//! JSON values as `serde_json` holds them, with a mathematical reading of
//! what a value contains and the few operations on values that the library
//! takes from outside.

use vstd::prelude::*;

verus! {

/// `serde_json::Value`, carried as it is; what it contains is read through
/// `json_model`.
#[verifier::external_type_specification]
#[verifier::external_body]
pub struct ExValue(serde_json::Value);

/// What a JSON value contains.
pub enum Json {
    Null,
    Bool(bool),
    /// A number that is held as an integer.
    Integer(int),
    /// A number that is held in floating point, whatever its value.
    Fraction,
    Text(Seq<char>),
    List(Seq<Json>),
    Object(Map<Seq<char>, Json>),
}

/// The contents of a `serde_json::Value`.
pub uninterp spec fn json_model(v: serde_json::Value) -> Json;

/// The patch that `json_patch::diff` computes from one value to another.
pub uninterp spec fn json_diff(from: serde_json::Value, to: serde_json::Value) -> serde_json::Value;

/// The text that `serde_json::to_string` writes for a value.
pub uninterp spec fn json_written(v: serde_json::Value) -> Seq<char>;

/// The value that `serde_json::from_str` reads from a text, where the text
/// is JSON.
pub uninterp spec fn json_read(text: Seq<char>) -> Option<serde_json::Value>;

/// `serde_json::Error`, carried as it is.
#[verifier::external_type_specification]
#[verifier::external_body]
pub struct ExJsonError(serde_json::Error);

/// The contents of each value of a list.
pub open spec fn json_models(items: Seq<serde_json::Value>) -> Seq<Json> {
    items.map_values(|v: serde_json::Value| json_model(v))
}

/// The members that a list of named values stands for. Where a name occurs
/// more than once, the last value under it decides.
pub open spec fn members(entries: Seq<(String, serde_json::Value)>) -> Map<Seq<char>, Json>
    decreases entries.len(),
{
    if entries.len() == 0 {
        Map::empty()
    } else {
        members(entries.drop_last()).insert(entries.last().0@, json_model(entries.last().1))
    }
}

/// No name occurs twice in the list.
pub open spec fn distinct_names(entries: Seq<(String, serde_json::Value)>) -> bool {
    forall|i: int, j: int| 0 <= i < j < entries.len() ==> entries[i].0@ != entries[j].0@
}

/// `Value::String`: the JSON string with the characters of `text`.
#[verifier::external_body]
pub(crate) fn json_text(text: String) -> (v: serde_json::Value)
    ensures
        json_model(v) == Json::Text(text@),
{
    serde_json::Value::String(text)
}

/// `Value::from` on an `i32`: the JSON number `n`.
#[verifier::external_body]
pub(crate) fn json_integer(n: i32) -> (v: serde_json::Value)
    ensures
        json_model(v) == Json::Integer(n as int),
{
    serde_json::Value::from(n)
}

/// `Value::Array`: the JSON array of the items, in their order.
#[verifier::external_body]
pub(crate) fn json_list(items: Vec<serde_json::Value>) -> (v: serde_json::Value)
    ensures
        json_model(v) == Json::List(json_models(items@)),
{
    serde_json::Value::Array(items)
}

/// `Map::from_iter` under `Value::Object`: the JSON object with one member
/// for each entry. The names must differ, so that no entry is dropped.
#[verifier::external_body]
pub(crate) fn json_object(entries: Vec<(String, serde_json::Value)>) -> (v: serde_json::Value)
    requires
        distinct_names(entries@),
    ensures
        json_model(v) == Json::Object(members(entries@)),
{
    serde_json::Value::Object(entries.into_iter().collect())
}

/// `Value::get` with a name: the member of that name, where the value is an
/// object that has one.
#[verifier::external_body]
pub(crate) fn json_member<'a>(v: &'a serde_json::Value, name: &str) -> (found: Option<
    &'a serde_json::Value,
>)
    ensures
        match found {
            Some(member) => json_model(*v) matches Json::Object(m) && m.contains_key(name@)
                && m[name@] == json_model(*member),
            None => json_model(*v) matches Json::Object(m) ==> !m.contains_key(name@),
        },
{
    v.get(name)
}

/// `Map::iter` on `Value::as_object`: the members of an object as a list of
/// named values without repeated names, and nothing for any other value.
#[verifier::external_body]
pub(crate) fn json_entries(v: &serde_json::Value) -> (found: Option<
    Vec<(String, serde_json::Value)>,
>)
    ensures
        match found {
            Some(entries) => distinct_names(entries@) && json_model(*v) == Json::Object(
                members(entries@),
            ),
            None => !(json_model(*v) is Object),
        },
{
    v.as_object().map(|m| m.iter().map(|(name, member)| (name.clone(), member.clone())).collect())
}

/// `json_patch::diff`, with the patch turned into a value by
/// `serde_json::to_value`: the patch that leads from `from` to `to`.
#[verifier::external_body]
pub(crate) fn diff_values(from: &serde_json::Value, to: &serde_json::Value) -> (patch:
    serde_json::Value)
    ensures
        patch == json_diff(*from, *to),
{
    serde_json::to_value(json_patch::diff(from, to)).expect("Patch to convert to Value")
}

/// `serde_json::to_string` on a value: the value written as JSON text.
#[verifier::external_body]
pub(crate) fn write_json(v: &serde_json::Value) -> (text: String)
    ensures
        text@ == json_written(*v),
{
    serde_json::to_string(v).expect("Body to be serializable")
}

/// `serde_json::from_str` for a value: the value that the text holds, or
/// the error of the parser where the text is no JSON.
#[verifier::external_body]
pub(crate) fn read_json(text: &str) -> (read: Result<serde_json::Value, serde_json::Error>)
    ensures
        match read {
            Ok(v) => json_read(text@) == Some(v),
            Err(_) => json_read(text@) is None,
        },
{
    serde_json::from_str(text)
}

/// `Clone` of a value: the same value.
pub assume_specification[ <serde_json::Value as Clone>::clone ](v: &serde_json::Value) -> (copy:
    serde_json::Value)
    ensures
        copy == *v,
;

/// `Value::as_i64`: the number, where the value is an integer that an `i64`
/// can hold.
pub assume_specification[ serde_json::Value::as_i64 ](v: &serde_json::Value) -> (n: Option<i64>)
    ensures
        match n {
            Some(n) => json_model(*v) == Json::Integer(n as int),
            None => json_model(*v) matches Json::Integer(k) ==> k < i64::MIN || k > i64::MAX,
        },
;

/// `Value::as_str`: the characters, where the value is a string.
pub assume_specification<'a>[ serde_json::Value::as_str ](v: &'a serde_json::Value) -> (s: Option<
    &'a str,
>)
    ensures
        match s {
            Some(s) => json_model(*v) == Json::Text(s@),
            None => !(json_model(*v) is Text),
        },
;

/// `Value::as_array`: the items, where the value is an array.
pub assume_specification<'a>[ serde_json::Value::as_array ](v: &'a serde_json::Value) -> (items:
    Option<&'a Vec<serde_json::Value>>)
    ensures
        match items {
            Some(items) => json_model(*v) == Json::List(json_models(items@)),
            None => !(json_model(*v) is List),
        },
;

} // verus!
