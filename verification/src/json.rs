//! JSON values of `serde_json`: what they hold, and the calls that make, read
//! and change them.
//!
//! A value is opaque to the verifier. `json` names its contents, and each
//! function here that calls `serde_json` says over that name what the call does.
use serde_json::Value;
use vstd::prelude::*;

use crate::text::decimal;

verus! {

/// `serde_json::Value`, declared so that it can stand in signatures and fields.
#[verifier::external_type_specification]
#[verifier::external_body]
pub struct ExValue(serde_json::Value);

/// What a JSON value holds. A number is given by its JSON text.
#[verifier::ext_equal]
pub enum Json {
    Null,
    Bool(bool),
    Number(Seq<char>),
    Text(Seq<char>),
    Array(Seq<Json>),
    Object(Map<Seq<char>, Json>),
}

/// What a `serde_json::Value` holds.
pub uninterp spec fn json(value: serde_json::Value) -> Json;

/// What each of several values holds.
pub open spec fn jsons(values: Seq<Value>) -> Seq<Json> {
    values.map_values(|v: Value| json(v))
}

/// What an optional value holds.
pub open spec fn opt_json(value: Option<Value>) -> Option<Json> {
    match value {
        Some(v) => Some(json(v)),
        None => None,
    }
}

impl Json {
    /// Whether this is an object with an entry under `key`.
    pub open spec fn has(self, key: Seq<char>) -> bool {
        self is Object && self->Object_0.contains_key(key)
    }

    /// The entry of an object under `key`.
    pub open spec fn at(self, key: Seq<char>) -> Json {
        self->Object_0[key]
    }

    /// This object with the entry under `key` set to `value`.
    pub open spec fn with(self, key: Seq<char>, value: Json) -> Json {
        Json::Object(self->Object_0.insert(key, value))
    }

    /// The entry under `key`, where this is an object that has one.
    pub open spec fn get(self, key: Seq<char>) -> Option<Json> {
        if self.has(key) {
            Some(self.at(key))
        } else {
            None
        }
    }

    /// The text, where this is one.
    pub open spec fn text(self) -> Option<Seq<char>> {
        match self {
            Json::Text(t) => Some(t),
            _ => None,
        }
    }
}

/// The object without entries.
pub open spec fn object() -> Json {
    Json::Object(Map::empty())
}

/// The natural number `n`.
pub open spec fn number(n: nat) -> Json {
    Json::Number(decimal(n))
}

/// An array of texts.
pub open spec fn text_array(items: Seq<Seq<char>>) -> Json {
    Json::Array(items.map_values(|t: Seq<char>| Json::Text(t)))
}

/// The text, or null where there is none.
pub open spec fn text_or_null(text: Option<Seq<char>>) -> Json {
    match text {
        Some(t) => Json::Text(t),
        None => Json::Null,
    }
}

/// Whether a value has at most `depth` arrays and objects inside one another,
/// and no numbers but natural ones of 64 bits.
pub open spec fn plain_within(value: Json, depth: nat) -> bool
    decreases depth,
{
    match value {
        Json::Null | Json::Bool(_) | Json::Text(_) => true,
        Json::Number(digits) => exists|n: nat| n <= u64::MAX && digits == #[trigger] decimal(n),
        Json::Array(items) => depth > 0 && forall|i: int|
            0 <= i < items.len() ==> plain_within(#[trigger] items[i], (depth - 1) as nat),
        Json::Object(entries) => depth > 0 && forall|key: Seq<char>| #[trigger]
            entries.contains_key(key) ==> plain_within(entries[key], (depth - 1) as nat),
    }
}

/// What `serde_json::from_str` reads from a text, or nothing where it fails.
pub uninterp spec fn parsed_json(text: Seq<char>) -> Option<Json>;

/// The compact JSON text that `serde_json` writes of a value.
pub uninterp spec fn rendered_json(value: Json) -> Seq<char>;

/// The null value: `Value::Null`.
#[verifier::external_body]
pub(crate) fn null_value() -> (r: Value)
    ensures
        json(r) == Json::Null,
{
    Value::Null
}

/// A truth value: `Value::from` of a `bool`.
#[verifier::external_body]
pub(crate) fn bool_value(b: bool) -> (r: Value)
    ensures
        json(r) == Json::Bool(b),
{
    Value::from(b)
}

/// A natural number: `Value::from` of a `u64`, which prints as its digits.
#[verifier::external_body]
pub(crate) fn number_value(n: u64) -> (r: Value)
    ensures
        json(r) == number(n as nat),
{
    Value::from(n)
}

/// A text: `Value::from` of a `&str`.
#[verifier::external_body]
pub(crate) fn text_value(text: &str) -> (r: Value)
    ensures
        json(r) == Json::Text(text@),
{
    Value::from(text)
}

/// An array: `Value::Array` of the values in their order.
#[verifier::external_body]
pub(crate) fn array_value(items: Vec<Value>) -> (r: Value)
    ensures
        json(r) == Json::Array(jsons(items@)),
{
    Value::Array(items)
}

/// The object without entries: `Value::Object` of a new `serde_json::Map`.
#[verifier::external_body]
pub(crate) fn empty_object() -> (r: Value)
    ensures
        json(r) == object(),
{
    Value::Object(serde_json::Map::new())
}

/// Sets the entry of an object under a key, through `Value`'s `IndexMut` for a
/// text: an entry that is there is replaced, the others stay. On a value that
/// is no object the outside call may panic, so those are left out.
#[verifier::external_body]
pub(crate) fn set_entry(value: &mut Value, key: &str, entry: Value)
    requires
        json(*old(value)) is Object,
    ensures
        json(*final(value)) == json(*old(value)).with(key@, json(entry)),
{
    value[key] = entry;
}

/// A copy: `Value`'s `Clone`.
#[verifier::external_body]
pub(crate) fn clone_value(value: &Value) -> (r: Value)
    ensures
        json(r) == json(*value),
{
    value.clone()
}

/// Whether a value is an object: `Value::is_object`.
#[verifier::external_body]
pub(crate) fn is_object(value: &Value) -> (r: bool)
    ensures
        r == (json(*value) is Object),
{
    value.is_object()
}

/// The entry of an object under a key: `Value::get` with a text. Nothing comes
/// back from a value that is no object.
#[verifier::external_body]
pub(crate) fn get_entry<'a>(value: &'a Value, key: &str) -> (r: Option<&'a Value>)
    ensures
        match r {
            Some(entry) => json(*value).get(key@) == Some(json(*entry)),
            None => json(*value).get(key@) is None,
        },
{
    value.get(key)
}

/// The entry of an object under a key, to change it in place: `Value::get_mut`
/// with a text. Whatever the entry becomes stands under the key afterwards.
#[verifier::external_body]
pub(crate) fn get_entry_mut<'a>(value: &'a mut Value, key: &str) -> (r: Option<&'a mut Value>)
    ensures
        match r {
            Some(entry) => {
                &&& json(*old(value)).get(key@) == Some(json(*entry))
                &&& json(*final(value)) == json(*old(value)).with(key@, json(*final(entry)))
            },
            None => {
                &&& json(*old(value)).get(key@) is None
                &&& *final(value) == *old(value)
            },
        },
{
    value.get_mut(key)
}

/// The text of a value that is one: `Value::as_str`.
#[verifier::external_body]
pub(crate) fn as_text<'a>(value: &'a Value) -> (r: Option<&'a str>)
    ensures
        match r {
            Some(text) => json(*value).text() == Some(text@),
            None => json(*value).text() is None,
        },
{
    value.as_str()
}

/// The items of a value that is an array, to change them in place:
/// `Value::as_array_mut`. Whatever the items become, the array holds afterwards.
#[verifier::external_body]
pub(crate) fn as_items_mut<'a>(value: &'a mut Value) -> (r: Option<&'a mut Vec<Value>>)
    ensures
        match r {
            Some(items) => {
                &&& json(*old(value)) == Json::Array(jsons(items@))
                &&& json(*final(value)) == Json::Array(jsons(final(items)@))
            },
            None => {
                &&& !(json(*old(value)) is Array)
                &&& *final(value) == *old(value)
            },
        },
{
    value.as_array_mut()
}

/// Reads a value from JSON text: `serde_json::from_str`, its error dropped. What
/// comes back is a function of the text, and `parsed_json` names it.
#[verifier::external_body]
pub(crate) fn parse_value(text: &str) -> (r: Option<Value>)
    ensures
        opt_json(r) == parsed_json(text@),
{
    serde_json::from_str(text).ok()
}

/// Writes a value as compact JSON text, the entries of an object in the order
/// of their keys: `Value`'s `to_string`. What comes back is a function of the
/// contents, and `rendered_json` names it. Reading such a text gives the value
/// back where it nests no deeper than the reader goes and has no numbers that
/// reading could round.
#[verifier::external_body]
pub(crate) fn render_value(value: &Value) -> (r: String)
    ensures
        r@ == rendered_json(json(*value)),
        plain_within(json(*value), 127) ==> parsed_json(r@) == Some(json(*value)),
{
    value.to_string()
}

/// Whether an optional value is the given text.
pub fn is_text(value: Option<&Value>, text: &str) -> (r: bool)
    ensures
        r == (value matches Some(v) && json(*v) == Json::Text(text@)),
{
    match value {
        Some(v) => match as_text(v) {
            Some(t) => crate::text::str_eq(t, text),
            None => false,
        },
        None => false,
    }
}

/// An array of texts.
pub fn texts_value(items: &Vec<String>) -> (r: Value)
    ensures
        json(r) == text_array(crate::text::texts(items@)),
{
    let mut out: Vec<Value> = Vec::new();
    let mut i: usize = 0;
    while i < items.len()
        invariant
            i <= items@.len(),
            out@.len() == i,
            forall|k: int| 0 <= k < i ==> json(#[trigger] out@[k]) == Json::Text(items@[k]@),
        decreases items@.len() - i,
    {
        out.push(text_value(items[i].as_str()));
        i = i + 1;
    }
    let r = array_value(out);
    assert(jsons(out@) =~= crate::text::texts(items@).map_values(|t: Seq<char>| Json::Text(t)));
    r
}

/// The text, or null where there is none.
pub fn opt_text_value(text: &Option<String>) -> (r: Value)
    ensures
        json(r) == text_or_null(crate::text::opt_text(*text)),
{
    match text {
        Some(t) => text_value(t.as_str()),
        None => null_value(),
    }
}

} // verus!
