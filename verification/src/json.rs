//! JSON values as `serde_json` holds them, read through its accessors.
//!
//! A value is opaque here. What each accessor of `serde_json` reads of it
//! has a name, and the contracts of this library speak of those names; what
//! the accessors do is taken on trust and not proved.

use crate::chunk::{opt_string, opt_text};
use vstd::prelude::*;

verus! {

/// `serde_json::Value`: one JSON value. Nothing of its inside is visible here.
#[verifier::external_type_specification]
#[verifier::external_body]
pub struct ExValue(serde_json::Value);

/// What `Value::get` finds in `value` under the string index `key`.
pub uninterp spec fn json_member(value: serde_json::Value, key: Seq<char>) -> Option<
    serde_json::Value,
>;

/// What `Value::as_str` reads of `value`.
pub uninterp spec fn json_string(value: serde_json::Value) -> Option<Seq<char>>;

/// What `Value::as_array` reads of `value`.
pub uninterp spec fn json_items(value: serde_json::Value) -> Option<Seq<serde_json::Value>>;

/// What `Value::as_i64` reads of `value`.
pub uninterp spec fn json_integer(value: serde_json::Value) -> Option<i64>;

/// Whether `Value::is_object` holds of `value`.
pub uninterp spec fn json_is_object(value: serde_json::Value) -> bool;

/// What `serde_json::to_string_pretty` makes of `value`.
pub uninterp spec fn json_pretty(value: serde_json::Value) -> Option<Seq<char>>;

/// What `serde_json::from_str` reads as a `Value` from `text`.
pub uninterp spec fn json_parsed(text: Seq<char>) -> Option<serde_json::Value>;

/// The value behind an optional reference.
pub open spec fn opt_value(found: Option<&serde_json::Value>) -> Option<serde_json::Value> {
    match found {
        Some(value) => Some(*value),
        None => None,
    }
}

/// `serde_json::Value::as_str`, which gives the text of a JSON string and
/// `None` for any other value. Taken on trust: what it gives depends on the
/// value alone; [`json_string`] is its name.
pub assume_specification<'a>[ serde_json::Value::as_str ](value: &'a serde_json::Value) -> (text:
    Option<&'a str>)
    ensures
        opt_text(text) == json_string(*value),
;

/// `serde_json::Value::as_array`, which gives the items of a JSON array and
/// `None` for any other value. Taken on trust: what it gives depends on the
/// value alone; [`json_items`] is its name.
pub assume_specification<'a>[ serde_json::Value::as_array ](value: &'a serde_json::Value) -> (items:
    Option<&'a Vec<serde_json::Value>>)
    ensures
        match items {
            Some(items) => json_items(*value) == Some(items@),
            None => json_items(*value) is None,
        },
;

/// `serde_json::Value::as_i64`, which gives the number where the value is
/// an integer that `i64` holds, and `None` for any other value. Taken on
/// trust: what it gives depends on the value alone; [`json_integer`] is its name.
pub assume_specification[ serde_json::Value::as_i64 ](value: &serde_json::Value) -> (number: Option<
    i64,
>)
    ensures
        number == json_integer(*value),
;

/// `Clone` for `serde_json::Value`. Taken on trust: the copy is the same
/// value, so that every accessor reads of it what it reads of the value.
pub assume_specification[ <serde_json::Value as Clone>::clone ](
    value: &serde_json::Value,
) -> (copy: serde_json::Value)
    ensures
        copy == *value,
;

/// `serde_json::Value::is_object`, which tells whether the value is a JSON
/// object. Taken on trust: what it tells depends on the value alone;
/// [`json_is_object`] is its name.
pub assume_specification[ serde_json::Value::is_object ](value: &serde_json::Value) -> (is: bool)
    ensures
        is == json_is_object(*value),
;

/// `serde_json::Value::get` with a string index, which gives the member of
/// a JSON object under `key`, and `None` where there is none or the value is
/// no object. Taken on trust: what it gives depends on value and key alone;
/// [`json_member`] is its name.
#[verifier::external_body]
pub(crate) fn member<'a>(value: &'a serde_json::Value, key: &str) -> (found: Option<
    &'a serde_json::Value,
>)
    ensures
        opt_value(found) == json_member(*value, key@),
{
    value.get(key)
}

/// `serde_json::to_string_pretty` on a `Value`, which gives its JSON text,
/// indented; an error of the printer is `None`. Taken on trust: what it
/// gives depends on the value alone; [`json_pretty`] is its name.
#[verifier::external_body]
pub(crate) fn pretty(value: &serde_json::Value) -> (text: Option<String>)
    ensures
        opt_string(text) == json_pretty(*value),
{
    serde_json::to_string_pretty(value).ok()
}

/// `serde_json::from_str` for a `Value`, which gives the value that `text`
/// denotes, and `None` where `text` is no JSON. Taken on trust: what it
/// gives depends on the text alone; [`json_parsed`] is its name.
#[verifier::external_body]
pub(crate) fn parse(text: &str) -> (value: Option<serde_json::Value>)
    ensures
        value == json_parsed(text@),
{
    serde_json::from_str::<serde_json::Value>(text).ok()
}

/// The key sequences that `keys` hold.
pub open spec fn key_texts(keys: Seq<&str>) -> Seq<Seq<char>> {
    Seq::new(keys.len(), |i: int| keys[i]@)
}

/// The value reached from `value` by going down through `keys` in order;
/// `None` from the first key on that finds nothing.
pub open spec fn descend(value: serde_json::Value, keys: Seq<Seq<char>>) -> Option<
    serde_json::Value,
>
    decreases keys.len(),
{
    if keys.len() == 0 {
        Some(value)
    } else {
        match json_member(value, keys[0]) {
            Some(child) => descend(child, keys.drop_first()),
            None => None,
        }
    }
}

/// Goes down from `json` through `keys` in order and stops at the first key
/// that finds nothing.
pub fn deep_get<'a>(json: &'a serde_json::Value, keys: &[&str]) -> (found: Option<
    &'a serde_json::Value,
>)
    ensures
        opt_value(found) == descend(*json, key_texts(keys@)),
{
    let mut at: &'a serde_json::Value = json;
    let mut i: usize = 0;
    proof {
        assert(key_texts(keys@).skip(0) =~= key_texts(keys@));
    }
    while i < keys.len()
        invariant
            i <= keys.len(),
            descend(*json, key_texts(keys@)) == descend(*at, key_texts(keys@).skip(i as int)),
        decreases keys.len() - i,
    {
        proof {
            assert(key_texts(keys@).skip(i as int)[0] == keys@[i as int]@);
            assert(key_texts(keys@).skip(i as int).drop_first() =~= key_texts(keys@).skip(i + 1));
        }
        match member(at, keys[i]) {
            Some(child) => {
                at = child;
            },
            None => {
                return None;
            },
        }
        i += 1;
    }
    Some(at)
}

/// The text of the member of `value` under `key`, where that member is a string.
pub open spec fn member_text(value: serde_json::Value, key: Seq<char>) -> Option<Seq<char>> {
    match json_member(value, key) {
        Some(found) => json_string(found),
        None => None,
    }
}

/// The indented JSON text of the member of `value` under `key`.
pub open spec fn member_pretty(value: serde_json::Value, key: Seq<char>) -> Option<Seq<char>> {
    match json_member(value, key) {
        Some(found) => json_pretty(found),
        None => None,
    }
}

/// The member of `value` under `key`, where that member is an integer.
pub open spec fn member_integer(value: serde_json::Value, key: Seq<char>) -> Option<i64> {
    match json_member(value, key) {
        Some(found) => json_integer(found),
        None => None,
    }
}

/// Reads the string under `key`.
pub fn text_of(value: &serde_json::Value, key: &str) -> (text: Option<String>)
    ensures
        opt_string(text) == member_text(*value, key@),
{
    match member(value, key) {
        Some(found) => match found.as_str() {
            Some(text) => Some(text.to_owned()),
            None => None,
        },
        None => None,
    }
}

/// Reads the member under `key` as indented JSON text.
pub fn pretty_of(value: &serde_json::Value, key: &str) -> (text: Option<String>)
    ensures
        opt_string(text) == member_pretty(*value, key@),
{
    match member(value, key) {
        Some(found) => pretty(found),
        None => None,
    }
}

/// The indented JSON text of the value reached from `value` through `keys`.
pub open spec fn pretty_under(value: serde_json::Value, keys: Seq<Seq<char>>) -> Option<
    Seq<char>,
> {
    match descend(value, keys) {
        Some(found) => json_pretty(found),
        None => None,
    }
}

/// Reads the value reached through `keys` as indented JSON text.
pub fn pretty_at(json: &serde_json::Value, keys: &[&str]) -> (text: Option<String>)
    ensures
        opt_string(text) == pretty_under(*json, key_texts(keys@)),
{
    match deep_get(json, keys) {
        Some(found) => pretty(found),
        None => None,
    }
}

/// Reads the integer under `key`.
pub fn integer_of(value: &serde_json::Value, key: &str) -> (number: Option<i64>)
    ensures
        number == member_integer(*value, key@),
{
    match member(value, key) {
        Some(found) => found.as_i64(),
        None => None,
    }
}

} // verus!
