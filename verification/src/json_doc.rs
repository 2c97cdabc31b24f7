//! Reading JSON documents through `serde_json`: the crate parses the text,
//! and its values are carried over into [`JsonValue`]s; the values at JSON
//! pointers are resolved by `serde_json` too.
use vstd::prelude::*;

use crate::health::{parse_u64, parse_u64_spec};
use crate::text::{eq_chars, to_chars};

verus! {

#[verifier::external_type_specification]
#[verifier::external_body]
pub struct ExJsonValue(serde_json::Value);

/// A JSON value; a number is kept as its decimal text.
#[derive(Debug)]
pub enum JsonValue {
    Null,
    Bool(bool),
    Number(String),
    Text(String),
    Array(Vec<JsonValue>),
    Object(Vec<(String, JsonValue)>),
}

/// A [`JsonValue`] as text.
pub enum JsonView {
    Null,
    Bool(bool),
    Number(Seq<char>),
    Text(Seq<char>),
    Array(Seq<JsonView>),
    Object(Seq<(Seq<char>, JsonView)>),
}

/// The text form of a value.
pub open spec fn json_view(v: JsonValue) -> JsonView
    decreases v,
{
    match v {
        JsonValue::Null => JsonView::Null,
        JsonValue::Bool(b) => JsonView::Bool(b),
        JsonValue::Number(n) => JsonView::Number(n@),
        JsonValue::Text(s) => JsonView::Text(s@),
        JsonValue::Array(items) => JsonView::Array(
            Seq::new(
                items@.len(),
                |i: int|
                    {
                        if 0 <= i < items@.len() {
                            proof {
                                broadcast use vstd::std_specs::vec::group_vec_axioms;

                                assert(decreases_to!(items => items@));
                            }
                            json_view(items@[i])
                        } else {
                            JsonView::Null
                        }
                    },
            ),
        ),
        JsonValue::Object(entries) => JsonView::Object(
            Seq::new(
                entries@.len(),
                |i: int|
                    {
                        if 0 <= i < entries@.len() {
                            proof {
                                broadcast use vstd::std_specs::vec::group_vec_axioms;

                            }
                            (entries@[i].0@, json_view(entries@[i].1))
                        } else {
                            (Seq::empty(), JsonView::Null)
                        }
                    },
            ),
        ),
    }
}

/// The text form of a value that may be absent.
pub open spec fn json_opt_view(v: Option<JsonValue>) -> Option<JsonView> {
    match v {
        Some(x) => Some(json_view(x)),
        None => None,
    }
}

/// What `serde_json::from_str::<serde_json::Value>` reads from `raw`: the
/// document, when the text is JSON.
pub uninterp spec fn json_document(raw: Seq<char>) -> Option<JsonView>;

/// What `serde_json::Value::pointer` finds in `value` at a JSON pointer such
/// as `/detail/state`.
pub uninterp spec fn json_at(value: JsonView, pointer: Seq<char>) -> Option<JsonView>;

/// Whether `serde_json` accepts `raw` as a JSON document.
pub open spec fn json_valid(raw: Seq<char>) -> bool {
    json_document(raw) is Some
}

/// The text of a string value.
pub open spec fn json_text(v: Option<JsonView>) -> Option<Seq<char>> {
    match v {
        Some(JsonView::Text(s)) => Some(s),
        _ => None,
    }
}

/// `serde_json::from_str::<serde_json::Value>`, carried over into a
/// [`JsonValue`]: the result is [`json_document`] of the text.
#[verifier::external_body]
pub(crate) fn parse_json(raw: &str) -> (r: Option<JsonValue>)
    ensures
        json_opt_view(r) == json_document(raw@),
{
    serde_json::from_str::<serde_json::Value>(raw).ok().map(carry_json)
}

/// `serde_json::Value::pointer` on `value`, carried over and back: the
/// result is [`json_at`] of the value and the pointer.
#[verifier::external_body]
pub(crate) fn json_pointer(value: &JsonValue, pointer: &str) -> (r: Option<JsonValue>)
    ensures
        json_opt_view(r) == json_at(json_view(*value), pointer@),
{
    serde_value(value).pointer(pointer).cloned().map(carry_json)
}

/// Carries a `serde_json::Value` over; a number keeps its `Display` text.
#[verifier::external_body]
fn carry_json(value: serde_json::Value) -> JsonValue {
    match value {
        serde_json::Value::Null => JsonValue::Null,
        serde_json::Value::Bool(b) => JsonValue::Bool(b),
        serde_json::Value::Number(n) => JsonValue::Number(n.to_string()),
        serde_json::Value::String(s) => JsonValue::Text(s),
        serde_json::Value::Array(items) => JsonValue::Array(items.into_iter().map(carry_json).collect()),
        serde_json::Value::Object(map) => JsonValue::Object(map.into_iter().map(|(k, v)| (k, carry_json(v))).collect()),
    }
}

/// Carries a [`JsonValue`] back into a `serde_json::Value`; a number's text
/// is read back by `serde_json::Number`'s `FromStr`.
#[verifier::external_body]
fn serde_value(value: &JsonValue) -> serde_json::Value {
    match value {
        JsonValue::Null => serde_json::Value::Null,
        JsonValue::Bool(b) => serde_json::Value::Bool(*b),
        JsonValue::Number(n) => n.parse().map_or(serde_json::Value::Null, serde_json::Value::Number),
        JsonValue::Text(s) => serde_json::Value::String(s.clone()),
        JsonValue::Array(items) => serde_json::Value::Array(items.iter().map(serde_value).collect()),
        JsonValue::Object(entries) => serde_json::Value::Object(entries.iter().map(|(k, v)| (k.clone(), serde_value(v))).collect()),
    }
}

/// The text of a string value (`serde_json::Value::as_str`).
pub(crate) fn json_as_str(value: &JsonValue) -> (r: Option<String>)
    ensures
        match r {
            Some(t) => json_text(Some(json_view(*value))) == Some(t@),
            None => json_text(Some(json_view(*value))) is None,
        },
{
    match value {
        JsonValue::Text(s) => Some(s.clone()),
        _ => None,
    }
}

/// The items of an array value (`serde_json::Value::as_array`).
pub(crate) fn json_as_array(value: &JsonValue) -> (r: Option<&Vec<JsonValue>>)
    ensures
        match r {
            Some(items) => json_view(*value) == JsonView::Array(items@.map_values(|x: JsonValue| json_view(x))),
            None => !(json_view(*value) is Array),
        },
{
    match value {
        JsonValue::Array(items) => {
            assert(json_view(*value)->Array_0 =~= items@.map_values(|x: JsonValue| json_view(x)));
            Some(items)
        },
        _ => None,
    }
}

/// The decimal text of a number value.
pub(crate) fn json_number_text(value: &JsonValue) -> (r: Option<String>)
    ensures
        match r {
            Some(t) => json_view(*value) == JsonView::Number(t@),
            None => !(json_view(*value) is Number),
        },
{
    match value {
        JsonValue::Number(n) => Some(n.clone()),
        _ => None,
    }
}

/// The value under `key` in `entries` from entry `i` on: the first entry with
/// that key.
pub open spec fn entry_from(entries: Seq<(Seq<char>, JsonView)>, key: Seq<char>, i: int) -> Option<JsonView>
    decreases entries.len() - i,
{
    if i < 0 || i >= entries.len() {
        None
    } else if entries[i].0 == key {
        Some(entries[i].1)
    } else {
        entry_from(entries, key, i + 1)
    }
}

/// `serde_json::Value::get` with a key: the member of an object, nothing
/// for any other value.
pub open spec fn json_get(value: JsonView, key: Seq<char>) -> Option<JsonView> {
    match value {
        JsonView::Object(entries) => entry_from(entries, key, 0),
        _ => None,
    }
}

/// The member `key` of an object value.
pub(crate) fn json_member<'a>(value: &'a JsonValue, key: &str) -> (r: Option<&'a JsonValue>)
    ensures
        match json_get(json_view(*value), key@) {
            None => r is None,
            Some(v) => r matches Some(x) && json_view(*x) == v,
        },
{
    match value {
        JsonValue::Object(entries) => {
            let ghost ev = json_view(*value)->Object_0;
            assert(json_get(json_view(*value), key@) == entry_from(ev, key@, 0));
            let mut i: usize = 0;
            while i < entries.len()
                invariant
                    i <= entries@.len(),
                    json_get(json_view(*value), key@) == entry_from(ev, key@, 0),
                    ev.len() == entries@.len(),
                    forall|j: int|
                        0 <= j < ev.len() ==> #[trigger] ev[j] == (entries@[j].0@, json_view(entries@[j].1)),
                    entry_from(ev, key@, 0) == entry_from(ev, key@, i as int),
                decreases entries@.len() - i,
            {
                if eq_chars(&to_chars(entries[i].0.as_str()), &to_chars(key)) {
                    return Some(&entries[i].1);
                }
                i = i + 1;
            }
            None
        },
        _ => None,
    }
}

/// A struct field as `serde` reads it: by name from an object, by position
/// from an array; nothing from any other value.
pub open spec fn struct_field(doc: JsonView, name: Seq<char>, position: int) -> Option<JsonView> {
    match doc {
        JsonView::Object(entries) => entry_from(entries, name, 0),
        JsonView::Array(items) => if 0 <= position < items.len() {
            Some(items[position])
        } else {
            None
        },
        _ => None,
    }
}

/// Whether `doc` can hold a struct of `count` fields: an object, or an
/// array of at most `count` items.
pub open spec fn struct_shaped(doc: JsonView, count: int) -> bool {
    match doc {
        JsonView::Object(_) => true,
        JsonView::Array(items) => items.len() <= count,
        _ => false,
    }
}

/// The message for a document that cannot hold a struct.
pub open spec fn not_a_struct() -> Seq<char> {
    "expected a JSON object"@
}

/// The message for text that is not JSON.
pub open spec fn not_json() -> Seq<char> {
    "expected JSON"@
}

/// The field `name` at `position` of a struct-shaped value.
pub(crate) fn struct_field_exec<'a>(doc: &'a JsonValue, name: &str, position: usize) -> (r: Option<&'a JsonValue>)
    ensures
        match struct_field(json_view(*doc), name@, position as int) {
            None => r is None,
            Some(v) => r matches Some(x) && json_view(*x) == v,
        },
{
    match doc {
        JsonValue::Object(_) => json_member(doc, name),
        JsonValue::Array(items) => {
            if position < items.len() {
                Some(&items[position])
            } else {
                None
            }
        },
        _ => None,
    }
}

/// Whether `doc` can hold a struct of `count` fields.
pub(crate) fn struct_shaped_exec(doc: &JsonValue, count: usize) -> (r: bool)
    ensures
        r == struct_shaped(json_view(*doc), count as int),
{
    match doc {
        JsonValue::Object(_) => true,
        JsonValue::Array(items) => items.len() <= count,
        _ => false,
    }
}

/// The unsigned integer a number value holds: its text is all digits and
/// fits in 64 bits.
pub open spec fn json_u64(v: JsonView) -> Option<u64> {
    match v {
        JsonView::Number(n) => parse_u64_spec(n),
        _ => None,
    }
}

/// The unsigned integer a number value holds.
pub(crate) fn json_u64_exec(v: &JsonValue) -> (r: Option<u64>)
    ensures
        r == json_u64(json_view(*v)),
{
    match v {
        JsonValue::Number(n) => parse_u64(&to_chars(n.as_str())),
        _ => None,
    }
}

/// An optional string field: absent or `null` is nothing.
pub open spec fn opt_string(v: Option<JsonView>) -> Option<Option<Seq<char>>> {
    match v {
        None => Some(None),
        Some(JsonView::Null) => Some(None),
        Some(JsonView::Text(t)) => Some(Some(t)),
        Some(_) => None,
    }
}

/// An optional string field; `None` when it holds something else.
pub(crate) fn opt_string_exec(v: Option<&JsonValue>) -> (r: Option<Option<String>>)
    ensures
        match opt_string(match v {
            Some(x) => Some(json_view(*x)),
            None => None,
        }) {
            None => r is None,
            Some(None) => r matches Some(None),
            Some(Some(t)) => r matches Some(Some(s)) && s@ == t,
        },
{
    match v {
        None => Some(None),
        Some(JsonValue::Null) => Some(None),
        Some(JsonValue::Text(t)) => Some(Some(t.clone())),
        Some(_) => None,
    }
}

} // verus!
