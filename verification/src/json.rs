//! JSON documents as `serde_json` holds them.
//!
//! A document is opaque to the verifier. [`json_view`] names what one value is, one level deep, and
//! [`json_entries`] names the entries of an object; every access below is stated over the two.
use serde_json::Value;
use vstd::prelude::*;

verus! {

/// A JSON value of `serde_json`.
#[verifier::external_type_specification]
#[verifier::external_body]
pub struct ExValue(serde_json::Value);

/// A JSON object of `serde_json`.
#[verifier::external_type_specification]
#[verifier::external_body]
#[verifier::reject_recursive_types(K)]
#[verifier::reject_recursive_types(V)]
pub struct ExMap<K, V>(serde_json::Map<K, V>);

/// One level of a JSON value.
pub enum JsonView {
    /// The null value.
    Null,
    /// A truth value.
    Bool(bool),
    /// A number.
    Number {
        /// Its value, when it is held as an integer that is not negative. A number held as a float
        /// has none, even a whole one.
        whole: Option<u64>,
        /// The bits of the double-precision float nearest to it, when it has one.
        float_bits: Option<u64>,
    },
    /// A text.
    Text(Seq<char>),
    /// A list.
    Array(Seq<Value>),
    /// An object, by its entries.
    Object(Map<Seq<char>, Value>),
}

/// What a JSON value is.
pub uninterp spec fn json_view(value: serde_json::Value) -> JsonView;

/// The entries of a JSON object.
pub uninterp spec fn json_entries(
    object: serde_json::Map<String, serde_json::Value>,
) -> Map<Seq<char>, serde_json::Value>;

/// The entry of a JSON object under `key`.
pub open spec fn member(view: JsonView, key: Seq<char>) -> Option<Value> {
    match view {
        JsonView::Object(entries) => if entries.contains_key(key) {
            Some(entries[key])
        } else {
            None
        },
        _ => None,
    }
}

/// The value reached from `value` through the object keys `keys`.
pub open spec fn json_at(value: Value, keys: Seq<Seq<char>>) -> Option<Value>
    decreases keys.len(),
{
    if keys.len() == 0 {
        Some(value)
    } else {
        match json_at(value, keys.drop_last()) {
            Some(inner) => member(json_view(inner), keys.last()),
            None => None,
        }
    }
}

/// The JSON pointer that names a path of object keys.
pub open spec fn pointer_of(keys: Seq<Seq<char>>) -> Seq<char>
    decreases keys.len(),
{
    if keys.len() == 0 {
        Seq::empty()
    } else {
        pointer_of(keys.drop_last()).push('/') + keys.last()
    }
}

/// Whether a key stands for itself in a JSON pointer and is no list index.
pub open spec fn plain_key(key: Seq<char>) -> bool {
    &&& !key.contains('/')
    &&& !key.contains('~')
    &&& key.len() > 0 ==> !('0' <= key[0] && key[0] <= '9')
}

/// Whether every key of a path is plain.
pub open spec fn plain_path(keys: Seq<Seq<char>>) -> bool {
    forall|i: int| 0 <= i < keys.len() ==> plain_key(#[trigger] keys[i])
}

/// A JSON value as an integer that is not negative, when it is held as one.
pub open spec fn number_of(value: Value) -> Option<u64> {
    match json_view(value) {
        JsonView::Number { whole, .. } => whole,
        _ => None,
    }
}

/// A JSON value as a double-precision float, by its bits.
pub open spec fn float_bits_of(value: Value) -> Option<u64> {
    match json_view(value) {
        JsonView::Number { float_bits, .. } => float_bits,
        _ => None,
    }
}

/// A JSON value as a text.
pub open spec fn text_of(value: Value) -> Option<Seq<char>> {
    match json_view(value) {
        JsonView::Text(s) => Some(s),
        _ => None,
    }
}

/// A JSON value as a truth value.
pub open spec fn bool_of(value: Value) -> Option<bool> {
    match json_view(value) {
        JsonView::Bool(b) => Some(b),
        _ => None,
    }
}

/// Follows a JSON pointer.
///
/// Calls `serde_json::Value::pointer`: a pointer made of plain keys is followed through objects,
/// and leads nowhere where a key is missing or a value on the way is no object. What a pointer with
/// escapes or list indices leads to is left unsaid.
#[verifier::external_body]
pub(crate) fn json_pointer<'a>(value: &'a Value, pointer: &str) -> (r: Option<&'a Value>)
    ensures
        forall|keys: Seq<Seq<char>>| #[trigger]
            pointer_of(keys) == pointer@ && plain_path(keys) ==> match json_at(*value, keys) {
                Some(found) => r == Some(&found),
                None => r is None,
            },
{
    value.pointer(pointer)
}

/// Reads an integer that is not negative.
///
/// Calls `serde_json::Value::as_u64`, which gives nothing for a number held as a float.
#[verifier::external_body]
pub(crate) fn json_u64(value: &Value) -> (r: Option<u64>)
    ensures
        r == number_of(*value),
{
    value.as_u64()
}

/// Reads a number as a double-precision float and hands out its bits.
///
/// Calls `serde_json::Value::as_f64`.
#[verifier::external_body]
pub(crate) fn json_float_bits(value: &Value) -> (r: Option<u64>)
    ensures
        r == float_bits_of(*value),
{
    value.as_f64().map(|x| x.to_bits())
}

/// Reads a text.
///
/// Calls `serde_json::Value::as_str`.
#[verifier::external_body]
pub(crate) fn json_str<'a>(value: &'a Value) -> (r: Option<&'a str>)
    ensures
        match text_of(*value) {
            Some(s) => r is Some && r->0@ == s,
            None => r is None,
        },
{
    value.as_str()
}

/// Reads a truth value.
///
/// Calls `serde_json::Value::as_bool`.
#[verifier::external_body]
pub(crate) fn json_bool(value: &Value) -> (r: Option<bool>)
    ensures
        r == bool_of(*value),
{
    value.as_bool()
}

/// Reads a list.
///
/// Calls `serde_json::Value::as_array`.
#[verifier::external_body]
pub(crate) fn json_array<'a>(value: &'a Value) -> (r: Option<&'a Vec<Value>>)
    ensures
        match json_view(*value) {
            JsonView::Array(items) => r is Some && r->0@ == items,
            _ => r is None,
        },
{
    value.as_array()
}

/// Reads an object.
///
/// Calls `serde_json::Value::as_object`.
#[verifier::external_body]
pub(crate) fn json_object<'a>(value: &'a Value) -> (r: Option<
    &'a serde_json::Map<String, Value>,
>)
    ensures
        match json_view(*value) {
            JsonView::Object(entries) => r is Some && json_entries(*r->0) == entries,
            _ => r is None,
        },
{
    value.as_object()
}

/// Gives write access to an object.
///
/// Calls `serde_json::Value::as_object_mut`: what is written to the object is written to the value.
#[verifier::external_body]
pub(crate) fn json_object_mut(value: &mut Value) -> (r: Option<
    &mut serde_json::Map<String, Value>,
>)
    ensures
        match json_view(*old(value)) {
            JsonView::Object(entries) => {
                &&& r is Some
                &&& json_entries(*r->0) == entries
                &&& json_view(*final(value)) == JsonView::Object(json_entries(*final(r->0)))
            },
            _ => r is None && *final(value) == *old(value),
        },
{
    value.as_object_mut()
}

/// Looks up an entry of an object.
///
/// Calls `serde_json::Map::get`.
#[verifier::external_body]
pub(crate) fn json_get<'a>(object: &'a serde_json::Map<String, Value>, key: &str) -> (r: Option<
    &'a Value,
>)
    ensures
        if json_entries(*object).contains_key(key@) {
            r is Some && *r->0 == json_entries(*object)[key@]
        } else {
            r is None
        },
{
    object.get(key)
}

/// Gives write access to an entry of an object.
///
/// Calls `serde_json::Map::get_mut`: what is written to the entry is written to the object.
#[verifier::external_body]
pub(crate) fn json_get_mut<'a>(
    object: &'a mut serde_json::Map<String, Value>,
    key: &str,
) -> (r: Option<&'a mut Value>)
    ensures
        if json_entries(*old(object)).contains_key(key@) {
            &&& r is Some
            &&& *r->0 == json_entries(*old(object))[key@]
            &&& json_entries(*final(object)) == json_entries(*old(object)).insert(
                key@,
                *final(r->0),
            )
        } else {
            r is None && *final(object) == *old(object)
        },
{
    object.get_mut(key)
}

/// Puts an entry into an object, over the one that was there.
///
/// Calls `serde_json::Map::insert`.
#[verifier::external_body]
pub(crate) fn json_insert(object: &mut serde_json::Map<String, Value>, key: &str, value: Value)
    ensures
        json_entries(*final(object)) == json_entries(*old(object)).insert(key@, value),
{
    object.insert(key.to_string(), value);
}

/// Makes an object without entries.
///
/// Calls `serde_json::Map::new` and wraps the result as `serde_json::Value::Object`.
#[verifier::external_body]
pub(crate) fn json_empty_object() -> (r: Value)
    ensures
        json_view(r) == JsonView::Object(Map::empty()),
{
    Value::Object(serde_json::Map::new())
}

/// Makes a number.
///
/// Calls `serde_json::Value`'s conversion from `u32`.
#[verifier::external_body]
pub(crate) fn json_number(n: u32) -> (r: Value)
    ensures
        number_of(r) == Some(n as u64),
{
    Value::from(n)
}

/// Makes a text.
///
/// Calls `serde_json::Value`'s conversion from `&str`.
#[verifier::external_body]
pub(crate) fn json_text(text: &str) -> (r: Value)
    ensures
        text_of(r) == Some(text@),
{
    Value::from(text)
}

/// Makes a truth value.
///
/// Calls `serde_json::Value`'s conversion from `bool`.
#[verifier::external_body]
pub(crate) fn json_flag(flag: bool) -> (r: Value)
    ensures
        bool_of(r) == Some(flag),
{
    Value::from(flag)
}

/// Tests whether a value is null.
///
/// Calls `serde_json::Value::is_null`.
#[verifier::external_body]
pub(crate) fn json_is_null(value: &Value) -> (r: bool)
    ensures
        r == (json_view(*value) is Null),
{
    value.is_null()
}

/// Copies a value.
///
/// Calls `serde_json::Value`'s `Clone::clone`.
#[verifier::external_body]
pub(crate) fn json_copy(value: &Value) -> (r: Value)
    ensures
        r == *value,
{
    value.clone()
}

} // verus!
