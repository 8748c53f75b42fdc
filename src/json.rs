//! JSON values, held as serde_json's `Value`, and the few operations on them
//! that the library relies on.
use vstd::prelude::*;

verus! {

#[verifier::external_type_specification]
#[verifier::external_body]
pub struct ExValue(serde_json::Value);

/// Whether a JSON value is an object.
pub uninterp spec fn json_is_object(v: serde_json::Value) -> bool;

/// The fields of a JSON object, by name.
pub uninterp spec fn json_fields(v: serde_json::Value) -> Map<Seq<char>, serde_json::Value>;

/// The value that JSON text parses to, if it is JSON.
pub uninterp spec fn json_parse(s: Seq<char>) -> Option<serde_json::Value>;

/// The JSON string holding the given text.
pub uninterp spec fn json_string(s: Seq<char>) -> serde_json::Value;

/// An object with one field set.
pub uninterp spec fn json_with(v: serde_json::Value, k: Seq<char>, x: serde_json::Value) -> serde_json::Value;

/// An object with one field taken out.
pub uninterp spec fn json_without(v: serde_json::Value, k: Seq<char>) -> serde_json::Value;

/// Compact JSON text of a value.
pub uninterp spec fn json_compact(v: serde_json::Value) -> Seq<char>;

/// Indented, multi-line JSON text of a value.
pub uninterp spec fn json_pretty(v: serde_json::Value) -> Seq<char>;

/// The `application/x-www-form-urlencoded` text of a value.
pub uninterp spec fn form_encoded(v: serde_json::Value) -> Option<Seq<char>>;

/// The fields of an empty object.
pub open spec fn no_fields() -> Map<Seq<char>, serde_json::Value> {
    Map::empty()
}

/// The view of an optional string.
pub open spec fn opt_view(o: Option<String>) -> Option<Seq<char>> {
    match o {
        Some(s) => Some(s@),
        None => None,
    }
}

/// Relies on serde_json::Value::is_object: true exactly for the `Object` variant.
pub assume_specification[ serde_json::Value::is_object ](v: &serde_json::Value) -> (r: bool)
    ensures
        r == json_is_object(*v),
;

/// Relies on serde_json::Map::new: an object without fields.
#[verifier::external_body]
pub(crate) fn empty_object() -> (r: serde_json::Value)
    ensures
        json_is_object(r),
        json_fields(r) == no_fields(),
{
    serde_json::Value::Object(serde_json::Map::new())
}

/// Relies on serde_json::Value::String: a string value holding the text.
#[verifier::external_body]
pub(crate) fn string_value(s: &str) -> (r: serde_json::Value)
    ensures
        r == json_string(s@),
        !json_is_object(r),
{
    serde_json::Value::String(s.to_string())
}

/// Relies on serde_json::from_str: parses JSON text into a value, or fails.
#[verifier::external_body]
pub(crate) fn parse_json(s: &str) -> (r: Option<serde_json::Value>)
    ensures
        r == json_parse(s@),
{
    serde_json::from_str::<serde_json::Value>(s).ok()
}

/// Relies on serde_json's `IndexMut<&str>` for `Value`: on an object, inserts
/// the field or replaces its value.
#[verifier::external_body]
pub(crate) fn set_field(v: &mut serde_json::Value, k: &str, x: serde_json::Value)
    requires
        json_is_object(*old(v)),
    ensures
        *final(v) == json_with(*old(v), k@, x),
        json_is_object(*final(v)),
        json_fields(*final(v)) == json_fields(*old(v)).insert(k@, x),
{
    v[k] = x;
}

/// Relies on serde_json::Map::remove: the object loses the field, if it had it.
#[verifier::external_body]
pub(crate) fn remove_field(v: &mut serde_json::Value, k: &str)
    requires
        json_is_object(*old(v)),
    ensures
        *final(v) == json_without(*old(v), k@),
        json_is_object(*final(v)),
        json_fields(*final(v)) == json_fields(*old(v)).remove(k@),
{
    if let serde_json::Value::Object(m) = v {
        m.remove(k);
    }
}

/// Relies on serde_json::to_string: compact JSON text; it cannot fail on a
/// `Value`, whose object keys are all strings.
#[verifier::external_body]
pub(crate) fn to_compact(v: &serde_json::Value) -> (r: Option<String>)
    ensures
        r is Some,
        r->Some_0@ == json_compact(*v),
{
    serde_json::to_string(v).ok()
}

/// Relies on serde_json::to_string_pretty: indented JSON text; it cannot fail
/// on a `Value`, whose object keys are all strings.
#[verifier::external_body]
pub(crate) fn to_pretty(v: &serde_json::Value) -> (r: Option<String>)
    ensures
        r is Some,
        r->Some_0@ == json_pretty(*v),
{
    serde_json::to_string_pretty(v).ok()
}

/// Relies on serde_urlencoded::to_string: `key=value` pairs joined by `&`,
/// or a failure for a value that has no such form.
#[verifier::external_body]
pub(crate) fn to_form(v: &serde_json::Value) -> (r: Option<String>)
    ensures
        opt_view(r) == form_encoded(*v),
{
    serde_urlencoded::to_string(v).ok()
}

} // verus!
