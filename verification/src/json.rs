//! Trusted interface to the JSON/YAML machinery: `serde_json::Value` is
//! declared opaque, and the handful of calls the library makes are wrapped
//! with contracts over named results.  Everything else about payload
//! values — envelope order, merging, framing — is the library's own
//! verified logic.

use vstd::prelude::*;

verus! {

#[verifier::external_type_specification]
#[verifier::external_body]
pub struct ExValue(serde_json::Value);

/// The views of a sequence of envelope fields.
pub open spec fn field_views(fs: Seq<(Vec<u8>, serde_json::Value)>) -> Seq<
    (Seq<u8>, serde_json::Value),
> {
    fs.map_values(|f: (Vec<u8>, serde_json::Value)| (f.0@, f.1))
}

/// What `serde_json::from_slice` yields for a byte buffer: the fields of a
/// JSON object in order (keys as bytes), an empty field list for other
/// valid JSON, or nothing for invalid JSON.
pub uninterp spec fn json_object_fields(body: Seq<u8>) -> Option<
    Seq<(Seq<u8>, serde_json::Value)>,
>;

/// The JSON string value holding the given bytes read as text.
pub uninterp spec fn json_text_value(b: Seq<u8>) -> serde_json::Value;

/// The JSON number value of an integer.
pub uninterp spec fn json_int_value(i: int) -> serde_json::Value;

/// The JSON object value with the given fields, in order.
pub uninterp spec fn json_object_of(fields: Seq<(Seq<u8>, serde_json::Value)>) -> serde_json::Value;

/// The compact (single-line) JSON serialization of a value.
pub uninterp spec fn json_compact(v: serde_json::Value) -> Seq<u8>;

/// The indented JSON serialization of a value.
pub uninterp spec fn json_pretty(v: serde_json::Value) -> Seq<u8>;

/// The YAML serialization of a value.
pub uninterp spec fn yaml_text(v: serde_json::Value) -> Seq<u8>;

/// Relies on `serde_json::from_slice` and the `Value::Object` variant: a
/// JSON object gives `Some` of its fields in order, other valid JSON gives
/// `Some` of no fields, and invalid JSON gives `None`.
#[verifier::external_body]
pub fn parse_payload_fields(body: &Vec<u8>) -> (r: Option<Vec<(Vec<u8>, serde_json::Value)>>)
    ensures
        (r is Some) == (json_object_fields(body@) is Some),
        r matches Some(fs) ==> json_object_fields(body@) == Some(field_views(fs@)),
{
    match serde_json::from_slice::<serde_json::Value>(body.as_slice()) {
        Ok(serde_json::Value::Object(m)) => Some(
            m.into_iter().map(|(k, v)| (k.into_bytes(), v)).collect(),
        ),
        Ok(_) => Some(Vec::new()),
        Err(_) => None,
    }
}

/// Relies on `String::from_utf8_lossy` and the `Value::String` variant: the
/// JSON string value of the given bytes.
#[verifier::external_body]
pub fn text_value(b: &Vec<u8>) -> (r: serde_json::Value)
    ensures
        r == json_text_value(b@),
{
    serde_json::Value::String(String::from_utf8_lossy(b.as_slice()).into_owned())
}

/// Relies on serde_json's `From<i64>` for `Value`: the JSON number value of
/// `i`.
#[verifier::external_body]
pub fn int_value(i: i64) -> (r: serde_json::Value)
    ensures
        r == json_int_value(i as int),
{
    serde_json::Value::from(i)
}

/// Relies on `serde_json::Map` (built with insertion order preserved) and
/// the `Value::Object` variant: the JSON object with the given fields.
#[verifier::external_body]
pub fn object_value(fields: &Vec<(Vec<u8>, serde_json::Value)>) -> (r: serde_json::Value)
    ensures
        r == json_object_of(field_views(fields@)),
{
    let mut m = serde_json::Map::new();
    for f in fields.iter() {
        m.insert(String::from_utf8_lossy(f.0.as_slice()).into_owned(), f.1.clone());
    }
    serde_json::Value::Object(m)
}

/// Relies on `serde_json::to_string`: the compact serialization.  Writing
/// into a string cannot fail for a `Value`, whose maps always carry string
/// keys, so the call always succeeds; and the compact output holds no raw
/// newline byte, since the formatter emits no whitespace and writes
/// control characters inside strings as escapes.
#[verifier::external_body]
pub fn to_compact(v: &serde_json::Value) -> (r: Option<Vec<u8>>)
    ensures
        r is Some,
        r matches Some(s) ==> s@ == json_compact(*v),
        r matches Some(s) ==> forall|i: int| 0 <= i < s@.len() ==> (#[trigger] s@[i]) != 10,
{
    match serde_json::to_string(v) {
        Ok(s) => Some(s.into_bytes()),
        Err(_) => None,
    }
}

/// Relies on `serde_json::to_string_pretty`: the indented serialization.
/// As with the compact form, the call cannot fail for a `Value`.
#[verifier::external_body]
pub fn to_pretty(v: &serde_json::Value) -> (r: Option<Vec<u8>>)
    ensures
        r is Some,
        r matches Some(s) ==> s@ == json_pretty(*v),
{
    match serde_json::to_string_pretty(v) {
        Ok(s) => Some(s.into_bytes()),
        Err(_) => None,
    }
}

/// Relies on `serde_yaml::to_string`: the YAML serialization of a value.
/// For a `Value` the serializer takes none of its failing paths (no byte
/// strings, no nested enums) and the emitter writes into memory, so the
/// call always succeeds; and the emitted YAML holds no raw terminal escape
/// byte, since control characters appear only escaped in quoted scalars.
#[verifier::external_body]
pub fn to_yaml(v: &serde_json::Value) -> (r: Option<Vec<u8>>)
    ensures
        r is Some,
        r matches Some(s) ==> s@ == yaml_text(*v),
        r matches Some(s) ==> forall|i: int| 0 <= i < s@.len() ==> (#[trigger] s@[i]) != 27,
{
    match serde_yaml::to_string(v) {
        Ok(s) => Some(s.into_bytes()),
        Err(_) => None,
    }
}

} // verus!
