//! The manifest's JSON syntax tree, modelled as plain values.
//!
//! The outside JSON library parses `meta.json`'s text; its tree is carried
//! over into [`MetaValue`], a closed enum of plain values that the schema
//! validation in this crate works on and is verified against.

use vstd::prelude::*;

use crate::helpers::string::str_eq;
use rustc_serialize::json::Json;

verus! {

/// One node of a JSON document, as plain values. Numbers keep the distinction
/// the JSON library draws between unsigned integers, signed integers and
/// floating-point values; a floating-point value is carried as the bits of an
/// IEEE-754 double. Object fields are listed in the order the JSON library
/// hands them out (sorted by key, keys unique).
pub enum MetaValue {
    /// JSON `null`.
    Null,
    /// A JSON boolean.
    Bool(bool),
    /// A JSON number that fits an unsigned 64-bit integer.
    UInt(u64),
    /// A negative JSON integer.
    Int(i64),
    /// Any other JSON number, as IEEE-754 double bits.
    Float(u64),
    /// A JSON string.
    Text(String),
    /// A JSON array.
    Array(Vec<MetaValue>),
    /// A JSON object: key/value pairs.
    Object(Vec<(String, MetaValue)>),
}

/// What a JSON syntax tree of the outside library holds, node for node, as a
/// [`MetaValue`].
pub uninterp spec fn json_content(j: Json) -> MetaValue;

/// What parsing a text as JSON yields: `None` when the text is not
/// well-formed JSON, otherwise the document's content. Parsing is a function
/// of the text alone.
pub uninterp spec fn json_doc(s: Seq<char>) -> Option<MetaValue>;

#[verifier::external_type_specification]
#[verifier::external_body]
pub struct ExJson(Json);

/// Relies on `rustc_serialize::json::Json::from_str`: it parses the text and
/// returns `Err` exactly on malformed JSON; the result depends on the text
/// alone.
#[verifier::external_body]
fn json_from_str(s: &str) -> (r: Result<Json, String>)
    ensures
        r is Ok <==> json_doc(s@) is Some,
        r matches Ok(j) ==> json_content(j) == json_doc(s@)->Some_0,
{
    match Json::from_str(s) {
        Ok(j) => Ok(j),
        Err(e) => Err(format!("{:?}", e)),
    }
}

/// Relies on the shape of `rustc_serialize::json::Json`: every variant of the
/// tree is carried over one for one into a [`MetaValue`] node, moving the
/// fields (a double becomes its bits; object fields keep the order of the
/// library's map, sorted by key).
#[verifier::external_body]
fn json_to_meta(j: &Json) -> (r: MetaValue)
    ensures
        r == json_content(*j),
{
    match j {
        Json::Null => MetaValue::Null,
        Json::Boolean(b) => MetaValue::Bool(*b),
        Json::U64(u) => MetaValue::UInt(*u),
        Json::I64(i) => MetaValue::Int(*i),
        Json::F64(f) => MetaValue::Float(f.to_bits()),
        Json::String(s) => MetaValue::Text(s.clone()),
        Json::Array(a) => MetaValue::Array(a.iter().map(json_to_meta).collect()),
        Json::Object(o) => MetaValue::Object(
            o.iter().map(|(k, v)| (k.clone(), json_to_meta(v))).collect(),
        ),
    }
}

/// Parses a manifest text into its [`MetaValue`] document, or returns the
/// JSON library's description of the syntax error.
pub fn parse_meta_text(s: &str) -> (r: Result<MetaValue, String>)
    ensures
        r is Ok <==> json_doc(s@) is Some,
        r matches Ok(m) ==> Some(m) == json_doc(s@),
{
    match json_from_str(s) {
        Ok(j) => Ok(json_to_meta(&j)),
        Err(e) => Err(e),
    }
}

/// What decoding a byte sequence as UTF-8 yields: `None` when the bytes are
/// not valid UTF-8. Decoding is a function of the bytes alone.
pub uninterp spec fn utf8_decode(bytes: Seq<u8>) -> Option<Seq<char>>;

/// Relies on std's `String::from_utf8`: it returns `Err` exactly when the
/// bytes are not valid UTF-8, and the decoded text is a function of the bytes
/// alone.
#[verifier::external_body]
pub fn bytes_to_string(bytes: &Vec<u8>) -> (r: Option<String>)
    ensures
        r is Some <==> utf8_decode(bytes@) is Some,
        r matches Some(s) ==> Some(s@) == utf8_decode(bytes@),
{
    match String::from_utf8(bytes.clone()) {
        Ok(s) => Some(s),
        Err(_) => None,
    }
}

/// The first value an object's field list holds under a key.
pub open spec fn spec_lookup(fields: Seq<(String, MetaValue)>, key: Seq<char>) -> Option<
    MetaValue,
>
    decreases fields.len(),
{
    if fields.len() == 0 {
        None
    } else if fields[0].0@ == key {
        Some(fields[0].1)
    } else {
        spec_lookup(fields.drop_first(), key)
    }
}

/// Looks a key up in an object's field list, returning the first match.
pub fn meta_lookup<'a>(fields: &'a Vec<(String, MetaValue)>, key: &str) -> (r: Option<
    &'a MetaValue,
>)
    ensures
        match r {
            Some(v) => spec_lookup(fields@, key@) == Some(*v),
            None => spec_lookup(fields@, key@) is None,
        },
{
    let mut i: usize = 0;
    proof {
        assert(fields@.skip(0) =~= fields@);
    }
    while i < fields.len()
        invariant
            i <= fields@.len(),
            spec_lookup(fields@, key@) == spec_lookup(fields@.skip(i as int), key@),
        decreases fields@.len() - i,
    {
        proof {
            assert(fields@.skip(i as int)[0] == fields@[i as int]);
            assert(fields@.skip(i as int).drop_first() =~= fields@.skip(i + 1));
        }
        if str_eq(fields[i].0.as_str(), key) {
            return Some(&fields[i].1);
        }
        i += 1;
    }
    None
}

} // verus!
