use vstd::prelude::*;
use serde_json::Value;

verus! {

/// The fields of one entry object of the dictionary, in insertion order:
/// each field name (as UTF-8 bytes) with its value when that value is a
/// non-negative integer, and None when it is any other JSON value.
pub type RawFields = Vec<(Vec<u8>, Option<u64>)>;

/// The members of one category object, in insertion order: each path (as
/// UTF-8 bytes) with the fields of its entry object, or None when the member
/// value is not an object.
pub type RawEntries = Vec<(Vec<u8>, Option<RawFields>)>;

/// The members of the top-level object, in insertion order: each category
/// name (as UTF-8 bytes) with the members of its object, or None when the
/// category value is not an object.
pub type RawCats = Vec<(Vec<u8>, Option<RawEntries>)>;

/// The object shape of the first complete JSON value of a byte sequence:
/// None when no complete value can be decoded, Some(None) when the first
/// value is not an object, and Some(Some(members)) otherwise.
pub uninterp spec fn json_head_of(s: Seq<u8>) -> Option<Option<RawCats>>;

/// Relies on serde_json's streaming Deserializer, built with the
/// preserve_order feature so that object members keep their insertion order:
/// it decodes exactly the first complete JSON value of the byte slice,
/// ignoring whatever follows it, and the decoded value — hence the object
/// shape returned here — depends on the bytes alone. `Value::as_object` is
/// Some exactly on JSON objects, and `Number::as_u64` is Some exactly on
/// integers in `0..=u64::MAX`.
#[verifier::external_body]
pub fn parse_json_head(bytes: &Vec<u8>) -> (r: Option<Option<RawCats>>)
    ensures
        r == json_head_of(bytes@),
{
    let v: Value = serde_json::Deserializer::from_slice(bytes).into_iter().next()?.ok()?;
    let ent = |x: &Value| x.as_object().map(|m| m.iter().map(|(k, w)| (k.clone().into(), w.as_u64())).collect());
    let cat = |x: &Value| x.as_object().map(|m| m.iter().map(|(k, w)| (k.clone().into(), ent(w))).collect());
    Some(v.as_object().map(|m| m.iter().map(|(k, w)| (k.clone().into(), cat(w))).collect()))
}

} // verus!
