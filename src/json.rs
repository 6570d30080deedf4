use vstd::prelude::*;

verus! {

/// The string member `key` of the JSON object written in `text`, if the text parses as
/// JSON and that member exists and holds a string.
pub uninterp spec fn json_str_member(text: Seq<char>, key: Seq<char>) -> Option<Seq<char>>;

/// The unsigned integer member `key` of the JSON object written in `text`, if the text
/// parses as JSON and that member exists and holds a number representable as `u64`.
pub uninterp spec fn json_u64_member(text: Seq<char>, key: Seq<char>) -> Option<u64>;

/// Relies on `serde_json::from_str` into `serde_json::Value`, then `Value::get` and
/// `Value::as_str`: the string member of a JSON object, if there is one.
#[verifier::external_body]
pub(crate) fn read_str_member(text: &str, key: &str) -> (r: Option<String>)
    ensures
        match r {
            Some(s) => json_str_member(text@, key@) == Some(s@),
            None => json_str_member(text@, key@) is None,
        },
{
    let v: serde_json::Value = serde_json::from_str(text).ok()?;
    v.get(key)?.as_str().map(|s| s.to_string())
}

/// Relies on `serde_json::from_str` into `serde_json::Value`, then `Value::get` and
/// `Value::as_u64`: the unsigned integer member of a JSON object, if there is one.
#[verifier::external_body]
pub(crate) fn read_u64_member(text: &str, key: &str) -> (r: Option<u64>)
    ensures
        r == json_u64_member(text@, key@),
{
    let v: serde_json::Value = serde_json::from_str(text).ok()?;
    v.get(key)?.as_u64()
}

} // verus!
