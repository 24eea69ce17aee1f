//! The JSON reading and printing this crate asks of `serde_json`, as functions
//! from text to text. JSON values travel through the library as their text.
use vstd::prelude::*;

verus! {

/// Whether `text` parses as a JSON document (`serde_json::from_str::<Value>`).
pub uninterp spec fn json_valid(text: Seq<char>) -> bool;

/// When `text` parses as a JSON array, the compact text of each element, in
/// order; `None` when it does not parse or is not an array.
pub uninterp spec fn json_items(text: Seq<char>) -> Option<Seq<Seq<char>>>;

/// The string found at JSON pointer `ptr` in the document `text`, when the
/// document parses and the pointer leads to a string.
pub uninterp spec fn json_str_at(text: Seq<char>, ptr: Seq<char>) -> Option<Seq<char>>;

/// The unsigned integer found at JSON pointer `ptr` in the document `text`,
/// when the document parses and the pointer leads to one that fits in `u64`.
pub uninterp spec fn json_u64_at(text: Seq<char>, ptr: Seq<char>) -> Option<u64>;

/// The compact text of the value found at JSON pointer `ptr` in the document
/// `text`, when the document parses and the pointer leads somewhere.
pub uninterp spec fn json_text_at(text: Seq<char>, ptr: Seq<char>) -> Option<Seq<char>>;

/// The pretty-printed form of the document `text`, when it parses.
pub uninterp spec fn json_pretty_of(text: Seq<char>) -> Option<Seq<char>>;

/// `serde_json::from_str::<Value>`: whether `text` is a JSON document.
/// The claim is only that the answer is a function of the text.
#[verifier::external_body]
pub(crate) fn json_is_valid(text: &str) -> (b: bool)
    ensures
        b == json_valid(text@),
{
    serde_json::from_str::<serde_json::Value>(text).is_ok()
}

/// `serde_json::from_str::<Value>` of `text`, then `Value::to_string` on each
/// element when it is an array. Claimed: the outcome is a function of the
/// text, `None` exactly when [`json_items`] is, and otherwise the elements'
/// text in order.
#[verifier::external_body]
pub(crate) fn json_array_items(text: &str) -> (r: Option<Vec<String>>)
    ensures
        r is Some <==> json_items(text@) is Some,
        r matches Some(v) ==> v@.map_values(|s: String| s@) == json_items(text@)->0,
{
    match serde_json::from_str::<serde_json::Value>(text) {
        Ok(serde_json::Value::Array(items)) => Some(items.iter().map(|x| x.to_string()).collect()),
        _ => None,
    }
}

/// `serde_json::from_str::<Value>` of `text`, then `Value::pointer(ptr)`, read
/// as a string. Claimed: the outcome is a function of the text and pointer,
/// as [`json_str_at`] names it.
#[verifier::external_body]
pub(crate) fn json_pointer_str(text: &str, ptr: &str) -> (r: Option<String>)
    ensures
        r is Some <==> json_str_at(text@, ptr@) is Some,
        r matches Some(s) ==> s@ == json_str_at(text@, ptr@)->0,
{
    let v: serde_json::Value = match serde_json::from_str(text) {
        Ok(v) => v,
        Err(_) => return None,
    };
    match v.pointer(ptr) {
        Some(serde_json::Value::String(s)) => Some(s.clone()),
        _ => None,
    }
}

/// `serde_json::from_str::<Value>` of `text`, then `Value::pointer(ptr)`, read
/// with `Value::as_u64`. Claimed: the outcome is a function of the text and
/// pointer, as [`json_u64_at`] names it.
#[verifier::external_body]
pub(crate) fn json_pointer_u64(text: &str, ptr: &str) -> (r: Option<u64>)
    ensures
        r == json_u64_at(text@, ptr@),
{
    let v: serde_json::Value = match serde_json::from_str(text) {
        Ok(v) => v,
        Err(_) => return None,
    };
    match v.pointer(ptr) {
        Some(found) => found.as_u64(),
        None => None,
    }
}

/// `serde_json::from_str::<Value>` of `text`, then `Value::pointer(ptr)`,
/// printed with `Value::to_string`. Claimed: the outcome is a function of the
/// text and pointer, as [`json_text_at`] names it.
#[verifier::external_body]
pub(crate) fn json_pointer_text(text: &str, ptr: &str) -> (r: Option<String>)
    ensures
        r is Some <==> json_text_at(text@, ptr@) is Some,
        r matches Some(s) ==> s@ == json_text_at(text@, ptr@)->0,
{
    let v: serde_json::Value = match serde_json::from_str(text) {
        Ok(v) => v,
        Err(_) => return None,
    };
    match v.pointer(ptr) {
        Some(found) => Some(found.to_string()),
        None => None,
    }
}

/// `serde_json::to_string_pretty` of the value `serde_json::from_str` parses
/// from `text`. Claimed: the outcome is a function of the text, `None` exactly
/// when [`json_pretty_of`] is (the text does not parse, or printing fails),
/// and otherwise the printed text.
#[verifier::external_body]
pub(crate) fn json_pretty(text: &str) -> (r: Option<String>)
    ensures
        r is Some <==> json_pretty_of(text@) is Some,
        r matches Some(p) ==> p@ == json_pretty_of(text@)->0,
{
    match serde_json::from_str::<serde_json::Value>(text) {
        Ok(v) => serde_json::to_string_pretty(&v).ok(),
        Err(_) => None,
    }
}

} // verus!
