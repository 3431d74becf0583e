//! JSON texts, looked into by pointer (`/result/panes/0/pane_id`).

use vstd::prelude::*;
use vstd::string::*;
use crate::text::option_text;

verus! {

/// Whether a text is JSON and has something at a pointer.
pub uninterp spec fn json_has(text: Seq<char>, pointer: Seq<char>) -> bool;

/// The string at a pointer, where the text is JSON and has one there.
pub uninterp spec fn json_text(text: Seq<char>, pointer: Seq<char>) -> Option<Seq<char>>;

/// The truth value at a pointer, where the text is JSON and has one there.
pub uninterp spec fn json_flag(text: Seq<char>, pointer: Seq<char>) -> Option<bool>;

/// How many items the array at a pointer has, where the text is JSON and has one
/// there.
pub uninterp spec fn json_items(text: Seq<char>, pointer: Seq<char>) -> Option<nat>;

/// `serde_json::from_str` and `serde_json::Value::pointer` find something or
/// nothing, which depends on the text and the pointer alone.
#[verifier::external_body]
pub(crate) fn has_at(text: &str, pointer: &str) -> (r: bool)
    ensures
        r == json_has(text@, pointer@),
{
    match serde_json::from_str::<serde_json::Value>(text) {
        Ok(v) => v.pointer(pointer).is_some(),
        Err(_) => false,
    }
}

/// `serde_json::from_str`, `serde_json::Value::pointer` and
/// `serde_json::Value::as_str` give a string or none, which depends on the text
/// and the pointer alone.
#[verifier::external_body]
pub(crate) fn text_at(text: &str, pointer: &str) -> (r: Option<String>)
    ensures
        option_text(r) == json_text(text@, pointer@),
{
    match serde_json::from_str::<serde_json::Value>(text) {
        Ok(v) => v.pointer(pointer).and_then(|x| x.as_str()).map(|s| s.to_owned()),
        Err(_) => None,
    }
}

/// `serde_json::from_str`, `serde_json::Value::pointer` and
/// `serde_json::Value::as_bool` give a truth value or none, which depends on the
/// text and the pointer alone.
#[verifier::external_body]
pub(crate) fn flag_at(text: &str, pointer: &str) -> (r: Option<bool>)
    ensures
        r == json_flag(text@, pointer@),
{
    match serde_json::from_str::<serde_json::Value>(text) {
        Ok(v) => v.pointer(pointer).and_then(|x| x.as_bool()),
        Err(_) => None,
    }
}

/// `serde_json::from_str`, `serde_json::Value::pointer` and
/// `serde_json::Value::as_array` give an array or none, which depends on the text
/// and the pointer alone.
#[verifier::external_body]
pub(crate) fn items_at(text: &str, pointer: &str) -> (r: Option<usize>)
    ensures
        match r {
            Some(n) => json_items(text@, pointer@) == Some(n as nat),
            None => json_items(text@, pointer@) is None,
        },
{
    match serde_json::from_str::<serde_json::Value>(text) {
        Ok(v) => v.pointer(pointer).and_then(|x| x.as_array()).map(|a| a.len()),
        Err(_) => None,
    }
}

} // verus!
