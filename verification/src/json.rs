//! Splitting a client's JSON text into the elements of a top-level array.

use vstd::prelude::*;
use serde_json::Value;

verus! {

/// One element of a JSON array: its JSON text, and its content when it is a JSON string.
pub struct JsonItem {
    pub text: String,
    pub string: Option<String>,
}

pub struct JsonItemView {
    pub text: Seq<char>,
    pub string: Option<Seq<char>>,
}

impl View for JsonItem {
    type V = JsonItemView;

    open spec fn view(&self) -> JsonItemView {
        JsonItemView {
            text: self.text@,
            string: match self.string { Some(s) => Some(s@), None => None },
        }
    }
}

pub open spec fn items_view(items: Vec<JsonItem>) -> Seq<JsonItemView> {
    items@.map_values(|i: JsonItem| i@)
}

/// What `serde_json::from_str::<Value>` makes of a text, when it is a JSON array:
/// for each element its serialisation (`Value::to_string`) and its string content
/// (`Value::as_str`); `None` when the text is not JSON or not an array.
pub uninterp spec fn json_array_items(text: Seq<char>) -> Option<Seq<JsonItemView>>;

/// `serde_json::from_str::<Value>`, kept only when the value is an array; each
/// element is handed out as its JSON text and, for a JSON string, its content.
/// The result is named `json_array_items`.
#[verifier::external_body]
pub fn parse_json_array(text: &str) -> (r: Option<Vec<JsonItem>>)
    ensures
        r is Some <==> json_array_items(text@) is Some,
        r matches Some(items) ==> items_view(items) == json_array_items(text@)->0,
{
    match serde_json::from_str::<Value>(text) {
        Ok(Value::Array(arr)) => Some(arr.iter().map(|v| JsonItem {
            text: v.to_string(), string: v.as_str().map(|s| s.to_string()) }).collect()),
        _ => None,
    }
}

} // verus!
