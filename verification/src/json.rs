//! Reading members out of JSON texts, as `serde_json` does.
//!
//! What `serde_json` parses and prints is not proved here: its result has
//! a name, and the functions of this library state what they return over it.

use crate::text::option_text;
use vstd::prelude::*;

verus! {

/// The member `name` of the JSON object that `serde_json` reads from `text`,
/// as `serde_json` writes it again; nothing where it reads no JSON or no
/// object, or where the object has no such member.
pub uninterp spec fn json_member(text: Seq<char>, name: Seq<char>) -> Option<Seq<char>>;

/// `serde_json::Value::get` on what `serde_json::from_str` reads from
/// `text`, printed by `serde_json::to_string`. The contract only names the
/// result, which is nothing where the text cannot be read or `get` finds
/// nothing.
#[verifier::external_body]
pub(crate) fn member_of(text: &str, name: &str) -> (member: Option<String>)
    ensures
        option_text(member) == json_member(text@, name@),
{
    match serde_json::from_str::<serde_json::Value>(text) {
        Ok(value) => match value.get(name) {
            Some(member) => serde_json::to_string(member).ok(),
            None => None,
        },
        Err(_) => None,
    }
}

/// The item at `index` of the array that is the member `name` of the JSON
/// object that `serde_json` reads from `text`, as `serde_json` writes it
/// again; nothing where it reads no JSON or no object, where the object has
/// no such member, where the member is no array, or where the array is
/// shorter.
pub uninterp spec fn json_member_item(text: Seq<char>, name: Seq<char>, index: usize) -> Option<
    Seq<char>,
>;

/// `serde_json::Value::get` with `name` and then with `index`, on what
/// `serde_json::from_str` reads from `text`, printed by
/// `serde_json::to_string`. The contract only names the result, which is
/// nothing where the text cannot be read or either `get` finds nothing.
#[verifier::external_body]
pub(crate) fn member_item_of(text: &str, name: &str, index: usize) -> (item: Option<String>)
    ensures
        option_text(item) == json_member_item(text@, name@, index),
{
    match serde_json::from_str::<serde_json::Value>(text) {
        Ok(value) => match value.get(name) {
            Some(member) => match member.get(index) {
                Some(item) => serde_json::to_string(item).ok(),
                None => None,
            },
            None => None,
        },
        Err(_) => None,
    }
}

} // verus!
