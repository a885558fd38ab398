//! The secondary source: where a place is asked about before it is deleted,
//! and how its answer is read.
//!
//! The request itself is made outside this library.

use crate::decimal::decimal;
use crate::decimal::decimal_of;
use crate::element::text_of_kind;
use crate::element::ElementKey;
use crate::json::json_member_item;
use crate::json::member_item_of;
use crate::text::option_text;
use vstd::prelude::*;
use vstd::string::StringExecFns;

verus! {

/// The address at which the secondary source answers for the place `key`.
pub open spec fn secondary_address(key: ElementKey) -> Seq<char> {
    "https://api.openstreetmap.org/api/0.6/"@ + text_of_kind(key.kind) + "s.json?"@ + text_of_kind(
        key.kind,
    ) + "s="@ + decimal(key.id as int)
}

/// The record that an answer of the secondary source holds: the first item
/// of its `elements`, or nothing where there was no answer, or one that
/// cannot be read, or one without such an item.
pub open spec fn first_element(body: Option<Seq<char>>) -> Option<Seq<char>> {
    match body {
        Some(text) => json_member_item(text, "elements"@, 0),
        None => None,
    }
}

/// The address at which the secondary source answers for the place `key`.
pub fn secondary_url(key: ElementKey) -> (url: String)
    ensures
        url@ == secondary_address(key),
{
    let mut url = "https://api.openstreetmap.org/api/0.6/".to_owned();
    url.append(key.kind.as_text());
    url.append("s.json?");
    url.append(key.kind.as_text());
    url.append("s=");
    url.append(decimal_of(key.id).as_str());
    url
}

/// Reads the answer of the secondary source. `body` is what it sent, or
/// nothing where the request failed.
pub fn first_element_of(body: Option<&str>) -> (record: Option<String>)
    ensures
        option_text(record) == first_element(
            match body {
                Some(text) => Some(text@),
                None => None,
            },
        ),
{
    match body {
        Some(text) => member_item_of(text, "elements", 0),
        None => None,
    }
}

} // verus!
