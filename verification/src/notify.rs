//! The texts that are sent out about what a cycle did and about what went
//! wrong with it.

use crate::decimal::decimal;
use crate::decimal::decimal_of;
use crate::element::text_of_kind;
use crate::element::ElementKey;
use crate::event::ElementEvent;
use crate::event::EventKind;
use crate::event::EventView;
use vstd::prelude::*;
use vstd::string::StringExecFns;

verus! {

/// The key as the store writes it: the kind, a colon and the id.
pub open spec fn key_text(key: ElementKey) -> Seq<char> {
    text_of_kind(key.kind) + ":"@ + decimal(key.id as int)
}

/// The address of the place at the upstream site.
pub open spec fn place_url(key: ElementKey) -> Seq<char> {
    "https://www.openstreetmap.org/"@ + text_of_kind(key.kind) + "/"@ + decimal(key.id as int)
}

/// What is said about a change: the name of the place, what happened to it,
/// by whom where a record tells, and the address of the place.
pub open spec fn change_message(event: EventView) -> Seq<char> {
    match event.event_type {
        EventKind::Create => event.element_name + " was added by "@ + event.user + " "@ + place_url(
            event.element_id,
        ),
        EventKind::Update => event.element_name + " was updated by "@ + event.user + " "@
            + place_url(event.element_id),
        EventKind::Delete => event.element_name + " was deleted "@ + place_url(event.element_id),
    }
}

/// What is said when the secondary source disputes the deletion of a place.
pub open spec fn dispute_message(key: ElementKey) -> Seq<char> {
    "Overpass lied about "@ + text_of_kind(key.kind) + "/"@ + decimal(key.id as int)
        + " being deleted!"@
}

impl ElementKey {
    /// The key as the store writes it.
    pub fn text(&self) -> (text: String)
        ensures
            text@ == key_text(*self),
    {
        let mut text = self.kind.as_text().to_owned();
        text.append(":");
        text.append(decimal_of(self.id).as_str());
        text
    }

    /// The address of the place at the upstream site.
    pub fn url(&self) -> (text: String)
        ensures
            text@ == place_url(*self),
    {
        let mut text = "https://www.openstreetmap.org/".to_owned();
        text.append(self.kind.as_text());
        text.append("/");
        text.append(decimal_of(self.id).as_str());
        text
    }

    /// What is said when the secondary source disputes the deletion.
    pub fn dispute_message(&self) -> (text: String)
        ensures
            text@ == dispute_message(*self),
    {
        let mut text = "Overpass lied about ".to_owned();
        text.append(self.kind.as_text());
        text.append("/");
        text.append(decimal_of(self.id).as_str());
        text.append(" being deleted!");
        text
    }
}

impl ElementEvent {
    /// What is said about the change.
    pub fn message(&self) -> (text: String)
        ensures
            text@ == change_message(self@),
    {
        let mut text = self.element_name.clone();
        match self.event_type {
            EventKind::Create => {
                text.append(" was added by ");
                text.append(self.user.as_str());
                text.append(" ");
            },
            EventKind::Update => {
                text.append(" was updated by ");
                text.append(self.user.as_str());
                text.append(" ");
            },
            EventKind::Delete => {
                text.append(" was deleted ");
            },
        }
        text.append(self.element_id.url().as_str());
        text
    }
}

} // verus!
