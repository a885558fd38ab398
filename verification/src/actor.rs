//! Actors: the mappers to whom changes are attributed.
//!
//! An actor is looked up in the store first and at the outside service only
//! on a miss. The lookups themselves happen outside this library: the
//! resolver is told what they gave and says what to do next.

use crate::decimal::decimal;
use crate::decimal::decimal_of;
use crate::event::event_views;
use crate::event::ElementEvent;
use crate::event::EventView;
use crate::json::json_member;
use crate::json::member_of;
use crate::text::option_text;
use vstd::prelude::*;
use vstd::string::StringExecFns;

verus! {

/// The id that stands for an unknown actor. It is never stored or looked up.
pub const UNKNOWN_ACTOR: i64 = 0;

/// A mapper as the store caches them.
#[derive(Clone, Debug)]
pub struct Actor {
    pub id: i64,
    /// What the outside service tells of the mapper, as it was received.
    pub profile: String,
}

/// What an [`Actor`] holds.
pub struct ActorView {
    pub id: i64,
    pub profile: Seq<char>,
}

impl View for Actor {
    type V = ActorView;

    open spec fn view(&self) -> ActorView {
        ActorView { id: self.id, profile: self.profile@ }
    }
}

/// The actor that stands for "unknown".
pub open spec fn unknown_actor() -> ActorView {
    ActorView { id: UNKNOWN_ACTOR, profile: Seq::empty() }
}

/// Where the resolution of one actor stands.
#[derive(Clone, Copy, Debug, PartialEq, Eq, Structural)]
pub enum ResolverState {
    /// No resolution is under way.
    Idle,
    /// The store was asked for the actor `id`.
    AwaitStore { id: i64 },
    /// The outside service was asked for the actor `id`.
    AwaitLookup { id: i64 },
}

/// What the resolver is told.
#[derive(Clone, Debug)]
pub enum ResolverEvent {
    /// The actor `id` is to be resolved.
    Start { id: i64 },
    /// The store answered: the cached profile, or nothing on a miss.
    Stored { profile: Option<String> },
    /// The outside service answered: the profile, or nothing where the
    /// lookup failed, timed out or found no such actor.
    Fetched { profile: Option<String> },
}

/// What a [`ResolverEvent`] holds.
pub enum ResolverEventView {
    Start { id: i64 },
    Stored { profile: Option<Seq<char>> },
    Fetched { profile: Option<Seq<char>> },
}

impl View for ResolverEvent {
    type V = ResolverEventView;

    open spec fn view(&self) -> ResolverEventView {
        match self {
            ResolverEvent::Start { id } => ResolverEventView::Start { id: *id },
            ResolverEvent::Stored { profile } => ResolverEventView::Stored {
                profile: match profile {
                    Some(p) => Some(p@),
                    None => None,
                },
            },
            ResolverEvent::Fetched { profile } => ResolverEventView::Fetched {
                profile: match profile {
                    Some(p) => Some(p@),
                    None => None,
                },
            },
        }
    }
}

/// What the resolver asks for next.
#[derive(Clone, Debug)]
pub enum ResolverAction {
    /// Ask the store for the actor `id`.
    QueryStore { id: i64 },
    /// Ask the outside service for the actor `id`.
    Lookup { id: i64 },
    /// Store the actor and take it as the result. Where the store already
    /// holds an actor of that id, that is a hit, not a failure.
    Persist(Actor),
    /// The result, without anything to store.
    Resolved(Actor),
}

/// What a [`ResolverAction`] holds.
pub enum ResolverActionView {
    QueryStore { id: i64 },
    Lookup { id: i64 },
    Persist(ActorView),
    Resolved(ActorView),
}

impl View for ResolverAction {
    type V = ResolverActionView;

    open spec fn view(&self) -> ResolverActionView {
        match self {
            ResolverAction::QueryStore { id } => ResolverActionView::QueryStore { id: *id },
            ResolverAction::Lookup { id } => ResolverActionView::Lookup { id: *id },
            ResolverAction::Persist(actor) => ResolverActionView::Persist(actor@),
            ResolverAction::Resolved(actor) => ResolverActionView::Resolved(actor@),
        }
    }
}

/// The next state and the next action of the resolver.
///
/// The unknown actor is resolved at once. Any other is asked of the store;
/// a hit is the result, a miss leads to the outside service; what that
/// returns is stored and is the result, and where it returns nothing the
/// result is the unknown actor. An event that the state does not wait for
/// ends the resolution with the unknown actor.
pub open spec fn transition(state: ResolverState, event: ResolverEventView) -> (
    ResolverState,
    ResolverActionView,
) {
    match (state, event) {
        (ResolverState::Idle, ResolverEventView::Start { id }) => if id == UNKNOWN_ACTOR {
            (ResolverState::Idle, ResolverActionView::Resolved(unknown_actor()))
        } else {
            (ResolverState::AwaitStore { id }, ResolverActionView::QueryStore { id })
        },
        (
            ResolverState::AwaitStore { id },
            ResolverEventView::Stored { profile: Some(profile) },
        ) => (ResolverState::Idle, ResolverActionView::Resolved(ActorView { id, profile })),
        (ResolverState::AwaitStore { id }, ResolverEventView::Stored { profile: None }) => (
            ResolverState::AwaitLookup { id },
            ResolverActionView::Lookup { id },
        ),
        (
            ResolverState::AwaitLookup { id },
            ResolverEventView::Fetched { profile: Some(profile) },
        ) => (ResolverState::Idle, ResolverActionView::Persist(ActorView { id, profile })),
        _ => (ResolverState::Idle, ResolverActionView::Resolved(unknown_actor())),
    }
}

/// The address at which the outside service answers for the actor `id`.
pub open spec fn lookup_address(id: i64) -> Seq<char> {
    "https://api.openstreetmap.org/api/0.6/user/"@ + decimal(id as int) + ".json"@
}

/// The address at which the outside service answers for the actor `id`.
pub fn lookup_url(id: i64) -> (url: String)
    ensures
        url@ == lookup_address(id),
{
    let mut url = "https://api.openstreetmap.org/api/0.6/user/".to_owned();
    url.append(decimal_of(id).as_str());
    url.append(".json");
    url
}

/// What the resolver is told after a lookup: the profile that the answer of
/// the outside service holds under `user`, or nothing where there was no
/// answer, or one that cannot be read, or one without a profile.
pub open spec fn lookup_outcome(body: Option<Seq<char>>) -> ResolverEventView {
    ResolverEventView::Fetched {
        profile: match body {
            Some(text) => json_member(text, "user"@),
            None => None,
        },
    }
}

/// Reads the answer of the outside service to a lookup. `body` is what it
/// sent, or nothing where the request failed or timed out.
pub fn lookup_event(body: Option<&str>) -> (event: ResolverEvent)
    ensures
        event@ == lookup_outcome(
            match body {
                Some(text) => Some(text@),
                None => None,
            },
        ),
{
    match body {
        Some(text) => {
            let profile = member_of(text, "user");
            assert(option_text(profile) == json_member(text@, "user"@));
            ResolverEvent::Fetched { profile }
        },
        None => ResolverEvent::Fetched { profile: None },
    }
}

impl Actor {
    /// The actor that stands for "unknown".
    pub fn unknown() -> (actor: Actor)
        ensures
            actor@ == unknown_actor(),
    {
        Actor { id: UNKNOWN_ACTOR, profile: String::new() }
    }
}

/// Takes one step of the resolution of an actor.
pub fn step(state: ResolverState, event: ResolverEvent) -> (next: (ResolverState, ResolverAction))
    ensures
        (next.0, next.1@) == transition(state, event@),
{
    match (state, event) {
        (ResolverState::Idle, ResolverEvent::Start { id }) => {
            if id == UNKNOWN_ACTOR {
                (ResolverState::Idle, ResolverAction::Resolved(Actor::unknown()))
            } else {
                (ResolverState::AwaitStore { id }, ResolverAction::QueryStore { id })
            }
        },
        (ResolverState::AwaitStore { id }, ResolverEvent::Stored { profile: Some(profile) }) => (
            ResolverState::Idle,
            ResolverAction::Resolved(Actor { id, profile }),
        ),
        (ResolverState::AwaitStore { id }, ResolverEvent::Stored { profile: None }) => (
            ResolverState::AwaitLookup { id },
            ResolverAction::Lookup { id },
        ),
        (ResolverState::AwaitLookup { id }, ResolverEvent::Fetched { profile: Some(profile) }) => (
            ResolverState::Idle,
            ResolverAction::Persist(Actor { id, profile }),
        ),
        _ => (ResolverState::Idle, ResolverAction::Resolved(Actor::unknown())),
    }
}

/// The unknown actor is resolved without a question to the store or to the
/// outside service.
pub proof fn law_unknown_actor_asks_nothing()
    ensures
        transition(ResolverState::Idle, ResolverEventView::Start { id: UNKNOWN_ACTOR }) == (
            ResolverState::Idle,
            ResolverActionView::Resolved(unknown_actor()),
        ),
{
}

/// The outside service is asked only after the store has missed, and never
/// for the unknown actor when the resolution began at `Start`.
pub proof fn law_lookup_follows_a_miss(state: ResolverState, event: ResolverEventView, id: i64)
    requires
        transition(state, event).1 == (ResolverActionView::Lookup { id }),
    ensures
        state == (ResolverState::AwaitStore { id }),
        event == (ResolverEventView::Stored { profile: None }),
{
}

/// A lookup that returns nothing ends in the unknown actor, and nothing is
/// stored.
pub proof fn law_failed_lookup_is_unknown(id: i64)
    ensures
        transition(ResolverState::AwaitLookup { id }, ResolverEventView::Fetched { profile: None })
            == (ResolverState::Idle, ResolverActionView::Resolved(unknown_actor())),
{
}

/// An actor is stored only with the id that was asked for, which is never
/// that of the unknown actor when the resolution began at `Start`.
pub proof fn law_only_the_asked_actor_is_stored(
    id: i64,
    stored: Option<Seq<char>>,
    fetched: Option<Seq<char>>,
)
    ensures
        ({
            let first = transition(ResolverState::Idle, ResolverEventView::Start { id });
            let second = transition(first.0, ResolverEventView::Stored { profile: stored });
            let third = transition(second.0, ResolverEventView::Fetched { profile: fetched });
            &&& !(first.1 is Persist)
            &&& !(second.1 is Persist)
            &&& third.1 is Persist ==> id != UNKNOWN_ACTOR && stored is None && fetched is Some
                && third.1->Persist_0 == (ActorView { id, profile: fetched->0 })
        }),
{
}

/// Whether `id` is among `ids`.
pub fn holds_id(ids: &Vec<i64>, id: i64) -> (found: bool)
    ensures
        found == ids@.contains(id),
{
    let mut k: usize = 0;
    while k < ids.len()
        invariant
            k <= ids@.len(),
            forall|j: int| 0 <= j < k ==> ids@[j] != id,
        decreases ids@.len() - k,
    {
        if ids[k] == id {
            return true;
        }
        k += 1;
    }
    false
}

/// `id` is the actor of one of the events.
pub open spec fn is_actor_of(events: Seq<EventView>, id: i64) -> bool {
    exists|i: int| 0 <= i < events.len() && (#[trigger] events[i]).user_id == id
}

/// Among the events, `earlier` is an actor before `later` ever is.
pub open spec fn appears_before(events: Seq<EventView>, earlier: i64, later: i64) -> bool {
    exists|i: int|
        0 <= i < events.len() && (#[trigger] events[i]).user_id == earlier && forall|h: int|
            0 <= h <= i ==> (#[trigger] events[h]).user_id != later
}

/// The actors to resolve for a list of events: each known actor of an event
/// once, in the order in which they first appear.
pub fn actors_to_resolve(events: &Vec<ElementEvent>) -> (ids: Vec<i64>)
    ensures
        forall|k: int|
            0 <= k < ids@.len() ==> #[trigger] ids@[k] != UNKNOWN_ACTOR && is_actor_of(
                event_views(events@),
                ids@[k],
            ),
        forall|j: int, k: int|
            0 <= j < k < ids@.len() ==> appears_before(event_views(events@), ids@[j], ids@[k]),
        forall|i: int|
            0 <= i < events@.len() && (#[trigger] event_views(events@)[i]).user_id != UNKNOWN_ACTOR
                ==> ids@.contains(event_views(events@)[i].user_id),
{
    let ghost all = event_views(events@);
    let mut ids: Vec<i64> = Vec::new();
    let mut i: usize = 0;
    while i < events.len()
        invariant
            i <= events@.len(),
            all == event_views(events@),
            forall|k: int|
                0 <= k < ids@.len() ==> #[trigger] ids@[k] != UNKNOWN_ACTOR && exists|h: int|
                    0 <= h < i && (#[trigger] all[h]).user_id == ids@[k],
            forall|j: int, k: int| 0 <= j < k < ids@.len() ==> appears_before(all, ids@[j], ids@[k]),
            forall|h: int|
                0 <= h < i && (#[trigger] all[h]).user_id != UNKNOWN_ACTOR ==> ids@.contains(
                    all[h].user_id,
                ),
        decreases events@.len() - i,
    {
        let id = events[i].user_id;
        assert(all[i as int].user_id == id);
        let ghost before = ids@;
        if id != UNKNOWN_ACTOR && !holds_id(&ids, id) {
            ids.push(id);
            assert(ids@[ids@.len() - 1] == id);
            assert forall|h: int| 0 <= h < i implies (#[trigger] all[h]).user_id != id by {
                if all[h].user_id == id {
                    assert(before.contains(all[h].user_id));
                }
            }
            assert forall|k: int| 0 <= k < ids@.len() implies #[trigger] ids@[k] != UNKNOWN_ACTOR
                && exists|h: int| 0 <= h < i + 1 && (#[trigger] all[h]).user_id == ids@[k] by {
                if k < before.len() {
                    assert(ids@[k] == before[k]);
                    let h = choose|h: int| 0 <= h < i && (#[trigger] all[h]).user_id == before[k];
                    assert(all[h].user_id == ids@[k]);
                } else {
                    assert(all[i as int].user_id == ids@[k]);
                }
            }
            assert forall|j: int, k: int| 0 <= j < k < ids@.len() implies appears_before(
                all,
                ids@[j],
                ids@[k],
            ) by {
                assert(ids@[j] == before[j]);
                if k < before.len() {
                    assert(ids@[k] == before[k]);
                } else {
                    let h = choose|h: int| 0 <= h < i && (#[trigger] all[h]).user_id == before[j];
                    assert(all[h].user_id == ids@[j]);
                }
            }
            assert forall|h: int|
                0 <= h < i + 1 && (#[trigger] all[h]).user_id
                    != UNKNOWN_ACTOR implies ids@.contains(all[h].user_id) by {
                if h < i {
                    let j = choose|j: int| 0 <= j < before.len() && before[j] == all[h].user_id;
                    assert(ids@[j] == all[h].user_id);
                }
            }
        } else {
            assert forall|k: int| 0 <= k < ids@.len() implies #[trigger] ids@[k] != UNKNOWN_ACTOR
                && exists|h: int| 0 <= h < i + 1 && (#[trigger] all[h]).user_id == ids@[k] by {
                let h = choose|h: int| 0 <= h < i && (#[trigger] all[h]).user_id == ids@[k];
                assert(all[h].user_id == ids@[k]);
            }
        }
        i += 1;
    }
    assert forall|k: int| 0 <= k < ids@.len() implies #[trigger] ids@[k] != UNKNOWN_ACTOR
        && is_actor_of(all, ids@[k]) by {
        let h = choose|h: int| 0 <= h < i && (#[trigger] all[h]).user_id == ids@[k];
        assert(all[h].user_id == ids@[k]);
    }
    ids
}

} // verus!
