//! Audit events: one record for each effective change of a cycle.

use crate::element::records;
use crate::element::rows;
use crate::element::Element;
use crate::element::ElementKey;
use crate::element::OverpassElement;
use crate::element::RecordView;
use crate::element::RowView;
use crate::keys::lemma_position_is_first;
use crate::keys::record_keys;
use crate::reconcile::count_created;
use crate::reconcile::count_deleted;
use crate::reconcile::count_updated;
use crate::reconcile::fate_of;
use crate::reconcile::is_orphan;
use crate::reconcile::upsert_of;
use crate::reconcile::witness_of;
use crate::reconcile::Fate;
use crate::reconcile::Upsert;
use vstd::prelude::*;

verus! {

/// The kind of change that an audit event records.
#[derive(Clone, Copy, Debug, PartialEq, Eq, Structural)]
pub enum EventKind {
    Create,
    Update,
    Delete,
}

/// One effective change to one place.
#[derive(Clone, Debug)]
pub struct ElementEvent {
    /// Time of the cycle, a Unix timestamp.
    pub date: i64,
    pub element_id: ElementKey,
    /// Display name of the place at the time of the change.
    pub element_name: String,
    pub event_type: EventKind,
    /// The mapper responsible, `0` when unknown.
    pub user_id: i64,
    /// Display name of that mapper, empty when unknown.
    pub user: String,
}

/// What an [`ElementEvent`] holds.
pub struct EventView {
    pub date: i64,
    pub element_id: ElementKey,
    pub element_name: Seq<char>,
    pub event_type: EventKind,
    pub user_id: i64,
    pub user: Seq<char>,
}

impl View for ElementEvent {
    type V = EventView;

    open spec fn view(&self) -> EventView {
        EventView {
            date: self.date,
            element_id: self.element_id,
            element_name: self.element_name@,
            event_type: self.event_type,
            user_id: self.user_id,
            user: self.user@,
        }
    }
}

/// The events of a list, in order.
pub open spec fn event_views(events: Seq<ElementEvent>) -> Seq<EventView> {
    events.map_values(|e: ElementEvent| e@)
}

/// The event for the deletion of `row`, attributed to the mapper of the
/// secondary record `witness` where there is one.
pub open spec fn deletion_of(row: RowView, witness: Option<RecordView>, now: i64) -> EventView {
    EventView {
        date: now,
        element_id: row.key(),
        element_name: row.data.name(),
        event_type: EventKind::Delete,
        user_id: match witness {
            Some(w) => w.uid,
            None => 0,
        },
        user: match witness {
            Some(w) => w.user,
            None => Seq::empty(),
        },
    }
}

/// The event for a change that the fresh record `item` brings.
pub open spec fn change_by(item: RecordView, kind: EventKind, now: i64) -> EventView {
    EventView {
        date: now,
        element_id: item.key(),
        element_name: item.name(),
        event_type: kind,
        user_id: item.uid,
        user: item.user,
    }
}

/// The event, if any, that the deletion pass writes for a row.
pub open spec fn deletion_event(
    fresh: Seq<RecordView>,
    verified: Seq<RecordView>,
    now: i64,
) -> spec_fn(
    RowView,
) -> Option<EventView> {
    |row: RowView|
        if is_orphan(row, fresh) {
            Some(
                deletion_of(
                    row,
                    match witness_of(verified, row.key()) {
                        Some(w) => Some(verified[w]),
                        None => None,
                    },
                    now,
                ),
            )
        } else {
            None
        }
}

/// The event, if any, that the upsert pass writes for a fresh record.
pub open spec fn upsert_event(stored: Seq<RowView>, now: i64) -> spec_fn(RecordView) -> Option<
    EventView,
> {
    |item: RecordView|
        match upsert_of(stored, item) {
            Upsert::Created => Some(change_by(item, EventKind::Create, now)),
            Upsert::Updated { .. } => Some(change_by(item, EventKind::Update, now)),
            _ => None,
        }
}

/// The events of a cycle: the deletions in the order of the stored rows, then
/// the creations and updates in the order of the fresh records.
pub open spec fn events_of(
    stored: Seq<RowView>,
    fresh: Seq<RecordView>,
    verified: Seq<RecordView>,
    now: i64,
) -> Seq<EventView> {
    stored.filter_map(deletion_event(fresh, verified, now)) + fresh.filter_map(
        upsert_event(stored, now),
    )
}

/// The event for the deletion of `row`.
pub fn deletion_audit(
    row: &Element,
    witness: Option<&OverpassElement>,
    now: i64,
) -> (event: ElementEvent)
    ensures
        event@ == deletion_of(
            row@,
            match witness {
                Some(w) => Some(w@),
                None => None,
            },
            now,
        ),
{
    match witness {
        Some(w) => ElementEvent {
            date: now,
            element_id: row.key(),
            element_name: row.data.name().to_owned(),
            event_type: EventKind::Delete,
            user_id: w.uid,
            user: w.user.clone(),
        },
        None => ElementEvent {
            date: now,
            element_id: row.key(),
            element_name: row.data.name().to_owned(),
            event_type: EventKind::Delete,
            user_id: 0,
            user: String::new(),
        },
    }
}

/// The event for a creation or an update that `item` brings.
pub fn change_audit(item: &OverpassElement, kind: EventKind, now: i64) -> (event: ElementEvent)
    ensures
        event@ == change_by(item@, kind, now),
{
    ElementEvent {
        date: now,
        element_id: item.key(),
        element_name: item.name().to_owned(),
        event_type: kind,
        user_id: item.uid,
        user: item.user.clone(),
    }
}

/// Writes out the events of a cycle from what its two passes decided.
pub(crate) fn collect_events(
    stored: &Vec<Element>,
    fresh: &Vec<OverpassElement>,
    verified: &Vec<OverpassElement>,
    fates: &Vec<Fate>,
    upserts: &Vec<Upsert>,
    now: i64,
) -> (events: Vec<ElementEvent>)
    requires
        fates@.len() == stored@.len(),
        forall|s: int|
            0 <= s < stored@.len() ==> fates@[s] == fate_of(
                rows(stored@),
                records(fresh@),
                records(verified@),
                s,
            ),
        upserts@.len() == fresh@.len(),
        forall|f: int|
            0 <= f < fresh@.len() ==> upserts@[f] == upsert_of(rows(stored@), records(fresh@)[f]),
    ensures
        event_views(events@) == events_of(
            rows(stored@),
            records(fresh@),
            records(verified@),
            now,
        ),
        events@.len() == count_deleted(fates@) + count_created(upserts@) + count_updated(upserts@),
{
    let ghost is_deleted = |f: Fate| f is Deleted;
    let ghost is_created = |u: Upsert| u is Created;
    let ghost is_updated = |u: Upsert| u is Updated;
    proof {
        assert(fates@.take(0) =~= Seq::<Fate>::empty());
        fates@.take(0).lemma_filter_len(is_deleted);
        assert(upserts@.take(0) =~= Seq::<Upsert>::empty());
        upserts@.take(0).lemma_filter_len(is_created);
        upserts@.take(0).lemma_filter_len(is_updated);
    }
    let ghost old_rows = rows(stored@);
    let ghost items = records(fresh@);
    let ghost seen = records(verified@);
    let ghost gone = deletion_event(items, seen, now);
    let ghost come = upsert_event(old_rows, now);
    let mut events: Vec<ElementEvent> = Vec::new();
    let mut s: usize = 0;
    assert(event_views(events@) =~= old_rows.take(0).filter_map(gone));
    while s < stored.len()
        invariant
            s <= stored@.len(),
            old_rows == rows(stored@),
            items == records(fresh@),
            seen == records(verified@),
            gone == deletion_event(items, seen, now),
            fates@.len() == stored@.len(),
            forall|t: int| 0 <= t < stored@.len() ==> fates@[t] == fate_of(old_rows, items, seen, t),
            event_views(events@) == old_rows.take(s as int).filter_map(gone),
            is_deleted == |f: Fate| f is Deleted,
            events@.len() == fates@.take(s as int).filter(is_deleted).len(),
        decreases stored@.len() - s,
    {
        let row = &stored[s];
        assert(old_rows[s as int] == row@);
        proof {
            assert(fates@.take(s + 1) =~= fates@.take(s as int).push(fates@[s as int]));
            fates@.take(s as int).lemma_filter_push(fates@[s as int], is_deleted);
            old_rows.lemma_filter_map_take_succ(gone, s as int);
            lemma_position_is_first(record_keys(seen), row@.key());
        }
        let ghost before = event_views(events@);
        match fates[s] {
            Fate::Deleted { witness: Some(w) } => {
                assert(record_keys(seen).len() == verified.len());
                assert(witness_of(seen, row@.key()) == Some(w as int));
                assert(seen[w as int] == verified@[w as int]@);
                let event = deletion_audit(row, Some(&verified[w]), now);
                assert(gone(row@) == Some(event@));
                events.push(event);
                assert(event_views(events@) =~= before.push(gone(row@)->0));
            },
            Fate::Deleted { witness: None } => {
                events.push(deletion_audit(row, None, now));
                assert(event_views(events@) =~= before.push(gone(row@)->0));
            },
            Fate::Untouched => {
                assert(gone(row@) is None);
            },
        }
        assert(event_views(events@) =~= old_rows.take(s + 1).filter_map(gone));
        s += 1;
    }
    assert(old_rows.take(stored@.len() as int) =~= old_rows);
    assert(fates@.take(stored@.len() as int) =~= fates@);
    let ghost deletions = event_views(events@);
    let mut f: usize = 0;
    assert(event_views(events@) =~= deletions + items.take(0).filter_map(come));
    while f < fresh.len()
        invariant
            f <= fresh@.len(),
            old_rows == rows(stored@),
            items == records(fresh@),
            come == upsert_event(old_rows, now),
            upserts@.len() == fresh@.len(),
            forall|g: int| 0 <= g < fresh@.len() ==> upserts@[g] == upsert_of(old_rows, items[g]),
            event_views(events@) == deletions + items.take(f as int).filter_map(come),
            is_created == |u: Upsert| u is Created,
            is_updated == |u: Upsert| u is Updated,
            events@.len() == deletions.len() + upserts@.take(f as int).filter(is_created).len()
                + upserts@.take(f as int).filter(is_updated).len(),
        decreases fresh@.len() - f,
    {
        let item = &fresh[f];
        assert(items[f as int] == item@);
        proof {
            assert(upserts@.take(f + 1) =~= upserts@.take(f as int).push(upserts@[f as int]));
            upserts@.take(f as int).lemma_filter_push(upserts@[f as int], is_created);
            upserts@.take(f as int).lemma_filter_push(upserts@[f as int], is_updated);
            items.lemma_filter_map_take_succ(come, f as int);
        }
        let ghost before = event_views(events@);
        match upserts[f] {
            Upsert::Created => {
                events.push(change_audit(item, EventKind::Create, now));
                assert(event_views(events@) =~= before.push(come(item@)->0));
            },
            Upsert::Updated { .. } => {
                events.push(change_audit(item, EventKind::Update, now));
                assert(event_views(events@) =~= before.push(come(item@)->0));
            },
            _ => {
                assert(come(item@) is None);
            },
        }
        assert(event_views(events@) =~= deletions + items.take(f + 1).filter_map(come));
        f += 1;
    }
    assert(items.take(fresh@.len() as int) =~= items);
    assert(upserts@.take(fresh@.len() as int) =~= upserts@);
    events
}

} // verus!
