//! One reconciliation cycle: the stored snapshot against a fresh dataset.
//!
//! The deletion pass looks at every stored row that the fresh dataset no
//! longer holds; the upsert pass looks at every fresh record, each held
//! against the rows as they are stored. Nothing is written here: the result
//! says what happens to each row and each record, and what the snapshot is
//! once all of it is applied.
//!
//! A dataset may hold a key more than once. The records of a key that has a
//! row are applied one after the other, so the row ends with the last that
//! differs from it. Of a key that has no row only the first record can be
//! inserted; the result marks the second.

use crate::cycle_laws::law_snapshot_keeps_keys_distinct;
use crate::element::records;
use crate::element::rows;
use crate::element::Element;
use crate::element::ElementKey;
use crate::element::OverpassElement;
use crate::element::RecordView;
use crate::element::RowView;
use crate::event::collect_events;
use crate::event::event_views;
use crate::event::events_of;
use crate::event::ElementEvent;
use crate::keys::distinct;
use crate::keys::find_key;
use crate::keys::find_key_before;
use crate::keys::keys_of_records;
use crate::keys::keys_of_rows;
use crate::keys::lemma_position_is_first;
use crate::keys::position;
use crate::keys::record_keys;
use crate::keys::repeats;
use crate::keys::row_keys;
use crate::text::same_text;
use vstd::prelude::*;

verus! {

/// What the deletion pass does to one stored row.
#[derive(Clone, Copy, Debug, PartialEq, Eq)]
pub enum Fate {
    /// The row is left as it is.
    Untouched,
    /// The row is soft-deleted. `witness` is the place, among the records of
    /// the secondary source, of the one that attributes the deletion.
    Deleted { witness: Option<usize> },
}

/// What the upsert pass does with one fresh record.
#[derive(Clone, Copy, Debug, PartialEq, Eq)]
pub enum Upsert {
    /// No row has the record's key: a row is inserted.
    Created,
    /// The row at `row` has another payload: it is overwritten, and revived
    /// if it was soft-deleted.
    Updated { row: usize, revived: bool },
    /// The row at `row` has the same payload and was soft-deleted: the mark is
    /// cleared, and no audit event is written.
    Revived { row: usize },
    /// The row at `row` has the same payload and is live: nothing happens.
    Unchanged { row: usize },
}

/// How many rows a cycle created, updated and deleted.
#[derive(Clone, Copy, Debug, PartialEq, Eq, Structural)]
pub struct Summary {
    pub created: usize,
    pub updated: usize,
    pub deleted: usize,
}

/// Why a cycle was abandoned before anything was written.
#[derive(Clone, Copy, Debug, PartialEq, Eq)]
pub enum ReconcileError {
    /// The fresh dataset omits the row at `row`, yet the secondary source, in
    /// its record at `witness`, still shows the place as accepting bitcoin.
    Contradiction { row: usize, witness: usize },
}

/// The outcome of a cycle.
pub struct Reconciliation {
    /// One entry for each stored row, in order.
    pub fates: Vec<Fate>,
    /// One entry for each fresh record, in order.
    pub upserts: Vec<Upsert>,
    pub summary: Summary,
    /// The audit events of the cycle: deletions, then creations and updates.
    pub events: Vec<ElementEvent>,
    /// The snapshot after the cycle: the stored rows in their order, then the
    /// created rows in the order of their records.
    pub snapshot: Vec<Element>,
    /// The first fresh record that repeats the key of an earlier one while no
    /// row has that key. A store that holds each key once refuses the
    /// insertion of such a record: where this is set, the cycle cannot be
    /// committed.
    pub refused: Option<usize>,
}

/// The row is live and the fresh dataset does not hold its key.
pub open spec fn is_orphan(row: RowView, fresh: Seq<RecordView>) -> bool {
    !row.is_deleted() && !record_keys(fresh).contains(row.key())
}

/// The row at `s` is live and the fresh dataset does not hold its key.
pub open spec fn is_candidate(stored: Seq<RowView>, fresh: Seq<RecordView>, s: int) -> bool {
    is_orphan(stored[s], fresh)
}

/// The secondary source still shows the place, with a tag that says bitcoin
/// is accepted there.
pub open spec fn still_accepted(record: RecordView) -> bool {
    record.visible && (record.tag("currency:XBT"@) == "yes"@ || record.tag("payment:bitcoin"@)
        == "yes"@)
}

/// The place, among the records of the secondary source, of the one for `key`.
pub open spec fn witness_of(verified: Seq<RecordView>, key: ElementKey) -> Option<int> {
    position(record_keys(verified), key)
}

/// The row at `s` would be deleted although the secondary source disputes it.
pub open spec fn disputed(
    stored: Seq<RowView>,
    fresh: Seq<RecordView>,
    verified: Seq<RecordView>,
    s: int,
) -> bool {
    &&& is_candidate(stored, fresh, s)
    &&& witness_of(verified, stored[s].key()) is Some
    &&& still_accepted(verified[witness_of(verified, stored[s].key())->0])
}

/// Some row among the first `end` is disputed.
pub open spec fn any_disputed(
    stored: Seq<RowView>,
    fresh: Seq<RecordView>,
    verified: Seq<RecordView>,
    end: int,
) -> bool {
    exists|s: int| 0 <= s < end && disputed(stored, fresh, verified, s)
}

/// What the deletion pass does to the row at `s`.
pub open spec fn fate_of(
    stored: Seq<RowView>,
    fresh: Seq<RecordView>,
    verified: Seq<RecordView>,
    s: int,
) -> Fate {
    if is_candidate(stored, fresh, s) {
        match witness_of(verified, stored[s].key()) {
            Some(w) => Fate::Deleted { witness: Some(w as usize) },
            None => Fate::Deleted { witness: None },
        }
    } else {
        Fate::Untouched
    }
}

/// What the upsert pass does with `item`.
pub open spec fn upsert_of(stored: Seq<RowView>, item: RecordView) -> Upsert {
    match position(row_keys(stored), item.key()) {
        None => Upsert::Created,
        Some(r) => if stored[r].data.payload != item.payload {
            Upsert::Updated { row: r as usize, revived: stored[r].is_deleted() }
        } else if stored[r].is_deleted() {
            Upsert::Revived { row: r as usize }
        } else {
            Upsert::Unchanged { row: r as usize }
        },
    }
}

/// Whether the secondary source still shows the place as accepting bitcoin.
pub fn is_still_accepted(record: &OverpassElement) -> (accepted: bool)
    ensures
        accepted == still_accepted(record@),
{
    record.visible && (same_text(record.tag("currency:XBT"), "yes") || same_text(
        record.tag("payment:bitcoin"),
        "yes",
    ))
}

/// The deletion pass over all stored rows.
///
/// Fails at the first disputed row; otherwise gives every row its fate.
fn deletion_pass(
    stored: &Vec<Element>,
    fresh_keys: &Vec<ElementKey>,
    verified: &Vec<OverpassElement>,
    verified_keys: &Vec<ElementKey>,
    Ghost(fresh): Ghost<Seq<RecordView>>,
) -> (result: Result<Vec<Fate>, (usize, usize)>)
    requires
        fresh_keys@ == record_keys(fresh),
        verified_keys@ == record_keys(records(verified@)),
    ensures
        match result {
            Ok(fates) => {
                &&& !any_disputed(rows(stored@), fresh, records(verified@), stored@.len() as int)
                &&& fates@.len() == stored@.len()
                &&& forall|s: int|
                    0 <= s < stored@.len() ==> fates@[s] == fate_of(
                        rows(stored@),
                        fresh,
                        records(verified@),
                        s,
                    )
            },
            Err((row, witness)) => {
                &&& row < stored@.len()
                &&& disputed(rows(stored@), fresh, records(verified@), row as int)
                &&& !any_disputed(rows(stored@), fresh, records(verified@), row as int)
                &&& witness_of(records(verified@), rows(stored@)[row as int].key()) == Some(
                    witness as int,
                )
            },
        },
{
    let mut fates: Vec<Fate> = Vec::new();
    let mut s: usize = 0;
    while s < stored.len()
        invariant
            s <= stored@.len(),
            fresh_keys@ == record_keys(fresh),
            verified_keys@ == record_keys(records(verified@)),
            verified_keys@.len() == verified@.len(),
            fates@.len() == s,
            !any_disputed(rows(stored@), fresh, records(verified@), s as int),
            forall|t: int|
                0 <= t < s ==> fates@[t] == fate_of(rows(stored@), fresh, records(verified@), t),
        decreases stored@.len() - s,
    {
        let row = &stored[s];
        let key = row.key();
        assert(rows(stored@)[s as int] == row@);
        let mut fate = Fate::Untouched;
        if !row.is_deleted() {
            let present = find_key(fresh_keys, key);
            proof {
                lemma_position_is_first(fresh_keys@, key);
            }
            if present.is_none() {
                let found = find_key(verified_keys, key);
                proof {
                    lemma_position_is_first(verified_keys@, key);
                }
                match found {
                    Some(w) => {
                        assert(records(verified@)[w as int] == verified@[w as int]@);
                        if is_still_accepted(&verified[w]) {
                            return Err((s, w));
                        }
                        fate = Fate::Deleted { witness: Some(w) };
                    },
                    None => {
                        fate = Fate::Deleted { witness: None };
                    },
                }
            }
        }
        fates.push(fate);
        assert(!any_disputed(rows(stored@), fresh, records(verified@), s + 1)) by {
            if any_disputed(rows(stored@), fresh, records(verified@), s + 1) {
                let t = choose|t: int|
                    0 <= t < s + 1 && disputed(rows(stored@), fresh, records(verified@), t);
                assert(t == s);
            }
        }
        s += 1;
    }
    Ok(fates)
}

/// The upsert pass over all fresh records.
fn upsert_pass(
    stored: &Vec<Element>,
    stored_keys: &Vec<ElementKey>,
    fresh: &Vec<OverpassElement>,
) -> (upserts: Vec<Upsert>)
    requires
        stored_keys@ == row_keys(rows(stored@)),
    ensures
        upserts@.len() == fresh@.len(),
        forall|f: int|
            0 <= f < fresh@.len() ==> upserts@[f] == upsert_of(rows(stored@), records(fresh@)[f]),
{
    let mut upserts: Vec<Upsert> = Vec::new();
    let mut f: usize = 0;
    while f < fresh.len()
        invariant
            f <= fresh@.len(),
            stored_keys@ == row_keys(rows(stored@)),
            stored_keys@.len() == stored@.len(),
            upserts@.len() == f,
            forall|g: int|
                0 <= g < f ==> upserts@[g] == upsert_of(rows(stored@), records(fresh@)[g]),
        decreases fresh@.len() - f,
    {
        let item = &fresh[f];
        assert(records(fresh@)[f as int] == item@);
        let found = find_key(stored_keys, item.key());
        proof {
            lemma_position_is_first(stored_keys@, item@.key());
        }
        let upsert = match found {
            None => Upsert::Created,
            Some(r) => {
                let row = &stored[r];
                assert(rows(stored@)[r as int] == row@);
                if !same_text(row.data.payload.as_str(), item.payload.as_str()) {
                    Upsert::Updated { row: r, revived: row.is_deleted() }
                } else if row.is_deleted() {
                    Upsert::Revived { row: r }
                } else {
                    Upsert::Unchanged { row: r }
                }
            },
        };
        upserts.push(upsert);
        f += 1;
    }
    upserts
}

/// The record brings a change to the row: it has the key of the row and
/// another payload than the row as it is stored.
pub open spec fn changes(row: RowView, item: RecordView) -> bool {
    item.key() == row.key() && item.payload != row.data.payload
}

/// The place of the last fresh record that brings a change to the row.
pub open spec fn last_change(fresh: Seq<RecordView>, row: RowView) -> Option<int>
    decreases fresh.len(),
{
    if fresh.len() == 0 {
        None
    } else if changes(row, fresh.last()) {
        Some(fresh.len() - 1)
    } else {
        last_change(fresh.drop_last(), row)
    }
}

/// The row at `s` once the cycle is applied.
///
/// A row that the fresh dataset omits is soft-deleted unless it already was.
/// A row that the fresh dataset holds is live afterwards. Each record of its
/// key is held against the row as it is stored, and each that differs
/// overwrites the row in its turn, so the row ends with the last record that
/// differs. Every row that is written gets `now` as its time of update; a
/// row that is not written stays as it is.
pub open spec fn row_after(
    stored: Seq<RowView>,
    fresh: Seq<RecordView>,
    now: i64,
    s: int,
) -> RowView {
    let row = stored[s];
    if !record_keys(fresh).contains(row.key()) {
        if row.is_deleted() {
            row
        } else {
            RowView { deleted_at: Some(now), updated_at: now, ..row }
        }
    } else {
        match last_change(fresh, row) {
            Some(f) => RowView {
                data: fresh[f],
                created_at: row.created_at,
                updated_at: now,
                deleted_at: None,
            },
            None => if row.is_deleted() {
                RowView { deleted_at: None, updated_at: now, ..row }
            } else {
                row
            },
        }
    }
}

/// The row that is inserted for a record without one.
pub open spec fn new_row(item: RecordView, now: i64) -> RowView {
    RowView { data: item, created_at: now, updated_at: now, deleted_at: None }
}

/// A row is inserted for the record at `f`: no row has its key, and it is
/// the first record of that key.
pub open spec fn is_inserted(stored: Seq<RowView>, fresh: Seq<RecordView>, f: int) -> bool {
    !row_keys(stored).contains(fresh[f].key()) && !repeats(record_keys(fresh), f)
}

/// The store refuses the record at `f`: no row has its key, but an earlier
/// record has it, so that its row would be the second of that key.
pub open spec fn is_refused(stored: Seq<RowView>, fresh: Seq<RecordView>, f: int) -> bool {
    !row_keys(stored).contains(fresh[f].key()) && repeats(record_keys(fresh), f)
}

/// `mark` names the first record that the store refuses, if there is one.
pub open spec fn marks_refused(
    mark: Option<usize>,
    stored: Seq<RowView>,
    fresh: Seq<RecordView>,
) -> bool {
    match mark {
        Some(f) => {
            &&& f < fresh.len()
            &&& is_refused(stored, fresh, f as int)
            &&& forall|g: int| 0 <= g < f ==> !is_refused(stored, fresh, g)
        },
        None => forall|g: int| 0 <= g < fresh.len() ==> !is_refused(stored, fresh, g),
    }
}

/// The rows that the cycle creates: one for each key that no row has, from
/// the first record of that key, in the order of the records.
pub open spec fn created_rows(stored: Seq<RowView>, fresh: Seq<RecordView>, now: i64) -> Seq<
    RowView,
>
    decreases fresh.len(),
{
    if fresh.len() == 0 {
        Seq::empty()
    } else if is_inserted(stored, fresh, fresh.len() - 1) {
        created_rows(stored, fresh.drop_last(), now).push(new_row(fresh.last(), now))
    } else {
        created_rows(stored, fresh.drop_last(), now)
    }
}

/// The snapshot after the cycle: every stored row as the cycle leaves it,
/// then the rows that it creates.
pub open spec fn snapshot_after(
    stored: Seq<RowView>,
    fresh: Seq<RecordView>,
    now: i64,
) -> Seq<RowView> {
    Seq::new(stored.len(), |s: int| row_after(stored, fresh, now, s)) + created_rows(
        stored,
        fresh,
        now,
    )
}

/// How many rows the deletion pass deletes.
pub open spec fn count_deleted(fates: Seq<Fate>) -> nat {
    fates.filter(|f: Fate| f is Deleted).len()
}

/// How many records the upsert pass finds no row for.
pub open spec fn count_created(upserts: Seq<Upsert>) -> nat {
    upserts.filter(|u: Upsert| u is Created).len()
}

/// How many rows the upsert pass overwrites.
pub open spec fn count_updated(upserts: Seq<Upsert>) -> nat {
    upserts.filter(|u: Upsert| u is Updated).len()
}

/// What a successful cycle returns for the given inputs.
pub open spec fn is_outcome_of(
    plan: Reconciliation,
    stored: Seq<RowView>,
    fresh: Seq<RecordView>,
    verified: Seq<RecordView>,
    now: i64,
) -> bool {
    &&& plan.fates@.len() == stored.len()
    &&& forall|s: int| 0 <= s < stored.len() ==> plan.fates@[s] == fate_of(stored, fresh, verified, s)
    &&& plan.upserts@.len() == fresh.len()
    &&& forall|f: int| 0 <= f < fresh.len() ==> plan.upserts@[f] == upsert_of(stored, fresh[f])
    &&& plan.summary.deleted == count_deleted(plan.fates@)
    &&& plan.summary.created == count_created(plan.upserts@)
    &&& plan.summary.updated == count_updated(plan.upserts@)
    &&& event_views(plan.events@) == events_of(stored, fresh, verified, now)
    &&& plan.events@.len() == plan.summary.deleted + plan.summary.created + plan.summary.updated
    &&& rows(plan.snapshot@) == snapshot_after(stored, fresh, now)
    &&& marks_refused(plan.refused, stored, fresh)
}

/// What `last_change` names is a record that changes the row, and no later
/// record does; it names nothing only where no record changes the row.
pub proof fn lemma_last_change(fresh: Seq<RecordView>, row: RowView)
    ensures
        match last_change(fresh, row) {
            Some(f) => {
                &&& 0 <= f < fresh.len()
                &&& changes(row, fresh[f])
                &&& forall|g: int| f < g < fresh.len() ==> !changes(row, #[trigger] fresh[g])
            },
            None => forall|g: int| 0 <= g < fresh.len() ==> !changes(row, #[trigger] fresh[g]),
        },
    decreases fresh.len(),
{
    if fresh.len() > 0 {
        let rest = fresh.drop_last();
        lemma_last_change(rest, row);
        if !changes(row, fresh.last()) {
            match last_change(rest, row) {
                Some(f) => {
                    assert(rest[f] == fresh[f]);
                    assert forall|g: int| f < g < fresh.len() implies !changes(
                        row,
                        #[trigger] fresh[g],
                    ) by {
                        if g < rest.len() {
                            assert(rest[g] == fresh[g]);
                        }
                    }
                },
                None => {
                    assert forall|g: int| 0 <= g < fresh.len() implies !changes(
                        row,
                        #[trigger] fresh[g],
                    ) by {
                        if g < rest.len() {
                            assert(rest[g] == fresh[g]);
                        }
                    }
                },
            }
        }
    }
}

/// Whether a record repeats an earlier key can be told from the records up
/// to it.
pub proof fn lemma_repeats_in_prefix(fresh: Seq<RecordView>, k: int, f: int)
    requires
        0 <= f < k <= fresh.len(),
    ensures
        repeats(record_keys(fresh.take(k)), f) == repeats(record_keys(fresh), f),
        fresh.take(k)[f] == fresh[f],
{
    if repeats(record_keys(fresh.take(k)), f) {
        let i = choose|i: int|
            0 <= i < f && record_keys(fresh.take(k))[i] == record_keys(fresh.take(k))[f];
        assert(record_keys(fresh)[i] == record_keys(fresh)[f]);
    }
    if repeats(record_keys(fresh), f) {
        let i = choose|i: int| 0 <= i < f && record_keys(fresh)[i] == record_keys(fresh)[f];
        assert(record_keys(fresh.take(k))[i] == record_keys(fresh.take(k))[f]);
    }
}

/// Whether the fresh dataset holds the key of the row, and the place of the
/// last record that brings a change to it.
fn locate_change(
    fresh: &Vec<OverpassElement>,
    fresh_keys: &Vec<ElementKey>,
    row: &Element,
) -> (found: (bool, Option<usize>))
    requires
        fresh_keys@ == record_keys(records(fresh@)),
    ensures
        found.0 == record_keys(records(fresh@)).contains(row@.key()),
        match found.1 {
            Some(f) => last_change(records(fresh@), row@) == Some(f as int),
            None => last_change(records(fresh@), row@) is None,
        },
{
    let ghost items = records(fresh@);
    let key = row.key();
    let mut present = false;
    let mut change: Option<usize> = None;
    let mut f: usize = 0;
    while f < fresh.len()
        invariant
            f <= fresh@.len(),
            items == records(fresh@),
            fresh_keys@ == record_keys(items),
            key == row@.key(),
            present == exists|g: int| 0 <= g < f && fresh_keys@[g] == key,
            match change {
                Some(c) => last_change(items.take(f as int), row@) == Some(c as int),
                None => last_change(items.take(f as int), row@) is None,
            },
        decreases fresh@.len() - f,
    {
        assert(items[f as int] == fresh@[f as int]@);
        assert(items.take(f + 1).drop_last() =~= items.take(f as int));
        assert(items.take(f + 1).last() == items[f as int]);
        if fresh_keys[f] == key {
            present = true;
            if !same_text(fresh[f].payload.as_str(), row.data.payload.as_str()) {
                change = Some(f);
            }
        }
        f += 1;
    }
    assert(items.take(fresh@.len() as int) =~= items);
    (present, change)
}

/// The stored rows as the cycle leaves them.
fn rows_after(
    stored: &Vec<Element>,
    fresh: &Vec<OverpassElement>,
    fresh_keys: &Vec<ElementKey>,
    now: i64,
) -> (next: Vec<Element>)
    requires
        fresh_keys@ == record_keys(records(fresh@)),
    ensures
        rows(next@) == Seq::new(
            stored@.len(),
            |s: int| row_after(rows(stored@), records(fresh@), now, s),
        ),
{
    let mut next: Vec<Element> = Vec::new();
    let mut s: usize = 0;
    while s < stored.len()
        invariant
            s <= stored@.len(),
            fresh_keys@ == record_keys(records(fresh@)),
            next@.len() == s,
            forall|t: int|
                0 <= t < s ==> next@[t]@ == row_after(rows(stored@), records(fresh@), now, t),
        decreases stored@.len() - s,
    {
        let row = &stored[s];
        assert(rows(stored@)[s as int] == row@);
        let (present, change) = locate_change(fresh, fresh_keys, row);
        proof {
            lemma_last_change(records(fresh@), row@);
        }
        let after = if !present {
            if row.is_deleted() {
                row.duplicate()
            } else {
                Element {
                    data: row.data.duplicate(),
                    created_at: row.created_at,
                    updated_at: now,
                    deleted_at: Some(now),
                }
            }
        } else {
            match change {
                Some(f) => {
                    assert(records(fresh@)[f as int] == fresh@[f as int]@);
                    Element {
                        data: fresh[f].duplicate(),
                        created_at: row.created_at,
                        updated_at: now,
                        deleted_at: None,
                    }
                },
                None => if row.is_deleted() {
                    Element {
                        data: row.data.duplicate(),
                        created_at: row.created_at,
                        updated_at: now,
                        deleted_at: None,
                    }
                } else {
                    row.duplicate()
                },
            }
        };
        next.push(after);
        s += 1;
    }
    assert(rows(next@) =~= Seq::new(
        stored@.len(),
        |s: int| row_after(rows(stored@), records(fresh@), now, s),
    ));
    next
}

/// Appends to `next` the rows that the cycle creates, and names the first
/// record that the store refuses.
fn append_created(
    next: &mut Vec<Element>,
    fresh: &Vec<OverpassElement>,
    fresh_keys: &Vec<ElementKey>,
    upserts: &Vec<Upsert>,
    now: i64,
    Ghost(stored): Ghost<Seq<RowView>>,
) -> (refused: Option<usize>)
    requires
        fresh_keys@ == record_keys(records(fresh@)),
        upserts@.len() == fresh@.len(),
        forall|f: int| 0 <= f < fresh@.len() ==> upserts@[f] == upsert_of(stored, records(fresh@)[f]),
    ensures
        rows(final(next)@) == rows(old(next)@) + created_rows(stored, records(fresh@), now),
        marks_refused(refused, stored, records(fresh@)),
{
    let ghost start = rows(next@);
    let ghost items = records(fresh@);
    let mut refused: Option<usize> = None;
    let mut f: usize = 0;
    assert(rows(next@) =~= start + created_rows(stored, items.take(0), now));
    while f < fresh.len()
        invariant
            f <= fresh@.len(),
            items == records(fresh@),
            fresh_keys@ == record_keys(items),
            upserts@.len() == fresh@.len(),
            forall|g: int| 0 <= g < fresh@.len() ==> upserts@[g] == upsert_of(stored, items[g]),
            rows(next@) == start + created_rows(stored, items.take(f as int), now),
            match refused {
                Some(r) => {
                    &&& r < f
                    &&& is_refused(stored, items, r as int)
                    &&& forall|g: int| 0 <= g < r ==> !is_refused(stored, items, g)
                },
                None => forall|g: int| 0 <= g < f ==> !is_refused(stored, items, g),
            },
        decreases fresh@.len() - f,
    {
        let item = &fresh[f];
        assert(items[f as int] == item@);
        proof {
            lemma_position_is_first(row_keys(stored), item@.key());
            lemma_repeats_in_prefix(items, f + 1, f as int);
            assert(items.take(f + 1).drop_last() =~= items.take(f as int));
            assert(items.take(f + 1).last() == items[f as int]);
        }
        let ghost before = rows(next@);
        match upserts[f] {
            Upsert::Created => {
                let earlier = find_key_before(fresh_keys, f, fresh_keys[f]);
                proof {
                    lemma_position_is_first(fresh_keys@.take(f as int), fresh_keys@[f as int]);
                    if earlier is Some {
                        let e = earlier->0 as int;
                        assert(fresh_keys@.take(f as int)[e] == fresh_keys@[e]);
                        assert(repeats(record_keys(items), f as int));
                    } else {
                        if repeats(record_keys(items), f as int) {
                            let i = choose|i: int|
                                0 <= i < f && record_keys(items)[i] == record_keys(items)[f as int];
                            assert(fresh_keys@.take(f as int)[i] == fresh_keys@[i]);
                        }
                    }
                }
                match earlier {
                    None => {
                        next.push(
                            Element {
                                data: item.duplicate(),
                                created_at: now,
                                updated_at: now,
                                deleted_at: None,
                            },
                        );
                        assert(rows(next@) =~= before.push(new_row(item@, now)));
                        assert(is_inserted(stored, items.take(f + 1), f as int));
                    },
                    Some(_) => {
                        assert(!is_inserted(stored, items.take(f + 1), f as int));
                        if refused.is_none() {
                            refused = Some(f);
                        }
                    },
                }
            },
            _ => {
                assert(!is_inserted(stored, items.take(f + 1), f as int));
            },
        }
        assert(rows(next@) =~= start + created_rows(stored, items.take(f + 1), now));
        f += 1;
    }
    assert(items.take(fresh@.len() as int) =~= items);
    refused
}

/// Counts what the two passes change.
fn summarize(fates: &Vec<Fate>, upserts: &Vec<Upsert>) -> (summary: Summary)
    ensures
        summary.deleted == count_deleted(fates@),
        summary.created == count_created(upserts@),
        summary.updated == count_updated(upserts@),
{
    let ghost is_deleted = |f: Fate| f is Deleted;
    let ghost is_created = |u: Upsert| u is Created;
    let ghost is_updated = |u: Upsert| u is Updated;
    let mut deleted: usize = 0;
    let mut s: usize = 0;
    proof {
        assert(fates@.take(0) =~= Seq::<Fate>::empty());
        fates@.take(0).lemma_filter_len(is_deleted);
    }
    while s < fates.len()
        invariant
            s <= fates@.len(),
            is_deleted == |f: Fate| f is Deleted,
            deleted == fates@.take(s as int).filter(is_deleted).len(),
            deleted <= s,
        decreases fates@.len() - s,
    {
        proof {
            assert(fates@.take(s + 1) =~= fates@.take(s as int).push(fates@[s as int]));
            fates@.take(s as int).lemma_filter_push(fates@[s as int], is_deleted);
        }
        match fates[s] {
            Fate::Deleted { .. } => {
                deleted += 1;
            },
            Fate::Untouched => {},
        }
        s += 1;
    }
    assert(fates@.take(fates@.len() as int) =~= fates@);
    let mut created: usize = 0;
    let mut updated: usize = 0;
    let mut f: usize = 0;
    proof {
        assert(upserts@.take(0) =~= Seq::<Upsert>::empty());
        upserts@.take(0).lemma_filter_len(is_created);
        upserts@.take(0).lemma_filter_len(is_updated);
    }
    while f < upserts.len()
        invariant
            f <= upserts@.len(),
            is_created == |u: Upsert| u is Created,
            is_updated == |u: Upsert| u is Updated,
            created == upserts@.take(f as int).filter(is_created).len(),
            updated == upserts@.take(f as int).filter(is_updated).len(),
            created + updated <= f,
        decreases upserts@.len() - f,
    {
        proof {
            assert(upserts@.take(f + 1) =~= upserts@.take(f as int).push(upserts@[f as int]));
            upserts@.take(f as int).lemma_filter_push(upserts@[f as int], is_created);
            upserts@.take(f as int).lemma_filter_push(upserts@[f as int], is_updated);
        }
        match upserts[f] {
            Upsert::Created => {
                created += 1;
            },
            Upsert::Updated { .. } => {
                updated += 1;
            },
            _ => {},
        }
        f += 1;
    }
    assert(upserts@.take(upserts@.len() as int) =~= upserts@);
    Summary { created, updated, deleted }
}

/// Reconciles the stored snapshot with a fresh dataset.
///
/// `verified` holds the records that the secondary source returned for rows
/// that the fresh dataset omits; a row without a record there counts as not
/// found by it. `now` is the time of the cycle.
///
/// The cycle is abandoned, with nothing to write, when the secondary source
/// disputes a deletion; the first such row is reported. Every other cycle
/// goes through: each row and each record gets its outcome, each record
/// held against the row as it is stored.
pub fn reconcile(
    stored: &Vec<Element>,
    fresh: &Vec<OverpassElement>,
    verified: &Vec<OverpassElement>,
    now: i64,
) -> (result: Result<Reconciliation, ReconcileError>)
    ensures
        match result {
            Ok(plan) => {
                &&& !any_disputed(
                    rows(stored@),
                    records(fresh@),
                    records(verified@),
                    stored@.len() as int,
                )
                &&& is_outcome_of(plan, rows(stored@), records(fresh@), records(verified@), now)
                &&& distinct(row_keys(rows(stored@))) ==> distinct(row_keys(rows(plan.snapshot@)))
            },
            Err(ReconcileError::Contradiction { row, witness }) => {
                &&& row < stored@.len()
                &&& disputed(rows(stored@), records(fresh@), records(verified@), row as int)
                &&& !any_disputed(rows(stored@), records(fresh@), records(verified@), row as int)
                &&& witness_of(records(verified@), rows(stored@)[row as int].key()) == Some(
                    witness as int,
                )
            },
        },
{
    let stored_keys = keys_of_rows(stored);
    let fresh_keys = keys_of_records(fresh);
    let verified_keys = keys_of_records(verified);
    let fates = match deletion_pass(
        stored,
        &fresh_keys,
        verified,
        &verified_keys,
        Ghost(records(fresh@)),
    ) {
        Ok(fates) => fates,
        Err((row, witness)) => {
            return Err(ReconcileError::Contradiction { row, witness });
        },
    };
    let upserts = upsert_pass(stored, &stored_keys, fresh);
    let summary = summarize(&fates, &upserts);
    let events = collect_events(stored, fresh, verified, &fates, &upserts, now);
    let mut snapshot = rows_after(stored, fresh, &fresh_keys, now);
    let refused = append_created(
        &mut snapshot,
        fresh,
        &fresh_keys,
        &upserts,
        now,
        Ghost(rows(stored@)),
    );
    proof {
        if distinct(row_keys(rows(stored@))) {
            law_snapshot_keeps_keys_distinct(rows(stored@), records(fresh@), now);
        }
    }
    Ok(Reconciliation { fates, upserts, summary, events, snapshot, refused })
}

/// The places of the stored rows that the fresh dataset would have deleted:
/// the live rows whose key it does not hold, in the order of the snapshot.
///
/// These are the rows to look up at the secondary source before the cycle.
pub fn deletion_candidates(
    stored: &Vec<Element>,
    fresh: &Vec<OverpassElement>,
) -> (candidates: Vec<usize>)
    ensures
        forall|k: int|
            0 <= k < candidates@.len() ==> #[trigger] candidates@[k] < stored@.len() && is_candidate(
                rows(stored@),
                records(fresh@),
                candidates@[k] as int,
            ),
        forall|j: int, k: int| 0 <= j < k < candidates@.len() ==> candidates@[j] < candidates@[k],
        forall|s: int|
            0 <= s < stored@.len() && is_candidate(rows(stored@), records(fresh@), s)
                ==> candidates@.contains(s as usize),
{
    let fresh_keys = keys_of_records(fresh);
    let mut candidates: Vec<usize> = Vec::new();
    let mut s: usize = 0;
    while s < stored.len()
        invariant
            s <= stored@.len(),
            fresh_keys@ == record_keys(records(fresh@)),
            forall|k: int|
                0 <= k < candidates@.len() ==> #[trigger] candidates@[k] < s && is_candidate(
                    rows(stored@),
                    records(fresh@),
                    candidates@[k] as int,
                ),
            forall|j: int, k: int| 0 <= j < k < candidates@.len() ==> candidates@[j] < candidates@[k],
            forall|t: int|
                0 <= t < s && is_candidate(rows(stored@), records(fresh@), t)
                    ==> candidates@.contains(t as usize),
        decreases stored@.len() - s,
    {
        let row = &stored[s];
        assert(rows(stored@)[s as int] == row@);
        let mut orphan = false;
        if !row.is_deleted() {
            let present = find_key(&fresh_keys, row.key());
            proof {
                lemma_position_is_first(fresh_keys@, row@.key());
            }
            orphan = present.is_none();
        }
        if orphan {
            let ghost before = candidates@;
            candidates.push(s);
            assert forall|t: int|
                0 <= t < s + 1 && is_candidate(
                    rows(stored@),
                    records(fresh@),
                    t,
                ) implies candidates@.contains(t as usize) by {
                if t < s {
                    let k = choose|k: int| 0 <= k < before.len() && before[k] == t as usize;
                    assert(candidates@[k] == t as usize);
                } else {
                    assert(candidates@[candidates@.len() - 1] == s);
                }
            }
        }
        s += 1;
    }
    candidates
}

} // verus!
