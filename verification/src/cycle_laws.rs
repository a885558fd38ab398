//! What holds of every reconciliation cycle.

use crate::element::ElementKey;
use crate::element::RecordView;
use crate::element::RowView;
use crate::event::deletion_event;
use crate::event::events_of;
use crate::event::upsert_event;
use crate::event::EventKind;
use crate::event::EventView;
use crate::keys::distinct;
use crate::keys::lemma_position_distinct;
use crate::keys::lemma_position_is_first;
use crate::keys::position;
use crate::keys::record_keys;
use crate::keys::row_keys;
use crate::keys::repeats;
use crate::reconcile::changes;
use crate::reconcile::created_rows;
use crate::reconcile::fate_of;
use crate::reconcile::is_inserted;
use crate::reconcile::is_orphan;
use crate::reconcile::last_change;
use crate::reconcile::lemma_last_change;
use crate::reconcile::lemma_repeats_in_prefix;
use crate::reconcile::new_row;
use crate::reconcile::row_after;
use crate::reconcile::snapshot_after;
use crate::reconcile::upsert_of;
use crate::reconcile::witness_of;
use crate::reconcile::Fate;
use vstd::prelude::*;

verus! {

/// The events that are about the place `key`.
pub open spec fn about(key: ElementKey) -> spec_fn(EventView) -> bool {
    |e: EventView| e.element_id == key
}

/// The events of a list that are about the place `key`.
pub open spec fn events_about(events: Seq<EventView>, key: ElementKey) -> Seq<EventView> {
    events.filter(about(key))
}

/// Every fresh record of the key `key` has the payload `payload`.
pub open spec fn all_hold(fresh: Seq<RecordView>, key: ElementKey, payload: Seq<char>) -> bool {
    forall|g: int|
        0 <= g < fresh.len() && (#[trigger] fresh[g]).key() == key ==> fresh[g].payload == payload
}

/// The record at `f` is the only fresh record of its key.
pub open spec fn is_only(fresh: Seq<RecordView>, f: int) -> bool {
    forall|g: int| 0 <= g < fresh.len() && (#[trigger] fresh[g]).key() == fresh[f].key() ==> g == f
}

/// `x` gives rise to an event that `keep` accepts.
pub open spec fn hits<A>(
    make: spec_fn(A) -> Option<EventView>,
    keep: spec_fn(EventView) -> bool,
    x: A,
) -> bool {
    make(x) is Some && keep(make(x)->0)
}

/// Where at most one item of a list gives rise to an accepted event, the
/// list gives rise to one accepted event if some item does, and to none
/// otherwise.
pub proof fn lemma_single_source<A>(
    items: Seq<A>,
    make: spec_fn(A) -> Option<EventView>,
    keep: spec_fn(EventView) -> bool,
)
    requires
        forall|i: int, j: int|
            0 <= i < j < items.len() ==> !(#[trigger] hits(make, keep, items[i]) && #[trigger] hits(
                make,
                keep,
                items[j],
            )),
    ensures
        items.filter_map(make).filter(keep).len() == if exists|i: int|
            0 <= i < items.len() && #[trigger] hits(make, keep, items[i]) {
            1nat
        } else {
            0nat
        },
        forall|i: int|
            0 <= i < items.len() && #[trigger] hits(make, keep, items[i]) ==> items.filter_map(
                make,
            ).filter(keep) == seq![make(items[i])->0],
    decreases items.len(),
{
    reveal(Seq::filter);
    if items.len() == 0 {
    } else {
        let rest = items.drop_last();
        let last = items.last();
        assert forall|i: int, j: int| 0 <= i < j < rest.len() implies !(#[trigger] hits(
            make,
            keep,
            rest[i],
        ) && #[trigger] hits(make, keep, rest[j])) by {
            assert(rest[i] == items[i]);
            assert(rest[j] == items[j]);
        }
        lemma_single_source(rest, make, keep);
        let before = rest.filter_map(make);
        if hits(make, keep, last) {
            assert(hits(make, keep, items[items.len() - 1]));
            assert forall|i: int| 0 <= i < rest.len() implies !#[trigger] hits(
                make,
                keep,
                rest[i],
            ) by {
                assert(rest[i] == items[i]);
            }
            before.lemma_filter_push(make(last)->0, keep);
            assert(before + seq![make(last)->0] =~= before.push(make(last)->0));
            assert(before.filter(keep).len() == 0);
            assert(before.filter(keep) =~= Seq::<EventView>::empty());
            assert(items.filter_map(make).filter(keep) =~= seq![make(last)->0]);
        } else {
            if make(last) is Some {
                before.lemma_filter_push(make(last)->0, keep);
                assert(before + seq![make(last)->0] =~= before.push(make(last)->0));
            }
            assert(items.filter_map(make).filter(keep) == before.filter(keep));
            assert forall|i: int|
                0 <= i < items.len() && #[trigger] hits(make, keep, items[i]) implies 0 <= i
                < rest.len() && hits(make, keep, rest[i]) by {
                assert(i < items.len() - 1);
                assert(rest[i] == items[i]);
            }
            if exists|i: int| 0 <= i < rest.len() && #[trigger] hits(make, keep, rest[i]) {
                let i = choose|i: int| 0 <= i < rest.len() && #[trigger] hits(make, keep, rest[i]);
                assert(rest[i] == items[i]);
                assert(hits(make, keep, items[i]));
            }
        }
    }
}

/// The events of a cycle about one place, where no two fresh records give
/// rise to one: none, or one. A deletion is written for a live row that the
/// fresh dataset omits, a creation or an update for a fresh record that has
/// no row or another payload, and nothing else.
pub proof fn lemma_events_about(
    stored: Seq<RowView>,
    fresh: Seq<RecordView>,
    verified: Seq<RecordView>,
    now: i64,
    key: ElementKey,
)
    requires
        distinct(row_keys(stored)),
        forall|i: int, j: int|
            0 <= i < j < fresh.len() ==> !(#[trigger] hits(
                upsert_event(stored, now),
                about(key),
                fresh[i],
            ) && #[trigger] hits(upsert_event(stored, now), about(key), fresh[j])),
    ensures
        events_about(events_of(stored, fresh, verified, now), key).len() <= 1,
        forall|s: int|
            0 <= s < stored.len() && stored[s].key() == key && is_orphan(stored[s], fresh)
                ==> events_about(events_of(stored, fresh, verified, now), key) == seq![
                deletion_event(fresh, verified, now)(stored[s])->0,
            ],
        forall|f: int|
            0 <= f < fresh.len() && fresh[f].key() == key && upsert_event(stored, now)(fresh[f])
                is Some ==> events_about(events_of(stored, fresh, verified, now), key) == seq![
                upsert_event(stored, now)(fresh[f])->0,
            ],
        (forall|s: int|
            0 <= s < stored.len() && stored[s].key() == key ==> !is_orphan(stored[s], fresh))
            && (forall|f: int|
            0 <= f < fresh.len() && fresh[f].key() == key ==> upsert_event(stored, now)(fresh[f])
                is None) ==> events_about(events_of(stored, fresh, verified, now), key).len() == 0,
{
    let gone = deletion_event(fresh, verified, now);
    let come = upsert_event(stored, now);
    let keep = about(key);
    let deletions = stored.filter_map(gone);
    let changes = fresh.filter_map(come);
    assert forall|i: int, j: int| 0 <= i < j < stored.len() implies !(#[trigger] hits(
        gone,
        keep,
        stored[i],
    ) && #[trigger] hits(gone, keep, stored[j])) by {
        assert(row_keys(stored)[i] != row_keys(stored)[j]);
    }
    lemma_single_source(stored, gone, keep);
    lemma_single_source(fresh, come, keep);
    Seq::filter_distributes_over_add(deletions, changes, keep);
    assert(events_about(events_of(stored, fresh, verified, now), key) == deletions.filter(keep)
        + changes.filter(keep));
    if exists|s: int| 0 <= s < stored.len() && #[trigger] hits(gone, keep, stored[s]) {
        let s = choose|s: int| 0 <= s < stored.len() && #[trigger] hits(gone, keep, stored[s]);
        assert(is_orphan(stored[s], fresh));
        assert forall|f: int| 0 <= f < fresh.len() implies !#[trigger] hits(
            come,
            keep,
            fresh[f],
        ) by {
            if hits(come, keep, fresh[f]) {
                assert(record_keys(fresh)[f] == key);
                assert(record_keys(fresh).contains(key));
            }
        }
        assert(changes.filter(keep) =~= Seq::<EventView>::empty());
        assert(deletions.filter(keep) + changes.filter(keep) =~= deletions.filter(keep));
    }
    if !exists|s: int| 0 <= s < stored.len() && #[trigger] hits(gone, keep, stored[s]) {
        assert(deletions.filter(keep) =~= Seq::<EventView>::empty());
        assert(deletions.filter(keep) + changes.filter(keep) =~= changes.filter(keep));
    }
    assert forall|s: int|
        0 <= s < stored.len() && stored[s].key() == key && is_orphan(
            stored[s],
            fresh,
        ) implies events_about(events_of(stored, fresh, verified, now), key) == seq![
        gone(stored[s])->0,
    ] by {
        assert(hits(gone, keep, stored[s]));
    }
    assert forall|f: int|
        0 <= f < fresh.len() && fresh[f].key() == key && come(fresh[f])
            is Some implies events_about(events_of(stored, fresh, verified, now), key) == seq![
        come(fresh[f])->0,
    ] by {
        assert(hits(come, keep, fresh[f]));
        if exists|s: int| 0 <= s < stored.len() && #[trigger] hits(gone, keep, stored[s]) {
            let s = choose|s: int| 0 <= s < stored.len() && #[trigger] hits(gone, keep, stored[s]);
            assert(record_keys(fresh)[f] == key);
            assert(record_keys(fresh).contains(key));
        }
    }
    if (forall|s: int|
        0 <= s < stored.len() && stored[s].key() == key ==> !is_orphan(stored[s], fresh))
        && (forall|f: int|
        0 <= f < fresh.len() && fresh[f].key() == key ==> come(fresh[f]) is None) {
        assert forall|s: int| 0 <= s < stored.len() implies !#[trigger] hits(
            gone,
            keep,
            stored[s],
        ) by {}
        assert forall|f: int| 0 <= f < fresh.len() implies !#[trigger] hits(
            come,
            keep,
            fresh[f],
        ) by {}
    }
}

/// A cycle on a dataset that holds each key once writes at most one event
/// about one place.
pub proof fn law_one_event_per_place(
    stored: Seq<RowView>,
    fresh: Seq<RecordView>,
    verified: Seq<RecordView>,
    now: i64,
    key: ElementKey,
)
    requires
        distinct(row_keys(stored)),
        distinct(record_keys(fresh)),
    ensures
        events_about(events_of(stored, fresh, verified, now), key).len() <= 1,
{
    assert forall|i: int, j: int| 0 <= i < j < fresh.len() implies !(#[trigger] hits(
        upsert_event(stored, now),
        about(key),
        fresh[i],
    ) && #[trigger] hits(upsert_event(stored, now), about(key), fresh[j])) by {
        assert(record_keys(fresh)[i] != record_keys(fresh)[j]);
    }
    lemma_events_about(stored, fresh, verified, now, key);
}

/// A row keeps its key through a cycle.
pub proof fn lemma_row_keeps_key(stored: Seq<RowView>, fresh: Seq<RecordView>, now: i64, s: int)
    requires
        0 <= s < stored.len(),
    ensures
        row_after(stored, fresh, now, s).key() == stored[s].key(),
{
    lemma_last_change(fresh, stored[s]);
}

/// The rows that a cycle creates are those of the records for which a row
/// is inserted, and no two of them have the same key.
pub proof fn lemma_created_rows(stored: Seq<RowView>, fresh: Seq<RecordView>, now: i64)
    ensures
        distinct(row_keys(created_rows(stored, fresh, now))),
        forall|i: int|
            0 <= i < created_rows(stored, fresh, now).len() ==> exists|a: int|
                0 <= a < fresh.len() && is_inserted(stored, fresh, a) && #[trigger] created_rows(
                    stored,
                    fresh,
                    now,
                )[i] == new_row(#[trigger] fresh[a], now),
        forall|a: int|
            0 <= a < fresh.len() && is_inserted(stored, fresh, a) ==> created_rows(
                stored,
                fresh,
                now,
            ).contains(new_row(#[trigger] fresh[a], now)),
    decreases fresh.len(),
{
    if fresh.len() > 0 {
        let rest = fresh.drop_last();
        let last = fresh.last();
        let n = fresh.len() - 1;
        assert(rest =~= fresh.take(n));
        lemma_created_rows(stored, rest, now);
        let before = created_rows(stored, rest, now);
        let out = created_rows(stored, fresh, now);
        assert forall|a: int| 0 <= a < rest.len() implies is_inserted(stored, rest, a)
            == is_inserted(stored, fresh, a) && rest[a] == fresh[a] by {
            lemma_repeats_in_prefix(fresh, n, a);
        }
        assert forall|i: int| 0 <= i < before.len() implies exists|a: int|
            0 <= a < n && is_inserted(stored, fresh, a) && #[trigger] before[i] == new_row(
                #[trigger] fresh[a],
                now,
            ) by {
            let a = choose|a: int|
                0 <= a < rest.len() && is_inserted(stored, rest, a) && before[i] == new_row(
                    #[trigger] rest[a],
                    now,
                );
            assert(rest[a] == fresh[a]);
        }
        if is_inserted(stored, fresh, n) {
            assert(out =~= before.push(new_row(last, now)));
            assert forall|i: int| 0 <= i < before.len() implies (#[trigger] before[i]).key()
                != last.key() by {
                let a = choose|a: int|
                    0 <= a < n && is_inserted(stored, fresh, a) && before[i] == new_row(
                        #[trigger] fresh[a],
                        now,
                    );
                if before[i].key() == last.key() {
                    assert(record_keys(fresh)[a] == record_keys(fresh)[n]);
                    assert(repeats(record_keys(fresh), n));
                }
            }
            assert forall|i: int, j: int| 0 <= i < j < out.len() implies row_keys(out)[i]
                != row_keys(out)[j] by {
                if j < before.len() {
                    assert(row_keys(before)[i] != row_keys(before)[j]);
                } else {
                    assert(out[j].key() == last.key());
                    assert(out[i] == before[i]);
                }
            }
            assert forall|i: int| 0 <= i < out.len() implies exists|a: int|
                0 <= a < fresh.len() && is_inserted(stored, fresh, a) && #[trigger] out[i]
                    == new_row(#[trigger] fresh[a], now) by {
                if i < before.len() {
                    assert(out[i] == before[i]);
                    let a = choose|a: int|
                        0 <= a < n && is_inserted(stored, fresh, a) && before[i] == new_row(
                            #[trigger] fresh[a],
                            now,
                        );
                    assert(out[i] == new_row(fresh[a], now));
                } else {
                    assert(out[i] == new_row(fresh[n], now));
                }
            }
            assert forall|a: int|
                0 <= a < fresh.len() && is_inserted(stored, fresh, a) implies out.contains(
                new_row(#[trigger] fresh[a], now),
            ) by {
                if a < n {
                    assert(is_inserted(stored, rest, a));
                    assert(before.contains(new_row(rest[a], now)));
                    let k = choose|k: int| 0 <= k < before.len() && before[k] == new_row(rest[a], now);
                    assert(out[k] == before[k]);
                } else {
                    assert(out[out.len() - 1] == new_row(fresh[a], now));
                }
            }
        } else {
            assert(out =~= before);
            assert forall|i: int| 0 <= i < out.len() implies exists|a: int|
                0 <= a < fresh.len() && is_inserted(stored, fresh, a) && #[trigger] out[i]
                    == new_row(#[trigger] fresh[a], now) by {
                let a = choose|a: int|
                    0 <= a < n && is_inserted(stored, fresh, a) && before[i] == new_row(
                        #[trigger] fresh[a],
                        now,
                    );
                assert(out[i] == new_row(fresh[a], now));
            }
            assert forall|a: int|
                0 <= a < fresh.len() && is_inserted(stored, fresh, a) implies out.contains(
                new_row(#[trigger] fresh[a], now),
            ) by {
                assert(a < n);
                assert(is_inserted(stored, rest, a));
                assert(before.contains(new_row(rest[a], now)));
            }
        }
    }
}

/// A cycle leaves every stored row at its place with its key, and the
/// snapshot after it holds no key twice, whatever the fresh dataset repeats.
pub proof fn law_snapshot_keeps_keys_distinct(
    stored: Seq<RowView>,
    fresh: Seq<RecordView>,
    now: i64,
)
    requires
        distinct(row_keys(stored)),
    ensures
        snapshot_after(stored, fresh, now).len() >= stored.len(),
        forall|s: int|
            0 <= s < stored.len() ==> #[trigger] snapshot_after(stored, fresh, now)[s].key()
                == stored[s].key(),
        distinct(row_keys(snapshot_after(stored, fresh, now))),
{
    let after = snapshot_after(stored, fresh, now);
    let created = created_rows(stored, fresh, now);
    lemma_created_rows(stored, fresh, now);
    assert forall|s: int| 0 <= s < stored.len() implies #[trigger] after[s].key()
        == stored[s].key() by {
        lemma_row_keeps_key(stored, fresh, now, s);
    }
    assert forall|i: int, j: int| 0 <= i < j < after.len() implies row_keys(after)[i] != row_keys(
        after,
    )[j] by {
        if j < stored.len() {
            assert(after[i].key() == stored[i].key());
            assert(after[j].key() == stored[j].key());
            assert(row_keys(stored)[i] != row_keys(stored)[j]);
        } else if i < stored.len() {
            assert(after[i].key() == stored[i].key());
            let row = created[j - stored.len()];
            assert(after[j] == row);
            let a = choose|a: int|
                0 <= a < fresh.len() && is_inserted(stored, fresh, a) && row == new_row(
                    #[trigger] fresh[a],
                    now,
                );
            assert(row_keys(stored)[i] == stored[i].key());
            assert(row_keys(stored).contains(stored[i].key()));
        } else {
            assert(after[i] == created[i - stored.len()]);
            assert(after[j] == created[j - stored.len()]);
            assert(row_keys(created)[i - stored.len()] != row_keys(created)[j - stored.len()]);
        }
    }
}

/// After a cycle every key of the fresh dataset has a row, and every row
/// that the cycle created is live and has a key of the fresh dataset that no
/// row had before; so with a stored snapshot that holds each key once, the
/// snapshot grows by one row for each new key.
pub proof fn law_every_fetched_key_has_a_row(
    stored: Seq<RowView>,
    fresh: Seq<RecordView>,
    now: i64,
)
    ensures
        snapshot_after(stored, fresh, now).len() == stored.len() + created_rows(
            stored,
            fresh,
            now,
        ).len(),
        forall|f: int|
            0 <= f < fresh.len() ==> row_keys(snapshot_after(stored, fresh, now)).contains(
                (#[trigger] fresh[f]).key(),
            ),
        forall|i: int|
            stored.len() <= i < snapshot_after(stored, fresh, now).len() ==> {
                &&& record_keys(fresh).contains(
                    (#[trigger] snapshot_after(stored, fresh, now)[i]).key(),
                )
                &&& !row_keys(stored).contains(snapshot_after(stored, fresh, now)[i].key())
                &&& snapshot_after(stored, fresh, now)[i].deleted_at is None
                &&& snapshot_after(stored, fresh, now)[i].created_at == now
            },
{
    let after = snapshot_after(stored, fresh, now);
    let created = created_rows(stored, fresh, now);
    lemma_created_rows(stored, fresh, now);
    assert forall|f: int| 0 <= f < fresh.len() implies row_keys(after).contains(
        (#[trigger] fresh[f]).key(),
    ) by {
        let key = fresh[f].key();
        if row_keys(stored).contains(key) {
            let s = choose|s: int| 0 <= s < row_keys(stored).len() && row_keys(stored)[s] == key;
            lemma_row_keeps_key(stored, fresh, now, s);
            assert(row_keys(after)[s] == key);
        } else {
            assert(record_keys(fresh)[f] == key);
            assert(record_keys(fresh).contains(key));
            lemma_position_is_first(record_keys(fresh), key);
            let a = position(record_keys(fresh), key)->0;
            assert(fresh[a].key() == key);
            assert(!repeats(record_keys(fresh), a)) by {
                if repeats(record_keys(fresh), a) {
                    let i = choose|i: int|
                        0 <= i < a && record_keys(fresh)[i] == record_keys(fresh)[a];
                    assert(record_keys(fresh)[i] != key);
                }
            }
            assert(is_inserted(stored, fresh, a));
            let k = choose|k: int| 0 <= k < created.len() && created[k] == new_row(fresh[a], now);
            assert(after[stored.len() + k] == created[k]);
            assert(row_keys(after)[stored.len() + k] == key);
        }
    }
    assert forall|i: int| stored.len() <= i < after.len() implies {
        &&& record_keys(fresh).contains((#[trigger] after[i]).key())
        &&& !row_keys(stored).contains(after[i].key())
        &&& after[i].deleted_at is None
        &&& after[i].created_at == now
    } by {
        let row = created[i - stored.len()];
        assert(after[i] == row);
        let a = choose|a: int|
            0 <= a < fresh.len() && is_inserted(stored, fresh, a) && row == new_row(
                #[trigger] fresh[a],
                now,
            );
        assert(record_keys(fresh)[a] == row.key());
    }
}

/// A row of a key that the fresh dataset holds ends with the last record of
/// that key that differs from it as it is stored, and is live.
pub proof fn law_row_ends_with_last_differing_record(
    stored: Seq<RowView>,
    fresh: Seq<RecordView>,
    now: i64,
    s: int,
    f: int,
)
    requires
        0 <= s < stored.len(),
        0 <= f < fresh.len(),
        changes(stored[s], fresh[f]),
        forall|g: int| f < g < fresh.len() ==> !changes(stored[s], #[trigger] fresh[g]),
    ensures
        snapshot_after(stored, fresh, now)[s].data == fresh[f],
        snapshot_after(stored, fresh, now)[s].deleted_at is None,
        snapshot_after(stored, fresh, now)[s].created_at == stored[s].created_at,
        snapshot_after(stored, fresh, now)[s].updated_at == now,
{
    lemma_last_change(fresh, stored[s]);
    assert(record_keys(fresh)[f] == stored[s].key());
}

/// A live row all of whose records come again with the same payload is left
/// alone: neither pass touches it, no event is written about it, and the
/// row stays as it is, its time of update included.
pub proof fn law_same_payload_is_silent(
    stored: Seq<RowView>,
    fresh: Seq<RecordView>,
    verified: Seq<RecordView>,
    now: i64,
    s: int,
    f: int,
)
    requires
        distinct(row_keys(stored)),
        0 <= s < stored.len(),
        0 <= f < fresh.len(),
        !stored[s].is_deleted(),
        fresh[f].key() == stored[s].key(),
        all_hold(fresh, stored[s].key(), stored[s].data.payload),
    ensures
        fate_of(stored, fresh, verified, s) == Fate::Untouched,
        upsert_of(stored, fresh[f]) is Unchanged,
        events_about(events_of(stored, fresh, verified, now), stored[s].key()).len() == 0,
        snapshot_after(stored, fresh, now)[s] == stored[s],
{
    let key = stored[s].key();
    lemma_position_distinct(row_keys(stored), s);
    lemma_last_change(fresh, stored[s]);
    assert(record_keys(fresh)[f] == key);
    assert(row_keys(stored)[s] == key);
    assert forall|t: int| 0 <= t < stored.len() && stored[t].key() == key implies !is_orphan(
        stored[t],
        fresh,
    ) by {}
    assert forall|g: int| 0 <= g < fresh.len() && fresh[g].key() == key implies upsert_event(
        stored,
        now,
    )(fresh[g]) is None by {}
    assert forall|i: int, j: int| 0 <= i < j < fresh.len() implies !(#[trigger] hits(
        upsert_event(stored, now),
        about(key),
        fresh[i],
    ) && #[trigger] hits(upsert_event(stored, now), about(key), fresh[j])) by {}
    lemma_events_about(stored, fresh, verified, now, key);
}

/// A live row that the fresh dataset omits is soft-deleted by a cycle that
/// goes through, whatever else the dataset holds: the row is marked at the
/// time of the cycle and otherwise kept, and exactly one event is written
/// about the place, a deletion. It is attributed to the mapper of the
/// secondary record of the place, and to the unknown actor where there is
/// no such record.
pub proof fn law_omitted_row_is_deleted_once(
    stored: Seq<RowView>,
    fresh: Seq<RecordView>,
    verified: Seq<RecordView>,
    now: i64,
    s: int,
)
    requires
        distinct(row_keys(stored)),
        0 <= s < stored.len(),
        !stored[s].is_deleted(),
        !record_keys(fresh).contains(stored[s].key()),
    ensures
        fate_of(stored, fresh, verified, s) is Deleted,
        snapshot_after(stored, fresh, now)[s].deleted_at == Some(now),
        snapshot_after(stored, fresh, now)[s].data == stored[s].data,
        snapshot_after(stored, fresh, now)[s].created_at == stored[s].created_at,
        events_about(events_of(stored, fresh, verified, now), stored[s].key()).len() == 1,
        events_about(events_of(stored, fresh, verified, now), stored[s].key())[0].event_type
            == EventKind::Delete,
        witness_of(verified, stored[s].key()) is None ==> {
            &&& events_about(events_of(stored, fresh, verified, now), stored[s].key())[0].user_id
                == 0
            &&& events_about(events_of(stored, fresh, verified, now), stored[s].key())[0].user
                == Seq::<char>::empty()
        },
        witness_of(verified, stored[s].key()) is Some ==> {
            &&& events_about(events_of(stored, fresh, verified, now), stored[s].key())[0].user_id
                == verified[witness_of(verified, stored[s].key())->0].uid
            &&& events_about(events_of(stored, fresh, verified, now), stored[s].key())[0].user
                == verified[witness_of(verified, stored[s].key())->0].user
        },
{
    let key = stored[s].key();
    assert forall|f: int| 0 <= f < fresh.len() implies !#[trigger] hits(
        upsert_event(stored, now),
        about(key),
        fresh[f],
    ) by {
        if fresh[f].key() == key {
            assert(record_keys(fresh)[f] == key);
        }
    }
    lemma_events_about(stored, fresh, verified, now, key);
    assert(is_orphan(stored[s], fresh));
}

/// A soft-deleted row whose key comes again is revived, whatever else the
/// dataset holds: the row stays at its place with its key and is live after
/// the cycle, and no row is inserted for a record of its key. Where all
/// records of the key have the payload of the row, no event is written about
/// the place; where the record is the only one of its key and brings another
/// payload, the row takes it and one event is written, an update.
pub proof fn law_returning_row_is_revived(
    stored: Seq<RowView>,
    fresh: Seq<RecordView>,
    verified: Seq<RecordView>,
    now: i64,
    s: int,
    f: int,
)
    requires
        distinct(row_keys(stored)),
        0 <= s < stored.len(),
        0 <= f < fresh.len(),
        stored[s].is_deleted(),
        fresh[f].key() == stored[s].key(),
    ensures
        snapshot_after(stored, fresh, now)[s].deleted_at is None,
        snapshot_after(stored, fresh, now)[s].key() == stored[s].key(),
        snapshot_after(stored, fresh, now)[s].created_at == stored[s].created_at,
        distinct(row_keys(snapshot_after(stored, fresh, now))),
        !(upsert_of(stored, fresh[f]) is Created),
        !is_inserted(stored, fresh, f),
        fate_of(stored, fresh, verified, s) == Fate::Untouched,
        all_hold(fresh, stored[s].key(), stored[s].data.payload) ==> {
            &&& snapshot_after(stored, fresh, now)[s].data == stored[s].data
            &&& events_about(events_of(stored, fresh, verified, now), stored[s].key()).len() == 0
        },
        is_only(fresh, f) && fresh[f].payload != stored[s].data.payload ==> {
            &&& snapshot_after(stored, fresh, now)[s].data == fresh[f]
            &&& events_about(events_of(stored, fresh, verified, now), stored[s].key()).len() == 1
            &&& events_about(events_of(stored, fresh, verified, now), stored[s].key())[0].event_type
                == EventKind::Update
        },
{
    let key = stored[s].key();
    lemma_position_distinct(row_keys(stored), s);
    lemma_last_change(fresh, stored[s]);
    assert(record_keys(fresh)[f] == key);
    assert(row_keys(stored)[s] == key);
    assert(row_keys(stored).contains(key));
    law_snapshot_keeps_keys_distinct(stored, fresh, now);
    assert forall|t: int| 0 <= t < stored.len() && stored[t].key() == key implies !is_orphan(
        stored[t],
        fresh,
    ) by {}
    if all_hold(fresh, key, stored[s].data.payload) {
        assert forall|g: int| 0 <= g < fresh.len() && fresh[g].key() == key implies upsert_event(
            stored,
            now,
        )(fresh[g]) is None by {}
        assert forall|i: int, j: int| 0 <= i < j < fresh.len() implies !(#[trigger] hits(
            upsert_event(stored, now),
            about(key),
            fresh[i],
        ) && #[trigger] hits(upsert_event(stored, now), about(key), fresh[j])) by {}
        lemma_events_about(stored, fresh, verified, now, key);
    }
    if is_only(fresh, f) && fresh[f].payload != stored[s].data.payload {
        assert forall|i: int, j: int| 0 <= i < j < fresh.len() implies !(#[trigger] hits(
            upsert_event(stored, now),
            about(key),
            fresh[i],
        ) && #[trigger] hits(upsert_event(stored, now), about(key), fresh[j])) by {}
        lemma_events_about(stored, fresh, verified, now, key);
        assert(upsert_event(stored, now)(fresh[f]) is Some);
        assert(changes(stored[s], fresh[f]));
    }
}

/// A list none of whose items gives rise to anything gives rise to nothing.
pub proof fn lemma_filter_map_none<A, B>(items: Seq<A>, make: spec_fn(A) -> Option<B>)
    requires
        forall|i: int| 0 <= i < items.len() ==> make(#[trigger] items[i]) is None,
    ensures
        items.filter_map(make) == Seq::<B>::empty(),
    decreases items.len(),
{
    if items.len() > 0 {
        let rest = items.drop_last();
        assert forall|i: int| 0 <= i < rest.len() implies make(#[trigger] rest[i]) is None by {
            assert(rest[i] == items[i]);
        }
        lemma_filter_map_none(rest, make);
        assert(make(items[items.len() - 1]) is None);
    }
}

/// After a cycle on a dataset that holds each key once, every row is either
/// live with the payload that the dataset has for its key, or soft-deleted
/// with a key that the dataset does not hold; and every fresh record has a
/// row.
pub proof fn lemma_snapshot_agrees_with_dataset(
    stored: Seq<RowView>,
    fresh: Seq<RecordView>,
    now: i64,
)
    requires
        distinct(row_keys(stored)),
        distinct(record_keys(fresh)),
    ensures
        forall|i: int|
            0 <= i < snapshot_after(stored, fresh, now).len() ==> match position(
                record_keys(fresh),
                (#[trigger] snapshot_after(stored, fresh, now)[i]).key(),
            ) {
                Some(f) => !snapshot_after(stored, fresh, now)[i].is_deleted() && snapshot_after(
                    stored,
                    fresh,
                    now,
                )[i].data.payload == fresh[f].payload,
                None => snapshot_after(stored, fresh, now)[i].is_deleted(),
            },
        forall|f: int|
            0 <= f < fresh.len() ==> row_keys(snapshot_after(stored, fresh, now)).contains(
                (#[trigger] fresh[f]).key(),
            ),
{
    let after = snapshot_after(stored, fresh, now);
    let created = created_rows(stored, fresh, now);
    lemma_created_rows(stored, fresh, now);
    assert forall|i: int| 0 <= i < after.len() implies match position(
        record_keys(fresh),
        (#[trigger] after[i]).key(),
    ) {
        Some(f) => !after[i].is_deleted() && after[i].data.payload == fresh[f].payload,
        None => after[i].is_deleted(),
    } by {
        if i < stored.len() {
            let row = stored[i];
            lemma_row_keeps_key(stored, fresh, now, i);
            lemma_position_is_first(record_keys(fresh), row.key());
            lemma_last_change(fresh, row);
            match position(record_keys(fresh), row.key()) {
                Some(f) => {
                    assert(record_keys(fresh)[f] == row.key());
                    assert(record_keys(fresh).contains(row.key()));
                    match last_change(fresh, row) {
                        Some(c) => {
                            assert(record_keys(fresh)[c] == row.key());
                            lemma_position_distinct(record_keys(fresh), c);
                        },
                        None => {
                            assert(!changes(row, fresh[f]));
                        },
                    }
                },
                None => {},
            }
        } else {
            let row = created[i - stored.len()];
            assert(after[i] == row);
            let a = choose|a: int|
                0 <= a < fresh.len() && is_inserted(stored, fresh, a) && row == new_row(
                    #[trigger] fresh[a],
                    now,
                );
            assert(record_keys(fresh)[a] == row.key());
            lemma_position_distinct(record_keys(fresh), a);
        }
    }
    assert forall|f: int| 0 <= f < fresh.len() implies row_keys(after).contains(
        (#[trigger] fresh[f]).key(),
    ) by {
        let key = fresh[f].key();
        if row_keys(stored).contains(key) {
            let s = choose|s: int| 0 <= s < row_keys(stored).len() && row_keys(stored)[s] == key;
            lemma_row_keeps_key(stored, fresh, now, s);
            assert(row_keys(after)[s] == key);
        } else {
            assert(!repeats(record_keys(fresh), f)) by {
                if repeats(record_keys(fresh), f) {
                    let i = choose|i: int|
                        0 <= i < f && record_keys(fresh)[i] == record_keys(fresh)[f];
                    assert(record_keys(fresh)[i] != record_keys(fresh)[f]);
                }
            }
            assert(is_inserted(stored, fresh, f));
            let k = choose|k: int| 0 <= k < created.len() && created[k] == new_row(fresh[f], now);
            assert(after[stored.len() + k] == created[k]);
            assert(row_keys(after)[stored.len() + k] == key);
        }
    }
}

/// Where no row is inserted for any record, the cycle creates no row.
pub proof fn lemma_nothing_created(stored: Seq<RowView>, fresh: Seq<RecordView>, now: i64)
    requires
        forall|f: int| 0 <= f < fresh.len() ==> row_keys(stored).contains((#[trigger] fresh[f]).key()),
    ensures
        created_rows(stored, fresh, now) == Seq::<RowView>::empty(),
    decreases fresh.len(),
{
    if fresh.len() > 0 {
        let rest = fresh.drop_last();
        assert forall|f: int| 0 <= f < rest.len() implies row_keys(stored).contains(
            (#[trigger] rest[f]).key(),
        ) by {
            assert(rest[f] == fresh[f]);
        }
        lemma_nothing_created(stored, rest, now);
        assert(row_keys(stored).contains(fresh[fresh.len() - 1].key()));
    }
}

/// A second cycle with the dataset of the first, which holds each key once,
/// changes nothing: it writes no event and leaves every row of the snapshot
/// as the first cycle left it.
pub proof fn law_second_cycle_changes_nothing(
    stored: Seq<RowView>,
    fresh: Seq<RecordView>,
    verified: Seq<RecordView>,
    first: i64,
    second: i64,
)
    requires
        distinct(row_keys(stored)),
        distinct(record_keys(fresh)),
    ensures
        events_of(snapshot_after(stored, fresh, first), fresh, verified, second).len() == 0,
        snapshot_after(snapshot_after(stored, fresh, first), fresh, second) == snapshot_after(
            stored,
            fresh,
            first,
        ),
        forall|s: int|
            0 <= s < snapshot_after(stored, fresh, first).len() ==> fate_of(
                snapshot_after(stored, fresh, first),
                fresh,
                verified,
                s,
            ) == Fate::Untouched,
        forall|f: int|
            0 <= f < fresh.len() ==> upsert_of(
                snapshot_after(stored, fresh, first),
                #[trigger] fresh[f],
            ) is Unchanged,
{
    let after = snapshot_after(stored, fresh, first);
    lemma_snapshot_agrees_with_dataset(stored, fresh, first);
    law_snapshot_keeps_keys_distinct(stored, fresh, first);
    let gone = deletion_event(fresh, verified, second);
    let come = upsert_event(after, second);
    assert forall|s: int| 0 <= s < after.len() implies !is_orphan(#[trigger] after[s], fresh) by {
        lemma_position_is_first(record_keys(fresh), after[s].key());
    }
    assert forall|s: int| 0 <= s < after.len() implies gone(#[trigger] after[s]) is None by {
        assert(!is_orphan(after[s], fresh));
    }
    assert forall|f: int| 0 <= f < fresh.len() implies upsert_of(after, #[trigger] fresh[f])
        is Unchanged by {
        let key = fresh[f].key();
        assert(row_keys(after).contains(key));
        lemma_position_is_first(row_keys(after), key);
        let r = position(row_keys(after), key)->0;
        assert(after[r].key() == key);
        assert(record_keys(fresh)[f] == key);
        lemma_position_distinct(record_keys(fresh), f);
    }
    assert forall|f: int| 0 <= f < fresh.len() implies come(#[trigger] fresh[f]) is None by {
        assert(upsert_of(after, fresh[f]) is Unchanged);
    }
    lemma_filter_map_none(after, gone);
    lemma_filter_map_none(fresh, come);
    lemma_nothing_created(after, fresh, second);
    assert forall|s: int| 0 <= s < after.len() implies row_after(after, fresh, second, s)
        == after[s] by {
        let row = after[s];
        lemma_position_is_first(record_keys(fresh), row.key());
        lemma_last_change(fresh, row);
        match position(record_keys(fresh), row.key()) {
            Some(f) => {
                assert(record_keys(fresh)[f] == row.key());
                assert(record_keys(fresh).contains(row.key()));
                assert forall|g: int| 0 <= g < fresh.len() implies !changes(
                    row,
                    #[trigger] fresh[g],
                ) by {
                    if fresh[g].key() == row.key() {
                        assert(record_keys(fresh)[g] == row.key());
                        lemma_position_distinct(record_keys(fresh), g);
                    }
                }
            },
            None => {},
        }
    }
    assert(snapshot_after(after, fresh, second) =~= after);
    assert forall|s: int| 0 <= s < after.len() implies fate_of(after, fresh, verified, s)
        == Fate::Untouched by {
        assert(!is_orphan(after[s], fresh));
    }
}

} // verus!
