use btcmap::element::Element;
use btcmap::element::ElementKey;
use btcmap::element::ElementKind;
use btcmap::element::OverpassElement;
use btcmap::element::Tag;
use btcmap::event::EventKind;
use btcmap::reconcile::deletion_candidates;
use btcmap::reconcile::is_still_accepted;
use btcmap::reconcile::reconcile;
use btcmap::reconcile::Fate;
use btcmap::reconcile::ReconcileError;
use btcmap::reconcile::Summary;
use btcmap::reconcile::Upsert;

fn tag(name: &str, value: &str) -> Tag {
    Tag { name: name.to_string(), value: value.to_string() }
}

fn record(kind: ElementKind, id: i64, tags: Vec<Tag>, payload: &str) -> OverpassElement {
    OverpassElement {
        kind,
        id,
        tags,
        uid: 0,
        user: String::new(),
        visible: true,
        payload: payload.to_string(),
    }
}

fn node(id: i64, tags: Vec<Tag>, payload: &str) -> OverpassElement {
    record(ElementKind::Node, id, tags, payload)
}

fn row(data: OverpassElement, deleted_at: Option<i64>) -> Element {
    Element { data, created_at: 100, updated_at: 200, deleted_at }
}

const NODE_1: ElementKey = ElementKey { kind: ElementKind::Node, id: 1 };

#[test]
fn first_sighting_creates_row_and_event() {
    let fresh = vec![OverpassElement {
        uid: 42,
        user: "alice".to_string(),
        ..node(1, vec![tag("payment:onchain", "yes"), tag("name", "Cafe")], "{\"id\":1}")
    }];
    let plan = reconcile(&vec![], &fresh, &vec![], 1_700_000_000).unwrap();
    assert_eq!(plan.upserts, vec![Upsert::Created]);
    assert!(plan.fates.is_empty());
    assert_eq!(plan.summary, Summary { created: 1, updated: 0, deleted: 0 });
    assert_eq!(plan.events.len(), 1);
    let event = &plan.events[0];
    assert_eq!(event.event_type, EventKind::Create);
    assert_eq!(event.element_id, NODE_1);
    assert_eq!(event.element_name, "Cafe");
    assert_eq!(event.user_id, 42);
    assert_eq!(event.user, "alice");
    assert_eq!(event.date, 1_700_000_000);
    assert_eq!(plan.snapshot.len(), 1);
    assert_eq!(plan.snapshot[0].data.payload, "{\"id\":1}");
    assert_eq!(plan.snapshot[0].created_at, 1_700_000_000);
    assert_eq!(plan.snapshot[0].updated_at, 1_700_000_000);
    assert_eq!(plan.snapshot[0].deleted_at, None);
}

#[test]
fn omitted_row_is_deleted_when_secondary_source_agrees() {
    let stored = vec![row(node(1, vec![tag("name", "Old Shop")], "{\"id\":1}"), None)];
    let verified = vec![OverpassElement {
        uid: 7,
        user: "bob".to_string(),
        ..node(1, vec![tag("currency:XBT", "no")], "{\"id\":1,\"v\":2}")
    }];
    assert_eq!(deletion_candidates(&stored, &vec![]), vec![0]);
    let plan = reconcile(&stored, &vec![], &verified, 900).unwrap();
    assert_eq!(plan.fates, vec![Fate::Deleted { witness: Some(0) }]);
    assert_eq!(plan.summary, Summary { created: 0, updated: 0, deleted: 1 });
    assert_eq!(plan.events.len(), 1);
    assert_eq!(plan.events[0].event_type, EventKind::Delete);
    assert_eq!(plan.events[0].element_id, NODE_1);
    assert_eq!(plan.events[0].element_name, "Old Shop");
    assert_eq!(plan.events[0].user_id, 7);
    assert_eq!(plan.events[0].user, "bob");
    assert_eq!(plan.snapshot.len(), 1);
    assert_eq!(plan.snapshot[0].deleted_at, Some(900));
    assert_eq!(plan.snapshot[0].updated_at, 900);
    assert_eq!(plan.snapshot[0].created_at, 100);
    assert_eq!(plan.snapshot[0].data.payload, "{\"id\":1}");
}

#[test]
fn omitted_row_without_secondary_record_is_deleted_by_unknown_actor() {
    let stored = vec![row(node(1, vec![], "{}"), None)];
    let plan = reconcile(&stored, &vec![], &vec![], 900).unwrap();
    assert_eq!(plan.fates, vec![Fate::Deleted { witness: None }]);
    assert_eq!(plan.events.len(), 1);
    assert_eq!(plan.events[0].element_name, "Unnamed element");
    assert_eq!(plan.events[0].user_id, 0);
    assert_eq!(plan.events[0].user, "");
}

#[test]
fn record_removed_upstream_does_not_dispute_deletion() {
    let stored = vec![row(node(1, vec![], "{}"), None)];
    let verified = vec![OverpassElement {
        visible: false,
        ..node(1, vec![tag("currency:XBT", "yes")], "{}")
    }];
    assert!(!is_still_accepted(&verified[0]));
    let plan = reconcile(&stored, &vec![], &verified, 900).unwrap();
    assert_eq!(plan.fates, vec![Fate::Deleted { witness: Some(0) }]);
}

#[test]
fn disputed_deletion_abandons_the_cycle() {
    let stored = vec![
        row(node(1, vec![], "{\"id\":1}"), None),
        row(node(2, vec![], "{\"id\":2}"), None),
        row(node(3, vec![], "{\"id\":3}"), None),
    ];
    let fresh = vec![node(1, vec![], "{\"id\":1}"), node(9, vec![], "{\"id\":9}")];
    let verified = vec![
        node(3, vec![tag("payment:bitcoin", "yes")], "{}"),
        node(2, vec![tag("currency:XBT", "no")], "{}"),
    ];
    assert_eq!(deletion_candidates(&stored, &fresh), vec![1, 2]);
    assert!(is_still_accepted(&verified[0]));
    assert!(!is_still_accepted(&verified[1]));
    match reconcile(&stored, &fresh, &verified, 900) {
        Err(e) => assert_eq!(e, ReconcileError::Contradiction { row: 2, witness: 0 }),
        Ok(_) => panic!("the cycle went through"),
    }
}

#[test]
fn legacy_tag_disputes_deletion_too() {
    let stored = vec![row(node(1, vec![], "{}"), None)];
    let verified = vec![node(1, vec![tag("currency:XBT", "yes")], "{}")];
    match reconcile(&stored, &vec![], &verified, 900) {
        Err(e) => assert_eq!(e, ReconcileError::Contradiction { row: 0, witness: 0 }),
        Ok(_) => panic!("the cycle went through"),
    }
}

#[test]
fn returning_row_is_revived_without_event() {
    let stored = vec![row(node(1, vec![], "{\"id\":1}"), Some(500))];
    let fresh = vec![node(1, vec![], "{\"id\":1}")];
    assert!(deletion_candidates(&stored, &fresh).is_empty());
    let plan = reconcile(&stored, &fresh, &vec![], 900).unwrap();
    assert_eq!(plan.fates, vec![Fate::Untouched]);
    assert_eq!(plan.upserts, vec![Upsert::Revived { row: 0 }]);
    assert_eq!(plan.summary, Summary { created: 0, updated: 0, deleted: 0 });
    assert!(plan.events.is_empty());
    assert_eq!(plan.snapshot.len(), 1);
    assert_eq!(plan.snapshot[0].deleted_at, None);
    assert_eq!(plan.snapshot[0].updated_at, 900);
    assert_eq!(plan.snapshot[0].data.key(), NODE_1);
}

#[test]
fn returning_row_with_new_payload_is_one_update() {
    let stored = vec![row(node(1, vec![tag("name", "Old")], "{\"v\":1}"), Some(500))];
    let fresh = vec![OverpassElement {
        uid: 3,
        user: "carol".to_string(),
        ..node(1, vec![tag("name", "New")], "{\"v\":2}")
    }];
    let plan = reconcile(&stored, &fresh, &vec![], 900).unwrap();
    assert_eq!(plan.upserts, vec![Upsert::Updated { row: 0, revived: true }]);
    assert_eq!(plan.summary, Summary { created: 0, updated: 1, deleted: 0 });
    assert_eq!(plan.events.len(), 1);
    assert_eq!(plan.events[0].event_type, EventKind::Update);
    assert_eq!(plan.events[0].element_name, "New");
    assert_eq!(plan.events[0].user_id, 3);
    assert_eq!(plan.snapshot.len(), 1);
    assert_eq!(plan.snapshot[0].deleted_at, None);
    assert_eq!(plan.snapshot[0].data.payload, "{\"v\":2}");
    assert_eq!(plan.snapshot[0].created_at, 100);
}

#[test]
fn identical_payload_changes_nothing() {
    let stored = vec![row(node(1, vec![], "{\"id\":1}"), None)];
    let fresh = vec![node(1, vec![], "{\"id\":1}")];
    let plan = reconcile(&stored, &fresh, &vec![], 900).unwrap();
    assert_eq!(plan.fates, vec![Fate::Untouched]);
    assert_eq!(plan.upserts, vec![Upsert::Unchanged { row: 0 }]);
    assert_eq!(plan.summary, Summary { created: 0, updated: 0, deleted: 0 });
    assert!(plan.events.is_empty());
    assert_eq!(plan.snapshot[0].updated_at, 200);
    assert_eq!(plan.snapshot[0].deleted_at, None);
}

#[test]
fn soft_deleted_row_that_stays_away_is_left_alone() {
    let stored = vec![row(node(1, vec![], "{}"), Some(500))];
    let plan = reconcile(&stored, &vec![], &vec![], 900).unwrap();
    assert_eq!(plan.fates, vec![Fate::Untouched]);
    assert!(plan.events.is_empty());
    assert_eq!(plan.snapshot[0].deleted_at, Some(500));
    assert_eq!(plan.snapshot[0].updated_at, 200);
}

#[test]
fn same_id_of_another_kind_is_another_place() {
    let stored = vec![row(node(1, vec![], "{}"), None)];
    let fresh = vec![record(ElementKind::Way, 1, vec![], "{}")];
    let plan = reconcile(&stored, &fresh, &vec![], 900).unwrap();
    assert_eq!(plan.fates, vec![Fate::Deleted { witness: None }]);
    assert_eq!(plan.upserts, vec![Upsert::Created]);
    assert_eq!(plan.summary, Summary { created: 1, updated: 0, deleted: 1 });
    assert_eq!(plan.events.len(), 2);
    assert_eq!(plan.events[0].event_type, EventKind::Delete);
    assert_eq!(plan.events[1].event_type, EventKind::Create);
    assert_eq!(plan.snapshot.len(), 2);
    assert_eq!(plan.snapshot[1].data.kind, ElementKind::Way);
}

#[test]
fn repeated_record_of_a_stored_key_does_not_stop_the_cycle() {
    let stored = vec![row(node(1, vec![], "a"), None), row(node(2, vec![], "b"), None)];
    let fresh = vec![node(2, vec![], "b"), node(2, vec![], "b")];
    let plan = reconcile(&stored, &fresh, &vec![], 900).unwrap();
    assert_eq!(plan.fates, vec![Fate::Deleted { witness: None }, Fate::Untouched]);
    assert_eq!(plan.upserts, vec![Upsert::Unchanged { row: 1 }, Upsert::Unchanged { row: 1 }]);
    assert_eq!(plan.summary, Summary { created: 0, updated: 0, deleted: 1 });
    assert_eq!(plan.refused, None);
    assert_eq!(plan.events.len(), 1);
    assert_eq!(plan.events[0].event_type, EventKind::Delete);
    assert_eq!(plan.events[0].element_id, NODE_1);
    assert_eq!(plan.events[0].user_id, 0);
    assert_eq!(plan.events[0].user, "");
    assert_eq!(plan.snapshot.len(), 2);
    assert_eq!(plan.snapshot[0].deleted_at, Some(900));
    assert_eq!(plan.snapshot[0].data.payload, "a");
    assert_eq!(plan.snapshot[0].created_at, 100);
    assert_eq!(plan.snapshot[1].deleted_at, None);
    assert_eq!(plan.snapshot[1].updated_at, 200);
}

#[test]
fn row_of_a_repeated_key_ends_with_the_last_record_that_differs() {
    let stored = vec![row(node(2, vec![], "b"), Some(40))];
    let fresh = vec![
        node(2, vec![], "x"),
        node(2, vec![], "b"),
        node(2, vec![], "y"),
        node(2, vec![], "b"),
    ];
    let plan = reconcile(&stored, &fresh, &vec![], 900).unwrap();
    assert_eq!(plan.fates, vec![Fate::Untouched]);
    assert_eq!(
        plan.upserts,
        vec![
            Upsert::Updated { row: 0, revived: true },
            Upsert::Revived { row: 0 },
            Upsert::Updated { row: 0, revived: true },
            Upsert::Revived { row: 0 },
        ]
    );
    assert_eq!(plan.summary, Summary { created: 0, updated: 2, deleted: 0 });
    assert_eq!(plan.refused, None);
    let kinds: Vec<EventKind> = plan.events.iter().map(|e| e.event_type).collect();
    assert_eq!(kinds, vec![EventKind::Update, EventKind::Update]);
    assert_eq!(plan.snapshot.len(), 1);
    assert_eq!(plan.snapshot[0].data.payload, "y");
    assert_eq!(plan.snapshot[0].deleted_at, None);
    assert_eq!(plan.snapshot[0].created_at, 100);
    assert_eq!(plan.snapshot[0].updated_at, 900);
}

#[test]
fn second_record_of_a_new_key_is_marked_as_refused() {
    let stored = vec![row(node(1, vec![], "one"), None)];
    let fresh = vec![
        node(5, vec![], "a"),
        node(1, vec![], "one"),
        node(6, vec![], "b"),
        node(1, vec![], "one"),
        node(6, vec![], "c"),
        node(5, vec![], "d"),
    ];
    let plan = reconcile(&stored, &fresh, &vec![], 900).unwrap();
    assert_eq!(plan.refused, Some(4));
    assert_eq!(
        plan.upserts,
        vec![
            Upsert::Created,
            Upsert::Unchanged { row: 0 },
            Upsert::Created,
            Upsert::Unchanged { row: 0 },
            Upsert::Created,
            Upsert::Created,
        ]
    );
    let ids: Vec<i64> = plan.snapshot.iter().map(|e| e.data.id).collect();
    assert_eq!(ids, vec![1, 5, 6]);
    assert_eq!(plan.snapshot[1].data.payload, "a");
    assert_eq!(plan.snapshot[2].data.payload, "b");
}

#[test]
fn dataset_without_repeated_new_keys_has_nothing_refused() {
    let fresh = vec![node(5, vec![], "a"), node(6, vec![], "b"), node(7, vec![], "c")];
    let plan = reconcile(&vec![], &fresh, &vec![], 900).unwrap();
    assert_eq!(plan.refused, None);
    assert_eq!(plan.snapshot.len(), 3);
}

#[test]
fn mixed_cycle_orders_deletions_before_upserts() {
    let stored = vec![
        row(node(1, vec![], "one"), None),
        row(node(2, vec![], "two"), None),
        row(node(3, vec![], "three"), None),
    ];
    let fresh = vec![node(4, vec![], "four"), node(3, vec![], "THREE"), node(1, vec![], "one")];
    let plan = reconcile(&stored, &fresh, &vec![], 900).unwrap();
    assert_eq!(
        plan.fates,
        vec![Fate::Untouched, Fate::Deleted { witness: None }, Fate::Untouched]
    );
    assert_eq!(
        plan.upserts,
        vec![
            Upsert::Created,
            Upsert::Updated { row: 2, revived: false },
            Upsert::Unchanged { row: 0 }
        ]
    );
    assert_eq!(plan.summary, Summary { created: 1, updated: 1, deleted: 1 });
    let kinds: Vec<EventKind> = plan.events.iter().map(|e| e.event_type).collect();
    assert_eq!(kinds, vec![EventKind::Delete, EventKind::Create, EventKind::Update]);
    let ids: Vec<i64> = plan.snapshot.iter().map(|e| e.data.id).collect();
    assert_eq!(ids, vec![1, 2, 3, 4]);
    assert_eq!(plan.snapshot[1].deleted_at, Some(900));
    assert_eq!(plan.snapshot[2].data.payload, "THREE");
}

#[test]
fn second_cycle_with_same_dataset_is_quiet() {
    let stored = vec![
        row(node(1, vec![], "one"), None),
        row(node(2, vec![], "two"), Some(50)),
        row(node(3, vec![], "three"), None),
    ];
    let fresh = vec![node(4, vec![], "four"), node(2, vec![], "TWO"), node(1, vec![], "one")];
    let first = reconcile(&stored, &fresh, &vec![], 900).unwrap();
    let second = reconcile(&first.snapshot, &fresh, &vec![], 1000).unwrap();
    assert_eq!(second.summary, Summary { created: 0, updated: 0, deleted: 0 });
    assert!(second.events.is_empty());
    assert_eq!(second.snapshot.len(), first.snapshot.len());
    for (a, b) in first.snapshot.iter().zip(second.snapshot.iter()) {
        assert_eq!(a.data.payload, b.data.payload);
        assert_eq!(a.updated_at, b.updated_at);
        assert_eq!(a.deleted_at, b.deleted_at);
    }
}
