use btcmap::decimal::decimal_of;
use btcmap::element::ElementKey;
use btcmap::element::ElementKind;
use btcmap::event::ElementEvent;
use btcmap::event::EventKind;

fn event(event_type: EventKind) -> ElementEvent {
    ElementEvent {
        date: 0,
        element_id: ElementKey { kind: ElementKind::Way, id: 6402700275 },
        element_name: "Pick n Pay".to_string(),
        event_type,
        user_id: 18545877,
        user: "BTC Map".to_string(),
    }
}

#[test]
fn numbers_are_written_in_decimal() {
    for n in [0, 1, 9, 10, 11, 99, 100, 101, 1234567890, 6402700275, i64::MAX, -1, -9, -10, -6402700275, i64::MIN + 1, i64::MIN] {
        assert_eq!(decimal_of(n), n.to_string());
    }
    assert_eq!(decimal_of(i64::MIN), "-9223372036854775808");
    assert_eq!(decimal_of(1000), "1000");
}

#[test]
fn key_is_written_as_kind_and_id() {
    assert_eq!(ElementKey { kind: ElementKind::Node, id: 1 }.text(), "node:1");
    assert_eq!(ElementKey { kind: ElementKind::Way, id: 25338659 }.text(), "way:25338659");
    assert_eq!(ElementKey { kind: ElementKind::Relation, id: -4 }.text(), "relation:-4");
}

#[test]
fn address_names_kind_and_id() {
    assert_eq!(
        ElementKey { kind: ElementKind::Node, id: 25338659 }.url(),
        "https://www.openstreetmap.org/node/25338659"
    );
}

#[test]
fn messages_say_what_happened() {
    assert_eq!(
        event(EventKind::Create).message(),
        "Pick n Pay was added by BTC Map https://www.openstreetmap.org/way/6402700275"
    );
    assert_eq!(
        event(EventKind::Update).message(),
        "Pick n Pay was updated by BTC Map https://www.openstreetmap.org/way/6402700275"
    );
    assert_eq!(
        event(EventKind::Delete).message(),
        "Pick n Pay was deleted https://www.openstreetmap.org/way/6402700275"
    );
}

#[test]
fn message_of_unknown_mapper_leaves_the_name_empty() {
    let mut e = event(EventKind::Create);
    e.user = String::new();
    e.element_name = "Unnamed element".to_string();
    assert_eq!(
        e.message(),
        "Unnamed element was added by  https://www.openstreetmap.org/way/6402700275"
    );
}

#[test]
fn dispute_names_the_place() {
    assert_eq!(
        ElementKey { kind: ElementKind::Node, id: 7 }.dispute_message(),
        "Overpass lied about node/7 being deleted!"
    );
}
