use btcmap::element::Element;
use btcmap::element::ElementKey;
use btcmap::element::ElementKind;
use btcmap::element::OverpassElement;
use btcmap::element::Tag;
use btcmap::keys::find_key;
use btcmap::keys::find_key_before;
use btcmap::keys::first_repeat;
use btcmap::keys::keys_of_records;
use btcmap::keys::keys_of_rows;
use btcmap::text::same_text;
use btcmap::text::sorts_after;

fn record(id: i64, pairs: &[(&str, &str)]) -> OverpassElement {
    OverpassElement {
        kind: ElementKind::Relation,
        id,
        tags: pairs.iter().map(|(n, v)| Tag { name: n.to_string(), value: v.to_string() }).collect(),
        uid: 11,
        user: "dora".to_string(),
        visible: false,
        payload: "{}".to_string(),
    }
}

fn key(kind: ElementKind, id: i64) -> ElementKey {
    ElementKey { kind, id }
}

#[test]
fn texts_are_the_same_char_by_char() {
    assert!(same_text("", ""));
    assert!(same_text("yes", "yes"));
    assert!(!same_text("yes", "yes "));
    assert!(!same_text("yes", "Yes"));
    assert!(!same_text("", "a"));
    assert!(same_text("Cuauhtémoc", "Cuauhtémoc"));
    assert!(!same_text("Cuauhtémoc", "Cuauhtemoc"));
}

#[test]
fn texts_sort_as_strings_do() {
    let samples = ["", "a", "ab", "b", "2023-02-25", "2023-02-26", "2023-03", "é", "z", "~", "😀", "Z"];
    for a in samples {
        for b in samples {
            assert_eq!(sorts_after(a, b), a > b, "{a:?} {b:?}");
        }
    }
}

#[test]
fn tag_lookup_takes_the_first_of_a_name() {
    let r = record(1, &[("name", "A"), ("amenity", "cafe"), ("name", "B"), ("empty", "")]);
    assert_eq!(r.tag("name"), "A");
    assert_eq!(r.tag("amenity"), "cafe");
    assert_eq!(r.tag("empty"), "");
    assert_eq!(r.tag("missing"), "");
    assert_eq!(r.tag(""), "");
    assert_eq!(r.tag("Name"), "");
}

#[test]
fn place_without_name_has_a_fixed_one() {
    assert_eq!(record(1, &[]).name(), "Unnamed element");
    assert_eq!(record(1, &[("shop", "bakery")]).name(), "Unnamed element");
    assert_eq!(record(1, &[("name", "Bar")]).name(), "Bar");
}

#[test]
fn empty_name_tag_is_the_name() {
    assert_eq!(record(1, &[("name", "")]).name(), "");
    assert_eq!(record(1, &[("name", ""), ("name", "Later")]).name(), "");
    assert_eq!(record(1, &[("name", "")]).entry("name"), Some(""));
    assert_eq!(record(1, &[("name", "")]).entry("shop"), None);
    assert_eq!(record(1, &[]).entry("name"), None);
}

#[test]
fn copies_hold_the_same_values() {
    let r = record(9, &[("a", "b"), ("c", "d")]);
    let copy = r.duplicate();
    assert_eq!(copy.kind, ElementKind::Relation);
    assert_eq!(copy.id, 9);
    assert_eq!(copy.uid, 11);
    assert_eq!(copy.user, "dora");
    assert!(!copy.visible);
    assert_eq!(copy.payload, "{}");
    assert_eq!(copy.tags.len(), 2);
    assert_eq!(copy.tags[1].name, "c");
    assert_eq!(copy.tags[1].value, "d");
    let row = Element { data: r, created_at: 1, updated_at: 2, deleted_at: Some(3) };
    let copy = row.duplicate();
    assert_eq!((copy.created_at, copy.updated_at, copy.deleted_at), (1, 2, Some(3)));
    assert_eq!(copy.key(), key(ElementKind::Relation, 9));
    assert!(copy.is_deleted());
    let tag = Tag { name: "n".to_string(), value: "v".to_string() }.duplicate();
    assert_eq!((tag.name.as_str(), tag.value.as_str()), ("n", "v"));
}

#[test]
fn keys_are_found_at_their_first_place() {
    let keys = vec![
        key(ElementKind::Node, 1),
        key(ElementKind::Way, 1),
        key(ElementKind::Node, 2),
        key(ElementKind::Way, 1),
    ];
    assert_eq!(find_key(&keys, key(ElementKind::Way, 1)), Some(1));
    assert_eq!(find_key(&keys, key(ElementKind::Node, 2)), Some(2));
    assert_eq!(find_key(&keys, key(ElementKind::Relation, 1)), None);
    assert_eq!(find_key_before(&keys, 1, key(ElementKind::Way, 1)), None);
    assert_eq!(find_key_before(&keys, 2, key(ElementKind::Way, 1)), Some(1));
    assert_eq!(find_key_before(&keys, 0, key(ElementKind::Node, 1)), None);
    assert_eq!(first_repeat(&keys), Some((1, 3)));
    assert_eq!(first_repeat(&keys[..3].to_vec()), None);
    assert_eq!(first_repeat(&vec![]), None);
}

#[test]
fn keys_of_a_list_come_in_its_order() {
    let items = vec![record(3, &[]), record(1, &[])];
    assert_eq!(
        keys_of_records(&items),
        vec![key(ElementKind::Relation, 3), key(ElementKind::Relation, 1)]
    );
    let rows: Vec<Element> = items
        .into_iter()
        .map(|data| Element { data, created_at: 0, updated_at: 0, deleted_at: None })
        .collect();
    assert_eq!(
        keys_of_rows(&rows),
        vec![key(ElementKind::Relation, 3), key(ElementKind::Relation, 1)]
    );
}
