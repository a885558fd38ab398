use btcmap::element::ElementKind;
use btcmap::element::OverpassElement;
use btcmap::sanity::validate;
use btcmap::sanity::Rejection;
use btcmap::sanity::MIN_PLAUSIBLE_ELEMENTS;

fn node(id: i64) -> OverpassElement {
    OverpassElement {
        kind: ElementKind::Node,
        id,
        tags: vec![],
        uid: 0,
        user: String::new(),
        visible: true,
        payload: format!("{{\"type\":\"node\",\"id\":{id}}}"),
    }
}

#[test]
fn small_dataset_is_rejected() {
    let fresh: Vec<OverpassElement> = (1..=3).map(node).collect();
    assert_eq!(
        validate(&fresh, MIN_PLAUSIBLE_ELEMENTS),
        Err(Rejection::TooSmall { found: 3, minimum: 5000 })
    );
}

#[test]
fn dataset_of_minimum_size_is_accepted() {
    let fresh: Vec<OverpassElement> = (1..=3).map(node).collect();
    assert_eq!(validate(&fresh, 3), Ok(()));
    assert_eq!(validate(&fresh, 0), Ok(()));
    assert!(validate(&fresh, 4).is_err());
}
