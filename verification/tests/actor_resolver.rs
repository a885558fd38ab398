use btcmap::actor::actors_to_resolve;
use btcmap::actor::holds_id;
use btcmap::actor::lookup_event;
use btcmap::actor::step;
use btcmap::actor::Actor;
use btcmap::actor::ResolverAction;
use btcmap::actor::ResolverEvent;
use btcmap::actor::ResolverState;
use btcmap::actor::UNKNOWN_ACTOR;
use btcmap::element::ElementKey;
use btcmap::element::ElementKind;
use btcmap::event::ElementEvent;
use btcmap::event::EventKind;

fn event(user_id: i64) -> ElementEvent {
    ElementEvent {
        date: 0,
        element_id: ElementKey { kind: ElementKind::Node, id: 1 },
        element_name: String::new(),
        event_type: EventKind::Update,
        user_id,
        user: String::new(),
    }
}

fn is_unknown(action: &ResolverAction) -> bool {
    matches!(action, ResolverAction::Resolved(a) if a.id == UNKNOWN_ACTOR && a.profile.is_empty())
}

#[test]
fn unknown_actor_is_resolved_at_once() {
    let (state, action) = step(ResolverState::Idle, ResolverEvent::Start { id: 0 });
    assert_eq!(state, ResolverState::Idle);
    assert!(is_unknown(&action));
    let sentinel = Actor::unknown();
    assert_eq!(sentinel.id, 0);
    assert_eq!(sentinel.profile, "");
}

#[test]
fn cached_actor_is_returned_without_lookup() {
    let (state, action) = step(ResolverState::Idle, ResolverEvent::Start { id: 17 });
    assert_eq!(state, ResolverState::AwaitStore { id: 17 });
    assert!(matches!(action, ResolverAction::QueryStore { id: 17 }));
    let (state, action) = step(state, ResolverEvent::Stored { profile: Some("{\"a\":1}".to_string()) });
    assert_eq!(state, ResolverState::Idle);
    match action {
        ResolverAction::Resolved(a) => {
            assert_eq!(a.id, 17);
            assert_eq!(a.profile, "{\"a\":1}");
        }
        other => panic!("unexpected action {other:?}"),
    }
}

#[test]
fn missing_actor_is_looked_up_and_stored() {
    let (state, _) = step(ResolverState::Idle, ResolverEvent::Start { id: 17 });
    let (state, action) = step(state, ResolverEvent::Stored { profile: None });
    assert_eq!(state, ResolverState::AwaitLookup { id: 17 });
    assert!(matches!(action, ResolverAction::Lookup { id: 17 }));
    let (state, action) = step(state, ResolverEvent::Fetched { profile: Some("p".to_string()) });
    assert_eq!(state, ResolverState::Idle);
    match action {
        ResolverAction::Persist(a) => {
            assert_eq!(a.id, 17);
            assert_eq!(a.profile, "p");
        }
        other => panic!("unexpected action {other:?}"),
    }
}

#[test]
fn failed_lookup_gives_the_unknown_actor() {
    let (state, action) =
        step(ResolverState::AwaitLookup { id: 17 }, ResolverEvent::Fetched { profile: None });
    assert_eq!(state, ResolverState::Idle);
    assert!(is_unknown(&action));
}

#[test]
fn unexpected_event_ends_in_the_unknown_actor() {
    let cases = vec![
        (ResolverState::Idle, ResolverEvent::Stored { profile: Some("x".to_string()) }),
        (ResolverState::Idle, ResolverEvent::Fetched { profile: Some("x".to_string()) }),
        (ResolverState::AwaitStore { id: 1 }, ResolverEvent::Start { id: 2 }),
        (ResolverState::AwaitStore { id: 1 }, ResolverEvent::Fetched { profile: Some("x".to_string()) }),
        (ResolverState::AwaitLookup { id: 1 }, ResolverEvent::Stored { profile: Some("x".to_string()) }),
        (ResolverState::AwaitLookup { id: 1 }, ResolverEvent::Start { id: 0 }),
    ];
    for (state, event) in cases {
        let (next, action) = step(state, event);
        assert_eq!(next, ResolverState::Idle);
        assert!(is_unknown(&action));
    }
}

#[test]
fn each_actor_is_resolved_once() {
    let events: Vec<ElementEvent> = [5, 0, 7, 5, 0, 9, 7, 5].iter().map(|id| event(*id)).collect();
    assert_eq!(actors_to_resolve(&events), vec![5, 7, 9]);
    assert_eq!(actors_to_resolve(&vec![]), Vec::<i64>::new());
    assert_eq!(actors_to_resolve(&vec![event(0)]), Vec::<i64>::new());
    assert!(holds_id(&vec![1, 2, 3], 3));
    assert!(!holds_id(&vec![1, 2, 3], 4));
}

fn fetched(body: Option<&str>) -> Option<String> {
    match lookup_event(body) {
        ResolverEvent::Fetched { profile } => profile,
        other => panic!("unexpected event {other:?}"),
    }
}

#[test]
fn profile_is_read_from_the_answer() {
    let body = "{\"version\": \"0.6\", \"user\": {\"display_name\": \"BTC Map\", \"id\": 18545877}}";
    assert_eq!(
        fetched(Some(body)).as_deref(),
        Some("{\"display_name\":\"BTC Map\",\"id\":18545877}")
    );
    assert_eq!(fetched(Some("{\"user\": null}")).as_deref(), Some("null"));
}

#[test]
fn answer_without_profile_is_a_failed_lookup() {
    assert_eq!(fetched(None), None);
    assert_eq!(fetched(Some("")), None);
    assert_eq!(fetched(Some("Not found")), None);
    assert_eq!(fetched(Some("{\"users\": []}")), None);
    assert_eq!(fetched(Some("[{\"user\": {}}]")), None);
    assert_eq!(fetched(Some("{\"user\": {}} trailing")), None);
}

#[test]
fn unreadable_answer_resolves_to_the_unknown_actor() {
    let (state, action) = step(ResolverState::AwaitLookup { id: 17 }, lookup_event(Some("<html>")));
    assert_eq!(state, ResolverState::Idle);
    assert!(is_unknown(&action));
    let (_, action) = step(
        ResolverState::AwaitLookup { id: 17 },
        lookup_event(Some("{\"user\":{\"id\":17}}")),
    );
    match action {
        ResolverAction::Persist(a) => {
            assert_eq!(a.id, 17);
            assert_eq!(a.profile, "{\"id\":17}");
        }
        other => panic!("unexpected action {other:?}"),
    }
}
