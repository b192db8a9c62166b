use livets_core::{ClientEvent, EventRouter};

fn make_event(component_id: &str, event_name: &str) -> ClientEvent {
    ClientEvent {
        event_type: "click".to_string(),
        event_name: event_name.to_string(),
        component_id: component_id.to_string(),
        target: None,
    }
}

#[test]
fn test_event_validation() {
    let router = EventRouter::new();

    let valid_event = make_event("counter-1", "increment");
    assert!(router.validate_event(&valid_event).is_ok());

    let invalid_event = make_event("counter-1", "");
    assert!(router.validate_event(&invalid_event).is_err());
}

#[test]
fn test_route_event_without_handler() {
    let router = EventRouter::new();

    let event = make_event("nonexistent", "increment");

    let result = router.route_event("nonexistent", event);
    assert!(result.is_err());
}

#[test]
fn test_register_and_route() {
    let mut router = EventRouter::new();
    router.register_handler("counter-1".to_string()).unwrap();
    assert!(router.has_handler("counter-1"));
    assert_eq!(router.handler_count(), 1);

    let event = make_event("counter-1", "increment");
    assert!(router.route_event("counter-1", event).is_ok());

    router.unregister_handler("counter-1").unwrap();
    assert!(!router.has_handler("counter-1"));
    assert_eq!(router.get_stats().registered_handlers, 0);
}

#[test]
fn test_validation_rejects_bad_name_characters() {
    let router = EventRouter::new();
    assert!(router.validate_event(&make_event("counter-1", "do it")).is_err());
    assert!(router.validate_event(&make_event("counter-1", "do!")).is_err());
    assert!(router.validate_event(&make_event("counter-1", "do_it-now2")).is_ok());
    assert!(router.validate_event(&make_event("", "ok")).is_err());
    // The router's validator applies the whole rule set too: short ids fail.
    assert!(router.validate_event(&make_event("short", "ok")).is_err());
}

#[test]
fn test_process_event_batch() {
    let mut router = EventRouter::new();
    router.register_handler("known-component".to_string()).unwrap();
    let events = vec![
        make_event("known-component", "a"),
        make_event("unknown-component", "b"),
        make_event("known-component", "c"),
    ];
    let results = router.process_event_batch(events).unwrap();
    assert_eq!(results.len(), 3);
    assert!(results[0].is_ok());
    assert!(results[1].is_err());
    assert!(results[2].is_ok());
}
