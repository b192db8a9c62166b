use livets_core::{BrokerEvent, ConnAction, ConnEvent, ConnState, LiveTSEngine};

#[test]
fn test_connection_state_machine() {
    // An open connection answers pings, forwards text, and writes queued
    // messages without leaving the Open state.
    let (s, acts) = livets_core::broker::on_event(
        ConnState::Open,
        ConnEvent::OutboundReady("msg".to_string()),
    );
    assert!(matches!(s, ConnState::Open));
    assert!(matches!(&acts[0], ConnAction::WriteText(m) if m == "msg"));

    let (s, acts) =
        livets_core::broker::on_event(ConnState::Open, ConnEvent::InboundText("hi".to_string()));
    assert!(matches!(s, ConnState::Open));
    assert!(matches!(acts[0], ConnAction::RecordPing));
    assert!(matches!(&acts[1], ConnAction::NotifyMessage(t) if t == "hi"));

    let (s, acts) =
        livets_core::broker::on_event(ConnState::Open, ConnEvent::InboundPing(vec![1, 2]));
    assert!(matches!(s, ConnState::Open));
    assert!(matches!(&acts[0], ConnAction::WritePong(p) if p == &vec![1, 2]));

    // Close frames, errors and a vanished peer all start closing.
    for e in [
        ConnEvent::InboundClose,
        ConnEvent::InboundError,
        ConnEvent::InboundGone,
        ConnEvent::OutboundClosed,
        ConnEvent::WriteFailed,
    ] {
        let (s, acts) = livets_core::broker::on_event(ConnState::Open, e);
        assert!(matches!(s, ConnState::Closing));
        assert!(acts.is_empty());
    }

    // The heartbeat tick is reserved and does nothing.
    let (s, acts) = livets_core::broker::on_event(ConnState::Open, ConnEvent::HeartbeatTick);
    assert!(matches!(s, ConnState::Open));
    assert!(acts.is_empty());

    // No transition leaves the Closed state.
    let (s, _) = livets_core::broker::on_event(
        ConnState::Closed,
        ConnEvent::InboundText("late".to_string()),
    );
    assert!(matches!(s, ConnState::Closed));

    let s = livets_core::broker::complete_handshake(ConnState::Connecting);
    assert!(matches!(s, ConnState::Open));
    let s = livets_core::broker::finalize(ConnState::Closing);
    assert!(matches!(s, ConnState::Closed));
}

#[test]
fn test_broker_event_json() {
    let e = BrokerEvent::Connected { connection_id: "abc".to_string() };
    assert_eq!(e.to_json(), r#"{"type":"Connected","connectionId":"abc"}"#);

    let e = BrokerEvent::Message {
        connection_id: "abc".to_string(),
        data: "say \"hi\"\n".to_string(),
    };
    assert_eq!(e.to_json(), r#"{"type":"Message","connectionId":"abc","data":"say \"hi\"\n"}"#);

    let e = BrokerEvent::Closed { connection_id: "x\\y".to_string() };
    assert_eq!(e.to_json(), r#"{"type":"Closed","connectionId":"x\\y"}"#);
}

#[test]
fn test_render_component_message_envelope() {
    let engine = LiveTSEngine::new();
    let old_html = r#"<div class="a">5</div>"#;
    let new_html = r#"<div class="a">6</div>"#;
    let msg = engine
        .render_component_message(
            "abcdefgh1234".to_string(),
            old_html.to_string(),
            new_html.to_string(),
        )
        .unwrap();
    // The component id is cut to its first eight characters, and patches are
    // carried in compact form.
    assert_eq!(msg, r#"{"t":"p","c":"abcdefgh","d":["t|.a|6"]}"#);

    // Identical snapshots yield an empty patch list.
    let msg2 = engine
        .render_component_message("shortid".to_string(), old_html.to_string(), old_html.to_string())
        .unwrap();
    assert_eq!(msg2, r#"{"t":"p","c":"shortid","d":[]}"#);
}

#[test]
fn test_engine_cache_roundtrip() {
    let mut engine = LiveTSEngine::new();
    engine.cache_component_html("component-1".to_string(), "<div>A</div>".to_string());
    assert_eq!(engine.get_cached_html("component-1".to_string()), Some("<div>A</div>".to_string()));

    let stats = engine.get_cache_stats();
    assert_eq!(stats.size, 1);
    assert_eq!(stats.max_size, 1000);

    assert!(engine.remove_component_cache("component-1".to_string()));
    assert!(!engine.remove_component_cache("component-1".to_string()));
    assert_eq!(engine.get_cached_html("component-1".to_string()), None);
}

#[test]
fn test_engine_parse_and_validate() {
    let engine = LiveTSEngine::new();
    assert!(engine.is_ping_message("\"p\""));
    assert!(!engine.is_ping_message("\"e|x|y||0|b\""));

    let parsed = engine.parse_event_message(r#""e|abc12345|increment||0|button""#).unwrap();
    assert_eq!(parsed.component_id, "abc12345");

    // A short component id passes parsing but fails validation.
    assert!(engine.parse_event_message(r#""e|short|increment||0|button""#).is_err());
}

#[test]
fn test_engine_parse_event_and_get_cache() {
    let mut engine = LiveTSEngine::new();
    engine.cache_component_html("abc12345".to_string(), "<div>old</div>".to_string());
    let (parsed, old_html) =
        engine.parse_event_and_get_cache(r#""e|abc12345|increment||0|button""#).unwrap();
    assert_eq!(parsed.component_id, "abc12345");
    assert_eq!(old_html, "<div>old</div>");

    let (_, missing) =
        engine.parse_event_and_get_cache(r#""e|zzz99999|increment||0|button""#).unwrap();
    assert_eq!(missing, "");
}

#[test]
fn test_process_response_updates_cache_and_builds_message() {
    let mut engine = LiveTSEngine::new();
    let msg = engine
        .process_response_and_generate_message(
            "abc12345".to_string(),
            r#"<div class="a">5</div>"#.to_string(),
            r#"<div class="a">6</div>"#.to_string(),
        )
        .unwrap();
    assert_eq!(msg, r#"{"t":"p","c":"abc12345","d":["t|.a|6"]}"#);
    assert_eq!(
        engine.get_cached_html("abc12345".to_string()),
        Some(r#"<div class="a">6</div>"#.to_string())
    );
}

#[test]
fn test_engine_rejects_invalid_event_name() {
    let engine = LiveTSEngine::new();
    // The frame parses, but the event name fails the character rule.
    assert!(engine.parse_event_message("\"e|abc12345|do it||0|button\"").is_err());
}
