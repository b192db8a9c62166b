use livets_core::{EventData, EventParser, EventTarget, ParsedEvent};

#[test]
fn test_parse_compact_event() {
    let parser = EventParser::new();
    let message = r#""e|abc12345|increment||0|button""#;

    let result = parser.parse_message(message).unwrap();
    assert_eq!(result.component_id, "abc12345");
    assert_eq!(result.event_name, "increment");
    assert_eq!(result.event_data.target.tag_name, "button");
    assert_eq!(result.event_data.target.checked, Some(false));
}

#[test]
fn test_parse_compact_event_with_value() {
    let parser = EventParser::new();
    let message = r#""e|xyz98765|input|hello world|1|input""#;

    let result = parser.parse_message(message).unwrap();
    assert_eq!(result.component_id, "xyz98765");
    assert_eq!(result.event_name, "input");
    assert_eq!(result.event_data.target.value, Some("hello world".to_string()));
    assert_eq!(result.event_data.target.checked, Some(true));
    assert_eq!(result.event_data.target.tag_name, "input");
}

#[test]
fn test_parse_json_event() {
    let parser = EventParser::new();
    let message = r#"{"type":"event","componentId":"test123","eventName":"click","payload":{}}"#;

    let result = parser.parse_message(message).unwrap();
    assert_eq!(result.component_id, "test123");
    assert_eq!(result.event_name, "click");
    assert_eq!(result.event_data.event_type, "event");
}

#[test]
fn test_invalid_format() {
    let parser = EventParser::new();
    let message = "invalid message format";

    let result = parser.parse_message(message);
    assert!(result.is_err());
}

#[test]
fn test_validate_event() {
    let parser = EventParser::new();

    let valid_event = ParsedEvent {
        component_id: "valid-uuid-123".to_string(),
        event_name: "click".to_string(),
        event_data: EventData {
            event_type: "click".to_string(),
            target: EventTarget::default(),
        },
    };

    assert!(parser.validate_event(&valid_event).is_ok());

    let invalid_event = ParsedEvent {
        component_id: "".to_string(),
        event_name: "click".to_string(),
        event_data: EventData {
            event_type: "click".to_string(),
            target: EventTarget::default(),
        },
    };

    assert!(parser.validate_event(&invalid_event).is_err());
}

#[test]
fn test_ping_message() {
    let parser = EventParser::new();
    let result = parser.parse_message("\"p\"");
    assert!(result.is_err());
}

#[test]
fn test_compact_event_exact_fields() {
    // The compact round trip: every field lands where the format says.
    let parser = EventParser::new();
    let result = parser.parse_message(r#""e|abc12345|increment||0|button""#).unwrap();
    assert_eq!(result.component_id, "abc12345");
    assert_eq!(result.event_name, "increment");
    assert_eq!(result.event_data.event_type, "increment");
    assert_eq!(result.event_data.target.value, None);
    assert_eq!(result.event_data.target.checked, Some(false));
    assert_eq!(result.event_data.target.tag_name, "button");
    assert!(result.event_data.target.attributes.is_empty());
}

#[test]
fn test_compact_checked_forms() {
    let parser = EventParser::new();
    for (field, expected) in
        [("1", true), ("true", true), ("TRUE", true), ("TrUe", true), ("0", false), ("", false), (
            "yes",
            false,
        )]
    {
        let message = format!("\"e|abc12345|toggle||{}|input\"", field);
        let result = parser.parse_message(&message).unwrap();
        assert_eq!(result.event_data.target.checked, Some(expected), "field {:?}", field);
    }
}

#[test]
fn test_compact_wrong_field_count_rejected() {
    let parser = EventParser::new();
    assert!(parser.parse_message(r#""e|abc12345|click||0""#).is_err());
    assert!(parser.parse_message(r#""e|abc12345|click||0|button|extra""#).is_err());
}

#[test]
fn test_json_event_full_decode_fallback() {
    // Spaces around the colons defeat the targeted extraction, so the full
    // structured decode must carry the frame.
    let parser = EventParser::new();
    let message = r#"{"type":"event", "componentId": "fallback1", "eventName": "submit"}"#;
    let result = parser.parse_message(message).unwrap();
    assert_eq!(result.component_id, "fallback1");
    assert_eq!(result.event_name, "submit");
    assert_eq!(result.event_data.event_type, "event");
}

#[test]
fn test_json_event_malformed_rejected() {
    let parser = EventParser::new();
    let message = r#"{"type":"event", "componentId": "x", "eventName": broken"#;
    assert!(parser.parse_message(message).is_err());
}

#[test]
fn test_validation_rejects_short_component_id() {
    let parser = EventParser::new();
    let event = ParsedEvent {
        component_id: "abc".to_string(),
        event_name: "click".to_string(),
        event_data: EventData {
            event_type: "click".to_string(),
            target: EventTarget::default(),
        },
    };
    assert!(parser.validate_event(&event).is_err());

    let event2 = ParsedEvent {
        component_id: "abcd1234".to_string(),
        event_name: "".to_string(),
        event_data: EventData {
            event_type: "click".to_string(),
            target: EventTarget::default(),
        },
    };
    assert!(parser.validate_event(&event2).is_err());
}

#[test]
fn test_validation_rejects_bad_name_characters_in_parser() {
    // The post-decode validation is one rule set: the parser's validator
    // also rejects names outside alphanumerics, underscore and hyphen.
    let parser = EventParser::new();
    let event = ParsedEvent {
        component_id: "abcd1234".to_string(),
        event_name: "do it".to_string(),
        event_data: EventData {
            event_type: "click".to_string(),
            target: EventTarget::default(),
        },
    };
    assert!(parser.validate_event(&event).is_err());

    let ok_event = ParsedEvent {
        component_id: "abcd1234".to_string(),
        event_name: "do_it-now2".to_string(),
        event_data: EventData {
            event_type: "click".to_string(),
            target: EventTarget::default(),
        },
    };
    assert!(parser.validate_event(&ok_event).is_ok());
}
