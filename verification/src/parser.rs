//! Event wire-format parsing: the compact pipe-delimited frame, the JSON
//! frame with a fast targeted extraction and a full structured fallback, and
//! post-decode validation.
use vstd::prelude::*;
use vstd::string::*;
use crate::strutil::{
    capture_nonempty, capture_nonempty_at, check_event_name, matches_at, split_char, split_spec,
    starts_with, str_eq, valid_event_name,
};
use crate::types::{
    ClientEvent, CompactEvent, CompactModel, DataModel, EventData, EventParseResult, EventTarget,
    LiveTSError, ParsedEvent, ParsedModel, TargetModel,
};

verus! {

// ---------- the compact frame ----------

/// The frame with its outer quotes stripped, when both are present.
pub open spec fn unquoted(raw: Seq<char>) -> Seq<char> {
    if raw.len() >= 2 && raw[0] == '"' && raw[raw.len() - 1] == '"' {
        raw.subrange(1, raw.len() - 1)
    } else {
        raw
    }
}

fn unquote(raw: &str) -> (r: &str)
    ensures
        r@ == unquoted(raw@),
{
    let n = raw.unicode_len();
    if n >= 2 && raw.get_char(0) == '"' && raw.get_char(n - 1) == '"' {
        raw.substring_char(1, n - 1)
    } else {
        raw
    }
}

/// The pipe-delimited fields of the unquoted frame.
pub open spec fn compact_fields(raw: Seq<char>) -> Seq<Seq<char>> {
    split_spec(unquoted(raw), '|')
}

/// A compact frame is well-formed when it has exactly six fields and the
/// first is the single letter `e`.
pub open spec fn compact_ok(raw: Seq<char>) -> bool {
    let parts = compact_fields(raw);
    parts.len() == 6 && parts[0].len() == 1 && parts[0][0] == 'e'
}

/// The checked field is true when it is `1` or, case-insensitively, `true`.
pub open spec fn checked_spec(s: Seq<char>) -> bool {
    (s.len() == 1 && s[0] == '1') || (s.len() == 4 && (s[0] == 't' || s[0] == 'T') && (s[1] == 'r'
        || s[1] == 'R') && (s[2] == 'u' || s[2] == 'U') && (s[3] == 'e' || s[3] == 'E'))
}

/// The compact event carried by a well-formed compact frame.
pub open spec fn compact_event_model(raw: Seq<char>) -> CompactModel {
    let parts = compact_fields(raw);
    CompactModel {
        component_id: parts[1],
        event_name: parts[2],
        value: parts[3],
        checked: checked_spec(parts[4]),
        tag_name: parts[5],
    }
}

fn checked_field(s: &str) -> (r: bool)
    ensures
        r == checked_spec(s@),
{
    let n = s.unicode_len();
    if n == 1 {
        s.get_char(0) == '1'
    } else if n == 4 {
        let c0 = s.get_char(0);
        let c1 = s.get_char(1);
        let c2 = s.get_char(2);
        let c3 = s.get_char(3);
        (c0 == 't' || c0 == 'T') && (c1 == 'r' || c1 == 'R') && (c2 == 'u' || c2 == 'U') && (c3
            == 'e' || c3 == 'E')
    } else {
        false
    }
}

/// Parses the compact frame `"e|componentId|eventName|value|checked|tagName"`.
pub fn parse_compact_event(raw_message: &str) -> (r: EventParseResult)
    ensures
        match r {
            EventParseResult::Compact(ce) => compact_ok(raw_message@) && ce@ == compact_event_model(
                raw_message@,
            ),
            EventParseResult::Invalid(_) => !compact_ok(raw_message@),
            EventParseResult::Json(_) => false,
        },
{
    let content = unquote(raw_message);
    let parts = split_char(content, '|');
    if parts.len() != 6 {
        return EventParseResult::Invalid("compact frame must have six fields".to_owned());
    }
    let p0 = &parts[0];
    if !(p0.as_str().unicode_len() == 1 && p0.as_str().get_char(0) == 'e') {
        return EventParseResult::Invalid("compact frame must begin with the field e".to_owned());
    }
    let checked = checked_field(parts[4].as_str());
    EventParseResult::Compact(
        CompactEvent {
            component_id: parts[1].clone(),
            event_name: parts[2].clone(),
            value: parts[3].clone(),
            checked,
            tag_name: parts[5].clone(),
        },
    )
}

// ---------- the JSON frame ----------

/// The targeted extraction: the nonempty `componentId` and `eventName`
/// string fields and the `type` field, read off the raw text without a full
/// JSON decode.
pub open spec fn json_fast_spec(raw: Seq<char>) -> Option<(Seq<char>, Seq<char>, Seq<char>)> {
    match capture_nonempty_at(raw, "\"componentId\":\""@, 0) {
        None => None,
        Some(cid) => match capture_nonempty_at(raw, "\"eventName\":\""@, 0) {
            None => None,
            Some(name) => Some(
                (
                    cid,
                    name,
                    match capture_nonempty_at(raw, "\"type\":\""@, 0) {
                        Some(t) => t,
                        None => "event"@,
                    },
                ),
            ),
        },
    }
}

/// What the full structured JSON decode of a frame yields: the componentId
/// and eventName string fields and the type string field where present, or
/// nothing when the text is not valid JSON or lacks the required fields.
pub uninterp spec fn json_fallback_of(raw: Seq<char>) -> Option<
    (Seq<char>, Seq<char>, Option<Seq<char>>),
>;

/// Relies on serde_json::from_str::<serde_json::Value> and the Value
/// accessors get and as_str: a full structured decode of the frame, yielding
/// its componentId and eventName string fields and its optional type field.
#[verifier::external_body]
fn decode_json_event(raw: &str) -> (r: Option<(String, String, Option<String>)>)
    ensures
        match r {
            Some(t) => json_fallback_of(raw@) == Some(
                (
                    t.0@,
                    t.1@,
                    match t.2 {
                        Some(ty) => Some(ty@),
                        None => None,
                    },
                ),
            ),
            None => json_fallback_of(raw@) is None,
        },
{
    let v: serde_json::Value = serde_json::from_str(raw).ok()?;
    let component_id = v.get("componentId")?.as_str()?.to_string();
    let event_name = v.get("eventName")?.as_str()?.to_string();
    let event_type = v.get("type").and_then(|x| x.as_str()).map(|s| s.to_string());
    Some((component_id, event_name, event_type))
}

/// The event type of a fallback decode: the type field, or `event` when the
/// frame carries none.
pub open spec fn fallback_type(t: Option<Seq<char>>) -> Seq<char> {
    match t {
        Some(ty) => ty,
        None => "event"@,
    }
}

/// Parses a JSON frame: the fast targeted extraction first, then the full
/// structured decode where the extraction cannot find the required fields.
pub fn parse_json_event(raw_message: &str) -> (r: EventParseResult)
    ensures
        match r {
            EventParseResult::Json(ce) => ce.target is None && (match json_fast_spec(
                raw_message@,
            ) {
                Some(t) => ce.component_id@ == t.0 && ce.event_name@ == t.1 && ce.event_type@
                    == t.2,
                None => (match json_fallback_of(raw_message@) {
                    Some(t) => ce.component_id@ == t.0 && ce.event_name@ == t.1 && ce.event_type@
                        == fallback_type(t.2),
                    None => false,
                }),
            }),
            EventParseResult::Invalid(_) => json_fast_spec(raw_message@) is None
                && json_fallback_of(raw_message@) is None,
            EventParseResult::Compact(_) => false,
        },
{
    let cid = capture_nonempty(raw_message, "\"componentId\":\"");
    let name = capture_nonempty(raw_message, "\"eventName\":\"");
    match (cid, name) {
        (Some(component_id), Some(event_name)) => {
            let event_type = match capture_nonempty(raw_message, "\"type\":\"") {
                Some(t) => t,
                None => "event".to_owned(),
            };
            EventParseResult::Json(
                ClientEvent { event_type, event_name, component_id, target: None },
            )
        },
        _ => {
            match decode_json_event(raw_message) {
                Some((component_id, event_name, event_type_opt)) => {
                    let event_type = match event_type_opt {
                        Some(ty) => ty,
                        None => "event".to_owned(),
                    };
                    EventParseResult::Json(
                        ClientEvent { event_type, event_name, component_id, target: None },
                    )
                },
                None => EventParseResult::Invalid("JSON frame could not be decoded".to_owned()),
            }
        },
    }
}

// ---------- the unified outcome ----------

/// The target carried by a JSON event without target information.
pub open spec fn default_target() -> TargetModel {
    TargetModel {
        tag_name: Seq::empty(),
        attributes: Map::empty(),
        value: None,
        checked: None,
    }
}

/// The parsed event carried by a well-formed compact frame.
pub open spec fn compact_parsed_model(raw: Seq<char>) -> ParsedModel {
    let c = compact_event_model(raw);
    ParsedModel {
        component_id: c.component_id,
        event_name: c.event_name,
        event_data: DataModel {
            event_type: c.event_name,
            target: TargetModel {
                tag_name: c.tag_name,
                attributes: Map::empty(),
                value: if c.value.len() == 0 {
                    None
                } else {
                    Some(c.value)
                },
                checked: Some(c.checked),
            },
        },
    }
}

/// The parsed event carried by a JSON frame's extracted fields.
pub open spec fn json_parsed_model(t: (Seq<char>, Seq<char>, Seq<char>)) -> ParsedModel {
    ParsedModel {
        component_id: t.0,
        event_name: t.1,
        event_data: DataModel { event_type: t.2, target: default_target() },
    }
}

/// What parsing a raw frame yields: the parsed event, or nothing when the
/// frame is a heartbeat or malformed.
pub open spec fn parse_outcome(raw: Seq<char>) -> Option<ParsedModel> {
    if raw == "\"p\""@ {
        None
    } else if matches_at(raw, "\"e|"@, 0) {
        if compact_ok(raw) {
            Some(compact_parsed_model(raw))
        } else {
            None
        }
    } else if matches_at(raw, "{\"type\":\"event\""@, 0) {
        match json_fast_spec(raw) {
            Some(t) => Some(json_parsed_model(t)),
            None => match json_fallback_of(raw) {
                Some(t) => Some(json_parsed_model((t.0, t.1, fallback_type(t.2)))),
                None => None,
            },
        }
    } else {
        None
    }
}

/// Builds the target of an event that carries no target information.
pub fn default_event_target() -> (r: EventTarget)
    ensures
        r@ == default_target(),
{
    EventTarget {
        tag_name: String::new(),
        attributes: std::collections::HashMap::new(),
        value: None,
        checked: None,
    }
}

impl Default for EventTarget {
    fn default() -> (r: Self)
        ensures
            r@ == default_target(),
    {
        default_event_target()
    }
}

/// Parses raw socket frames into structured events.
pub struct EventParser {}

impl EventParser {
    pub fn new() -> (r: Self) {
        EventParser {  }
    }

    /// Parses one raw frame. A heartbeat frame and a malformed frame both
    /// yield an InvalidInput error; a well-formed compact or JSON frame
    /// yields exactly the event `parse_outcome` gives for it.
    pub fn parse_message(&self, raw_message: &str) -> (r: Result<ParsedEvent, LiveTSError>)
        ensures
            match r {
                Ok(pe) => parse_outcome(raw_message@) == Some(pe@),
                Err(e) => parse_outcome(raw_message@) is None && e is InvalidInput,
            },
    {
        if str_eq(raw_message, "\"p\"") {
            return Err(LiveTSError::InvalidInput("ping frame carries no event".to_owned()));
        }
        if starts_with(raw_message, "\"e|") {
            match parse_compact_event(raw_message) {
                EventParseResult::Compact(ce) => {
                    let value: Option<String> = if ce.value.as_str().unicode_len() == 0 {
                        None
                    } else {
                        Some(ce.value)
                    };
                    Ok(
                        ParsedEvent {
                            component_id: ce.component_id,
                            event_name: ce.event_name.clone(),
                            event_data: EventData {
                                event_type: ce.event_name,
                                target: EventTarget {
                                    tag_name: ce.tag_name,
                                    attributes: std::collections::HashMap::new(),
                                    value,
                                    checked: Some(ce.checked),
                                },
                            },
                        },
                    )
                },
                _ => Err(LiveTSError::InvalidInput("invalid compact event format".to_owned())),
            }
        } else if starts_with(raw_message, "{\"type\":\"event\"") {
            match parse_json_event(raw_message) {
                EventParseResult::Json(ce) => Ok(
                    ParsedEvent {
                        component_id: ce.component_id,
                        event_name: ce.event_name,
                        event_data: EventData {
                            event_type: ce.event_type,
                            target: match ce.target {
                                Some(t) => t,
                                None => default_event_target(),
                            },
                        },
                    },
                ),
                EventParseResult::Invalid(_) => Err(
                    LiveTSError::InvalidInput("JSON frame could not be decoded".to_owned()),
                ),
                EventParseResult::Compact(_) => {
                    assert(false);
                    Err(LiveTSError::InvalidInput("unreachable".to_owned()))
                },
            }
        } else {
            Err(LiveTSError::InvalidInput("unknown message format".to_owned()))
        }
    }

    /// Validates a parsed event, applying the whole post-decode rule set:
    /// the component id and event name must be nonempty, the event name must
    /// hold only alphanumerics, underscores and hyphens, and the component
    /// id must be at least eight characters long.
    pub fn validate_event(&self, event: &ParsedEvent) -> (r: Result<(), LiveTSError>)
        ensures
            r is Ok <==> (event.component_id@.len() >= 8 && event.event_name@.len() > 0
                && valid_event_name(event.event_name@)),
            match r {
                Ok(_) => true,
                Err(e) => e is InvalidInput,
            },
    {
        if event.component_id.as_str().unicode_len() == 0 {
            return Err(LiveTSError::InvalidInput("Component ID cannot be empty".to_owned()));
        }
        if event.event_name.as_str().unicode_len() == 0 {
            return Err(LiveTSError::InvalidInput("Event name cannot be empty".to_owned()));
        }
        if !check_event_name(event.event_name.as_str()) {
            return Err(
                LiveTSError::InvalidInput("Event name contains invalid characters".to_owned()),
            );
        }
        if event.component_id.as_str().unicode_len() < 8 {
            return Err(LiveTSError::InvalidInput("Component ID too short".to_owned()));
        }
        Ok(())
    }
}

impl Default for EventParser {
    fn default() -> (r: Self) {
        EventParser::new()
    }
}

} // verus!
