//! Data model of the engine: DOM patches, wire events, cache entries,
//! statistics, and the error taxonomy, together with their spec-level views.
use vstd::prelude::*;

verus! {

// ---------- DOM patches ----------

/// Position for inserting new elements.
#[derive(Debug, Clone)]
pub enum InsertPosition {
    BeforeBegin,
    AfterBegin,
    BeforeEnd,
    AfterEnd,
}

/// A minimal DOM mutation instruction targeting a CSS-like selector.
#[derive(Debug, Clone)]
pub enum DomPatch {
    ReplaceText { selector: String, content: String },
    UpdateText { selector: String, text: String },
    SetAttribute { selector: String, attr: String, value: String },
    RemoveAttribute { selector: String, attr: String },
    ReplaceElement { selector: String, html: String },
    InsertElement { parent: String, position: InsertPosition, html: String },
    RemoveElement { selector: String },
    ReplaceInnerHtml { selector: String, html: String },
}

/// Spec-level model of a patch, over character sequences.
pub enum PatchModel {
    ReplaceText { selector: Seq<char>, content: Seq<char> },
    UpdateText { selector: Seq<char>, text: Seq<char> },
    SetAttribute { selector: Seq<char>, attr: Seq<char>, value: Seq<char> },
    RemoveAttribute { selector: Seq<char>, attr: Seq<char> },
    ReplaceElement { selector: Seq<char>, html: Seq<char> },
    InsertElement { parent: Seq<char>, position: InsertPosition, html: Seq<char> },
    RemoveElement { selector: Seq<char> },
    ReplaceInnerHtml { selector: Seq<char>, html: Seq<char> },
}

impl View for DomPatch {
    type V = PatchModel;

    open spec fn view(&self) -> PatchModel {
        match self {
            DomPatch::ReplaceText { selector, content } => PatchModel::ReplaceText {
                selector: selector@,
                content: content@,
            },
            DomPatch::UpdateText { selector, text } => PatchModel::UpdateText {
                selector: selector@,
                text: text@,
            },
            DomPatch::SetAttribute { selector, attr, value } => PatchModel::SetAttribute {
                selector: selector@,
                attr: attr@,
                value: value@,
            },
            DomPatch::RemoveAttribute { selector, attr } => PatchModel::RemoveAttribute {
                selector: selector@,
                attr: attr@,
            },
            DomPatch::ReplaceElement { selector, html } => PatchModel::ReplaceElement {
                selector: selector@,
                html: html@,
            },
            DomPatch::InsertElement { parent, position, html } => PatchModel::InsertElement {
                parent: parent@,
                position: *position,
                html: html@,
            },
            DomPatch::RemoveElement { selector } => PatchModel::RemoveElement {
                selector: selector@,
            },
            DomPatch::ReplaceInnerHtml { selector, html } => PatchModel::ReplaceInnerHtml {
                selector: selector@,
                html: html@,
            },
        }
    }
}

// ---------- events ----------

/// Information about the DOM element that triggered an event.
#[derive(Debug, Clone)]
pub struct EventTarget {
    pub tag_name: String,
    pub attributes: std::collections::HashMap<String, String>,
    pub value: Option<String>,
    pub checked: Option<bool>,
}

/// Spec-level model of an event target.
pub struct TargetModel {
    pub tag_name: Seq<char>,
    pub attributes: Map<String, String>,
    pub value: Option<Seq<char>>,
    pub checked: Option<bool>,
}

impl View for EventTarget {
    type V = TargetModel;

    open spec fn view(&self) -> TargetModel {
        TargetModel {
            tag_name: self.tag_name@,
            attributes: self.attributes@,
            value: match self.value {
                Some(v) => Some(v@),
                None => None,
            },
            checked: self.checked,
        }
    }
}

/// Event data extracted from the client frame.
#[derive(Debug, Clone)]
pub struct EventData {
    pub event_type: String,
    pub target: EventTarget,
}

pub struct DataModel {
    pub event_type: Seq<char>,
    pub target: TargetModel,
}

impl View for EventData {
    type V = DataModel;

    open spec fn view(&self) -> DataModel {
        DataModel { event_type: self.event_type@, target: self.target@ }
    }
}

/// A fully parsed event, ready for routing.
#[derive(Debug, Clone)]
pub struct ParsedEvent {
    pub component_id: String,
    pub event_name: String,
    pub event_data: EventData,
}

pub struct ParsedModel {
    pub component_id: Seq<char>,
    pub event_name: Seq<char>,
    pub event_data: DataModel,
}

impl View for ParsedEvent {
    type V = ParsedModel;

    open spec fn view(&self) -> ParsedModel {
        ParsedModel {
            component_id: self.component_id@,
            event_name: self.event_name@,
            event_data: self.event_data@,
        }
    }
}

/// The compact pipe-delimited event format.
#[derive(Debug, Clone)]
pub struct CompactEvent {
    pub component_id: String,
    pub event_name: String,
    pub value: String,
    pub checked: bool,
    pub tag_name: String,
}

pub struct CompactModel {
    pub component_id: Seq<char>,
    pub event_name: Seq<char>,
    pub value: Seq<char>,
    pub checked: bool,
    pub tag_name: Seq<char>,
}

impl View for CompactEvent {
    type V = CompactModel;

    open spec fn view(&self) -> CompactModel {
        CompactModel {
            component_id: self.component_id@,
            event_name: self.event_name@,
            value: self.value@,
            checked: self.checked,
            tag_name: self.tag_name@,
        }
    }
}

/// A client event in the JSON format.
#[derive(Debug, Clone)]
pub struct ClientEvent {
    pub event_type: String,
    pub event_name: String,
    pub component_id: String,
    pub target: Option<EventTarget>,
}

pub struct ClientModel {
    pub event_type: Seq<char>,
    pub event_name: Seq<char>,
    pub component_id: Seq<char>,
    pub target: Option<TargetModel>,
}

impl View for ClientEvent {
    type V = ClientModel;

    open spec fn view(&self) -> ClientModel {
        ClientModel {
            event_type: self.event_type@,
            event_name: self.event_name@,
            component_id: self.component_id@,
            target: match self.target {
                Some(t) => Some(t@),
                None => None,
            },
        }
    }
}

/// Outcome of parsing one raw frame.
#[derive(Debug, Clone)]
pub enum EventParseResult {
    Compact(CompactEvent),
    Json(ClientEvent),
    Invalid(String),
}

// ---------- cache entries ----------

/// One cached component rendering.
#[derive(Debug, Clone)]
pub struct CachedComponent {
    pub component_id: String,
    pub current_html: String,
    pub last_updated: u64,
}

/// Cache size statistics.
#[derive(Debug, Clone)]
pub struct CacheStats {
    pub size: usize,
    pub max_size: usize,
}

// ---------- host-facing requests and statistics ----------

/// Event processing request handed to the host's render callback.
#[derive(Debug, Clone)]
pub struct EventProcessingRequest {
    pub component_id: String,
    pub event_name: String,
    pub event_data: EventData,
}

/// Event processing response from the host's render callback.
#[derive(Debug, Clone)]
pub struct EventProcessingResponse {
    pub success: bool,
    pub new_html: String,
    pub error: Option<String>,
}

/// Statistics about the event router.
#[derive(Debug, Clone)]
pub struct EventRouterStats {
    pub registered_handlers: usize,
}

/// Statistics about the pub/sub system.
#[derive(Debug, Clone)]
pub struct PubSubStats {
    pub total_channels: usize,
    pub total_subscriptions: usize,
    pub active_components: usize,
}

// ---------- broker events ----------

/// Notification emitted by the socket broker towards the embedding host.
#[derive(Debug, Clone)]
pub enum BrokerEvent {
    Connected { connection_id: String },
    Message { connection_id: String, data: String },
    Closed { connection_id: String },
}

// ---------- errors ----------

/// Error taxonomy of the engine.
#[derive(Debug, Clone)]
pub enum LiveTSError {
    ConnectionNotFound(String),
    ComponentNotFound(String),
    WebSocketError(String),
    HtmlParsingError(String),
    SerializationError(String),
    EventRoutingError(String),
    PubSubError(String),
    InvalidInput(String),
}

} // verus!
