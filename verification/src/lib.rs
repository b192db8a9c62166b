//! Core engine of a server-driven reactive UI framework: HTML-to-patch
//! diffing, event wire-format parsing and validation, a bounded component
//! HTML cache, a connection/subscription registry, a topic-based
//! publish/subscribe layer, and the socket broker's connection state
//! machine.
pub mod strutil;
pub mod types;
pub mod parser;
pub mod elements;
pub mod differ;
pub mod smap;
pub mod cache;
pub mod connection;
pub mod pubsub;
pub mod events;
pub mod broker;
pub mod engine;

pub use broker::{ConnAction, ConnEvent, ConnState};
pub use cache::ComponentCache;
pub use connection::{Connection, ConnectionManager};
pub use differ::HtmlDiffer;
pub use elements::HtmlElement;
pub use engine::LiveTSEngine;
pub use events::EventRouter;
pub use parser::EventParser;
pub use pubsub::PubSubSystem;
pub use types::{
    BrokerEvent, CacheStats, CachedComponent, ClientEvent, CompactEvent, DomPatch, EventData,
    EventParseResult, EventProcessingRequest, EventProcessingResponse, EventRouterStats,
    EventTarget, InsertPosition, LiveTSError, ParsedEvent, PubSubStats,
};
