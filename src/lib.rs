//! Telemetry agent core: journal record parsing, the bounded journal buffer with
//! subscriber fan-out, the periodic metric recorder's tick planning, and the host
//! platform facts.

pub mod entry;
pub mod wire;
pub mod platform;
pub mod recorder;
pub mod roundtrip;
pub mod service;

pub use entry::{format_timestamp, parse_entry, parse_record, JournalEntry, ParseError, RecordField};
pub use platform::{GenericPlatform, Platform, PlatformSources};
pub use recorder::{category_topic, fires, MetricCategory, Recorder};
pub use service::{entries, reply_to, rejection_text, Inbound, InboundReply, JournalResponse, JournalService, TailerAction, TailerEvent, MAX_ENTRIES};
