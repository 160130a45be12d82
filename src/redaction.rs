//! The `m.room.redaction` event, and what is left of it once it is itself
//! redacted.

use vstd::prelude::*;
use crate::events::RedactionEventContent;

verus! {

/// Data of an event that the homeserver does not sign.
#[derive(Clone, Debug)]
pub struct Unsigned {
    pub age: Option<i64>,
    pub transaction_id: Option<String>,
}

/// Unsigned data of a redacted event: the redaction that removed it.
#[derive(Clone, Debug)]
pub struct RedactedUnsigned {
    pub redacted_because: Option<Box<SyncRedactionEvent>>,
}

impl RedactedUnsigned {
    /// Unsigned data that records `redaction` as the cause.
    pub fn new_because(redaction: Box<SyncRedactionEvent>) -> (r: RedactedUnsigned)
        ensures
            r.redacted_because == Some(redaction),
    {
        RedactedUnsigned { redacted_because: Some(redaction) }
    }
}

/// The content of a redacted redaction: nothing is kept.
#[derive(Clone, Debug)]
pub struct RedactedRedactionEventContent {}

impl RedactionEventContent {
    /// The content left after redaction, in any room version.
    pub fn redact(self, version: &str) -> (r: RedactedRedactionEventContent)
        ensures
            r == (RedactedRedactionEventContent {}),
    {
        RedactedRedactionEventContent {}
    }
}

/// A redaction event.
#[derive(Clone, Debug)]
pub struct RedactionEvent {
    pub content: RedactionEventContent,
    pub redacts: String,
    pub event_id: String,
    pub sender: String,
    pub origin_server_ts: u64,
    pub room_id: String,
    pub unsigned: Unsigned,
}

/// A redacted redaction event.
#[derive(Clone, Debug)]
pub struct RedactedRedactionEvent {
    pub content: RedactedRedactionEventContent,
    pub redacts: Option<String>,
    pub event_id: String,
    pub sender: String,
    pub origin_server_ts: u64,
    pub room_id: String,
    pub unsigned: RedactedUnsigned,
}

/// A redaction event without a room ID.
#[derive(Clone, Debug)]
pub struct SyncRedactionEvent {
    pub content: RedactionEventContent,
    pub redacts: String,
    pub event_id: String,
    pub sender: String,
    pub origin_server_ts: u64,
    pub unsigned: Unsigned,
}

/// A redacted redaction event without a room ID.
#[derive(Clone, Debug)]
pub struct RedactedSyncRedactionEvent {
    pub content: RedactedRedactionEventContent,
    pub redacts: Option<String>,
    pub event_id: String,
    pub sender: String,
    pub origin_server_ts: u64,
    pub unsigned: RedactedUnsigned,
}

impl RedactionEvent {
    /// Redacts this event because of `redaction`: the content and the ID of
    /// the redacted event go, the envelope stays, and the redaction is
    /// recorded. No released room version keeps `redacts`.
    pub fn redact(self, redaction: SyncRedactionEvent, version: &str) -> (r: RedactedRedactionEvent)
        ensures
            r.redacts is None,
            r.event_id == self.event_id,
            r.sender == self.sender,
            r.origin_server_ts == self.origin_server_ts,
            r.room_id == self.room_id,
            r.unsigned.redacted_because == Some(Box::new(redaction)),
    {
        RedactedRedactionEvent {
            content: self.content.redact(version),
            redacts: None,
            event_id: self.event_id,
            sender: self.sender,
            origin_server_ts: self.origin_server_ts,
            room_id: self.room_id,
            unsigned: RedactedUnsigned::new_because(Box::new(redaction)),
        }
    }
}

impl SyncRedactionEvent {
    /// Redacts this event because of `redaction`, as for a full event.
    pub fn redact(self, redaction: SyncRedactionEvent, version: &str) -> (r: RedactedSyncRedactionEvent)
        ensures
            r.redacts is None,
            r.event_id == self.event_id,
            r.sender == self.sender,
            r.origin_server_ts == self.origin_server_ts,
            r.unsigned.redacted_because == Some(Box::new(redaction)),
    {
        RedactedSyncRedactionEvent {
            content: self.content.redact(version),
            redacts: None,
            event_id: self.event_id,
            sender: self.sender,
            origin_server_ts: self.origin_server_ts,
            unsigned: RedactedUnsigned::new_because(Box::new(redaction)),
        }
    }
}

} // verus!
