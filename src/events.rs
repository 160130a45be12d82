//! Event contents: the name of a room, and the redaction of an event.

use vstd::prelude::*;

verus! {

/// The characters of an optional string.
pub open spec fn opt_str(o: Option<String>) -> Option<Seq<char>> {
    match o {
        Some(s) => Some(s@),
        None => None,
    }
}

/// The name a room has when given `name`: an empty name is no name.
pub open spec fn nonempty_name(name: Option<Seq<char>>) -> Option<Seq<char>> {
    match name {
        Some(n) => if n.len() == 0 { None } else { Some(n) },
        None => None,
    }
}

/// The content of an `m.room.name` event: the name of the room, if any.
#[derive(Clone, Debug)]
pub struct RoomNameEventContent {
    pub name: Option<String>,
}

impl RoomNameEventContent {
    /// A room name content; an empty name means that the room has none.
    pub fn new(name: Option<String>) -> (r: RoomNameEventContent)
        ensures
            opt_str(r.name) == nonempty_name(opt_str(name)),
    {
        match name {
            Some(n) => {
                if n.as_str().unicode_len() == 0 {
                    RoomNameEventContent { name: None }
                } else {
                    RoomNameEventContent { name: Some(n) }
                }
            },
            None => RoomNameEventContent { name: None },
        }
    }
}

/// The content of an `m.room.redaction` event: the reason, if any.
#[derive(Clone, Debug)]
pub struct RedactionEventContent {
    pub reason: Option<String>,
}

impl RedactionEventContent {
    /// A redaction with no reason.
    pub fn new() -> (r: RedactionEventContent)
        ensures
            r.reason is None,
    {
        RedactionEventContent { reason: None }
    }

    /// A redaction with the given reason.
    pub fn with_reason(reason: String) -> (r: RedactionEventContent)
        ensures
            opt_str(r.reason) == Some(reason@),
    {
        RedactionEventContent { reason: Some(reason) }
    }
}

} // verus!
