//! Endpoint definitions for a federated messaging API, and the marshalling of
//! their requests and responses to and from HTTP messages.
//!
//! An endpoint is described as data: a method, policy flags, a history of
//! path templates across protocol versions, and fields classified by where
//! they sit on the wire. The description is checked once for consistency;
//! requests and responses are then encoded to and decoded from HTTP messages,
//! and decoding what was encoded gives back the values.

pub mod bytes;
pub mod path;
pub mod escape;
pub mod json;
pub mod placement;
pub mod field;
pub mod metadata;
pub mod validate;
pub mod wire;
pub mod marshal;
pub mod round_trip;
pub mod endpoint;
pub mod events;
pub mod redaction;
pub mod get_content_as_filename;
pub mod request_3pid_management_token_via_msisdn;
