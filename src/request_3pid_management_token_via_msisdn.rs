//! `POST /_matrix/client/*/account/3pid/msisdn/requestToken`: a third-party
//! identifier management token, requested with a phone number.

use vstd::prelude::*;
use crate::events::opt_str;

verus! {

/// The largest integer that a double represents exactly, the bound of the
/// protocol's unsigned integers.
pub const MAX_SAFE_UINT: u64 = 0x001F_FFFF_FFFF_FFFF;

/// An identity server hostname and its access token.
#[derive(Clone, Debug)]
pub struct IdentityServerInfo {
    pub id_server: String,
    pub id_access_token: String,
}

/// Request for a token sent by SMS.
#[derive(Clone, Debug)]
pub struct Request {
    pub client_secret: String,
    pub country: String,
    pub phone_number: String,
    pub send_attempt: u64,
    pub next_link: Option<String>,
    pub identity_server_info: Option<IdentityServerInfo>,
}

impl Request {
    /// Well-formed: the send-attempt counter is a protocol unsigned integer.
    pub open spec fn wf(&self) -> bool {
        self.send_attempt <= MAX_SAFE_UINT
    }

    /// A request with the given client secret, country code, phone number and
    /// send-attempt counter, and no optional parts.
    pub fn new(client_secret: String, country: String, phone_number: String, send_attempt: u64) -> (r:
        Request)
        requires
            send_attempt <= MAX_SAFE_UINT,
        ensures
            r.wf(),
            r.client_secret@ == client_secret@,
            r.country@ == country@,
            r.phone_number@ == phone_number@,
            r.send_attempt == send_attempt,
            r.next_link is None,
            r.identity_server_info is None,
    {
        Request {
            client_secret,
            country,
            phone_number,
            send_attempt,
            next_link: None,
            identity_server_info: None,
        }
    }
}

/// The session the identity server opened, and where to submit the token.
#[derive(Clone, Debug)]
pub struct Response {
    pub sid: String,
    pub submit_url: Option<String>,
}

impl Response {
    /// A response with the given session identifier and no submission URL.
    pub fn new(sid: String) -> (r: Response)
        ensures
            r.sid@ == sid@,
            opt_str(r.submit_url) is None,
    {
        Response { sid, submit_url: None }
    }
}

} // verus!
