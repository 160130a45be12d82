//! `GET /_matrix/media/*/download/{serverName}/{mediaId}/{fileName}`: content
//! from the media store, under a chosen file name.

use vstd::prelude::*;
use vstd::string::*;
use crate::events::opt_str;

verus! {

/// A malformed `mxc://` URI.
#[derive(Debug, Clone, Copy, PartialEq, Eq, Structural)]
pub enum IdParseError {
    InvalidMxcUri,
}

/// The scheme prefix of a content URI.
pub open spec fn mxc_prefix() -> Seq<char> {
    seq!['m', 'x', 'c', ':', '/', '/']
}

/// A non-empty part of a content URI, without a slash.
pub open spec fn id_part_ok(p: Seq<char>) -> bool {
    p.len() > 0 && forall|i: int| 0 <= i < p.len() ==> p[i] != '/'
}

/// The content URI `mxc://server/media`.
pub open spec fn mxc_uri(server: Seq<char>, media: Seq<char>) -> Seq<char> {
    mxc_prefix() + server + seq!['/'] + media
}

/// In a content URI, the only slashes after the scheme are the one that ends
/// the server name.
proof fn lemma_mxc_slash(s: Seq<char>, m: Seq<char>)
    requires
        id_part_ok(s),
        id_part_ok(m),
    ensures
        forall|i: int| 6 <= i < 6 + s.len() ==> mxc_uri(s, m)[i] != '/',
        mxc_uri(s, m)[6 + s.len() as int] == '/',
        forall|i: int| 7 + s.len() <= i < mxc_uri(s, m).len() ==> mxc_uri(s, m)[i] != '/',
        mxc_uri(s, m).len() == 7 + s.len() + m.len(),
{
    let u = mxc_uri(s, m);
    assert forall|i: int| 6 <= i < 6 + s.len() implies u[i] != '/' by {
        assert(u[i] == s[i - 6]);
    }
    assert forall|i: int| 7 + s.len() <= i < u.len() implies u[i] != '/' by {
        assert(u[i] == m[i - 7 - s.len()]);
    }
}

/// Request for a file from the media store.
#[derive(Clone, Debug)]
pub struct Request {
    pub server_name: String,
    pub media_id: String,
    pub filename: String,
    pub allow_remote: bool,
}

impl Request {
    /// A request for the given media, fetched remotely if need be.
    pub fn new(media_id: String, server_name: String, filename: String) -> (r: Request)
        ensures
            r.media_id@ == media_id@,
            r.server_name@ == server_name@,
            r.filename@ == filename@,
            r.allow_remote,
    {
        Request { media_id, server_name, filename, allow_remote: true }
    }

    /// A request for the media that the content URI `url` names.
    pub fn from_url(url: &str, filename: String) -> (r: Result<Request, IdParseError>)
        ensures
            r matches Ok(req) ==> url@ == mxc_uri(req.server_name@, req.media_id@) && id_part_ok(
                req.server_name@,
            ) && id_part_ok(req.media_id@) && req.filename@ == filename@ && req.allow_remote,
            r is Err ==> forall|s: Seq<char>, m: Seq<char>|
                id_part_ok(s) && id_part_ok(m) ==> #[trigger] mxc_uri(s, m) != url@,
    {
        let n = url.unicode_len();
        if n < 6 || url.get_char(0) != 'm' || url.get_char(1) != 'x' || url.get_char(2) != 'c'
            || url.get_char(3) != ':' || url.get_char(4) != '/' || url.get_char(5) != '/' {
            proof {
                assert forall|s: Seq<char>, m: Seq<char>| id_part_ok(s) && id_part_ok(m) implies #[trigger] mxc_uri(s, m) != url@ by {
                    if mxc_uri(s, m) == url@ {
                        assert(url@[0] == 'm' && url@[1] == 'x' && url@[2] == 'c');
                        assert(url@[3] == ':' && url@[4] == '/' && url@[5] == '/');
                    }
                }
            }
            return Err(IdParseError::InvalidMxcUri);
        }
        let mut k: usize = 6;
        while k < n && url.get_char(k) != '/'
            invariant
                6 <= k <= n,
                n == url@.len(),
                forall|i: int| 6 <= i < k ==> url@[i] != '/',
            decreases n - k,
        {
            k += 1;
        }
        if k == 6 || k == n {
            proof {
                assert forall|s: Seq<char>, m: Seq<char>| id_part_ok(s) && id_part_ok(m) implies #[trigger] mxc_uri(s, m) != url@ by {
                    if mxc_uri(s, m) == url@ {
                        lemma_mxc_slash(s, m);
                    }
                }
            }
            return Err(IdParseError::InvalidMxcUri);
        }
        let mut j: usize = k + 1;
        while j < n && url.get_char(j) != '/'
            invariant
                k < j <= n,
                n == url@.len(),
                forall|i: int| k < i < j ==> url@[i] != '/',
            decreases n + 1 - j,
        {
            j += 1;
        }
        if k + 1 >= n || j < n {
            proof {
                assert forall|s: Seq<char>, m: Seq<char>| id_part_ok(s) && id_part_ok(m) implies #[trigger] mxc_uri(s, m) != url@ by {
                    if mxc_uri(s, m) == url@ {
                        lemma_mxc_slash(s, m);
                    }
                }
            }
            return Err(IdParseError::InvalidMxcUri);
        }
        let server = url.substring_char(6, k).to_owned();
        let media = url.substring_char(k + 1, n).to_owned();
        proof {
            assert(url@ =~= mxc_uri(server@, media@));
            assert forall|i: int| 0 <= i < media@.len() implies media@[i] != '/' by {
                assert(media@[i] == url@[k + 1 + i]);
            }
        }
        Ok(Request { media_id: media, server_name: server, filename, allow_remote: true })
    }
}

/// The file, with the headers that describe it.
#[derive(Clone, Debug)]
pub struct Response {
    pub file: Vec<u8>,
    pub content_type: Option<String>,
    pub content_disposition: Option<String>,
    pub cross_origin_resource_policy: Option<String>,
}

/// The default cross-origin resource policy of media.
pub open spec fn cross_origin() -> Seq<char> {
    seq!['c', 'r', 'o', 's', 's', '-', 'o', 'r', 'i', 'g', 'i', 'n']
}

impl Response {
    /// A response with the given file, no content type or disposition, and
    /// the `cross-origin` resource policy.
    pub fn new(file: Vec<u8>) -> (r: Response)
        ensures
            r.file@ == file@,
            r.content_type is None,
            r.content_disposition is None,
            opt_str(r.cross_origin_resource_policy) == Some(cross_origin()),
    {
        let policy = "cross-origin";
        proof {
            reveal_strlit("cross-origin");
        }
        let p = policy.to_owned();
        assert(p@ =~= cross_origin());
        Response {
            file,
            content_type: None,
            content_disposition: None,
            cross_origin_resource_policy: Some(p),
        }
    }
}

} // verus!
