use ruma_api_core::get_content_as_filename;
use ruma_api_core::get_content_as_filename::IdParseError;
use ruma_api_core::request_3pid_management_token_via_msisdn as msisdn;

#[test]
fn media_request_from_url() {
    let r = get_content_as_filename::Request::from_url("mxc://example.org/abc", "f.png".to_owned())
        .unwrap();
    assert_eq!(r.server_name, "example.org");
    assert_eq!(r.media_id, "abc");
    assert_eq!(r.filename, "f.png");
    assert!(r.allow_remote);
}

#[test]
fn media_request_from_bad_url() {
    for bad in ["http://example.org/abc", "mxc://example.org", "mxc:///abc", "mxc://a/b/c", "mxc://a/", ""] {
        let r = get_content_as_filename::Request::from_url(bad, "f".to_owned());
        assert!(matches!(r, Err(IdParseError::InvalidMxcUri)), "{}", bad);
    }
}

#[test]
fn media_request_new_allows_remote() {
    let r = get_content_as_filename::Request::new("abc".to_owned(), "example.org".to_owned(), "f".to_owned());
    assert!(r.allow_remote);
    assert_eq!(r.media_id, "abc");
    assert_eq!(r.server_name, "example.org");
}

#[test]
fn media_response_new_defaults() {
    let r = get_content_as_filename::Response::new(vec![1, 2, 3]);
    assert_eq!(r.file, vec![1, 2, 3]);
    assert!(r.content_type.is_none());
    assert!(r.content_disposition.is_none());
    assert_eq!(r.cross_origin_resource_policy.as_deref(), Some("cross-origin"));
}

#[test]
fn msisdn_request_and_response_new() {
    let r = msisdn::Request::new("secret".to_owned(), "GB".to_owned(), "07700900000".to_owned(), 1);
    assert_eq!(r.send_attempt, 1);
    assert!(r.next_link.is_none());
    assert!(r.identity_server_info.is_none());
    let resp = msisdn::Response::new("sid".to_owned());
    assert_eq!(resp.sid, "sid");
    assert!(resp.submit_url.is_none());
}
