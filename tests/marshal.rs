use ruma_api_core::field::{FieldSpec, RequestField};
use ruma_api_core::marshal::{decode_request, encode_request, MarshalError};
use ruma_api_core::metadata::{parse_template, HistoryEntry, Metadata, Method, Version};
use ruma_api_core::placement::Placement;
use ruma_api_core::wire::{FieldValue, HttpMessage, Pair};

fn field(name: &str, kind: Placement, optional: bool, default: Option<&str>) -> RequestField {
    RequestField::new(
        FieldSpec {
            name: name.as_bytes().to_vec(),
            optional,
            default: default.map(|d| d.as_bytes().to_vec()),
        },
        kind,
    )
}

fn meta(method: Method, entries: &[(u32, u32, &str)]) -> Metadata {
    Metadata {
        method,
        requires_authentication: false,
        rate_limited: false,
        history: entries
            .iter()
            .map(|(ma, mi, t)| HistoryEntry {
                version: Version::new(*ma, *mi),
                template: parse_template(&t.as_bytes().to_vec()).unwrap(),
            })
            .collect(),
    }
}

fn bytes(s: &str) -> FieldValue {
    FieldValue::Bytes(s.as_bytes().to_vec())
}

fn as_bytes(v: &FieldValue) -> Option<Vec<u8>> {
    match v {
        FieldValue::Bytes(b) => Some(b.clone()),
        _ => None,
    }
}

fn media_endpoint() -> (Metadata, Vec<RequestField>) {
    (
        meta(Method::Get, &[(1, 0, "/media/r0/download/{server}/{id}")]),
        vec![
            field("server", Placement::Path, false, None),
            field("id", Placement::Path, false, None),
            field("allow_remote", Placement::Query, false, Some("true")),
        ],
    )
}

#[test]
fn media_download_omits_default_query() {
    let (m, fields) = media_endpoint();
    let values = vec![bytes("example.org"), bytes("abc"), bytes("true")];
    let msg = encode_request(&m, &fields, &values, Version::new(1, 0)).unwrap();
    assert_eq!(msg.path, b"/media/r0/download/example.org/abc".to_vec());
    assert!(msg.query.is_empty());
    assert!(msg.body.is_empty());
    assert_eq!(msg.method, Method::Get);

    let decoded = decode_request(&m, &fields, &msg, Version::new(1, 0)).unwrap();
    assert_eq!(as_bytes(&decoded[0]), Some(b"example.org".to_vec()));
    assert_eq!(as_bytes(&decoded[1]), Some(b"abc".to_vec()));
    assert_eq!(as_bytes(&decoded[2]), Some(b"true".to_vec()));
}

#[test]
fn media_download_writes_non_default_query() {
    let (m, fields) = media_endpoint();
    let values = vec![bytes("example.org"), bytes("abc"), bytes("false")];
    let msg = encode_request(&m, &fields, &values, Version::new(1, 3)).unwrap();
    assert_eq!(msg.query.len(), 1);
    assert_eq!(msg.query[0].name, b"allow_remote".to_vec());
    assert_eq!(msg.query[0].value, b"false".to_vec());
    let decoded = decode_request(&m, &fields, &msg, Version::new(1, 3)).unwrap();
    assert_eq!(as_bytes(&decoded[2]), Some(b"false".to_vec()));
}

#[test]
fn path_value_with_slash_is_rejected() {
    let (m, fields) = media_endpoint();
    let values = vec![bytes("example.org"), bytes("a/b"), bytes("true")];
    assert!(matches!(
        encode_request(&m, &fields, &values, Version::new(1, 0)),
        Err(MarshalError::InvalidPathValue(1))
    ));
}

#[test]
fn unsupported_version_is_rejected() {
    let (m, fields) = media_endpoint();
    let values = vec![bytes("example.org"), bytes("abc"), bytes("true")];
    assert!(matches!(
        encode_request(&m, &fields, &values, Version::new(0, 9)),
        Err(MarshalError::Unsupported)
    ));
}

#[test]
fn wrong_path_is_no_route() {
    let (m, fields) = media_endpoint();
    let msg = HttpMessage {
        method: Method::Get,
        path: b"/media/r0/upload/example.org/abc".to_vec(),
        query: vec![],
        headers: vec![],
        body: vec![],
    };
    assert!(matches!(decode_request(&m, &fields, &msg, Version::new(1, 0)), Err(MarshalError::PathNotMatched)));
    let short = HttpMessage { path: b"/media/r0/download/example.org".to_vec(), ..msg };
    assert!(matches!(decode_request(&m, &fields, &short, Version::new(1, 0)), Err(MarshalError::PathNotMatched)));
}

#[test]
fn raw_body_and_header_round_trip() {
    let m = meta(Method::Post, &[(1, 0, "/upload")]);
    let fields = vec![
        field("file", Placement::RawBody, false, None),
        field("content_type", Placement::Header(b"Content-Type".to_vec()), false, None),
    ];
    let values = vec![FieldValue::Bytes(vec![1, 2, 3]), bytes("image/png")];
    let msg = encode_request(&m, &fields, &values, Version::new(1, 0)).unwrap();
    assert_eq!(msg.body, vec![1, 2, 3]);
    assert_eq!(msg.headers.len(), 1);
    assert_eq!(msg.headers[0].name, b"Content-Type".to_vec());
    assert_eq!(msg.headers[0].value, b"image/png".to_vec());
    let decoded = decode_request(&m, &fields, &msg, Version::new(1, 0)).unwrap();
    assert_eq!(as_bytes(&decoded[0]), Some(vec![1, 2, 3]));
    assert_eq!(as_bytes(&decoded[1]), Some(b"image/png".to_vec()));
}

#[test]
fn header_lookup_ignores_case_and_missing_header_fails() {
    let m = meta(Method::Post, &[(1, 0, "/upload")]);
    let fields = vec![
        field("file", Placement::RawBody, false, None),
        field("content_type", Placement::Header(b"Content-Type".to_vec()), false, None),
    ];
    let msg = HttpMessage {
        method: Method::Post,
        path: b"/upload".to_vec(),
        query: vec![],
        headers: vec![Pair { name: b"content-TYPE".to_vec(), value: b"text/plain".to_vec() }],
        body: vec![9],
    };
    let decoded = decode_request(&m, &fields, &msg, Version::new(1, 0)).unwrap();
    assert_eq!(as_bytes(&decoded[1]), Some(b"text/plain".to_vec()));
    let bare = HttpMessage { headers: vec![], ..msg };
    assert!(matches!(decode_request(&m, &fields, &bare, Version::new(1, 0)), Err(MarshalError::MissingHeader(1))));
}

#[test]
fn invalid_header_value_is_rejected() {
    let m = meta(Method::Post, &[(1, 0, "/upload")]);
    let fields = vec![field("content_type", Placement::Header(b"Content-Type".to_vec()), false, None)];
    let values = vec![bytes("image/png\r\nX: y")];
    assert!(matches!(
        encode_request(&m, &fields, &values, Version::new(1, 0)),
        Err(MarshalError::InvalidHeaderValue(0))
    ));
}

#[test]
fn body_record_round_trip_with_optional_field() {
    let m = meta(Method::Put, &[(1, 0, "/rooms/{room}/state")]);
    let fields = vec![
        field("room", Placement::Path, false, None),
        field("name", Placement::Body, false, None),
        field("topic", Placement::Body, true, None),
        field("reason", Placement::Body, true, None),
    ];
    let values = vec![bytes("r1"), bytes("\"Room\""), FieldValue::Absent, bytes("\"why\"")];
    let msg = encode_request(&m, &fields, &values, Version::new(1, 0)).unwrap();
    assert_eq!(msg.path, b"/rooms/r1/state".to_vec());
    let expected = br#"{"name":"Room","reason":"why"}"#.to_vec();
    assert_eq!(msg.body, expected);
    let decoded = decode_request(&m, &fields, &msg, Version::new(1, 0)).unwrap();
    assert_eq!(as_bytes(&decoded[1]), Some(b"\"Room\"".to_vec()));
    assert!(matches!(decoded[2], FieldValue::Absent));
    assert_eq!(as_bytes(&decoded[3]), Some(b"\"why\"".to_vec()));
    let broken = HttpMessage { body: br#"{"name":"#.to_vec(), ..msg };
    assert!(matches!(decode_request(&m, &fields, &broken, Version::new(1, 0)), Err(MarshalError::FieldDecode(1))));
}

#[test]
fn query_map_round_trip() {
    let m = meta(Method::Get, &[(1, 0, "/search")]);
    let fields = vec![field("params", Placement::QueryMap, false, None)];
    let values = vec![FieldValue::Pairs(vec![
        Pair { name: b"b".to_vec(), value: b"2".to_vec() },
        Pair { name: b"a".to_vec(), value: b"1".to_vec() },
    ])];
    let msg = encode_request(&m, &fields, &values, Version::new(1, 0)).unwrap();
    assert_eq!(msg.query.len(), 2);
    assert_eq!(msg.query[0].name, b"b".to_vec());
    assert_eq!(msg.query[1].name, b"a".to_vec());
    let decoded = decode_request(&m, &fields, &msg, Version::new(1, 0)).unwrap();
    match &decoded[0] {
        FieldValue::Pairs(ps) => {
            assert_eq!(ps.len(), 2);
            assert_eq!(ps[0].value, b"2".to_vec());
            assert_eq!(ps[1].value, b"1".to_vec());
        }
        _ => panic!("expected pairs"),
    }
}

#[test]
fn required_query_missing_fails() {
    let m = meta(Method::Get, &[(1, 0, "/search")]);
    let fields = vec![field("term", Placement::Query, false, None), field("limit", Placement::Query, true, None)];
    let msg = HttpMessage { method: Method::Get, path: b"/search".to_vec(), query: vec![], headers: vec![], body: vec![] };
    assert!(matches!(decode_request(&m, &fields, &msg, Version::new(1, 0)), Err(MarshalError::FieldDecode(0))));
    let with_term = HttpMessage {
        query: vec![Pair { name: b"other".to_vec(), value: b"x".to_vec() }, Pair { name: b"term".to_vec(), value: b"cats".to_vec() }],
        ..msg
    };
    let decoded = decode_request(&m, &fields, &with_term, Version::new(1, 0)).unwrap();
    assert_eq!(as_bytes(&decoded[0]), Some(b"cats".to_vec()));
    assert!(matches!(decoded[1], FieldValue::Absent));
}

#[test]
fn versioned_templates_route_by_version() {
    let m = meta(Method::Get, &[(1, 0, "/path/v1/{x}"), (1, 1, "/path/v3/{x}")]);
    let fields = vec![field("x", Placement::Path, false, None)];
    let values = vec![bytes("7")];
    let old = encode_request(&m, &fields, &values, Version::new(1, 0)).unwrap();
    assert_eq!(old.path, b"/path/v1/7".to_vec());
    let new = encode_request(&m, &fields, &values, Version::new(1, 1)).unwrap();
    assert_eq!(new.path, b"/path/v3/7".to_vec());
    let later = encode_request(&m, &fields, &values, Version::new(3, 0)).unwrap();
    assert_eq!(later.path, b"/path/v3/7".to_vec());
    assert!(matches!(decode_request(&m, &fields, &old, Version::new(1, 1)), Err(MarshalError::PathNotMatched)));
}

#[test]
fn body_record_values_with_nested_commas() {
    let m = meta(Method::Post, &[(1, 0, "/send")]);
    let fields = vec![
        field("content", Placement::Body, false, None),
        field("tags", Placement::Body, false, None),
    ];
    let values = vec![bytes(r#"{"a":[1,2],"b":"x,}y"}"#), bytes("[3,4]")];
    let msg = encode_request(&m, &fields, &values, Version::new(1, 0)).unwrap();
    assert_eq!(msg.body, br#"{"content":{"a":[1,2],"b":"x,}y"},"tags":[3,4]}"#.to_vec());
    let decoded = decode_request(&m, &fields, &msg, Version::new(1, 0)).unwrap();
    assert_eq!(as_bytes(&decoded[0]), Some(br#"{"a":[1,2],"b":"x,}y"}"#.to_vec()));
    assert_eq!(as_bytes(&decoded[1]), Some(b"[3,4]".to_vec()));
    let empty = HttpMessage { body: b"{}".to_vec(), ..msg };
    assert!(matches!(decode_request(&m, &fields, &empty, Version::new(1, 0)), Err(MarshalError::FieldDecode(0))));
}
