use ruma_api_core::endpoint::{Endpoint, FieldDecl};
use ruma_api_core::field::{FieldSpec, RequestField};
use ruma_api_core::marshal::{decode_request, decode_response, encode_request, encode_response, MarshalError};
use ruma_api_core::metadata::{parse_template, HistoryEntry, Metadata, Method, Version};
use ruma_api_core::placement::{DefinitionError, Placement};
use ruma_api_core::wire::{FieldValue, HttpResponse, Pair};

fn spec(name: &str, optional: bool, default: Option<&str>) -> FieldSpec {
    FieldSpec { name: name.as_bytes().to_vec(), optional, default: default.map(|d| d.as_bytes().to_vec()) }
}

fn meta(method: Method, template: &str) -> Metadata {
    Metadata {
        method,
        requires_authentication: true,
        rate_limited: false,
        history: vec![HistoryEntry {
            version: Version::new(1, 0),
            template: parse_template(&template.as_bytes().to_vec()).unwrap(),
        }],
    }
}

fn as_bytes(v: &FieldValue) -> Option<Vec<u8>> {
    match v {
        FieldValue::Bytes(b) => Some(b.clone()),
        _ => None,
    }
}

#[test]
fn raw_body_response_with_content_type() {
    let fields = vec![
        RequestField::new(spec("file", false, None), Placement::RawBody),
        RequestField::new(spec("content_type", true, None), Placement::Header(b"Content-Type".to_vec())),
    ];
    let values = vec![FieldValue::Bytes(vec![1, 2, 3]), FieldValue::Bytes(b"image/png".to_vec())];
    let resp = encode_response(&fields, &values).unwrap();
    assert_eq!(resp.body, vec![1, 2, 3]);
    assert_eq!(resp.headers.len(), 1);
    assert_eq!(resp.headers[0].name, b"Content-Type".to_vec());
    assert_eq!(resp.headers[0].value, b"image/png".to_vec());
    let decoded = decode_response(&fields, &resp).unwrap();
    assert_eq!(as_bytes(&decoded[0]), Some(vec![1, 2, 3]));
    assert_eq!(as_bytes(&decoded[1]), Some(b"image/png".to_vec()));
}

#[test]
fn optional_header_absent_in_response() {
    let fields = vec![
        RequestField::new(spec("file", false, None), Placement::RawBody),
        RequestField::new(spec("content_type", true, None), Placement::Header(b"Content-Type".to_vec())),
    ];
    let resp = HttpResponse { headers: vec![], body: vec![7] };
    let decoded = decode_response(&fields, &resp).unwrap();
    assert!(matches!(decoded[1], FieldValue::Absent));
    let values = vec![FieldValue::Bytes(vec![7]), FieldValue::Absent];
    let encoded = encode_response(&fields, &values).unwrap();
    assert!(encoded.headers.is_empty());
}

#[test]
fn response_header_with_newline_is_rejected() {
    let fields = vec![RequestField::new(spec("disposition", false, None), Placement::Header(b"Content-Disposition".to_vec()))];
    let values = vec![FieldValue::Bytes(b"a\nb".to_vec())];
    assert!(matches!(encode_response(&fields, &values), Err(MarshalError::InvalidHeaderValue(0))));
}

#[test]
fn path_values_are_percent_escaped() {
    let m = meta(Method::Get, "/rooms/{room}");
    let fields = vec![RequestField::new(spec("room", false, None), Placement::Path)];
    let values = vec![FieldValue::Bytes(b"!a b:example.org".to_vec())];
    let msg = encode_request(&m, &fields, &values, Version::new(1, 0)).unwrap();
    assert_eq!(msg.path, b"/rooms/%21a%20b%3Aexample.org".to_vec());
    let decoded = decode_request(&m, &fields, &msg, Version::new(1, 0)).unwrap();
    assert_eq!(as_bytes(&decoded[0]), Some(b"!a b:example.org".to_vec()));
}

#[test]
fn malformed_escape_fails_field_decode() {
    let m = meta(Method::Get, "/rooms/{room}");
    let fields = vec![RequestField::new(spec("room", false, None), Placement::Path)];
    let msg = ruma_api_core::wire::HttpMessage {
        method: Method::Get,
        path: b"/rooms/%zz".to_vec(),
        query: vec![Pair { name: b"x".to_vec(), value: b"y".to_vec() }],
        headers: vec![],
        body: vec![],
    };
    assert!(matches!(decode_request(&m, &fields, &msg, Version::new(1, 0)), Err(MarshalError::FieldDecode(0))));
    let lower = ruma_api_core::wire::HttpMessage { path: b"/rooms/a%2fb".to_vec(), ..msg };
    let decoded = decode_request(&m, &fields, &lower, Version::new(1, 0)).unwrap();
    assert_eq!(as_bytes(&decoded[0]), Some(b"a/b".to_vec()));
}

#[test]
fn endpoint_new_checks_definition() {
    let ok = Endpoint::new(
        meta(Method::Get, "/media/r0/download/{server}/{id}"),
        vec![
            RequestField::new(spec("server", false, None), Placement::Path),
            RequestField::new(spec("id", false, None), Placement::Path),
            RequestField::new(spec("allow_remote", false, Some("true")), Placement::Query),
        ],
        vec![RequestField::new(spec("file", false, None), Placement::RawBody)],
    );
    assert!(ok.is_ok());
    let e = ok.unwrap();
    assert!(e.metadata.requires_authentication);
    assert!(!e.metadata.rate_limited);
    assert_eq!(e.metadata.effective_auth(), true);
    assert_eq!(e.metadata.effective_rate_limit(), false);

    let get_body = Endpoint::new(
        meta(Method::Get, "/state"),
        vec![RequestField::new(spec("content", false, None), Placement::Body)],
        vec![],
    );
    assert!(matches!(get_body, Err(DefinitionError::BodyOnSafeMethod)));

    let mixed_response = Endpoint::new(
        meta(Method::Post, "/upload"),
        vec![],
        vec![
            RequestField::new(spec("file", false, None), Placement::RawBody),
            RequestField::new(spec("extra", false, None), Placement::Body),
        ],
    );
    assert!(matches!(mixed_response, Err(DefinitionError::MixedBodyKinds)));
}

#[test]
fn field_from_attributes() {
    let f = RequestField::from_attrs(spec("id", false, None), &vec![Placement::Path]).unwrap();
    assert_eq!(f.kind, Placement::Path);
    assert!(f.as_path_field().is_some());
    assert!(f.as_body_field().is_none());
    let body = RequestField::from_attrs(spec("content", false, None), &vec![]).unwrap();
    assert!(body.as_body_field().is_some());
    assert!(body.as_query_field().is_none());
    let conflict = RequestField::from_attrs(spec("x", false, None), &vec![Placement::Query, Placement::QueryMap]);
    assert!(matches!(conflict, Err(DefinitionError::ConflictingPlacement)));
    let header = RequestField::new(spec("ct", false, None), Placement::Header(b"Content-Type".to_vec()));
    assert_eq!(header.as_header_field().map(|(_, h)| h.clone()), Some(b"Content-Type".to_vec()));
    let raw = RequestField::new(spec("file", false, None), Placement::RawBody);
    assert!(raw.as_raw_body_field().is_some());
    let map = RequestField::new(spec("params", false, None), Placement::QueryMap);
    assert!(map.as_query_map_field().is_some());
}

#[test]
fn from_declarations_classifies_in_order() {
    let decl = |name: &str, attrs: Vec<Placement>| FieldDecl { spec: spec(name, false, None), attrs };
    let ok = Endpoint::from_declarations(
        meta(Method::Get, "/rooms/{room}"),
        &vec![decl("room", vec![Placement::Path]), decl("limit", vec![Placement::Query])],
        vec![decl_free_response()],
    )
    .unwrap();
    assert_eq!(ok.request.len(), 2);
    assert_eq!(ok.request[0].kind, Placement::Path);
    assert_eq!(ok.request[1].kind, Placement::Query);

    let conflict = Endpoint::from_declarations(
        meta(Method::Get, "/rooms/{room}"),
        &vec![decl("room", vec![Placement::Path]), decl("x", vec![Placement::Query, Placement::Path]), decl("body", vec![])],
        vec![],
    );
    assert!(matches!(conflict, Err(DefinitionError::ConflictingPlacement)));

    let get_body = Endpoint::from_declarations(
        meta(Method::Get, "/rooms/{room}"),
        &vec![decl("room", vec![Placement::Path]), decl("content", vec![])],
        vec![],
    );
    assert!(matches!(get_body, Err(DefinitionError::BodyOnSafeMethod)));
}

fn decl_free_response() -> RequestField {
    RequestField::new(spec("file", false, None), Placement::RawBody)
}

#[test]
fn encode_names_first_bad_path_field_before_headers() {
    let m = meta(Method::Post, "/a/{y}/{x}");
    let fields = vec![
        RequestField::new(spec("x", false, None), Placement::Path),
        RequestField::new(spec("y", false, None), Placement::Path),
        RequestField::new(spec("h", false, None), Placement::Header(b"X-H".to_vec())),
    ];
    let values = vec![
        FieldValue::Bytes(b"a/b".to_vec()),
        FieldValue::Bytes(b"c/d".to_vec()),
        FieldValue::Bytes(b"bad\n".to_vec()),
    ];
    assert!(matches!(encode_request(&m, &fields, &values, Version::new(1, 0)), Err(MarshalError::InvalidPathValue(1))));
}
