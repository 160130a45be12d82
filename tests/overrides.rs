use ruma_api_core::field::{FieldSpec, RequestField};
use ruma_api_core::marshal::{decode_request, encode_request};
use ruma_api_core::metadata::{apply_overrides, parse_template, HistoryEntry, Metadata, Method, Version};
use ruma_api_core::placement::{DefinitionError, Placement};
use ruma_api_core::validate::check_request;
use ruma_api_core::wire::{FieldValue, Pair};

fn path_field(name: &str) -> RequestField {
    RequestField::new(FieldSpec { name: name.as_bytes().to_vec(), optional: false, default: None }, Placement::Path)
}

fn pair(a: &str, b: &str) -> Pair {
    Pair { name: a.as_bytes().to_vec(), value: b.as_bytes().to_vec() }
}

#[test]
fn renamed_placeholder_is_mapped_per_version() {
    let old = parse_template(&b"/media/r0/download/{serverName}/{mediaId}".to_vec()).unwrap();
    let old = apply_overrides(old, &vec![pair("serverName", "server"), pair("mediaId", "id")]).unwrap();
    let new = parse_template(&b"/media/v3/download/{server}/{id}".to_vec()).unwrap();
    let meta = Metadata {
        method: Method::Get,
        requires_authentication: false,
        rate_limited: false,
        history: vec![
            HistoryEntry { version: Version::new(1, 0), template: old },
            HistoryEntry { version: Version::new(1, 1), template: new },
        ],
    };
    let fields = vec![path_field("server"), path_field("id")];
    assert_eq!(check_request(Method::Get, &meta.history, &fields), Ok(()));
    let values = vec![FieldValue::Bytes(b"example.org".to_vec()), FieldValue::Bytes(b"abc".to_vec())];
    let m0 = encode_request(&meta, &fields, &values, Version::new(1, 0)).unwrap();
    assert_eq!(m0.path, b"/media/r0/download/example.org/abc".to_vec());
    let m1 = encode_request(&meta, &fields, &values, Version::new(1, 1)).unwrap();
    assert_eq!(m1.path, b"/media/v3/download/example.org/abc".to_vec());
    let back = decode_request(&meta, &fields, &m0, Version::new(1, 0)).unwrap();
    assert!(matches!(&back[1], FieldValue::Bytes(b) if b == b"abc"));
}

#[test]
fn missing_override_fails_validation() {
    let old = parse_template(&b"/media/r0/download/{serverName}/{mediaId}".to_vec()).unwrap();
    let new = parse_template(&b"/media/v3/download/{server}/{id}".to_vec()).unwrap();
    let history = vec![
        HistoryEntry { version: Version::new(1, 0), template: old },
        HistoryEntry { version: Version::new(1, 1), template: new },
    ];
    let fields = vec![path_field("server"), path_field("id")];
    assert_eq!(check_request(Method::Get, &history, &fields), Err(DefinitionError::PathFieldMismatch));
}

#[test]
fn override_creating_duplicate_placeholder_is_refused() {
    let t = parse_template(&b"/a/{x}/{y}".to_vec()).unwrap();
    assert!(apply_overrides(t, &vec![pair("x", "y")]).is_none());
    let t = parse_template(&b"/a/{x}".to_vec()).unwrap();
    assert!(apply_overrides(t, &vec![pair("x", "p/q")]).is_none());
}
