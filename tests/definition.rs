use ruma_api_core::metadata::{parse_template, HistoryEntry, Metadata, Method, Segment, Version, VersionResolutionError};
use ruma_api_core::placement::{classify, DefinitionError, Placement};
use ruma_api_core::field::{FieldSpec, RequestField};
use ruma_api_core::validate::{check_request, check_response};

fn field(name: &str, kind: Placement) -> RequestField {
    RequestField::new(FieldSpec { name: name.as_bytes().to_vec(), optional: false, default: None }, kind)
}

fn history(entries: &[(u32, u32, &str)]) -> Vec<HistoryEntry> {
    entries
        .iter()
        .map(|(ma, mi, t)| HistoryEntry {
            version: Version::new(*ma, *mi),
            template: parse_template(&t.as_bytes().to_vec()).unwrap(),
        })
        .collect()
}

fn template_of(m: &Metadata, v: Version) -> Option<Vec<Vec<u8>>> {
    m.resolve(v).ok().map(|t| {
        t.segments
            .iter()
            .map(|s| match s {
                Segment::Literal(l) => l.clone(),
                Segment::Param(p) => p.clone(),
            })
            .collect()
    })
}

#[test]
fn classify_placements() {
    assert_eq!(classify(&vec![]), Ok(Placement::Body));
    assert_eq!(classify(&vec![Placement::Query]), Ok(Placement::Query));
    assert_eq!(classify(&vec![Placement::Query, Placement::Path]), Err(DefinitionError::ConflictingPlacement));
}

#[test]
fn parse_template_segments() {
    let t = parse_template(&b"/media/r0/download/{server}/{id}".to_vec()).unwrap();
    assert_eq!(t.segments.len(), 5);
    assert!(matches!(&t.segments[0], Segment::Literal(l) if l == b"media"));
    assert!(matches!(&t.segments[3], Segment::Param(p) if p == b"server"));
    assert!(matches!(&t.segments[4], Segment::Param(p) if p == b"id"));
    assert!(parse_template(&b"no/slash".to_vec()).is_none());
    assert!(parse_template(&b"/a/{x}/{x}".to_vec()).is_none());
    let trailing = parse_template(&b"/_matrix/client/r0/pushrules/global/".to_vec()).unwrap();
    assert_eq!(trailing.segments.len(), 6);
}

#[test]
fn resolve_picks_newest_entry_not_after_version() {
    let m = Metadata {
        method: Method::Get,
        requires_authentication: false,
        rate_limited: false,
        history: history(&[(1, 0, "/path/v1/{x}"), (1, 1, "/path/v3/{x}")]),
    };
    let v1 = template_of(&m, Version::new(1, 0)).unwrap();
    assert_eq!(v1[1], b"v1".to_vec());
    let v3 = template_of(&m, Version::new(1, 1)).unwrap();
    assert_eq!(v3[1], b"v3".to_vec());
    let later = template_of(&m, Version::new(2, 4)).unwrap();
    assert_eq!(later[1], b"v3".to_vec());
    assert!(matches!(m.resolve(Version::new(0, 9)), Err(VersionResolutionError::Unsupported)));
    assert_eq!(m.resolve_index(Version::new(1, 5)), Ok(1));
}

#[test]
fn validator_rejects_raw_and_body() {
    let h = history(&[(1, 0, "/upload")]);
    let fs = vec![field("file", Placement::RawBody), field("name", Placement::Body)];
    assert_eq!(check_request(Method::Post, &h, &fs), Err(DefinitionError::MixedBodyKinds));
}

#[test]
fn validator_rejects_two_query_maps() {
    let h = history(&[(1, 0, "/search")]);
    let fs = vec![field("a", Placement::QueryMap), field("b", Placement::QueryMap)];
    assert_eq!(check_request(Method::Post, &h, &fs), Err(DefinitionError::MultipleQueryMaps));
}

#[test]
fn validator_rejects_body_on_get() {
    let h = history(&[(1, 0, "/state")]);
    let fs = vec![field("content", Placement::Body)];
    assert_eq!(check_request(Method::Get, &h, &fs), Err(DefinitionError::BodyOnSafeMethod));
    assert_eq!(check_request(Method::Put, &h, &fs), Ok(()));
}

#[test]
fn validator_other_rules() {
    let h = history(&[(1, 0, "/x")]);
    let two = vec![field("a", Placement::RawBody), field("b", Placement::NewtypeBody)];
    assert_eq!(check_request(Method::Post, &h, &two), Err(DefinitionError::MultipleBodyTypes));
    let mixed_q = vec![field("a", Placement::QueryMap), field("b", Placement::Query)];
    assert_eq!(check_request(Method::Post, &h, &mixed_q), Err(DefinitionError::MixedQueryKinds));
    let resp = vec![field("q", Placement::Query)];
    assert_eq!(check_response(&resp), Err(DefinitionError::QueryOnResponse));
    let resp_path = vec![field("p", Placement::Path)];
    assert_eq!(check_response(&resp_path), Err(DefinitionError::PathFieldMismatch));
}

#[test]
fn validator_path_template_agreement() {
    let h = history(&[(1, 0, "/media/r0/download/{server}/{id}"), (1, 1, "/media/v3/download/{server}/{id}")]);
    let fs = vec![field("server", Placement::Path), field("id", Placement::Path), field("allow_remote", Placement::Query)];
    assert_eq!(check_request(Method::Get, &h, &fs), Ok(()));
    let missing = vec![field("server", Placement::Path)];
    assert_eq!(check_request(Method::Get, &h, &missing), Err(DefinitionError::PathFieldMismatch));
    let renamed = history(&[(1, 0, "/media/r0/download/{server}/{id}"), (1, 1, "/media/v3/download/{server}/{media}")]);
    assert_eq!(check_request(Method::Get, &renamed, &fs), Err(DefinitionError::PathFieldMismatch));
}

#[test]
fn metadata_new_checks_history() {
    let ok = Metadata::new(Method::Post, false, true, history(&[(1, 0, "/a/{x}"), (1, 1, "/b/{x}")]));
    let m = ok.unwrap();
    assert!(m.rate_limited);
    assert!(!m.requires_authentication);
    assert!(Metadata::new(Method::Post, false, false, vec![]).is_none());
    assert!(Metadata::new(Method::Post, false, false, history(&[(1, 1, "/a"), (1, 0, "/b")])).is_none());
    assert!(Metadata::new(Method::Post, false, false, history(&[(1, 0, "/a"), (1, 0, "/b")])).is_none());
}

#[test]
fn query_map_count_is_checked_before_mixed_bodies() {
    let h = history(&[(1, 0, "/x")]);
    let fs = vec![
        field("file", Placement::RawBody),
        field("name", Placement::Body),
        field("a", Placement::QueryMap),
        field("b", Placement::QueryMap),
    ];
    assert_eq!(check_request(Method::Post, &h, &fs), Err(DefinitionError::MultipleQueryMaps));
}
