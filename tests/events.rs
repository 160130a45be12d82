use ruma_api_core::events::{RedactionEventContent, RoomNameEventContent};

#[test]
fn new_with_empty_name_creates_content_as_none() {
    let content = RoomNameEventContent::new(Some("".to_owned()));
    assert!(matches!(content, RoomNameEventContent { name: None }));
}

#[test]
fn new_with_nonempty_name_keeps_it() {
    let content = RoomNameEventContent::new(Some("The room name".to_owned()));
    assert_eq!(content.name.as_deref(), Some("The room name"));
    assert!(RoomNameEventContent::new(None).name.is_none());
}

#[test]
fn redaction_content_reason() {
    assert!(RedactionEventContent::new().reason.is_none());
    let r = RedactionEventContent::with_reason("spam".to_owned());
    assert_eq!(r.reason.as_deref(), Some("spam"));
}
