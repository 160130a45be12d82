use ruma_api_core::events::RedactionEventContent;
use ruma_api_core::redaction::{RedactionEvent, SyncRedactionEvent, Unsigned};

fn sync_redaction(target: &str) -> SyncRedactionEvent {
    SyncRedactionEvent {
        content: RedactionEventContent::with_reason("spam".to_owned()),
        redacts: target.to_owned(),
        event_id: "$redaction:example.com".to_owned(),
        sender: "@mod:example.com".to_owned(),
        origin_server_ts: 10,
        unsigned: Unsigned { age: None, transaction_id: None },
    }
}

#[test]
fn redacting_a_redaction_keeps_envelope() {
    let event = RedactionEvent {
        content: RedactionEventContent::with_reason("oops".to_owned()),
        redacts: "$target:example.com".to_owned(),
        event_id: "$h29iv0s8:example.com".to_owned(),
        sender: "@carl:example.com".to_owned(),
        origin_server_ts: 1,
        room_id: "!n8f893n9:example.com".to_owned(),
        unsigned: Unsigned { age: Some(5), transaction_id: Some("txn".to_owned()) },
    };
    let redacted = event.redact(sync_redaction("$h29iv0s8:example.com"), "6");
    assert!(redacted.redacts.is_none());
    assert_eq!(redacted.event_id, "$h29iv0s8:example.com");
    assert_eq!(redacted.sender, "@carl:example.com");
    assert_eq!(redacted.origin_server_ts, 1);
    assert_eq!(redacted.room_id, "!n8f893n9:example.com");
    let because = redacted.unsigned.redacted_because.unwrap();
    assert_eq!(because.event_id, "$redaction:example.com");
    assert_eq!(because.content.reason.as_deref(), Some("spam"));
}

#[test]
fn redacting_a_sync_redaction_keeps_envelope() {
    let event = sync_redaction("$other:example.com");
    let redacted = event.redact(sync_redaction("$redaction:example.com"), "9");
    assert!(redacted.redacts.is_none());
    assert_eq!(redacted.event_id, "$redaction:example.com");
    assert_eq!(redacted.origin_server_ts, 10);
    assert_eq!(redacted.unsigned.redacted_because.unwrap().redacts, "$redaction:example.com");
}
