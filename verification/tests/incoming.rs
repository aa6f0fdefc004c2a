use whisperfish::new_message::{
    end_session_message, incoming_message, queued_message, row_times, transmission, Transmission,
};
use whisperfish::incoming::{
    group_member_numbers, sync_request_answer, SyncAnswer, SyncRequestType,
    alt_body_text, ends_session, message_text, message_timestamp, notifies, saves_attachments,
    sync_kind, updates_profile_key, DataMessageInfo, GroupV1Type, SyncKind,
    EXPIRATION_TIMER_UPDATE, END_SESSION, PROFILE_KEY_UPDATE,
};

fn plain() -> DataMessageInfo {
    DataMessageInfo {
        flags: 0,
        body: None,
        has_reaction: false,
        expire_timer: None,
        has_group_v2_change: false,
        attachment_count: 0,
        has_sticker: false,
        has_payment: false,
        has_delete: false,
        has_group_call_update: false,
        contact_count: 0,
        timestamp: Some(1234),
        group_v1_type: None,
        has_profile_key: false,
    }
}

#[test]
fn own_text_is_stored() {
    let mut msg = plain();
    msg.body = Some("hello".to_string());
    msg.attachment_count = 2;
    assert_eq!(message_text(&msg, Some("+32474"), None), Some("hello".to_string()));
}

#[test]
fn stand_in_texts() {
    let mut msg = plain();
    assert_eq!(message_text(&msg, None, None), None);

    msg.flags = EXPIRATION_TIMER_UPDATE;
    msg.expire_timer = Some(3600);
    assert_eq!(
        alt_body_text(&msg, None, None),
        Some(format!(
            "Expiration timer has been changed ({:?} seconds), but unimplemented in Whisperfish.",
            Some(3600u32)
        ))
    );
    msg.expire_timer = None;
    assert_eq!(
        alt_body_text(&msg, None, None),
        Some("Expiration timer has been changed (None seconds), but unimplemented in Whisperfish.".to_string())
    );

    let mut msg = plain();
    msg.has_group_v2_change = true;
    assert_eq!(
        message_text(&msg, None, Some("64d41108")),
        Some("Group changed by 64d41108".to_string())
    );
    assert_eq!(
        message_text(&msg, Some("+32"), Some("64d41108")),
        Some("Group changed by +32".to_string())
    );
    assert_eq!(
        message_text(&msg, None, None),
        Some("Group changed by nobody".to_string())
    );

    let mut msg = plain();
    msg.has_sticker = true;
    assert_eq!(message_text(&msg, None, None), Some(String::new()));

    let mut msg = plain();
    msg.contact_count = 1;
    assert_eq!(
        message_text(&msg, None, None),
        Some("Unimplemented message type".to_string())
    );

    let mut msg = plain();
    msg.has_reaction = true;
    msg.attachment_count = 1;
    assert_eq!(message_text(&msg, None, None), None);
}

#[test]
fn group_v1_texts() {
    let mut msg = plain();
    msg.body = Some("x".to_string());
    msg.group_v1_type = Some(GroupV1Type::Update);
    assert_eq!(message_text(&msg, None, None), Some("Group was updated".to_string()));
    msg.group_v1_type = Some(GroupV1Type::Quit);
    assert_eq!(message_text(&msg, None, None), Some("Member left group".to_string()));
    msg.group_v1_type = Some(GroupV1Type::Deliver);
    assert_eq!(message_text(&msg, None, None), Some("x".to_string()));
    msg.body = None;
    msg.group_v1_type = Some(GroupV1Type::Update);
    assert_eq!(message_text(&msg, None, None), None);
}

#[test]
fn flags_and_times() {
    let mut msg = plain();
    msg.flags = END_SESSION | PROFILE_KEY_UPDATE;
    assert!(ends_session(&msg));
    msg.flags = PROFILE_KEY_UPDATE;
    assert!(!ends_session(&msg));
    assert_eq!(message_timestamp(&msg, true, 99), 99);
    assert_eq!(message_timestamp(&msg, true, 0), 1234);
    assert_eq!(message_timestamp(&msg, false, 99), 1234);
    msg.timestamp = None;
    assert_eq!(message_timestamp(&msg, false, 99), 0);
    msg.has_profile_key = true;
    assert!(updates_profile_key(&msg, true, false));
    assert!(!updates_profile_key(&msg, true, true));
    assert!(!updates_profile_key(&msg, false, false));
    assert!(notifies(true, false, false));
    assert!(!notifies(true, false, true));
    assert!(saves_attachments(true, false));
    assert!(!saves_attachments(true, true));
    assert_eq!(sync_kind(true, true, 3), SyncKind::Sent);
    assert_eq!(sync_kind(false, true, 3), SyncKind::Request);
    assert_eq!(sync_kind(false, false, 3), SyncKind::Read);
    assert_eq!(sync_kind(false, false, 0), SyncKind::Unknown);
}

#[test]
fn new_messages() {
    let q = queued_message(
        Some("+32470123456".to_string()),
        "hi".to_string(),
        "/tmp/picture.png".to_string(),
    );
    assert_eq!(q.source_e164.as_deref(), Some("+32470123456"));
    assert_eq!(q.source_uuid, None);
    assert_eq!(q.text, "hi");
    assert!(q.outgoing && !q.sent && !q.received && q.is_read && q.has_attachment);
    assert_eq!(q.mime_type.as_deref(), Some("image/png"));
    assert_eq!(q.attachment.as_deref(), Some("/tmp/picture.png"));
    let q = queued_message(None, "hi".to_string(), String::new());
    assert_eq!(q.source_e164, None);
    assert!(!q.has_attachment && q.mime_type.is_none() && q.attachment.is_none());
    let q = queued_message(None, "x".to_string(), "/tmp/file.unknownext".to_string());
    assert_eq!(q.mime_type.as_deref(), Some("application/octet-stream"));

    let e = end_session_message("+32470123456".to_string());
    assert_eq!(e.source_e164.as_deref(), Some("+32470123456"));
    assert_eq!(e.text, "[Whisperfish] Reset secure session");
    assert_eq!(e.flags, END_SESSION);

    let mut msg = plain();
    msg.attachment_count = 1;
    msg.flags = PROFILE_KEY_UPDATE;
    let m = incoming_message(
        &msg,
        Some("+32470000001".to_string()),
        Some("uuid-a".to_string()),
        "t".to_string(),
        false,
    );
    assert_eq!(m.source_e164.as_deref(), Some("+32470000001"));
    assert_eq!(m.source_uuid.as_deref(), Some("uuid-a"));
    assert!(!m.outgoing && !m.sent && !m.is_read && m.has_attachment && !m.received);
    assert_eq!(m.flags, PROFILE_KEY_UPDATE);
    assert_eq!(row_times(&m, 5, 9), (Some(9), None));
    let s = incoming_message(&msg, None, Some("uuid-b".to_string()), "t".to_string(), true);
    assert_eq!(s.source_e164, None);
    assert!(s.outgoing && s.sent && s.is_read);
    assert_eq!(row_times(&s, 5, 9), (None, Some(5)));
    assert_eq!(row_times(&queued_message(None, "a".to_string(), String::new()), 5, 9), (None, None));
}

#[test]
fn sync_requests_and_group_details() {
    assert_eq!(sync_request_answer(SyncRequestType::Unknown), SyncAnswer::Ignore);
    assert_eq!(sync_request_answer(SyncRequestType::Contacts), SyncAnswer::SendContacts);
    assert_eq!(sync_request_answer(SyncRequestType::Groups), SyncAnswer::SendGroups);
    assert_eq!(sync_request_answer(SyncRequestType::Keys), SyncAnswer::Unimplemented);
    assert_eq!(
        group_member_numbers(&[Some("+1".to_string()), None, Some("+2".to_string())]),
        vec!["+1".to_string(), "+2".to_string()]
    );
}

#[test]
fn sent_message_is_not_retransmitted() {
    assert_eq!(transmission(Some(1_600_000_000_000), 0, 1_600_000_000_000), None);
    assert_eq!(
        transmission(None, 0, 1_600_000_000_123),
        Some(Transmission { flags: None, timestamp: 1_600_000_000_123 })
    );
    assert_eq!(
        transmission(None, 1, 42),
        Some(Transmission { flags: Some(1), timestamp: 42 })
    );
}
