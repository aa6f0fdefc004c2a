use whisperfish::settings::{defaults, SettingValue};
use whisperfish::devices::{DeviceModel, ReloadLinkedDevices};
use whisperfish::message_list::{
    group_kind, DeleteMessage, GroupKind, MarkChange, MessageEntry, MessageList, MessageReceipt,
};
use whisperfish::migration::{e164_migration_devices, move_decision, MoveDecision};
use whisperfish::receipts::{receipt_step, ReceiptInsert, ReceiptStep};
use whisperfish::session_list::{
    receipt_count, DeleteSession, MarkSessionRead, SessionEntry, SessionList,
};

fn session(id: i32, is_read: bool, timestamp: i64) -> SessionEntry<&'static str> {
    SessionEntry { id, is_read, timestamp, data: "" }
}

fn message(id: i32, ts: i64) -> MessageEntry<u8> {
    MessageEntry {
        id,
        server_timestamp: ts,
        sent_timestamp: None,
        received_timestamp: None,
        sending_has_failed: false,
        receipts: vec![],
        data: 0,
    }
}

fn ids(list: &SessionList<&'static str>, n: usize) -> Vec<i32> {
    (0..n).map(|i| list.remove(i).unwrap().id).collect()
}

#[test]
fn sessions_load_newest_first() {
    let mut list = SessionList::new();
    list.handle_sessions_loaded(vec![
        session(1, true, 100),
        session(2, true, 300),
        session(3, false, 200),
        session(4, true, 300),
    ]);
    assert_eq!(list.count(), 4);
    let order = ids(&list, 4);
    assert_eq!(order[2], 3);
    assert_eq!(order[3], 1);
    assert!(order[..2].contains(&2) && order[..2].contains(&4));
    assert_eq!(list.remove(9), None);
    assert_eq!(list.remove(0).unwrap().idx, 0);
}

#[test]
fn fetched_session_moves_to_top() {
    let mut list = SessionList::new();
    list.handle_sessions_loaded(vec![session(1, true, 300), session(2, true, 200)]);
    // An unread update of a shown session that is to be marked read.
    assert_eq!(
        list.handle_fetch_session(session(2, false, 400), true),
        Some(MarkSessionRead { sid: 2, already_unread: true })
    );
    assert_eq!(ids(&list, 2), vec![2, 1]);
    // A new session, unread, not to be marked.
    assert_eq!(list.handle_fetch_session(session(5, false, 500), false), None);
    assert_eq!(ids(&list, 3), vec![5, 2, 1]);
    assert_eq!(
        list.mark_read(5),
        Some(MarkSessionRead { sid: 5, already_unread: true })
    );
    assert_eq!(
        list.mark_read(5),
        Some(MarkSessionRead { sid: 5, already_unread: false })
    );
    assert_eq!(list.mark_read(42), None);
    assert_eq!(list.remove_by_id(1), DeleteSession { id: 1, idx: 2 });
    list.handle_delete_session(2);
    assert_eq!(list.count(), 2);
    assert_eq!(ids(&list, 2), vec![5, 2]);
    list.handle_mark_session_read(2);
    assert_eq!(ids(&list, 2), vec![2, 5]);
    list.handle_mark_session_read(42);
    assert_eq!(ids(&list, 2), vec![2, 5]);
    assert_eq!(
        list.mark_read(2),
        Some(MarkSessionRead { sid: 2, already_unread: false })
    );
}

#[test]
fn fetched_messages_keep_time_order() {
    let mut list = MessageList::new();
    list.handle_fetch_all_messages(vec![message(1, 300), message(2, 200), message(3, 100)]);
    assert!(!list.handle_fetch_message(message(4, 250)));
    assert_eq!(list.remove(1), Some(DeleteMessage(4, 1)));
    assert!(list.handle_fetch_message(message(5, 200)));
    assert_eq!(list.remove(2), Some(DeleteMessage(5, 2)));
    assert!(!list.handle_fetch_message(message(6, 50)));
    assert_eq!(list.remove(4), Some(DeleteMessage(6, 4)));
    assert!(!list.handle_fetch_message(message(7, 400)));
    assert_eq!(list.remove(0), Some(DeleteMessage(7, 0)));
    assert_eq!(list.row_count(), 6);
    list.handle_delete_message(0);
    assert_eq!(list.row_count(), 5);
    assert_eq!(list.remove(5), None);
    list.handle_queue_message(message(8, 10));
    assert_eq!(list.remove(0), Some(DeleteMessage(8, 0)));
    list.load();
    assert_eq!(list.row_count(), 0);
}

#[test]
fn message_marks() {
    let mut list = MessageList::new();
    list.handle_fetch_all_messages(vec![message(1, 300)]);
    assert_eq!(list.mark(1, true, true, false, false, 9), MarkChange::Conflict);
    assert_eq!(list.mark(2, true, false, false, false, 9), MarkChange::NotFound);
    assert_eq!(list.mark(1, true, false, true, false, 9), MarkChange::Sent);
    assert_eq!(list.mark(1, false, false, true, true, 9), MarkChange::Failed);
    assert_eq!(list.mark(1, false, true, false, true, 9), MarkChange::Pending);
    let shown = list.message(0).unwrap();
    assert_eq!(shown.sent_timestamp, Some(9));
    assert!(!shown.sending_has_failed);
    assert_eq!(shown.received_timestamp, None);
    assert!(shown.receipts.is_empty());
    assert_eq!(list.mark(1, false, true, false, false, 12), MarkChange::Received);
    assert_eq!(list.mark(1, false, false, false, false, 9), MarkChange::Unchanged);
    let shown = list.message(0).unwrap();
    assert_eq!(shown.received_timestamp, Some(12));
    assert_eq!(
        shown.receipts,
        vec![MessageReceipt {
            message_id: 0,
            recipient_id: 0,
            delivered: Some(12),
            read: None,
            viewed: None,
            recipient: 1,
        }]
    );
    assert!(list.message(1).is_none());
}

#[test]
fn group_kinds() {
    assert_eq!(group_kind(&"a".repeat(32)), GroupKind::GroupV1);
    assert_eq!(group_kind(&"b".repeat(64)), GroupKind::GroupV2);
}

#[test]
fn receipt_steps() {
    assert_eq!(receipt_step(ReceiptInsert::Inserted(1)), ReceiptStep::Fetch);
    assert_eq!(receipt_step(ReceiptInsert::Inserted(0)), ReceiptStep::UpdateThenFetch);
    assert_eq!(receipt_step(ReceiptInsert::UniqueViolation), ReceiptStep::UpdateThenFetch);
    assert_eq!(receipt_step(ReceiptInsert::Failed), ReceiptStep::Abort);
}

#[test]
fn e164_migration_steps() {
    assert_eq!(e164_migration_devices(&[2, 3]), vec![2, 3, 1]);
    assert_eq!(e164_migration_devices(&[]), vec![1]);
    assert_eq!(move_decision(false, true), MoveDecision::Nothing);
    assert_eq!(move_decision(true, true), MoveDecision::Refuse);
    assert_eq!(move_decision(true, false), MoveDecision::Move);
}

#[test]
fn linked_devices() {
    let mut model: DeviceModel<&str> = DeviceModel::new();
    assert_eq!(model.row_count(), 0);
    model.set_devices(vec!["phone", "desktop"]);
    assert_eq!(model.row_count(), 2);
    let _ = ReloadLinkedDevices;
}

#[test]
fn receipt_counts() {
    assert_eq!(receipt_count(&[]), 0);
    assert_eq!(receipt_count(&[Some(1), None, Some(3), Some(4)]), 3);
}

#[test]
fn default_settings() {
    let d = defaults("/home/user/attachments".to_string());
    assert_eq!(d.len(), 11);
    assert_eq!(d[0].key, "incognito");
    assert!(matches!(d[0].value, SettingValue::Bool(false)));
    assert_eq!(d[1].key, "enable_notify");
    assert!(matches!(d[1].value, SettingValue::Bool(true)));
    assert_eq!(d[9].key, "quit_on_ui_close");
    assert_eq!(d[10].key, "attachment_dir");
    match &d[10].value {
        SettingValue::Text(t) => assert_eq!(t, "/home/user/attachments"),
        SettingValue::Bool(_) => panic!("attachment_dir is a text"),
    }
}
