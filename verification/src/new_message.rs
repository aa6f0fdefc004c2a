//! The messages that the client stores: what is known of a new message
//! when it is queued by the user, when a session is reset, and when it
//! arrives; and the times that its database row gets.

use crate::attachments::{guess_mime_type, mime_type_of_path};
use crate::incoming::{DataMessageInfo, END_SESSION};
use vstd::prelude::*;
use vstd::string::*;

verus! {

/// A message to store, without its session and time, which the store
/// fills in.
pub struct NewMessage {
    /// The phone number of the sender or of the peer, if known.
    pub source_e164: Option<String>,
    /// The UUID of the sender or of the peer, if known.
    pub source_uuid: Option<String>,
    pub text: String,
    pub flags: u32,
    pub outgoing: bool,
    pub sent: bool,
    pub received: bool,
    pub is_read: bool,
    pub has_attachment: bool,
    /// The MIME type of the attachment, if there is one.
    pub mime_type: Option<String>,
    /// The path of the attachment, if there is one.
    pub attachment: Option<String>,
}

/// A message the user queued for the peer with phone number `source_e164`
/// (`None` for a group, whose session is known), with `message` as text
/// and the attachment at `attachment` (none when empty): outgoing, read,
/// neither sent nor received; the attachment's type is guessed from its
/// path.
pub fn queued_message(source_e164: Option<String>, message: String, attachment: String) -> (res:
    NewMessage)
    ensures
        res.source_e164 == source_e164,
        res.source_uuid is None,
        res.text@ == message@,
        res.flags == 0,
        res.outgoing && !res.sent && !res.received && res.is_read,
        res.has_attachment == (attachment@.len() > 0),
        attachment@.len() > 0 ==> res.mime_type is Some && res.mime_type->Some_0@
            == mime_type_of_path(attachment@) && res.attachment is Some
            && res.attachment->Some_0@ == attachment@,
        attachment@.len() == 0 ==> res.mime_type is None && res.attachment is None,
{
    let has_attachment = !attachment.as_str().is_empty();
    let (mime_type, attachment) = if has_attachment {
        let mime = guess_mime_type(attachment.as_str());
        (Some(mime), Some(attachment))
    } else {
        (None, None)
    };
    NewMessage {
        source_e164,
        source_uuid: None,
        text: message,
        flags: 0,
        outgoing: true,
        sent: false,
        received: false,
        is_read: true,
        has_attachment,
        mime_type,
        attachment,
    }
}

/// The message that records a reset of the secure session with the peer
/// whose phone number is `e164`: outgoing, read, with the end-session
/// flag.
pub fn end_session_message(e164: String) -> (res: NewMessage)
    ensures
        res.source_e164 == Some(e164),
        res.source_uuid is None,
        res.text@ == "[Whisperfish] Reset secure session"@,
        res.flags == END_SESSION,
        res.outgoing && !res.sent && !res.received && res.is_read,
        !res.has_attachment && res.mime_type is None && res.attachment is None,
{
    NewMessage {
        source_e164: Some(e164),
        source_uuid: None,
        text: String::from_str("[Whisperfish] Reset secure session"),
        flags: END_SESSION,
        outgoing: true,
        sent: false,
        received: false,
        is_read: true,
        has_attachment: false,
        mime_type: None,
        attachment: None,
    }
}

/// An incoming message with the stored text `text`, from the sender (or,
/// for a message we sent ourselves from another device, to the peer) with
/// phone number `source_e164` and UUID `source_uuid`.  A message we sent
/// ourselves (`is_sync_sent`) is outgoing, sent and read.  It is not
/// received until a receipt says so; its attachments are fetched later.
pub fn incoming_message(
    msg: &DataMessageInfo,
    source_e164: Option<String>,
    source_uuid: Option<String>,
    text: String,
    is_sync_sent: bool,
) -> (res: NewMessage)
    ensures
        res.source_e164 == source_e164,
        res.source_uuid == source_uuid,
        res.text@ == text@,
        res.flags == msg.flags,
        res.outgoing == is_sync_sent && res.sent == is_sync_sent && res.is_read == is_sync_sent,
        !res.received,
        res.has_attachment == (msg.attachment_count > 0),
        res.mime_type is None && res.attachment is None,
{
    NewMessage {
        source_e164,
        source_uuid,
        text,
        flags: msg.flags,
        outgoing: is_sync_sent,
        sent: is_sync_sent,
        received: false,
        is_read: is_sync_sent,
        has_attachment: msg.attachment_count > 0,
        mime_type: None,
        attachment: None,
    }
}

/// The times of the database row of a new message at time `timestamp`
/// (milliseconds), stored at `now`: `(received, sent)`.  An incoming
/// message is received now; an outgoing one that was sent was sent at its
/// time.
pub fn row_times(msg: &NewMessage, timestamp: i64, now: i64) -> (res: (Option<i64>, Option<i64>))
    ensures
        res.0 == (if !msg.outgoing {
            Some(now)
        } else {
            None::<i64>
        }),
        res.1 == (if msg.outgoing && msg.sent {
            Some(timestamp)
        } else {
            None::<i64>
        }),
{
    let received = if !msg.outgoing {
        Some(now)
    } else {
        None
    };
    let sent = if msg.outgoing && msg.sent {
        Some(timestamp)
    } else {
        None
    };
    (received, sent)
}

/// What is transmitted of a stored outgoing message: its flags, left out
/// when there are none, and its time in milliseconds.
#[derive(Clone, Copy, Debug, PartialEq, Eq, Structural)]
pub struct Transmission {
    pub flags: Option<u32>,
    pub timestamp: u64,
}

/// Whether the stored message whose sent time is `sent_timestamp` is sent,
/// and how: a message that was sent already is not transmitted again
/// (`None`).  Otherwise the data message carries the message's `flags`,
/// if any, and its server time `server_timestamp_ms` as the message time.
pub fn transmission(sent_timestamp: Option<i64>, flags: i32, server_timestamp_ms: i64) -> (res:
    Option<Transmission>)
    ensures
        res is None <==> sent_timestamp is Some,
        res is Some ==> res->Some_0 == (Transmission {
            flags: if flags != 0 {
                Some(flags as u32)
            } else {
                None
            },
            timestamp: server_timestamp_ms as u64,
        }),
{
    if sent_timestamp.is_some() {
        return None;
    }
    let flags = if flags != 0 {
        Some(flags as u32)
    } else {
        None
    };
    Some(Transmission { flags, timestamp: server_timestamp_ms as u64 })
}

} // verus!
