//! What the client makes of an incoming data message: whether it ends the
//! session or updates a profile key, the text that is stored for it (a
//! message without text of its own gets a stand-in text, or is not stored),
//! its time, and whether the user is notified.
//!
//! The message is described by what these decisions read of it.

use crate::decimal::{decimal, decimal_u32};
use crate::text::str_from_utf8;
use vstd::prelude::*;
use vstd::string::*;
use vstd::utf8::decode_utf8;

verus! {

/// Flag of a message that ends the session.
pub const END_SESSION: u32 = 1;

/// Flag of a message that changes the disappearing-message timer.
pub const EXPIRATION_TIMER_UPDATE: u32 = 2;

/// Flag of a message that only carries a new profile key.
pub const PROFILE_KEY_UPDATE: u32 = 4;

/// The kind of a group message of the first group version.
#[derive(Clone, Copy, Debug, PartialEq, Eq, Structural)]
pub enum GroupV1Type {
    Unknown,
    Update,
    Deliver,
    Quit,
    RequestInfo,
}

/// What the client reads of an incoming data message.
pub struct DataMessageInfo {
    /// The flags of the message.
    pub flags: u32,
    /// The text of the message, if it has one.
    pub body: Option<String>,
    /// The message is a reaction to another message.
    pub has_reaction: bool,
    /// The disappearing-message timer, in seconds, if set.
    pub expire_timer: Option<u32>,
    /// The message carries a change of a group of the second version.
    pub has_group_v2_change: bool,
    /// The number of attachments.
    pub attachment_count: usize,
    /// The message carries a sticker.
    pub has_sticker: bool,
    /// The message carries a payment.
    pub has_payment: bool,
    /// The message deletes another message.
    pub has_delete: bool,
    /// The message updates a group call.
    pub has_group_call_update: bool,
    /// The number of shared contacts.
    pub contact_count: usize,
    /// The sender's time of the message, in milliseconds, if set.
    pub timestamp: Option<u64>,
    /// The kind of the group message, for a group of the first version.
    pub group_v1_type: Option<GroupV1Type>,
    /// The message carries the sender's profile key.
    pub has_profile_key: bool,
}

/// Whether `flag` is set in `flags`.
pub open spec fn has_flag(flags: u32, flag: u32) -> bool {
    flags & flag != 0
}

/// The debug text of an optional number: `Some(n)` or `None`.
pub open spec fn option_debug_text(v: Option<u32>) -> Seq<char> {
    match v {
        Some(n) => "Some("@ + decode_utf8(decimal(n as nat)) + ")"@,
        None => "None"@,
    }
}

/// The stand-in text of a message without text of its own, by the first
/// that applies: a reaction has none (it is stored apart); a timer change,
/// a group change, an attachment or sticker, and a message of a kind the
/// client does not show each have their text; anything else has none.
pub open spec fn alt_body(
    msg: DataMessageInfo,
    source_e164: Option<Seq<char>>,
    source_uuid: Option<Seq<char>>,
) -> Option<Seq<char>> {
    if msg.has_reaction {
        None
    } else if has_flag(msg.flags, EXPIRATION_TIMER_UPDATE) {
        Some(
            "Expiration timer has been changed ("@ + option_debug_text(msg.expire_timer)
                + " seconds), but unimplemented in Whisperfish."@,
        )
    } else if msg.has_group_v2_change {
        Some(
            "Group changed by "@ + match source_e164 {
                Some(e) => e,
                None => match source_uuid {
                    Some(u) => u,
                    None => "nobody"@,
                },
            },
        )
    } else if msg.attachment_count > 0 {
        Some(""@)
    } else if msg.has_sticker {
        Some(""@)
    } else if msg.has_payment || msg.has_delete || msg.has_group_call_update || msg.contact_count
        > 0 {
        Some("Unimplemented message type"@)
    } else {
        None
    }
}

/// The text stored for a message: its own text, or else its stand-in
/// text; a group update or a member leaving a group of the first version
/// is described instead.  `None` when the message is not stored.
pub open spec fn stored_text(
    msg: DataMessageInfo,
    source_e164: Option<Seq<char>>,
    source_uuid: Option<Seq<char>>,
) -> Option<Seq<char>> {
    let text = match msg.body {
        Some(b) => Some(b@),
        None => alt_body(msg, source_e164, source_uuid),
    };
    match text {
        None => None,
        Some(t) => match msg.group_v1_type {
            Some(GroupV1Type::Update) => Some("Group was updated"@),
            Some(GroupV1Type::Quit) => Some("Member left group"@),
            _ => Some(t),
        },
    }
}

/// Which incoming messages are stored, and with which text.  A message
/// with text of its own is stored with that text, and one that is a
/// reaction without text is not stored.  A message without text that
/// carries an attachment or a sticker, and is neither a reaction, a timer
/// change nor a group change, is stored with the empty text, so that what
/// it carries is shown.  In each case a group update or a member leaving
/// a group of the first version is described instead.
pub proof fn lemma_stored_text_cases(
    msg: DataMessageInfo,
    source_e164: Option<Seq<char>>,
    source_uuid: Option<Seq<char>>,
)
    ensures
        msg.body is Some ==> stored_text(msg, source_e164, source_uuid) == Some(
            match msg.group_v1_type {
                Some(GroupV1Type::Update) => "Group was updated"@,
                Some(GroupV1Type::Quit) => "Member left group"@,
                _ => msg.body->Some_0@,
            },
        ),
        msg.body is None && msg.has_reaction ==> stored_text(msg, source_e164, source_uuid) is None,
        ({
            &&& msg.body is None
            &&& !msg.has_reaction
            &&& msg.flags & EXPIRATION_TIMER_UPDATE == 0
            &&& !msg.has_group_v2_change
            &&& (msg.attachment_count > 0 || msg.has_sticker)
        }) ==> stored_text(msg, source_e164, source_uuid) == Some(
            match msg.group_v1_type {
                Some(GroupV1Type::Update) => "Group was updated"@,
                Some(GroupV1Type::Quit) => "Member left group"@,
                _ => Seq::<char>::empty(),
            },
        ),
{
    reveal_strlit("");
}

/// The debug text of an optional number.
fn option_debug(v: Option<u32>) -> (res: String)
    ensures
        res@ == option_debug_text(v),
{
    match v {
        Some(n) => {
            let mut res = String::from_str("Some(");
            let digits = decimal_u32(n);
            match str_from_utf8(digits.as_slice()) {
                Ok(s) => res.append(s),
                Err(_) => {
                    proof {
                        crate::decimal::lemma_decimal_ascii(n as nat, 0, 0);
                        crate::text::lemma_ascii_valid_utf8(digits@);
                    }
                },
            }
            res.append(")");
            res
        },
        None => String::from_str("None"),
    }
}

/// The stand-in text of a message without text of its own, if it gets
/// one.
pub fn alt_body_text(msg: &DataMessageInfo, source_e164: Option<&str>, source_uuid: Option<&str>) -> (res: Option<String>)
    ensures
        match res {
            Some(t) => alt_body(*msg, opt_view(source_e164), opt_view(source_uuid)) == Some(t@),
            None => alt_body(*msg, opt_view(source_e164), opt_view(source_uuid)) is None,
        },
{
    if msg.has_reaction {
        None
    } else if msg.flags & EXPIRATION_TIMER_UPDATE != 0 {
        let mut text = String::from_str("Expiration timer has been changed (");
        let timer = option_debug(msg.expire_timer);
        text.append(timer.as_str());
        text.append(" seconds), but unimplemented in Whisperfish.");
        Some(text)
    } else if msg.has_group_v2_change {
        let mut text = String::from_str("Group changed by ");
        match source_e164 {
            Some(e) => text.append(e),
            None => match source_uuid {
                Some(u) => text.append(u),
                None => text.append("nobody"),
            },
        }
        Some(text)
    } else if msg.attachment_count > 0 {
        Some(String::from_str(""))
    } else if msg.has_sticker {
        Some(String::from_str(""))
    } else if msg.has_payment || msg.has_delete || msg.has_group_call_update || msg.contact_count
        > 0 {
        Some(String::from_str("Unimplemented message type"))
    } else {
        None
    }
}

/// The views of an optional text.
pub open spec fn opt_view(s: Option<&str>) -> Option<Seq<char>> {
    match s {
        Some(t) => Some(t@),
        None => None,
    }
}

/// The text to store for an incoming message from `source_e164` /
/// `source_uuid`, or `None` when it is not stored.
pub fn message_text(msg: &DataMessageInfo, source_e164: Option<&str>, source_uuid: Option<&str>) -> (res: Option<String>)
    ensures
        match res {
            Some(t) => stored_text(*msg, opt_view(source_e164), opt_view(source_uuid)) == Some(t@),
            None => stored_text(*msg, opt_view(source_e164), opt_view(source_uuid)) is None,
        },
{
    let text = match &msg.body {
        Some(b) => b.clone(),
        None => match alt_body_text(msg, source_e164, source_uuid) {
            Some(t) => t,
            None => {
                return None;
            },
        },
    };
    match msg.group_v1_type {
        Some(GroupV1Type::Update) => Some(String::from_str("Group was updated")),
        Some(GroupV1Type::Quit) => Some(String::from_str("Member left group")),
        _ => Some(text),
    }
}

/// The time of a stored message: the time of the sync message that
/// reported our own message, when there is one, else the sender's time of
/// the message (zero when unset).
pub fn message_timestamp(msg: &DataMessageInfo, is_sync_sent: bool, timestamp: u64) -> (res: u64)
    ensures
        res == (if is_sync_sent && timestamp > 0 {
            timestamp
        } else {
            match msg.timestamp {
                Some(t) => t,
                None => 0,
            }
        }),
{
    if is_sync_sent && timestamp > 0 {
        timestamp
    } else {
        match msg.timestamp {
            Some(t) => t,
            None => 0,
        }
    }
}

/// Whether the message ends the session with its sender: all sessions of
/// the sender's phone number and of its UUID are deleted.
pub fn ends_session(msg: &DataMessageInfo) -> (res: bool)
    ensures
        res == has_flag(msg.flags, END_SESSION),
{
    msg.flags & END_SESSION != 0
}

/// Whether the profile key that the message carries is stored: for a
/// message from a known sender that we did not send ourselves.
pub fn updates_profile_key(msg: &DataMessageInfo, has_source: bool, is_sync_sent: bool) -> (res: bool)
    ensures
        res == (has_source && !is_sync_sent && msg.has_profile_key),
{
    has_source && !is_sync_sent && msg.has_profile_key
}

/// Whether the user is notified of a stored message: notifications are
/// on, we did not send it ourselves, and the conversation is not muted.
pub fn notifies(enable_notify: bool, is_sync_sent: bool, is_muted: bool) -> (res: bool)
    ensures
        res == (enable_notify && !is_sync_sent && !is_muted),
{
    enable_notify && !is_sync_sent && !is_muted
}

/// Whether the attachments of a message are fetched and saved: saving is
/// on and the client is not incognito.
pub fn saves_attachments(save_attachments: bool, incognito: bool) -> (res: bool)
    ensures
        res == (save_attachments && !incognito),
{
    save_attachments && !incognito
}

/// What a synchronisation message from another of our devices is, by the
/// first part it carries: a message we sent, a request, or read marks.
#[derive(Clone, Copy, Debug, PartialEq, Eq, Structural)]
pub enum SyncKind {
    /// A message sent from another device: stored as our own.
    Sent,
    /// A request for our contacts, groups or other data.
    Request,
    /// Messages that were read on another device.
    Read,
    /// Nothing the client knows.
    Unknown,
}

/// The kind of a synchronisation message.
pub fn sync_kind(has_sent: bool, has_request: bool, read_count: usize) -> (res: SyncKind)
    ensures
        res == (if has_sent {
            SyncKind::Sent
        } else if has_request {
            SyncKind::Request
        } else if read_count > 0 {
            SyncKind::Read
        } else {
            SyncKind::Unknown
        }),
{
    if has_sent {
        SyncKind::Sent
    } else if has_request {
        SyncKind::Request
    } else if read_count > 0 {
        SyncKind::Read
    } else {
        SyncKind::Unknown
    }
}

/// The kinds of data another of our devices can ask for.
#[derive(Clone, Copy, Debug, PartialEq, Eq, Structural)]
pub enum SyncRequestType {
    Unknown,
    Contacts,
    Groups,
    Blocked,
    Configuration,
    Keys,
}

/// The answer to a synchronisation request.
#[derive(Clone, Copy, Debug, PartialEq, Eq, Structural)]
pub enum SyncAnswer {
    /// An unknown request: nothing is sent, and that is no error.
    Ignore,
    /// Send the details of all known contacts.
    SendContacts,
    /// Send the details of all groups.
    SendGroups,
    /// A request the client cannot answer: an error.
    Unimplemented,
}

/// The answer to a synchronisation request of the given type.
pub fn sync_request_answer(t: SyncRequestType) -> (res: SyncAnswer)
    ensures
        res == match t {
            SyncRequestType::Unknown => SyncAnswer::Ignore,
            SyncRequestType::Contacts => SyncAnswer::SendContacts,
            SyncRequestType::Groups => SyncAnswer::SendGroups,
            _ => SyncAnswer::Unimplemented,
        },
{
    match t {
        SyncRequestType::Unknown => SyncAnswer::Ignore,
        SyncRequestType::Contacts => SyncAnswer::SendContacts,
        SyncRequestType::Groups => SyncAnswer::SendGroups,
        _ => SyncAnswer::Unimplemented,
    }
}

/// The phone numbers among the members of a group, in member order; the
/// members without one are left out.
pub open spec fn member_numbers(members: Seq<Option<Seq<char>>>) -> Seq<Seq<char>>
    decreases members.len(),
{
    if members.len() == 0 {
        Seq::empty()
    } else {
        let pre = member_numbers(members.drop_last());
        match members.last() {
            Some(n) => pre.push(n),
            None => pre,
        }
    }
}

/// The views of optional texts.
pub open spec fn opt_texts_view(v: Seq<Option<String>>) -> Seq<Option<Seq<char>>> {
    v.map_values(|o: Option<String>| match o {
        Some(s) => Some(s@),
        None => None,
    })
}

/// The phone numbers of the members of a group, for the group details
/// sent to another device.
pub fn group_member_numbers(members: &[Option<String>]) -> (res: Vec<String>)
    ensures
        res@.map_values(|s: String| s@) == member_numbers(opt_texts_view(members@)),
{
    let ghost mv = opt_texts_view(members@);
    let mut res: Vec<String> = Vec::new();
    let mut i: usize = 0;
    while i < members.len()
        invariant
            i <= members@.len(),
            mv == opt_texts_view(members@),
            res@.map_values(|s: String| s@) == member_numbers(mv.take(i as int)),
        decreases members@.len() - i,
    {
        proof {
            assert(mv.take(i + 1).drop_last() =~= mv.take(i as int));
        }
        match &members[i] {
            Some(n) => {
                let ghost before = res@;
                res.push(n.clone());
                proof {
                    assert(res@.map_values(|s: String| s@) =~= before.map_values(|s: String| s@).push(n@));
                }
            },
            None => {},
        }
        i = i + 1;
    }
    proof {
        assert(mv.take(members@.len() as int) =~= mv);
    }
    res
}

} // verus!
