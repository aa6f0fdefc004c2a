//! The messages of the open conversation, newest first.
//!
//! A fetched message replaces the shown message with the same server time
//! or is inserted where its server time belongs, found by binary search.
//! The user's actions are answered with the requests to send to the
//! session actor; the status marks are applied to the shown message.

use vstd::prelude::*;

verus! {

/// A receipt shown with a message: the ids of the message and of the
/// recipient it came from, when the message was delivered, read and
/// viewed, and the id of the recipient record shown with it.
#[derive(Clone, Copy, Debug, PartialEq, Eq, Structural)]
pub struct MessageReceipt {
    pub message_id: i32,
    pub recipient_id: i32,
    pub delivered: Option<i64>,
    pub read: Option<i64>,
    pub viewed: Option<i64>,
    pub recipient: i32,
}

/// A shown message: its id, its server time, when it was sent and
/// received, whether sending failed, its receipts, and what else is shown
/// of it.
pub struct MessageEntry<T> {
    pub id: i32,
    pub server_timestamp: i64,
    pub sent_timestamp: Option<i64>,
    pub received_timestamp: Option<i64>,
    pub sending_has_failed: bool,
    pub receipts: Vec<MessageReceipt>,
    pub data: T,
}

/// Ask the session actor to delete the message `0`, shown at `1`.
#[derive(Clone, Copy, Debug, PartialEq, Eq, Structural)]
pub struct DeleteMessage(pub i32, pub usize);

/// What a status mark did.
#[derive(Clone, Copy, Debug, PartialEq, Eq, Structural)]
pub enum MarkChange {
    /// Both sent and received were asked: nothing is marked.
    Conflict,
    /// No message with the id is shown.
    NotFound,
    /// The message got its sent time.
    Sent,
    /// The message is marked as failed.
    Failed,
    /// The message is no longer marked as failed.
    Pending,
    /// The message got its received time; a delivery receipt is to be
    /// shown with it.
    Received,
    /// No mark was asked.
    Unchanged,
}

/// The kind of a group by the length of its id.
#[derive(Clone, Copy, Debug, PartialEq, Eq, Structural)]
pub enum GroupKind {
    /// A group of the first version: 32-character id.
    GroupV1,
    /// A group of the second version: 64-character id.
    GroupV2,
}

/// The shown messages.
pub struct MessageList<T> {
    messages: Vec<MessageEntry<T>>,
}

/// The server times are in non-increasing order.
pub open spec fn newest_first<T>(s: Seq<MessageEntry<T>>) -> bool {
    forall|i: int, j: int|
        0 <= i < j < s.len() ==> #[trigger] s[i].server_timestamp >= #[trigger] s[j].server_timestamp
}

/// The position of the first message with id `id`, if any.
pub open spec fn message_position<T>(s: Seq<MessageEntry<T>>, id: i32) -> Option<int> {
    if exists|i: int| 0 <= i < s.len() && #[trigger] s[i].id == id {
        Some(
            choose|i: int|
                0 <= i < s.len() && #[trigger] s[i].id == id && forall|j: int| 0 <= j < i ==> s[j].id != id,
        )
    } else {
        None
    }
}

proof fn lemma_message_position<T>(s: Seq<MessageEntry<T>>, id: i32, k: int)
    requires
        0 <= k < s.len(),
        s[k].id == id,
        forall|j: int| 0 <= j < k ==> s[j].id != id,
    ensures
        message_position(s, id) == Some(k),
{
    assert(exists|i: int|
        0 <= i < s.len() && #[trigger] s[i].id == id && forall|j: int| 0 <= j < i ==> s[j].id != id)
        by {
        assert(s[k].id == id);
    }
    let p = choose|i: int|
        0 <= i < s.len() && #[trigger] s[i].id == id && forall|j: int| 0 <= j < i ==> s[j].id != id;
    if p < k {
        assert(s[p].id == id);
    } else if p > k {
        assert(s[k].id != id);
    }
}

/// The receipt shown with a message `id` marked received at `now`: it
/// was delivered then, and the recipient is not known.
pub open spec fn received_receipt(id: i32, now: i64) -> MessageReceipt {
    MessageReceipt {
        message_id: 0,
        recipient_id: 0,
        delivered: Some(now),
        read: None,
        viewed: None,
        recipient: id,
    }
}

/// `after` is the message `before` after a status mark: sent has priority
/// over failed, failed over pending, and pending over received.  A
/// received mark also adds a receipt.  Nothing else changes.
pub open spec fn marked<T>(
    before: MessageEntry<T>,
    after: MessageEntry<T>,
    mark_sent: bool,
    mark_received: bool,
    mark_failed: bool,
    mark_pending: bool,
    now: i64,
) -> bool {
    let received = !mark_sent && !mark_failed && !mark_pending && mark_received;
    &&& after.id == before.id
    &&& after.server_timestamp == before.server_timestamp
    &&& after.data == before.data
    &&& after.sent_timestamp == (if mark_sent {
        Some(now)
    } else {
        before.sent_timestamp
    })
    &&& after.sending_has_failed == (if !mark_sent && mark_failed {
        true
    } else if !mark_sent && mark_pending {
        false
    } else {
        before.sending_has_failed
    })
    &&& after.received_timestamp == (if received {
        Some(now)
    } else {
        before.received_timestamp
    })
    &&& after.receipts@ == (if received {
        before.receipts@.push(received_receipt(before.id, now))
    } else {
        before.receipts@
    })
}

/// What a status mark does to a message, field by field: a sent mark sets
/// the sent time to `now`; otherwise a failed mark shows the message as
/// failed and a pending mark as no longer failed; a received mark alone
/// sets the received time to `now` and adds one receipt, delivered at
/// `now`, for the message.  Marks that are not asked change nothing of
/// theirs, and the id, server time and contents never change.
pub proof fn lemma_mark_effects<T>(
    before: MessageEntry<T>,
    after: MessageEntry<T>,
    mark_sent: bool,
    mark_received: bool,
    mark_failed: bool,
    mark_pending: bool,
    now: i64,
)
    requires
        marked(before, after, mark_sent, mark_received, mark_failed, mark_pending, now),
    ensures
        after.id == before.id,
        after.server_timestamp == before.server_timestamp,
        after.data == before.data,
        mark_sent ==> after.sent_timestamp == Some(now),
        !mark_sent ==> after.sent_timestamp == before.sent_timestamp,
        !mark_sent && mark_failed ==> after.sending_has_failed,
        !mark_sent && !mark_failed && mark_pending ==> !after.sending_has_failed,
        mark_sent || (!mark_failed && !mark_pending) ==> after.sending_has_failed
            == before.sending_has_failed,
        !mark_sent && !mark_failed && !mark_pending && mark_received ==> {
            &&& after.received_timestamp == Some(now)
            &&& after.receipts@.len() == before.receipts@.len() + 1
            &&& after.receipts@.take(before.receipts@.len() as int) == before.receipts@
            &&& after.receipts@.last().delivered == Some(now)
            &&& after.receipts@.last().read is None
            &&& after.receipts@.last().viewed is None
            &&& after.receipts@.last().recipient == before.id
        },
        !(!mark_sent && !mark_failed && !mark_pending && mark_received) ==> {
            &&& after.received_timestamp == before.received_timestamp
            &&& after.receipts@ == before.receipts@
        },
{
    if !mark_sent && !mark_failed && !mark_pending && mark_received {
        assert(after.receipts@.take(before.receipts@.len() as int) =~= before.receipts@);
    }
}

/// The change that a status mark reports.
pub open spec fn mark_change(
    mark_sent: bool,
    mark_received: bool,
    mark_failed: bool,
    mark_pending: bool,
) -> MarkChange {
    if mark_sent {
        MarkChange::Sent
    } else if mark_failed {
        MarkChange::Failed
    } else if mark_pending {
        MarkChange::Pending
    } else if mark_received {
        MarkChange::Received
    } else {
        MarkChange::Unchanged
    }
}

/// The kind of group that a new group message goes to, by the length of
/// the group id, which must be 32 or 64.
pub fn group_kind(group_id: &str) -> (res: GroupKind)
    requires
        group_id@.len() == 32 || group_id@.len() == 64,
    ensures
        group_id@.len() == 32 ==> res == GroupKind::GroupV1,
        group_id@.len() == 64 ==> res == GroupKind::GroupV2,
{
    if group_id.unicode_len() == 32 {
        GroupKind::GroupV1
    } else {
        GroupKind::GroupV2
    }
}

/// Applies a status mark to one message (see `marked`) and reports it.
fn apply_mark<T>(
    msg: &mut MessageEntry<T>,
    mark_sent: bool,
    mark_received: bool,
    mark_failed: bool,
    mark_pending: bool,
    now: i64,
) -> (res: MarkChange)
    ensures
        res == mark_change(mark_sent, mark_received, mark_failed, mark_pending),
        marked(*old(msg), *final(msg), mark_sent, mark_received, mark_failed, mark_pending, now),
{
    if mark_sent {
        msg.sent_timestamp = Some(now);
        MarkChange::Sent
    } else if mark_failed {
        msg.sending_has_failed = true;
        MarkChange::Failed
    } else if mark_pending {
        msg.sending_has_failed = false;
        MarkChange::Pending
    } else if mark_received {
        msg.received_timestamp = Some(now);
        let id = msg.id;
        msg.receipts.push(
            MessageReceipt {
                message_id: 0,
                recipient_id: 0,
                delivered: Some(now),
                read: None,
                viewed: None,
                recipient: id,
            },
        );
        MarkChange::Received
    } else {
        MarkChange::Unchanged
    }
}

impl<T> MessageList<T> {
    /// The shown messages, in order.
    pub closed spec fn entries(self) -> Seq<MessageEntry<T>> {
        self.messages@
    }

    /// No message is shown.
    pub fn new() -> (res: Self)
        ensures
            res.entries() == Seq::<MessageEntry<T>>::empty(),
    {
        MessageList { messages: Vec::new() }
    }

    /// The number of shown messages.
    pub fn row_count(&self) -> (res: usize)
        ensures
            res == self.entries().len(),
    {
        self.messages.len()
    }

    /// Another conversation is opened: no message is shown until its
    /// messages are fetched.
    pub fn load(&mut self)
        ensures
            final(self).entries() == Seq::<MessageEntry<T>>::empty(),
    {
        self.messages = Vec::new();
    }

    /// A message was queued for sending: it is shown on top.
    pub fn handle_queue_message(&mut self, msg: MessageEntry<T>)
        ensures
            final(self).entries() == seq![msg] + old(self).entries(),
    {
        let ghost before = self.messages@;
        self.messages.insert(0, msg);
        proof {
            assert(self.messages@ =~= seq![self.messages@[0]] + before);
        }
    }

    /// All messages of the conversation were fetched: they are shown after
    /// the ones shown already.
    pub fn handle_fetch_all_messages(&mut self, messages: Vec<MessageEntry<T>>)
        ensures
            final(self).entries() == old(self).entries() + messages@,
    {
        let mut messages = messages;
        self.messages.append(&mut messages);
    }

    /// The user removes the message shown at `idx`: the session actor is
    /// asked to delete it.  Nothing is asked for a position past the end.
    pub fn remove(&self, idx: usize) -> (res: Option<DeleteMessage>)
        ensures
            idx < self.entries().len() ==> res == Some(
                DeleteMessage(self.entries()[idx as int].id, idx),
            ),
            idx >= self.entries().len() ==> res is None,
    {
        if idx < self.messages.len() {
            Some(DeleteMessage(self.messages[idx].id, idx))
        } else {
            None
        }
    }

    /// The session actor deleted the message shown at `idx`, which must be
    /// a valid position.
    pub fn handle_delete_message(&mut self, idx: usize)
        requires
            idx < old(self).entries().len(),
        ensures
            final(self).entries() == old(self).entries().remove(idx as int),
    {
        let _ = self.messages.remove(idx);
    }

    /// The position of the first shown message with id `id`.
    fn find(&self, id: i32) -> (res: Option<usize>)
        ensures
            match res {
                Some(i) => message_position(self.messages@, id) == Some(i as int) && i
                    < self.messages@.len() && self.messages@[i as int].id == id,
                None => message_position(self.messages@, id) is None,
            },
    {
        let mut i: usize = 0;
        while i < self.messages.len()
            invariant
                i <= self.messages@.len(),
                forall|j: int| 0 <= j < i ==> #[trigger] self.messages@[j].id != id,
            decreases self.messages@.len() - i,
        {
            if self.messages[i].id == id {
                proof {
                    lemma_message_position(self.messages@, id, i as int);
                }
                return Some(i);
            }
            i = i + 1;
        }
        None
    }

    /// Marks the shown message `id` sent, received, failed or pending (at
    /// `now`, for the sent and received times); a received message also
    /// gets a delivery receipt.  Asking both sent and received marks
    /// nothing.
    #[verifier::spinoff_prover]
    #[verifier::rlimit(30)]
    pub fn mark(
        &mut self,
        id: i32,
        mark_sent: bool,
        mark_received: bool,
        mark_failed: bool,
        mark_pending: bool,
        now: i64,
    ) -> (res: MarkChange)
        ensures
            mark_sent && mark_received ==> res == MarkChange::Conflict && final(self).entries()
                == old(self).entries(),
            !(mark_sent && mark_received) ==> match message_position(old(self).entries(), id) {
                None => res == MarkChange::NotFound && final(self).entries() == old(self).entries(),
                Some(i) => {
                    &&& res == mark_change(mark_sent, mark_received, mark_failed, mark_pending)
                    &&& final(self).entries().len() == old(self).entries().len()
                    &&& forall|j: int|
                        0 <= j < old(self).entries().len() && j != i
                            ==> #[trigger] final(self).entries()[j] == old(self).entries()[j]
                    &&& marked(
                        old(self).entries()[i],
                        final(self).entries()[i],
                        mark_sent,
                        mark_received,
                        mark_failed,
                        mark_pending,
                        now,
                    )
                },
            },
    {
        if mark_sent && mark_received {
            return MarkChange::Conflict;
        }
        match self.find(id) {
            None => MarkChange::NotFound,
            Some(i) => {
                let ghost before = self.messages@;
                let mut msg = self.messages.remove(i);
                let ghost old_msg = msg;
                let change = apply_mark(&mut msg, mark_sent, mark_received, mark_failed, mark_pending, now);
                let ghost new_msg = msg;
                self.messages.insert(i, msg);
                proof {
                    let after = self.messages@;
                    assert(old_msg == before[i as int]);
                    assert(after =~= before.update(i as int, new_msg));
                    assert(after.len() == before.len());
                    assert(forall|j: int| 0 <= j < before.len() && j != i ==> #[trigger] after[j] == before[j]);
                    assert(after[i as int] == new_msg);
                }
                change
            },
        }
    }

    /// The message shown at `idx`, if there is one.
    pub fn message(&self, idx: usize) -> (res: Option<&MessageEntry<T>>)
        ensures
            idx < self.entries().len() ==> res == Some(&self.entries()[idx as int]),
            idx >= self.entries().len() ==> res is None,
    {
        if idx < self.messages.len() {
            Some(&self.messages[idx])
        } else {
            None
        }
    }

    /// Binary search for the server time `ts` among the shown messages,
    /// newest first: `Ok(i)` where a message has that time, or `Err(i)`
    /// where a message with that time is to be inserted.
    fn search_timestamp(&self, ts: i64) -> (res: Result<usize, usize>)
        ensures
            match res {
                Ok(i) => i < self.messages@.len() && self.messages@[i as int].server_timestamp == ts,
                Err(i) => {
                    &&& i <= self.messages@.len()
                    &&& (i == 0 || self.messages@[i - 1].server_timestamp > ts)
                    &&& (i == self.messages@.len() || self.messages@[i as int].server_timestamp
                        < ts)
                    &&& newest_first(self.messages@) ==> (forall|j: int|
                        0 <= j < i ==> #[trigger] self.messages@[j].server_timestamp > ts) && (
                    forall|j: int|
                        i <= j < self.messages@.len() ==> #[trigger] self.messages@[j].server_timestamp
                            < ts)
                },
            },
    {
        let mut lo: usize = 0;
        let mut hi: usize = self.messages.len();
        while lo < hi
            invariant
                lo <= hi <= self.messages@.len(),
                lo == 0 || self.messages@[lo - 1].server_timestamp > ts,
                hi == self.messages@.len() || self.messages@[hi as int].server_timestamp < ts,
                newest_first(self.messages@) ==> forall|j: int|
                    0 <= j < lo ==> #[trigger] self.messages@[j].server_timestamp > ts,
                newest_first(self.messages@) ==> forall|j: int|
                    hi <= j < self.messages@.len() ==> #[trigger] self.messages@[j].server_timestamp
                        < ts,
            decreases hi - lo,
        {
            let mid = lo + (hi - lo) / 2;
            let m = self.messages[mid].server_timestamp;
            if m == ts {
                return Ok(mid);
            } else if m > ts {
                lo = mid + 1;
            } else {
                hi = mid;
            }
        }
        Err(lo)
    }

    /// A message was fetched: it replaces a shown message with the same
    /// server time, or is inserted where its server time belongs.  Returns
    /// whether a message was replaced.  The order by server time is kept.
    #[verifier::spinoff_prover]
    pub fn handle_fetch_message(&mut self, msg: MessageEntry<T>) -> (res: bool)
        ensures
            res ==> exists|i: int|
                0 <= i < old(self).entries().len() && #[trigger] old(self).entries()[i].server_timestamp
                    == msg.server_timestamp && final(self).entries() == old(self).entries().update(
                    i,
                    msg,
                ),
            !res ==> exists|i: int|
                0 <= i <= old(self).entries().len() && final(self).entries() == old(
                    self,
                ).entries().insert(i, msg) && (i == 0 || old(self).entries()[i - 1].server_timestamp
                    > msg.server_timestamp) && (i == old(self).entries().len() || #[trigger] old(
                    self,
                ).entries()[i].server_timestamp < msg.server_timestamp),
            newest_first(old(self).entries()) ==> newest_first(final(self).entries()),
            newest_first(old(self).entries()) ==> (res <==> exists|i: int|
                0 <= i < old(self).entries().len() && #[trigger] old(self).entries()[i].server_timestamp
                    == msg.server_timestamp),
    {
        let ghost before = self.messages@;
        let ts = msg.server_timestamp;
        match self.search_timestamp(ts) {
            Ok(i) => {
                let _ = self.messages.remove(i);
                self.messages.insert(i, msg);
                proof {
                    assert(self.messages@ =~= before.update(i as int, msg));
                    assert(before[i as int].server_timestamp == ts);
                    if newest_first(before) {
                        assert forall|a: int, b: int|
                            0 <= a < b < self.messages@.len() implies #[trigger] self.messages@[a].server_timestamp
                            >= #[trigger] self.messages@[b].server_timestamp by {
                            assert(before[a].server_timestamp >= before[b].server_timestamp);
                            assert(before[a].server_timestamp >= before[i as int].server_timestamp
                                || a > i);
                        }
                    }
                }
                true
            },
            Err(i) => {
                self.messages.insert(i, msg);
                proof {
                    let n = self.messages@;
                    assert(n =~= before.insert(i as int, msg));
                    if newest_first(before) {
                        assert forall|a: int, b: int| 0 <= a < b < n.len() implies #[trigger] n[a].server_timestamp
                            >= #[trigger] n[b].server_timestamp by {
                            if b < i {
                                assert(n[a] == before[a] && n[b] == before[b]);
                            } else if b == i {
                                assert(n[a] == before[a]);
                            } else if a < i {
                                assert(n[a] == before[a] && n[b] == before[b - 1]);
                            } else if a == i {
                                assert(n[b] == before[b - 1]);
                            } else {
                                assert(n[a] == before[a - 1] && n[b] == before[b - 1]);
                            }
                        }
                        assert forall|j: int| 0 <= j < before.len() implies #[trigger] before[j].server_timestamp
                            != ts by {
                            if j < i {
                                assert(before[j].server_timestamp > ts);
                            } else {
                                assert(before[j].server_timestamp < ts);
                            }
                        }
                    }
                }
                false
            },
        }
    }
}

} // verus!
