//! The queue of typing notifications of the conversation list.
//!
//! A typing notification is shown for five seconds.  New notifications are
//! queued with their expiry time; an update drops the expired ones from the
//! front of the queue and tells when to look again.  Times are
//! milliseconds of a monotonic clock.

use std::collections::VecDeque;
use vstd::prelude::*;

verus! {

/// How long a typing notification stays, in milliseconds.
pub const TYPING_EXPIRY_DELAY_MS: u64 = 5_000;

/// The message that asks for an update of the typing notifications.
#[derive(Clone, Copy, Debug, PartialEq, Eq, Structural)]
pub struct UpdateTypingNotifications;

/// A queued typing notification and the time at which it expires.
pub struct TypingQueueItem<T> {
    pub inner: T,
    pub expire: u64,
}

/// The typing notifications, oldest first.
pub struct TypingQueue<T> {
    queue: VecDeque<TypingQueueItem<T>>,
}

/// The expiry times of the queue, front first.
pub open spec fn expiries<T>(q: Seq<TypingQueueItem<T>>) -> Seq<u64> {
    q.map_values(|item: TypingQueueItem<T>| item.expire)
}

/// The number of items at the front of the queue that expired at `now`:
/// the position of the first item that has not.
pub open spec fn expired_prefix(e: Seq<u64>, now: u64) -> int
    decreases e.len(),
{
    if e.len() == 0 {
        0
    } else if e[0] <= now {
        1 + expired_prefix(e.drop_first(), now)
    } else {
        0
    }
}

proof fn lemma_expired_prefix(e: Seq<u64>, now: u64)
    ensures
        0 <= expired_prefix(e, now) <= e.len(),
        forall|i: int| 0 <= i < expired_prefix(e, now) ==> #[trigger] e[i] <= now,
        expired_prefix(e, now) < e.len() ==> e[expired_prefix(e, now)] > now,
    decreases e.len(),
{
    if e.len() > 0 && e[0] <= now {
        lemma_expired_prefix(e.drop_first(), now);
        assert forall|i: int| 0 <= i < expired_prefix(e, now) implies #[trigger] e[i] <= now by {
            if i > 0 {
                assert(e[i] == e.drop_first()[i - 1]);
            }
        }
    }
}

impl<T> TypingQueue<T> {
    /// The queued items, front first.
    pub closed spec fn items(self) -> Seq<TypingQueueItem<T>> {
        self.queue@
    }

    /// An empty queue.
    pub fn new() -> (res: Self)
        ensures
            res.items() == Seq::<TypingQueueItem<T>>::empty(),
    {
        TypingQueue { queue: VecDeque::new() }
    }

    /// The number of queued notifications.
    pub fn len(&self) -> (res: usize)
        ensures
            res == self.items().len(),
    {
        self.queue.len()
    }

    /// Queues the notification `typing`, received at `now`, to expire five
    /// seconds later, and asks for an update.
    pub fn typing_notification(&mut self, typing: T, now: u64) -> (res: UpdateTypingNotifications)
        requires
            now + TYPING_EXPIRY_DELAY_MS <= u64::MAX,
        ensures
            final(self).items() == old(self).items().push(
                TypingQueueItem { inner: typing, expire: (now + TYPING_EXPIRY_DELAY_MS) as u64 },
            ),
    {
        let expire = now + TYPING_EXPIRY_DELAY_MS;
        self.queue.push_back(TypingQueueItem { inner: typing, expire });
        UpdateTypingNotifications
    }

    /// Drops the notifications at the front of the queue that expired at
    /// `now`.  When one is left, returns the delay after which to update
    /// again: the time from `now` until the front item expires.  `None`
    /// when the queue is (or becomes) empty.
    pub fn update_typing_notifications(&mut self, now: u64) -> (res: Option<u64>)
        ensures
            final(self).items() == old(self).items().skip(
                expired_prefix(expiries(old(self).items()), now),
            ),
            final(self).items().len() > 0 ==> final(self).items()[0].expire > now,
            res == (if final(self).items().len() == 0 {
                None::<u64>
            } else {
                Some((final(self).items()[0].expire - now) as u64)
            }),
    {
        let ghost q0 = self.queue@;
        let ghost e = expiries(q0);
        proof {
            lemma_expired_prefix(e, now);
        }
        if self.queue.len() == 0 {
            proof {
                assert(q0.skip(0) =~= q0);
            }
            return None;
        }
        let ghost mut k: int = 0;
        while self.queue.len() > 0 && self.queue[0].expire <= now
            invariant
                0 <= k <= expired_prefix(e, now),
                e == expiries(q0),
                0 <= expired_prefix(e, now) <= e.len(),
                forall|i: int| 0 <= i < expired_prefix(e, now) ==> #[trigger] e[i] <= now,
                expired_prefix(e, now) < e.len() ==> e[expired_prefix(e, now)] > now,
                self.queue@ == q0.skip(k),
            decreases self.queue@.len(),
        {
            proof {
                assert(self.queue@[0] == q0[k]);
                assert(e[k] == q0[k].expire);
            }
            let _ = self.queue.pop_front();
            proof {
                assert(self.queue@ =~= q0.skip(k + 1));
                k = k + 1;
            }
        }
        proof {
            if k < expired_prefix(e, now) {
                assert(self.queue@[0] == q0[k]);
                assert(e[k] == q0[k].expire);
            }
            if k < q0.len() {
                assert(self.queue@[0] == q0[k]);
                assert(e[k] == q0[k].expire);
            }
        }
        if self.queue.len() > 0 {
            let expire = self.queue[0].expire;
            Some(expire - now)
        } else {
            None
        }
    }
}

} // verus!
