//! The conversation list: the section heading under which a conversation
//! is shown, by the time of its last message.
//!
//! The list itself is kept newest first; it answers the user's actions
//! with the messages to send to the session actor.
//!
//! Times are milliseconds since the Unix epoch, in UTC.  A conversation
//! whose last message came today is under "today", one less than a day
//! older under "yesterday", one less than a week older under the number of
//! its weekday (Sunday 0, Monday 1, ..., Saturday 6), any other under
//! "older".

use vstd::arithmetic::div_mod::lemma_fundamental_div_mod;
use vstd::arithmetic::div_mod::lemma_fundamental_div_mod_converse;
use vstd::prelude::*;
use vstd::string::*;

verus! {

/// Milliseconds in a day.
pub const MS_PER_DAY: u64 = 86_400_000;

/// Milliseconds in an hour.
pub const MS_PER_HOUR: u64 = 3_600_000;

/// A whole number of weeks, larger than any timestamp handled, that
/// shifts every timestamp into the non-negative range.
const WEEKS_OFFSET_MS: u64 = 5_195_192_441_241_600_000;

/// The largest magnitude of a timestamp handled (about 146 million years).
pub const MAX_TIMESTAMP_MS: i64 = 0x3fff_ffff_ffff_ffff;

/// The weekday of a timestamp, counted from Sunday (0) to Saturday (6);
/// the epoch fell on a Thursday.
pub open spec fn weekday_from_sunday(ts: int) -> int {
    (ts / (MS_PER_DAY as int) + 4) % 7
}

/// The text of a weekday number.
pub open spec fn weekday_text(wd: int) -> Seq<char> {
    if wd == 0 {
        "0"@
    } else if wd == 1 {
        "1"@
    } else if wd == 2 {
        "2"@
    } else if wd == 3 {
        "3"@
    } else if wd == 4 {
        "4"@
    } else if wd == 5 {
        "5"@
    } else {
        "6"@
    }
}

/// The section of a conversation whose last message came at `ts`, when
/// today began at `today`.  The elapsed time is counted in whole seconds
/// and whole hours, truncated.
pub open spec fn section_label(today: int, ts: int) -> Seq<char> {
    let diff = today - ts;
    if diff < 1000 {
        "today"@
    } else if diff < 25 * (MS_PER_HOUR as int) {
        "yesterday"@
    } else if diff < 169 * (MS_PER_HOUR as int) {
        weekday_text(weekday_from_sunday(ts))
    } else {
        "older"@
    }
}

/// The weekday numbering follows the calendar: the epoch (1970-01-01,
/// a Thursday) is day 4, the weekday is the same all day long, and each
/// day is followed by the next weekday, Saturday (6) by Sunday (0).
pub proof fn lemma_weekday_calendar(ts: int, r: int)
    requires
        0 <= r < MS_PER_DAY as int,
    ensures
        weekday_from_sunday(0) == 4,
        0 <= weekday_from_sunday(ts) < 7,
        weekday_from_sunday(ts + MS_PER_DAY as int) == (weekday_from_sunday(ts) + 1) % 7,
        weekday_from_sunday((ts / MS_PER_DAY as int) * MS_PER_DAY as int + r) == weekday_from_sunday(ts),
{
    let d = MS_PER_DAY as int;
    let q = ts / d;
    lemma_fundamental_div_mod(ts, d);
    lemma_fundamental_div_mod_converse(ts + d, d, q + 1, ts % d);
    lemma_fundamental_div_mod_converse(q * d + r, d, q, r);
    lemma_fundamental_div_mod(q + 4, 7);
    lemma_fundamental_div_mod(q + 5, 7);
    let a = (q + 4) / 7;
    let b = (q + 4) % 7;
    if b == 6 {
        lemma_fundamental_div_mod_converse(q + 5, 7, a + 1, 0);
    } else {
        lemma_fundamental_div_mod_converse(q + 5, 7, a, b + 1);
    }
}

/// A conversation whose last message is at least 25 and less than 169
/// hours older than the start of today is listed under its weekday: the
/// heading is the single decimal digit of the weekday of the last message,
/// counted from Sunday (0) to Saturday (6).
pub proof fn lemma_section_is_weekday_digit(today: int, ts: int)
    requires
        25 * (MS_PER_HOUR as int) <= today - ts < 169 * (MS_PER_HOUR as int),
    ensures
        section_label(today, ts).len() == 1,
        section_label(today, ts)[0] as int == '0' as int + weekday_from_sunday(ts),
{
    reveal_strlit("0");
    reveal_strlit("1");
    reveal_strlit("2");
    reveal_strlit("3");
    reveal_strlit("4");
    reveal_strlit("5");
    reveal_strlit("6");
    lemma_weekday_calendar(ts, 0);
}

/// The weekday of the timestamp `ts`, from Sunday (0) to Saturday (6).
pub fn weekday(ts: i64) -> (res: u64)
    requires
        -MAX_TIMESTAMP_MS <= ts <= MAX_TIMESTAMP_MS,
    ensures
        res == weekday_from_sunday(ts as int),
        res < 7,
{
    let shifted: u64 = if ts >= 0 {
        WEEKS_OFFSET_MS + ts as u64
    } else {
        WEEKS_OFFSET_MS - (0i64 - ts) as u64
    };
    let days: u64 = shifted / MS_PER_DAY;
    let res: u64 = (days + 4) % 7;
    proof {
        let d = MS_PER_DAY as int;
        let n: int = 8_589_934_592;
        assert(WEEKS_OFFSET_MS as int == d * (7 * n)) by (nonlinear_arith)
            requires
                d == 86_400_000,
                n == 8_589_934_592,
                WEEKS_OFFSET_MS == 5_195_192_441_241_600_000u64,
        ;
        assert(shifted as int == ts as int + d * (7 * n));
        lemma_fundamental_div_mod(ts as int, d);
        let q = ts as int / d;
        let r = ts as int % d;
        assert(shifted as int == (q + 7 * n) * d + r) by (nonlinear_arith)
            requires
                shifted as int == ts as int + d * (7 * n),
                ts as int == d * q + r,
        ;
        lemma_fundamental_div_mod_converse(shifted as int, d, q + 7 * n, r);
        assert(days as int == q + 7 * n);
        lemma_fundamental_div_mod(q + 4, 7);
        let a = (q + 4) / 7;
        let b = (q + 4) % 7;
        assert(days as int + 4 == (a + n) * 7 + b) by (nonlinear_arith)
            requires
                days as int == q + 7 * n,
                q + 4 == 7 * a + b,
        ;
        lemma_fundamental_div_mod_converse(days as int + 4, 7, a + n, b);
    }
    res
}

/// The section heading of a conversation whose last message came at
/// `last_message`, when today began (at midnight UTC) at `today`.
pub fn section(today: i64, last_message: i64) -> (res: String)
    requires
        -MAX_TIMESTAMP_MS <= today <= MAX_TIMESTAMP_MS,
        -MAX_TIMESTAMP_MS <= last_message <= MAX_TIMESTAMP_MS,
    ensures
        res@ == section_label(today as int, last_message as int),
{
    let diff: i64 = today - last_message;
    if diff < 1000 {
        String::from_str("today")
    } else if diff < 25 * 3_600_000 {
        String::from_str("yesterday")
    } else if diff < 169 * 3_600_000 {
        let wd = weekday(last_message);
        if wd == 0 {
            String::from_str("0")
        } else if wd == 1 {
            String::from_str("1")
        } else if wd == 2 {
            String::from_str("2")
        } else if wd == 3 {
            String::from_str("3")
        } else if wd == 4 {
            String::from_str("4")
        } else if wd == 5 {
            String::from_str("5")
        } else {
            String::from_str("6")
        }
    } else {
        String::from_str("older")
    }
}

/// A conversation of the list: its id, whether its last message was read,
/// the server time of that message, and what else is shown of it.
pub struct SessionEntry<T> {
    pub id: i32,
    pub is_read: bool,
    pub timestamp: i64,
    pub data: T,
}

/// Ask the session actor to delete the session `id`, shown at `idx`.
#[derive(Clone, Copy, Debug, PartialEq, Eq, Structural)]
pub struct DeleteSession {
    pub id: i32,
    pub idx: usize,
}

/// Ask the session actor to mark the session `sid` read; `already_unread`
/// tells whether it counted as unread before.
#[derive(Clone, Copy, Debug, PartialEq, Eq, Structural)]
pub struct MarkSessionRead {
    pub sid: i32,
    pub already_unread: bool,
}

/// The conversations shown, newest first after a reload.
pub struct SessionList<T> {
    content: Vec<SessionEntry<T>>,
}

/// The timestamps are in decreasing order.
pub open spec fn newest_first<T>(s: Seq<SessionEntry<T>>) -> bool {
    forall|i: int, j: int| 0 <= i < j < s.len() ==> #[trigger] s[i].timestamp >= #[trigger] s[j].timestamp
}

/// The position of the first conversation with id `id`, if any.
pub open spec fn position_of<T>(s: Seq<SessionEntry<T>>, id: i32) -> Option<int> {
    if exists|i: int| 0 <= i < s.len() && #[trigger] s[i].id == id {
        Some(choose|i: int| 0 <= i < s.len() && #[trigger] s[i].id == id && forall|j: int| 0 <= j < i ==> s[j].id != id)
    } else {
        None
    }
}

/// The first position of `id` is well defined.
proof fn lemma_position_of<T>(s: Seq<SessionEntry<T>>, id: i32, k: int)
    requires
        0 <= k < s.len(),
        s[k].id == id,
        forall|j: int| 0 <= j < k ==> s[j].id != id,
    ensures
        position_of(s, id) == Some(k),
{
    let p = choose|i: int| 0 <= i < s.len() && #[trigger] s[i].id == id && forall|j: int| 0 <= j < i ==> s[j].id != id;
    assert(exists|i: int| 0 <= i < s.len() && #[trigger] s[i].id == id && forall|j: int| 0 <= j < i ==> s[j].id != id) by {
        assert(s[k].id == id);
    }
    if p < k {
        assert(s[p].id == id);
    } else if p > k {
        assert(s[k].id != id);
    }
}

impl<T> SessionList<T> {
    /// The conversations, in the order shown.
    pub closed spec fn entries(self) -> Seq<SessionEntry<T>> {
        self.content@
    }

    /// An empty list.
    pub fn new() -> (res: Self)
        ensures
            res.entries() == Seq::<SessionEntry<T>>::empty(),
    {
        SessionList { content: Vec::new() }
    }

    /// The number of conversations shown.
    pub fn count(&self) -> (res: usize)
        ensures
            res == self.entries().len(),
    {
        self.content.len()
    }

    /// The position of the first conversation with id `id`.
    fn find(&self, id: i32) -> (res: Option<usize>)
        ensures
            match res {
                Some(i) => position_of(self.content@, id) == Some(i as int) && i
                    < self.content@.len() && self.content@[i as int].id == id,
                None => position_of(self.content@, id) is None,
            },
    {
        let mut i: usize = 0;
        while i < self.content.len()
            invariant
                i <= self.content@.len(),
                forall|j: int| 0 <= j < i ==> #[trigger] self.content@[j].id != id,
            decreases self.content@.len() - i,
        {
            if self.content[i].id == id {
                proof {
                    lemma_position_of(self.content@, id, i as int);
                }
                return Some(i);
            }
            i = i + 1;
        }
        None
    }

    /// The user removes the conversation shown at `idx`: the session actor
    /// is asked to delete it.  An index past the end is an error and asks
    /// nothing.  The list must not be empty.
    pub fn remove(&self, idx: usize) -> (res: Option<DeleteSession>)
        requires
            self.entries().len() > 0,
        ensures
            idx < self.entries().len() ==> res == Some(
                DeleteSession { id: self.entries()[idx as int].id, idx },
            ),
            idx >= self.entries().len() ==> res is None,
    {
        if idx > self.content.len() - 1 {
            return None;
        }
        Some(DeleteSession { id: self.content[idx].id, idx })
    }

    /// The user removes the conversation `id`, which must be shown: the
    /// session actor is asked to delete it at its position.
    pub fn remove_by_id(&self, id: i32) -> (res: DeleteSession)
        requires
            position_of(self.entries(), id) is Some,
        ensures
            res == (DeleteSession { id, idx: position_of(self.entries(), id)->Some_0 as usize }),
    {
        match self.find(id) {
            Some(idx) => DeleteSession { id, idx },
            None => {
                proof {
                    assert(false);
                }
                DeleteSession { id, idx: 0 }
            },
        }
    }

    /// The user opens the conversation `id`: it is shown as read, and the
    /// session actor is asked to mark it read.  Nothing happens for a
    /// conversation that is not shown.
    #[verifier::spinoff_prover]
    pub fn mark_read(&mut self, id: i32) -> (res: Option<MarkSessionRead>)
        ensures
            match position_of(old(self).entries(), id) {
                None => res is None && final(self).entries() == old(self).entries(),
                Some(i) => {
                    let e = old(self).entries()[i];
                    &&& res == Some(MarkSessionRead { sid: id, already_unread: !e.is_read })
                    &&& final(self).entries() == old(self).entries().update(
                        i,
                        SessionEntry { is_read: true, ..e },
                    )
                },
            },
    {
        let ghost before = self.content@;
        match self.find(id) {
            Some(idx) => {
                let already_unread = !self.content[idx].is_read;
                let ghost marked = SessionEntry { is_read: true, ..before[idx as int] };
                let mut entry = self.content.remove(idx);
                entry.is_read = true;
                proof {
                    assert(entry == marked);
                }
                self.content.insert(idx, entry);
                proof {
                    assert(self.content@ =~= before.update(idx as int, marked));
                }
                Some(MarkSessionRead { sid: id, already_unread })
            },
            None => None,
        }
    }

    /// The session actor marked the session `sid` read: it is shown as
    /// read and moves to the top of the list, if it is shown.
    #[verifier::spinoff_prover]
    pub fn handle_mark_session_read(&mut self, sid: i32)
        ensures
            match position_of(old(self).entries(), sid) {
                None => final(self).entries() == old(self).entries(),
                Some(i) => final(self).entries() == seq![
                    SessionEntry { is_read: true, ..old(self).entries()[i] },
                ] + old(self).entries().remove(i),
            },
    {
        let ghost before = self.content@;
        match self.find(sid) {
            Some(idx) => {
                let ghost marked = SessionEntry { is_read: true, ..before[idx as int] };
                let mut entry = self.content.remove(idx);
                entry.is_read = true;
                proof {
                    assert(entry == marked);
                    assert(self.content@ == before.remove(idx as int));
                }
                self.content.insert(0, entry);
                proof {
                    assert(self.content@ =~= seq![marked] + before.remove(idx as int));
                }
            },
            None => {},
        }
    }

    /// The session actor deleted the session shown at `idx`, which must be
    /// a valid position.
    pub fn handle_delete_session(&mut self, idx: usize)
        requires
            idx < old(self).entries().len(),
        ensures
            final(self).entries() == old(self).entries().remove(idx as int),
    {
        let _ = self.content.remove(idx);
    }

    /// A conversation was fetched: it replaces the one with the same id and
    /// moves to the top.  When its last message is unread and the
    /// conversation is to be marked read, it is shown as read and the
    /// session actor is asked to mark it read; `already_unread` is set when
    /// the conversation was shown before.
    #[verifier::spinoff_prover]
    pub fn handle_fetch_session(&mut self, entry: SessionEntry<T>, mark_read: bool) -> (res: Option<
        MarkSessionRead,
    >)
        ensures
            ({
                let found = position_of(old(self).entries(), entry.id);
                let rest = match found {
                    Some(i) => old(self).entries().remove(i),
                    None => old(self).entries(),
                };
                let marked = !entry.is_read && mark_read;
                &&& res == (if marked {
                    Some(MarkSessionRead { sid: entry.id, already_unread: found is Some })
                } else {
                    None::<MarkSessionRead>
                })
                &&& final(self).entries() == seq![
                    SessionEntry { is_read: entry.is_read || marked, ..entry },
                ] + rest
            }),
    {
        let ghost old_s = self.content@;
        let ghost found = position_of(old_s, entry.id);
        let ghost rest = match found {
            Some(i) => old_s.remove(i),
            None => old_s,
        };
        let mut entry = entry;
        let mut already_unread = false;
        match self.find(entry.id) {
            Some(idx) => {
                if !entry.is_read {
                    already_unread = true;
                }
                let _ = self.content.remove(idx);
                proof {
                    assert(found == Some(idx as int));
                    assert(self.content@ == rest);
                }
            },
            None => {
                proof {
                    assert(found is None);
                    assert(self.content@ == rest);
                }
            },
        }
        let ghost new_entry = SessionEntry { is_read: entry.is_read || (!entry.is_read && mark_read), ..entry };
        let res = if !entry.is_read && mark_read {
            let sid = entry.id;
            entry.is_read = true;
            Some(MarkSessionRead { sid, already_unread })
        } else {
            None
        };
        proof {
            assert(entry == new_entry);
        }
        self.content.insert(0, entry);
        proof {
            assert(self.content@ =~= seq![new_entry] + rest);
        }
        res
    }

    /// The conversations were (re)loaded: they are shown newest first.
    #[verifier::spinoff_prover]
    pub fn handle_sessions_loaded(&mut self, sessions: Vec<SessionEntry<T>>)
        ensures
            newest_first(final(self).entries()),
            final(self).entries().to_multiset() == sessions@.to_multiset(),
    {
        let mut input = sessions;
        let ghost all = input@;
        let mut out: Vec<SessionEntry<T>> = Vec::new();
        proof {
            broadcast use vstd::seq_lib::group_to_multiset_ensures;
            assert(all.take(0) =~= Seq::<SessionEntry<T>>::empty());
        }
        while input.len() > 0
            invariant
                newest_first(out@),
                out@.to_multiset().add(input@.to_multiset()) == all.to_multiset(),
            decreases input@.len(),
        {
            let ghost before_in = input@;
            let ghost before_out = out@;
            let x = input.remove(input.len() - 1);
            let ts = x.timestamp;
            let mut p: usize = 0;
            while p < out.len() && out[p].timestamp >= ts
                invariant
                    p <= out@.len(),
                    out@ == before_out,
                    forall|j: int| 0 <= j < p ==> #[trigger] out@[j].timestamp >= ts,
                decreases out@.len() - p,
            {
                p = p + 1;
            }
            out.insert(p, x);
            proof {
                broadcast use vstd::seq_lib::group_to_multiset_ensures;
                vstd::seq_lib::to_multiset_insert(before_out, p as int, x);
                vstd::seq_lib::to_multiset_remove(before_in, before_in.len() - 1);
                assert(newest_first(before_out));
                assert(newest_first(out@)) by {
                    assert forall|a: int, b: int| 0 <= a < b < out@.len() implies #[trigger] out@[a].timestamp
                        >= #[trigger] out@[b].timestamp by {
                        if b < p {
                            assert(out@[a] == before_out[a] && out@[b] == before_out[b]);
                        } else if b == p {
                            assert(out@[a] == before_out[a]);
                        } else if a < p {
                            assert(out@[a] == before_out[a] && out@[b] == before_out[b - 1]);
                        } else if a == p {
                            assert(out@[b] == before_out[b - 1]);
                            if p < before_out.len() {
                                assert(before_out[p as int].timestamp < ts);
                                assert(before_out[p as int].timestamp >= before_out[b - 1].timestamp);
                            }
                        } else {
                            assert(out@[a] == before_out[a - 1] && out@[b] == before_out[b - 1]);
                        }
                    }
                }
                assert(out@.to_multiset() == before_out.to_multiset().insert(x));
                assert(input@.to_multiset() == before_in.to_multiset().remove(x));
                assert(before_in.to_multiset().count(x) > 0);
            }
        }
        proof {
            broadcast use vstd::seq_lib::group_to_multiset_ensures;
            assert(input@.to_multiset() =~= vstd::multiset::Multiset::empty());
        }
        self.content = out;
    }
}

/// The number of set times among `times`.
pub open spec fn count_set(times: Seq<Option<i64>>) -> nat
    decreases times.len(),
{
    if times.len() == 0 {
        0
    } else {
        count_set(times.drop_last()) + if times.last() is Some {
            1nat
        } else {
            0nat
        }
    }
}

/// How many receipts of the last message of a conversation have their
/// time set (delivered, read or viewed, whichever `times` lists), as the
/// 32-bit count the list shows (taken modulo 2^32).
pub fn receipt_count(times: &[Option<i64>]) -> (res: u32)
    ensures
        res == count_set(times@) as u32,
{
    let mut n: usize = 0;
    let mut i: usize = 0;
    while i < times.len()
        invariant
            i <= times@.len(),
            n == count_set(times@.take(i as int)),
            n <= i,
        decreases times@.len() - i,
    {
        proof {
            assert(times@.take(i + 1).drop_last() =~= times@.take(i as int));
        }
        if times[i].is_some() {
            n = n + 1;
        }
        i = i + 1;
    }
    proof {
        assert(times@.take(times@.len() as int) =~= times@);
    }
    #[verifier::truncate]
    (n as u32)
}

} // verus!
