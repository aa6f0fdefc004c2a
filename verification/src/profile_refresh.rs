//! Selection of out-of-date profiles to refresh.
//!
//! Profiles that are due for a refresh are offered in the order the store
//! lists them; once a profile was yielded it is ignored for five minutes.
//! The ignore set is kept sorted by UUID (a UUID is held as its `u128`
//! value, whose order is the byte order of the UUID) and each entry carries
//! the instant, in milliseconds, until which it is ignored.

use vstd::prelude::*;

verus! {

/// How long a yielded profile is ignored, in milliseconds.
pub const REYIELD_DELAY_MS: u64 = 300_000;

/// An entry of the ignore set: `(ignored until, uuid)`.
pub type IgnoreEntry = (u64, u128);

/// The entries are strictly ordered by UUID, so no UUID occurs twice.
pub open spec fn sorted_by_uuid(s: Seq<IgnoreEntry>) -> bool {
    forall|i: int, j: int| 0 <= i < j < s.len() ==> #[trigger] s[i].1 < #[trigger] s[j].1
}

/// Whether `u` is in the ignore set.
pub open spec fn ignores(s: Seq<IgnoreEntry>, u: u128) -> bool {
    exists|i: int| 0 <= i < s.len() && #[trigger] s[i].1 == u
}

/// The ignore set after dropping the entries that expired at `now`.
pub open spec fn cleaned(s: Seq<IgnoreEntry>, now: u64) -> Seq<IgnoreEntry> {
    s.filter(|e: IgnoreEntry| e.0 > now)
}

/// The first candidate that is not ignored, if any.
pub open spec fn first_not_ignored(s: Seq<IgnoreEntry>, cands: Seq<u128>) -> Option<u128>
    decreases cands.len(),
{
    if cands.len() == 0 {
        None
    } else if !ignores(s, cands[0]) {
        Some(cands[0])
    } else {
        first_not_ignored(s, cands.drop_first())
    }
}

/// The earliest expiry of the ignore set.
pub open spec fn is_earliest_expiry(s: Seq<IgnoreEntry>, t: u64) -> bool {
    &&& exists|i: int| 0 <= i < s.len() && #[trigger] s[i].0 == t
    &&& forall|i: int| 0 <= i < s.len() ==> t <= #[trigger] s[i].0
}

/// One selection on the ignore set `before`, at `now`, among `cands`,
/// with result `res` and ignore set `after`: the first candidate that is
/// not ignored is offered and ignored until `now` plus the re-yield delay;
/// when none is offered the set is unchanged.
pub open spec fn selection_step(
    before: Seq<IgnoreEntry>,
    after: Seq<IgnoreEntry>,
    cands: Seq<u128>,
    now: u64,
    res: Option<u128>,
) -> bool {
    &&& res == first_not_ignored(before, cands)
    &&& res is None ==> after == before
    &&& res is Some ==> forall|e: IgnoreEntry|
        #[trigger] after.contains(e) <==> (before.contains(e) || e == (
            (now + REYIELD_DELAY_MS) as u64,
            res->Some_0,
        ))
}

/// A call on the ignore set, with its time.
pub enum IgnoreSetCall {
    /// Dropping the expired entries at the given time.
    Clean(u64),
    /// A selection among the candidates at the given time, and its result.
    Select(Seq<u128>, u64, Option<u128>),
}

/// The time of a call.
pub open spec fn call_time(c: IgnoreSetCall) -> u64 {
    match c {
        IgnoreSetCall::Clean(t) => t,
        IgnoreSetCall::Select(_, t, _) => t,
    }
}

/// The profile that a call offered, if any.
pub open spec fn offered(c: IgnoreSetCall) -> Option<u128> {
    match c {
        IgnoreSetCall::Clean(_) => None,
        IgnoreSetCall::Select(_, _, res) => res,
    }
}

/// The call `c` took the ignore set from `before` to `after`, as
/// `clean_ignore_set` and `next_out_of_date_profile` state it.
pub open spec fn call_step(before: Seq<IgnoreEntry>, c: IgnoreSetCall, after: Seq<IgnoreEntry>) -> bool {
    match c {
        IgnoreSetCall::Clean(now) => after == cleaned(before, now),
        IgnoreSetCall::Select(cands, now, res) => selection_step(before, after, cands, now, res),
    }
}

/// The refresh state of out-of-date profiles: the set of recently yielded
/// profiles.
pub struct OutdatedProfileStream {
    ignore_set: Vec<IgnoreEntry>,
}

impl View for OutdatedProfileStream {
    type V = Seq<IgnoreEntry>;

    closed spec fn view(&self) -> Seq<IgnoreEntry> {
        self.ignore_set@
    }
}

/// Position of `u` in the sorted entries: `Ok(i)` where it is found, or
/// `Err(i)` where it would be inserted.
fn search_uuid(s: &Vec<IgnoreEntry>, u: u128) -> (res: Result<usize, usize>)
    requires
        sorted_by_uuid(s@),
    ensures
        match res {
            Ok(i) => i < s@.len() && s@[i as int].1 == u,
            Err(i) => i <= s@.len() && (forall|j: int| 0 <= j < i ==> #[trigger] s@[j].1 < u) && (
            forall|j: int| i <= j < s@.len() ==> #[trigger] s@[j].1 > u),
        },
{
    let mut lo: usize = 0;
    let mut hi: usize = s.len();
    while lo < hi
        invariant
            lo <= hi <= s@.len(),
            sorted_by_uuid(s@),
            forall|j: int| 0 <= j < lo ==> #[trigger] s@[j].1 < u,
            forall|j: int| hi <= j < s@.len() ==> #[trigger] s@[j].1 > u,
        decreases hi - lo,
    {
        let mid = lo + (hi - lo) / 2;
        let m = s[mid].1;
        if m == u {
            return Ok(mid);
        } else if m < u {
            lo = mid + 1;
        } else {
            hi = mid;
        }
    }
    Err(lo)
}

impl OutdatedProfileStream {
    /// The invariant: the ignore set is sorted by UUID.
    pub closed spec fn wf(&self) -> bool {
        sorted_by_uuid(self.ignore_set@)
    }

    /// A stream that ignores nothing yet.
    pub fn new() -> (res: Self)
        ensures
            res.wf(),
            res@ == Seq::<IgnoreEntry>::empty(),
    {
        OutdatedProfileStream { ignore_set: Vec::new() }
    }

    /// Drops the entries whose time is up at `now`.
    #[verifier::spinoff_prover]
    pub fn clean_ignore_set(&mut self, now: u64)
        requires
            old(self).wf(),
        ensures
            final(self).wf(),
            final(self)@ == cleaned(old(self)@, now),
    {
        let ghost s = self.ignore_set@;
        let mut kept: Vec<IgnoreEntry> = Vec::new();
        let mut i: usize = 0;
        while i < self.ignore_set.len()
            invariant
                self.ignore_set@ == s,
                i <= s.len(),
                kept@ == cleaned(s.take(i as int), now),
            decreases s.len() - i,
        {
            let e = self.ignore_set[i];
            proof {
                assert(s.take(i + 1).drop_last() =~= s.take(i as int));
                assert(s.take(i + 1).last() == e);
                reveal(Seq::filter);
            }
            if e.0 > now {
                kept.push(e);
            }
            i = i + 1;
        }
        proof {
            assert(s.take(s.len() as int) =~= s);
            lemma_cleaned_sorted(s, now);
        }
        self.ignore_set = kept;
    }
}

impl OutdatedProfileStream {
    /// Offers the first of `candidates` (out-of-date profiles, in the order
    /// the store lists them) that is not ignored, and ignores it from now
    /// on until `now` plus the re-yield delay.  `None` when every candidate
    /// is ignored; the set is then unchanged.
    #[verifier::spinoff_prover]
    pub fn next_out_of_date_profile(&mut self, candidates: &[u128], now: u64) -> (res: Option<u128>)
        requires
            old(self).wf(),
            now + REYIELD_DELAY_MS <= u64::MAX,
        ensures
            final(self).wf(),
            res == first_not_ignored(old(self)@, candidates@),
            res is None ==> final(self)@ == old(self)@,
            res is Some ==> final(self)@.len() == old(self)@.len() + 1 && (forall|e: IgnoreEntry|
                #[trigger] final(self)@.contains(e) <==> (old(self)@.contains(e) || e == (
                (now + REYIELD_DELAY_MS) as u64,
                res->Some_0,
            ))),
            selection_step(old(self)@, final(self)@, candidates@, now, res),
    {
        let mut i: usize = 0;
        proof {
            assert(candidates@.skip(0) =~= candidates@);
        }
        while i < candidates.len()
            invariant
                self.wf(),
                now + REYIELD_DELAY_MS <= u64::MAX,
                self@ == old(self)@,
                i <= candidates@.len(),
                first_not_ignored(self@, candidates@) == first_not_ignored(
                    self@,
                    candidates@.skip(i as int),
                ),
            decreases candidates@.len() - i,
        {
            let u = candidates[i];
            proof {
                assert(candidates@.skip(i as int)[0] == u);
                assert(candidates@.skip(i as int).drop_first() =~= candidates@.skip(i + 1));
            }
            match search_uuid(&self.ignore_set, u) {
                Ok(_) => {},
                Err(idx) => {
                    proof {
                        assert(!ignores(self@, u)) by {
                            if ignores(self@, u) {
                                let j = choose|j: int| 0 <= j < self@.len() && #[trigger] self@[j].1 == u;
                                if j < idx {
                                    assert(self@[j].1 < u);
                                } else {
                                    assert(self@[j].1 > u);
                                }
                            }
                        }
                    }
                    let ghost old_s = self.ignore_set@;
                    let entry: IgnoreEntry = (now + REYIELD_DELAY_MS, u);
                    self.ignore_set.insert(idx, entry);
                    proof {
                        let n = self.ignore_set@;
                        assert(n =~= old_s.take(idx as int).push(entry) + old_s.skip(idx as int));
                        assert(forall|k: int| 0 <= k < idx ==> #[trigger] n[k] == old_s[k]);
                        assert(forall|k: int| idx < k < n.len() ==> #[trigger] n[k] == old_s[k - 1]);
                        assert(n[idx as int] == entry);
                        assert(sorted_by_uuid(n)) by {
                            assert forall|a: int, b: int| 0 <= a < b < n.len() implies #[trigger] n[a].1
                                < #[trigger] n[b].1 by {
                                if b < idx {
                                } else if b == idx {
                                    assert(old_s[a].1 < u);
                                } else if a < idx {
                                    assert(old_s[a].1 < old_s[b - 1].1 || a == b - 1);
                                    assert(old_s[a].1 < u);
                                    assert(old_s[b - 1].1 > u);
                                } else if a == idx {
                                    assert(old_s[b - 1].1 > u);
                                } else {
                                    assert(old_s[a - 1].1 < old_s[b - 1].1);
                                }
                            }
                        }
                        assert forall|e: IgnoreEntry| #[trigger] n.contains(e) <==> (old_s.contains(e)
                            || e == entry) by {
                            if n.contains(e) {
                                let k = choose|k: int| 0 <= k < n.len() && n[k] == e;
                                if k < idx {
                                    assert(old_s[k] == e);
                                } else if k > idx {
                                    assert(old_s[k - 1] == e);
                                }
                            }
                            if old_s.contains(e) {
                                let k = choose|k: int| 0 <= k < old_s.len() && old_s[k] == e;
                                if k < idx {
                                    assert(n[k] == e);
                                } else {
                                    assert(n[k + 1] == e);
                                }
                            }
                            if e == entry {
                                assert(n[idx as int] == e);
                            }
                        }
                    }
                    return Some(u);
                },
            }
            i = i + 1;
        }
        proof {
            assert(candidates@.skip(i as int).len() == 0);
        }
        None
    }

    /// The instant at which the next ignored profile becomes due again:
    /// the earliest time of the ignore set, or `None` when it is empty.
    pub fn next_wake(&self) -> (res: Option<u64>)
        ensures
            res is None <==> self@.len() == 0,
            res is Some ==> is_earliest_expiry(self@, res->Some_0),
    {
        let n = self.ignore_set.len();
        if n == 0 {
            return None;
        }
        let mut best: u64 = self.ignore_set[0].0;
        let mut i: usize = 1;
        while i < n
            invariant
                n == self@.len(),
                1 <= i <= n,
                exists|j: int| 0 <= j < i && #[trigger] self@[j].0 == best,
                forall|j: int| 0 <= j < i ==> best <= #[trigger] self@[j].0,
            decreases n - i,
        {
            let t = self.ignore_set[i].0;
            if t < best {
                best = t;
            }
            i = i + 1;
        }
        Some(best)
    }
}

/// How long to sleep when nothing is ignored and the store's next profile
/// was last fetched at `last_fetch` (milliseconds since the epoch, like
/// `now`): the time elapsed since that fetch, or the re-yield delay when
/// that fetch lies in the future.
pub fn wake_delay_after_fetch(now: i64, last_fetch: i64) -> (res: u64)
    requires
        -0x3fff_ffff_ffff_ffff <= now <= 0x3fff_ffff_ffff_ffff,
        -0x3fff_ffff_ffff_ffff <= last_fetch <= 0x3fff_ffff_ffff_ffff,
    ensures
        res == (if now - last_fetch >= 0 {
            (now - last_fetch) as u64
        } else {
            REYIELD_DELAY_MS
        }),
{
    let delta: i64 = now - last_fetch;
    if delta >= 0 {
        delta as u64
    } else {
        REYIELD_DELAY_MS
    }
}

/// A profile that was yielded is not yielded again before its re-yield
/// delay has passed: as long as its entry `(until, u)` has not expired,
/// the entry survives cleaning (and a selection keeps every entry), so the
/// set still ignores `u` and no selection offers it.
pub proof fn lemma_no_reyield_before_expiry(
    s: Seq<IgnoreEntry>,
    u: u128,
    until: u64,
    now: u64,
    candidates: Seq<u128>,
)
    requires
        s.contains((until, u)),
        now < until,
    ensures
        cleaned(s, now).contains((until, u)),
        ignores(cleaned(s, now), u),
        first_not_ignored(cleaned(s, now), candidates) != Some(u),
{
    let k = choose|k: int| 0 <= k < s.len() && s[k] == (until, u);
    lemma_cleaned_keeps(s, now, k);
    lemma_first_not_ignored_skips(cleaned(s, now), candidates, u);
}

/// An unexpired entry survives cleaning.
proof fn lemma_cleaned_keeps(s: Seq<IgnoreEntry>, now: u64, k: int)
    requires
        0 <= k < s.len(),
        s[k].0 > now,
    ensures
        cleaned(s, now).contains(s[k]),
        ignores(cleaned(s, now), s[k].1),
{
    broadcast use vstd::seq_lib::group_filter_ensures;

    assert(cleaned(s, now).contains(s[k]));
    let j = choose|j: int| 0 <= j < cleaned(s, now).len() && cleaned(s, now)[j] == s[k];
    assert(cleaned(s, now)[j].1 == s[k].1);
}

/// An ignored UUID is never the first candidate that is not ignored.
pub proof fn lemma_first_not_ignored_skips(s: Seq<IgnoreEntry>, candidates: Seq<u128>, u: u128)
    requires
        ignores(s, u),
    ensures
        first_not_ignored(s, candidates) != Some(u),
    decreases candidates.len(),
{
    if candidates.len() > 0 && ignores(s, candidates[0]) {
        lemma_first_not_ignored_skips(s, candidates.drop_first(), u);
    }
}

/// The selection offers a profile that was not ignored, and only after
/// every candidate before it was ignored.
pub proof fn lemma_first_not_ignored_is_first(s: Seq<IgnoreEntry>, candidates: Seq<u128>)
    ensures
        first_not_ignored(s, candidates) is None ==> forall|i: int|
            0 <= i < candidates.len() ==> ignores(s, #[trigger] candidates[i]),
        first_not_ignored(s, candidates) is Some ==> exists|i: int|
            0 <= i < candidates.len() && candidates[i] == first_not_ignored(s, candidates)->Some_0
                && !ignores(s, candidates[i]) && forall|j: int|
                0 <= j < i ==> ignores(s, #[trigger] candidates[j]),
    decreases candidates.len(),
{
    if candidates.len() > 0 {
        let rest = candidates.drop_first();
        lemma_first_not_ignored_is_first(s, rest);
        if ignores(s, candidates[0]) {
            assert forall|i: int| 1 <= i < candidates.len() implies candidates[i] == rest[i - 1] by {}
            if first_not_ignored(s, rest) is None {
                assert forall|i: int| 0 <= i < candidates.len() implies ignores(
                    s,
                    #[trigger] candidates[i],
                ) by {
                    if i > 0 {
                        assert(candidates[i] == rest[i - 1]);
                    }
                }
            } else {
                let i = choose|i: int|
                    0 <= i < rest.len() && rest[i] == first_not_ignored(s, rest)->Some_0 && !ignores(
                        s,
                        rest[i],
                    ) && forall|j: int| 0 <= j < i ==> ignores(s, #[trigger] rest[j]);
                assert(candidates[i + 1] == rest[i]);
                assert forall|j: int| 0 <= j < i + 1 implies ignores(s, #[trigger] candidates[j]) by {
                    if j > 0 {
                        assert(candidates[j] == rest[j - 1]);
                    }
                }
            }
        } else {
            assert(candidates[0] == first_not_ignored(s, candidates)->Some_0);
        }
    }
}

/// Cleaning keeps the order and keeps only entries of the set.
proof fn lemma_cleaned_sorted(s: Seq<IgnoreEntry>, now: u64)
    requires
        sorted_by_uuid(s),
    ensures
        sorted_by_uuid(cleaned(s, now)),
        forall|k: int| 0 <= k < cleaned(s, now).len() ==> s.contains(#[trigger] cleaned(s, now)[k]),
    decreases s.len(),
{
    reveal(Seq::filter);
    if s.len() > 0 {
        let d = s.drop_last();
        assert(sorted_by_uuid(d)) by {
            assert forall|i: int, j: int| 0 <= i < j < d.len() implies #[trigger] d[i].1
                < #[trigger] d[j].1 by {
                assert(d[i] == s[i] && d[j] == s[j]);
            }
        }
        lemma_cleaned_sorted(d, now);
        let f = cleaned(d, now);
        assert forall|k: int| 0 <= k < f.len() implies #[trigger] f[k].1 < s.last().1 by {
            assert(d.contains(f[k]));
            let j = choose|j: int| 0 <= j < d.len() && d[j] == f[k];
            assert(s[j] == d[j]);
        }
        assert forall|k: int| 0 <= k < f.len() implies s.contains(#[trigger] f[k]) by {
            assert(d.contains(f[k]));
            let j = choose|j: int| 0 <= j < d.len() && d[j] == f[k];
            assert(s[j] == d[j]);
        }
        if s.last().0 > now {
            assert(cleaned(s, now) == f.push(s.last()));
            assert(s[s.len() - 1] == s.last());
        } else {
            assert(cleaned(s, now) == f);
        }
    }
}

/// An ignored UUID is in the set.
proof fn lemma_contains_ignores(s: Seq<IgnoreEntry>, e: IgnoreEntry)
    requires
        s.contains(e),
    ensures
        ignores(s, e.1),
{
    let k = choose|k: int| 0 <= k < s.len() && s[k] == e;
    assert(s[k].1 == e.1);
}

/// The entry `e` stays in the ignore set through the calls `1..n` made
/// before it expires.
proof fn lemma_entry_kept(
    states: Seq<Seq<IgnoreEntry>>,
    calls: Seq<IgnoreSetCall>,
    e: IgnoreEntry,
    n: int,
)
    requires
        states.len() == calls.len() + 1,
        1 <= n <= calls.len(),
        states[1].contains(e),
        forall|k: int| 0 <= k < calls.len() ==> call_step(states[k], #[trigger] calls[k], states[k + 1]),
        forall|k: int| 1 <= k < calls.len() ==> call_time(#[trigger] calls[k]) < e.0,
    ensures
        states[n].contains(e),
    decreases n,
{
    if n > 1 {
        lemma_entry_kept(states, calls, e, n - 1);
        let k = n - 1;
        assert(call_step(states[k], calls[k], states[k + 1]));
        assert(call_time(calls[k]) < e.0);
        match calls[k] {
            IgnoreSetCall::Clean(now) => {
                lemma_no_reyield_before_expiry(states[k], e.1, e.0, now, Seq::empty());
            },
            IgnoreSetCall::Select(cands, now, res) => {
                if res is Some {
                    assert(states[k + 1].contains(e));
                }
            },
        }
    }
}

/// A profile yielded at `t` is not yielded again before `t` plus the
/// re-yield delay: whatever cleanings and selections follow the one that
/// offered `u` (`calls[0]`), none made before that time offers `u`, and
/// `u` stays in the ignore set all along.  `states[k]` is the ignore set
/// before `calls[k]`.
pub proof fn lemma_no_reyield_over_calls(
    states: Seq<Seq<IgnoreEntry>>,
    calls: Seq<IgnoreSetCall>,
    u: u128,
    t: u64,
)
    requires
        states.len() == calls.len() + 1,
        calls.len() >= 1,
        call_time(calls[0]) == t,
        offered(calls[0]) == Some(u),
        t + REYIELD_DELAY_MS <= u64::MAX,
        forall|k: int| 0 <= k < calls.len() ==> call_step(states[k], #[trigger] calls[k], states[k + 1]),
        forall|k: int| 1 <= k < calls.len() ==> call_time(#[trigger] calls[k]) < t + REYIELD_DELAY_MS,
    ensures
        forall|k: int| 1 <= k < calls.len() ==> offered(#[trigger] calls[k]) != Some(u),
        forall|k: int| 1 <= k <= calls.len() ==> ignores(#[trigger] states[k], u),
{
    let e: IgnoreEntry = ((t + REYIELD_DELAY_MS) as u64, u);
    assert(call_step(states[0], calls[0], states[1]));
    match calls[0] {
        IgnoreSetCall::Select(cands, now, res) => {
            assert(states[1].contains(e));
        },
        IgnoreSetCall::Clean(_) => {},
    }
    assert forall|k: int| 1 <= k <= calls.len() implies ignores(#[trigger] states[k], u) by {
        lemma_entry_kept(states, calls, e, k);
        lemma_contains_ignores(states[k], e);
    }
    assert forall|k: int| 1 <= k < calls.len() implies offered(#[trigger] calls[k]) != Some(u) by {
        lemma_entry_kept(states, calls, e, k);
        lemma_contains_ignores(states[k], e);
        assert(call_step(states[k], calls[k], states[k + 1]));
        match calls[k] {
            IgnoreSetCall::Select(cands, now, res) => {
                lemma_first_not_ignored_skips(states[k], cands, u);
            },
            IgnoreSetCall::Clean(_) => {},
        }
    }
}

} // verus!
