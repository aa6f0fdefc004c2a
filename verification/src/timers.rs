//! The timers and sockets that the Qt event loop registers with the event
//! dispatcher.
//!
//! Each timer has an id, an interval in milliseconds and the object that
//! receives its events.  A timer id is registered at most once: a second
//! registration of the same id is refused.  The dispatcher keeps, for each
//! entry, the running interval at the same position.

use vstd::prelude::*;

verus! {

/// A registered timer: its id, its interval in milliseconds, and the
/// object that receives its events.
pub struct TimerSpec<T> {
    pub timer_id: i32,
    pub interval: u32,
    pub obj: T,
}

/// The registered timers, in order of registration.
pub struct TimerTable<T> {
    timers: Vec<TimerSpec<T>>,
}

/// The ids of the timers.
pub open spec fn timer_ids<T>(s: Seq<TimerSpec<T>>) -> Seq<i32> {
    s.map_values(|t: TimerSpec<T>| t.timer_id)
}

impl<T> TimerTable<T> {
    /// The registered timers.
    pub closed spec fn timers(self) -> Seq<TimerSpec<T>> {
        self.timers@
    }

    /// The invariant: no timer id is registered twice.
    pub closed spec fn wf(self) -> bool {
        timer_ids(self.timers@).no_duplicates()
    }

    /// No timer is registered.
    pub fn new() -> (res: Self)
        ensures
            res.wf(),
            res.timers() == Seq::<TimerSpec<T>>::empty(),
    {
        TimerTable { timers: Vec::new() }
    }

    /// The number of registered timers.
    pub fn len(&self) -> (res: usize)
        ensures
            res == self.timers().len(),
    {
        self.timers.len()
    }

    /// The position of the timer `timer_id`.
    fn position(&self, timer_id: i32) -> (res: Option<usize>)
        ensures
            match res {
                Some(i) => i < self.timers@.len() && self.timers@[i as int].timer_id == timer_id,
                None => !timer_ids(self.timers@).contains(timer_id),
            },
    {
        let mut i: usize = 0;
        while i < self.timers.len()
            invariant
                i <= self.timers@.len(),
                forall|j: int| 0 <= j < i ==> #[trigger] self.timers@[j].timer_id != timer_id,
            decreases self.timers@.len() - i,
        {
            if self.timers[i].timer_id == timer_id {
                return Some(i);
            }
            i = i + 1;
        }
        proof {
            if timer_ids(self.timers@).contains(timer_id) {
                let j = choose|j: int|
                    0 <= j < self.timers@.len() && timer_ids(self.timers@)[j] == timer_id;
                assert(self.timers@[j].timer_id == timer_id);
            }
        }
        None
    }

    /// Registers the timer `timer_id`, appended after the others.  A timer
    /// id that is already registered is refused and nothing changes.
    /// Returns whether the timer was added (the event loop is then woken).
    pub fn register_timer(&mut self, timer_id: i32, interval: u32, obj: T) -> (res: bool)
        requires
            old(self).wf(),
        ensures
            final(self).wf(),
            res == !timer_ids(old(self).timers()).contains(timer_id),
            res ==> final(self).timers() == old(self).timers().push(
                TimerSpec { timer_id, interval, obj },
            ),
            !res ==> final(self).timers() == old(self).timers(),
    {
        match self.position(timer_id) {
            Some(i) => {
                proof {
                    assert(timer_ids(self.timers@)[i as int] == timer_id);
                }
                false
            },
            None => {
                let ghost before = self.timers@;
                self.timers.push(TimerSpec { timer_id, interval, obj });
                proof {
                    let ids = timer_ids(self.timers@);
                    assert(ids =~= timer_ids(before).push(timer_id));
                    assert forall|a: int, b: int|
                        0 <= a < ids.len() && 0 <= b < ids.len() && a != b implies ids[a]
                        != ids[b] by {
                        if a == before.len() as int {
                            assert(ids[b] == timer_ids(before)[b]);
                        } else if b == before.len() as int {
                            assert(ids[a] == timer_ids(before)[a]);
                        } else {
                            assert(ids[a] == timer_ids(before)[a]);
                            assert(ids[b] == timer_ids(before)[b]);
                        }
                    }
                }
                true
            },
        }
    }

    /// Unregisters the timer `timer_id`.  Returns the position it had, or
    /// `None` when no such timer is registered (nothing changes then).
    #[verifier::spinoff_prover]
    pub fn unregister_timer(&mut self, timer_id: i32) -> (res: Option<usize>)
        requires
            old(self).wf(),
        ensures
            final(self).wf(),
            res is None <==> !timer_ids(old(self).timers()).contains(timer_id),
            res is None ==> final(self).timers() == old(self).timers(),
            res is Some ==> {
                let i = res->Some_0 as int;
                &&& i < old(self).timers().len()
                &&& old(self).timers()[i].timer_id == timer_id
                &&& final(self).timers() == old(self).timers().remove(i)
            },
            !timer_ids(final(self).timers()).contains(timer_id),
    {
        match self.position(timer_id) {
            None => None,
            Some(i) => {
                let ghost before = self.timers@;
                let _ = self.timers.remove(i);
                proof {
                    let ids = timer_ids(self.timers@);
                    let old_ids = timer_ids(before);
                    assert(self.timers@ =~= before.remove(i as int));
                    assert(forall|k: int| 0 <= k < i ==> #[trigger] ids[k] == old_ids[k]);
                    assert(forall|k: int| i <= k < ids.len() ==> #[trigger] ids[k] == old_ids[k + 1]);
                    assert forall|a: int, b: int|
                        0 <= a < ids.len() && 0 <= b < ids.len() && a != b implies ids[a]
                        != ids[b] by {
                        let oa = if a < i {
                            a
                        } else {
                            a + 1
                        };
                        let ob = if b < i {
                            b
                        } else {
                            b + 1
                        };
                        assert(ids[a] == old_ids[oa]);
                        assert(ids[b] == old_ids[ob]);
                    }
                    assert(old_ids.contains(timer_id)) by {
                        assert(old_ids[i as int] == timer_id);
                    }
                    if ids.contains(timer_id) {
                        let k = choose|k: int| 0 <= k < ids.len() && ids[k] == timer_id;
                        let ok = if k < i {
                            k
                        } else {
                            k + 1
                        };
                        assert(old_ids[ok] == timer_id);
                        assert(old_ids[i as int] == timer_id);
                    }
                }
                Some(i)
            },
        }
    }
}

/// Registering a new timer and unregistering it again leaves the table as
/// it was: the timer was appended last, it is the only one with its id,
/// and that is where it is removed.
pub proof fn lemma_register_unregister<T>(s: Seq<TimerSpec<T>>, t: TimerSpec<T>)
    requires
        timer_ids(s).no_duplicates(),
        !timer_ids(s).contains(t.timer_id),
    ensures
        forall|i: int|
            0 <= i < s.push(t).len() && (#[trigger] s.push(t)[i]).timer_id == t.timer_id ==> i
                == s.len(),
        s.push(t).remove(s.len() as int) == s,
{
    assert forall|i: int|
        0 <= i < s.push(t).len() && (#[trigger] s.push(t)[i]).timer_id == t.timer_id implies i
        == s.len() by {
        if i < s.len() {
            assert(s.push(t)[i] == s[i]);
            assert(timer_ids(s)[i] == t.timer_id);
        }
    }
    assert(s.push(t).remove(s.len() as int) =~= s);
}

/// The positions of the socket notifiers that get an event: those whose
/// socket is ready for reading or for writing.  `ready` lists, per
/// registered notifier, whether its socket is readable and writable.
pub open spec fn ready_positions(ready: Seq<(bool, bool)>) -> Seq<usize>
    decreases ready.len(),
{
    if ready.len() == 0 {
        Seq::empty()
    } else {
        let pre = ready_positions(ready.drop_last());
        if ready.last().0 || ready.last().1 {
            pre.push((ready.len() - 1) as usize)
        } else {
            pre
        }
    }
}

/// The socket notifiers to send an event to, in registration order, and
/// whether the event loop is to be woken (when there is any).
pub fn ready_sockets(ready: &[(bool, bool)]) -> (res: (Vec<usize>, bool))
    ensures
        res.0@ == ready_positions(ready@),
        res.1 == (res.0@.len() > 0),
{
    let mut events: Vec<usize> = Vec::new();
    let mut i: usize = 0;
    while i < ready.len()
        invariant
            i <= ready@.len(),
            events@ == ready_positions(ready@.take(i as int)),
        decreases ready@.len() - i,
    {
        proof {
            assert(ready@.take(i + 1).drop_last() =~= ready@.take(i as int));
        }
        let (read, write) = ready[i];
        if read || write {
            events.push(i);
        }
        i = i + 1;
    }
    proof {
        assert(ready@.take(ready@.len() as int) =~= ready@);
    }
    let wake = events.len() > 0;
    (events, wake)
}

} // verus!
