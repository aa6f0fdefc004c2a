//! Tracking of the network gateways, to tell the rest of the client when
//! the device goes on- or offline.
//!
//! The manager knows the set of default gateways of the routing table.
//! Route messages add and remove gateways; a full resynchronisation reads
//! the routing table again.  Every change is answered with the
//! notification that the listeners are sent.

use vstd::prelude::*;

verus! {

/// The address of a gateway: IPv4 or IPv6, as its integer value.
#[derive(Clone, Copy, Debug, PartialEq, Eq, Structural)]
pub enum GatewayAddr {
    V4(u32),
    V6(u128),
}

/// What the listeners are told.
#[derive(Clone, Copy, Debug, PartialEq, Eq, Structural)]
pub enum ConnectionChange {
    /// Going from no internet connection to a connected state.
    Connected,
    /// Some interface (dis)connected while others were still available.
    Reconnected,
    /// No active internet connection is left.
    Disconnected,
}

/// The reaction to a route change: the notification to send, if any, and
/// whether the gateways must be read again because the change did not
/// match what was known.
#[derive(Clone, Copy, Debug, PartialEq, Eq, Structural)]
pub struct GatewayUpdate {
    pub notify: Option<ConnectionChange>,
    pub resync: bool,
}

/// A message of the routing table, reduced to what the manager reads.
#[derive(Clone, Copy, Debug, PartialEq, Eq, Structural)]
pub enum RouteEvent {
    /// A route was added, with its gateway if it has one.
    NewRoute(Option<GatewayAddr>),
    /// A route was deleted, with its gateway if it has one.
    DelRoute(Option<GatewayAddr>),
    /// Any other message.
    Other,
}

/// The gateways known to be up, and whether a resynchronisation is
/// running.
pub struct ConnectionManager {
    known_gateways: Vec<GatewayAddr>,
    sync_in_progress: bool,
}

/// The notification after adding a gateway that was not known: the first
/// gateway connects, a further one reconnects.
pub open spec fn added_notification(known_after: Set<GatewayAddr>) -> ConnectionChange {
    if known_after.len() > 1 {
        ConnectionChange::Reconnected
    } else {
        ConnectionChange::Connected
    }
}

/// The notification after removing a gateway: reconnected while some
/// gateway is left, disconnected otherwise.
pub open spec fn removed_notification(known_after: Set<GatewayAddr>) -> ConnectionChange {
    if known_after.len() > 0 {
        ConnectionChange::Reconnected
    } else {
        ConnectionChange::Disconnected
    }
}

impl ConnectionManager {
    /// The set of known gateways.
    pub closed spec fn known(self) -> Set<GatewayAddr> {
        self.known_gateways@.to_set()
    }

    /// Whether a resynchronisation is running.
    pub closed spec fn syncing(self) -> bool {
        self.sync_in_progress
    }

    /// The invariant: each known gateway is listed once.
    pub closed spec fn wf(self) -> bool {
        self.known_gateways@.no_duplicates()
    }

    /// The set of known gateways is finite.
    pub proof fn lemma_known_finite(self)
        requires
            self.wf(),
        ensures
            self.known().finite(),
    {
        self.known_gateways@.unique_seq_to_set();
    }

    /// A manager that knows no gateway and is not resynchronising.
    pub fn new() -> (res: Self)
        ensures
            res.wf(),
            res.known() == Set::<GatewayAddr>::empty(),
            !res.syncing(),
    {
        let res = ConnectionManager { known_gateways: Vec::new(), sync_in_progress: false };
        proof {
            assert(res.known() =~= Set::<GatewayAddr>::empty());
        }
        res
    }

    /// Position of `g` among the known gateways.
    fn position(&self, g: GatewayAddr) -> (res: Option<usize>)
        ensures
            match res {
                Some(i) => i < self.known_gateways@.len() && self.known_gateways@[i as int] == g,
                None => !self.known_gateways@.contains(g),
            },
    {
        let mut i: usize = 0;
        while i < self.known_gateways.len()
            invariant
                i <= self.known_gateways@.len(),
                forall|j: int| 0 <= j < i ==> self.known_gateways@[j] != g,
            decreases self.known_gateways@.len() - i,
        {
            if self.known_gateways[i] == g {
                return Some(i);
            }
            i = i + 1;
        }
        None
    }

    /// A route with gateway `g` appeared.  A new gateway is added and
    /// announced; a gateway that was already known asks for a resync.
    #[verifier::spinoff_prover]
    pub fn add_gateway(&mut self, g: GatewayAddr) -> (res: GatewayUpdate)
        requires
            old(self).wf(),
        ensures
            final(self).wf(),
            final(self).known() == old(self).known().insert(g),
            final(self).syncing() == old(self).syncing(),
            res.resync == old(self).known().contains(g),
            res.notify == (if old(self).known().contains(g) {
                None
            } else {
                Some(added_notification(final(self).known()))
            }),
    {
        let ghost old_seq = self.known_gateways@;
        match self.position(g) {
            Some(_) => {
                proof {
                    assert(self.known().insert(g) =~= self.known());
                }
                GatewayUpdate { notify: None, resync: true }
            },
            None => {
                self.known_gateways.push(g);
                proof {
                    assert(self.known_gateways@ == old_seq.push(g));
                    assert(self.known_gateways@.no_duplicates()) by {
                        assert forall|i: int, j: int|
                            0 <= i < self.known_gateways@.len() && 0 <= j
                                < self.known_gateways@.len() && i != j implies self.known_gateways@[i]
                            != self.known_gateways@[j] by {
                            if i == old_seq.len() as int {
                                assert(old_seq[j] == self.known_gateways@[j]);
                            } else if j == old_seq.len() as int {
                                assert(old_seq[i] == self.known_gateways@[i]);
                            }
                        }
                    }
                    assert(self.known() =~= old_seq.to_set().insert(g)) by {
                        assert forall|x: GatewayAddr| self.known_gateways@.contains(x) <==> (
                        old_seq.contains(x) || x == g) by {
                            if self.known_gateways@.contains(x) {
                                let k = choose|k: int|
                                    0 <= k < self.known_gateways@.len() && self.known_gateways@[k] == x;
                                if k < old_seq.len() {
                                    assert(old_seq[k] == x);
                                }
                            }
                            if old_seq.contains(x) {
                                let k = choose|k: int| 0 <= k < old_seq.len() && old_seq[k] == x;
                                assert(self.known_gateways@[k] == x);
                            }
                            if x == g {
                                assert(self.known_gateways@[old_seq.len() as int] == x);
                            }
                        }
                    }
                    self.known_gateways@.unique_seq_to_set();
                }
                if self.known_gateways.len() > 1 {
                    GatewayUpdate { notify: Some(ConnectionChange::Reconnected), resync: false }
                } else {
                    GatewayUpdate { notify: Some(ConnectionChange::Connected), resync: false }
                }
            },
        }
    }

    /// A route with gateway `g` disappeared.  A known gateway is removed;
    /// an unknown one asks for a resync.  Either way the listeners hear
    /// whether some gateway is left.
    #[verifier::spinoff_prover]
    pub fn remove_gateway(&mut self, g: GatewayAddr) -> (res: GatewayUpdate)
        requires
            old(self).wf(),
        ensures
            final(self).wf(),
            final(self).known() == old(self).known().remove(g),
            final(self).syncing() == old(self).syncing(),
            res.resync == !old(self).known().contains(g),
            res.notify == Some(removed_notification(final(self).known())),
    {
        let ghost old_seq = self.known_gateways@;
        let resync = match self.position(g) {
            Some(i) => {
                self.known_gateways.remove(i);
                proof {
                    let n = self.known_gateways@;
                    assert(n =~= old_seq.take(i as int) + old_seq.skip(i + 1));
                    assert(forall|k: int| 0 <= k < i ==> #[trigger] n[k] == old_seq[k]);
                    assert(forall|k: int| i <= k < n.len() ==> #[trigger] n[k] == old_seq[k + 1]);
                    assert(n.no_duplicates()) by {
                        assert forall|a: int, b: int|
                            0 <= a < n.len() && 0 <= b < n.len() && a != b implies n[a] != n[b] by {
                            let oa = if a < i {
                                a
                            } else {
                                a + 1
                            };
                            let ob = if b < i {
                                b
                            } else {
                                b + 1
                            };
                            assert(n[a] == old_seq[oa] && n[b] == old_seq[ob]);
                        }
                    }
                    assert(self.known() =~= old_seq.to_set().remove(g)) by {
                        assert forall|x: GatewayAddr| n.contains(x) <==> (old_seq.contains(x) && x
                            != g) by {
                            if n.contains(x) {
                                let k = choose|k: int| 0 <= k < n.len() && n[k] == x;
                                let ok = if k < i {
                                    k
                                } else {
                                    k + 1
                                };
                                assert(old_seq[ok] == x);
                                assert(ok != i);
                            }
                            if old_seq.contains(x) && x != g {
                                let k = choose|k: int| 0 <= k < old_seq.len() && old_seq[k] == x;
                                assert(k != i);
                                if k < i {
                                    assert(n[k] == x);
                                } else {
                                    assert(n[k - 1] == x);
                                }
                            }
                        }
                    }
                }
                false
            },
            None => {
                proof {
                    assert(self.known().remove(g) =~= self.known());
                }
                true
            },
        };
        proof {
            self.known_gateways@.unique_seq_to_set();
        }
        if self.known_gateways.len() > 0 {
            GatewayUpdate { notify: Some(ConnectionChange::Reconnected), resync }
        } else {
            GatewayUpdate { notify: Some(ConnectionChange::Disconnected), resync }
        }
    }
}

impl ConnectionManager {
    /// The routing table was read again and lists the gateways `gws`
    /// (possibly with repeats): they become the known set and the running
    /// resync is over.  The listeners hear that the device is connected
    /// only when it goes from no known gateway to some gateway.
    #[verifier::spinoff_prover]
    pub fn initialize_gateways(&mut self, gws: &[GatewayAddr]) -> (res: Option<ConnectionChange>)
        ensures
            final(self).wf(),
            final(self).known() == gws@.to_set(),
            !final(self).syncing(),
            res == (if old(self).known().len() == 0 && gws@.len() > 0 {
                Some(ConnectionChange::Connected)
            } else {
                None::<ConnectionChange>
            }),
    {
        let was_empty = self.known_gateways.len() == 0;
        proof {
            let s0 = self.known_gateways@;
            vstd::seq_lib::seq_to_set_is_finite(s0);
            if s0.len() == 0 {
                assert(s0.to_set() =~= Set::<GatewayAddr>::empty());
            } else {
                assert(s0.to_set().contains(s0[0]));
            }
        }
        self.sync_in_progress = false;
        self.known_gateways = Vec::new();
        let mut i: usize = 0;
        while i < gws.len()
            invariant
                i <= gws@.len(),
                self.known_gateways@.no_duplicates(),
                self.known() == gws@.take(i as int).to_set(),
                !self.sync_in_progress,
            decreases gws@.len() - i,
        {
            let g = gws[i];
            let ghost before = self.known_gateways@;
            let ghost t0 = gws@.take(i as int);
            let ghost t1 = gws@.take(i + 1);
            proof {
                assert(t1 == t0.push(g));
            }
            match self.position(g) {
                Some(_) => {
                    proof {
                        assert(t1.to_set() =~= t0.to_set()) by {
                            assert forall|x: GatewayAddr| t1.contains(x) implies t0.contains(x) by {
                                let k = choose|k: int| 0 <= k < i + 1 && t1[k] == x;
                                if k < i {
                                    assert(t0[k] == x);
                                } else {
                                    assert(before.to_set().contains(g));
                                }
                            }
                            assert forall|x: GatewayAddr| t0.contains(x) implies t1.contains(x) by {
                                let k = choose|k: int| 0 <= k < i && t0[k] == x;
                                assert(t1[k] == x);
                            }
                        }
                    }
                },
                None => {
                    self.known_gateways.push(g);
                    proof {
                        let n = self.known_gateways@;
                        assert(n == before.push(g));
                        assert(n.no_duplicates()) by {
                            assert forall|a: int, b: int|
                                0 <= a < n.len() && 0 <= b < n.len() && a != b implies n[a]
                                != n[b] by {
                                if a == before.len() as int {
                                    assert(before[b] == n[b]);
                                } else if b == before.len() as int {
                                    assert(before[a] == n[a]);
                                }
                            }
                        }
                        assert(n.to_set() =~= t1.to_set()) by {
                            assert forall|x: GatewayAddr| n.contains(x) <==> t1.contains(x) by {
                                if n.contains(x) {
                                    let k = choose|k: int| 0 <= k < n.len() && n[k] == x;
                                    if k < before.len() {
                                        assert(before[k] == x);
                                        assert(before.to_set().contains(x));
                                        let m = choose|m: int|
                                            0 <= m < i && t0[m] == x;
                                        assert(t1[m] == x);
                                    } else {
                                        assert(t1[i as int] == x);
                                    }
                                }
                                if t1.contains(x) {
                                    let k = choose|k: int| 0 <= k < i + 1 && t1[k] == x;
                                    if k < i {
                                        assert(t0[k] == x);
                                        assert(t0.to_set().contains(x));
                                        assert(before.to_set().contains(x));
                                        let m = choose|m: int| 0 <= m < before.len() && before[m] == x;
                                        assert(n[m] == x);
                                    } else {
                                        assert(n[before.len() as int] == x);
                                    }
                                }
                            }
                        }
                    }
                },
            }
            i = i + 1;
        }
        proof {
            assert(gws@.take(gws@.len() as int) == gws@);
        }
        if was_empty && gws.len() > 0 {
            Some(ConnectionChange::Connected)
        } else {
            None
        }
    }

    /// A resynchronisation was asked for.  Returns whether it is to be
    /// started now: not when one is already running.
    pub fn resync(&mut self) -> (res: bool)
        ensures
            final(self).known() == old(self).known(),
            (final(self).wf()) == (old(self).wf()),
            final(self).syncing(),
            res == !old(self).syncing(),
    {
        if self.sync_in_progress {
            false
        } else {
            self.sync_in_progress = true;
            true
        }
    }

    /// Handles a message of the routing table: a new route with a gateway
    /// adds it, a deleted route with a gateway removes it, and anything
    /// else changes nothing.
    pub fn handle_route_event(&mut self, ev: RouteEvent) -> (res: GatewayUpdate)
        requires
            old(self).wf(),
        ensures
            final(self).wf(),
            final(self).syncing() == old(self).syncing(),
            match ev {
                RouteEvent::NewRoute(Some(g)) => {
                    &&& final(self).known() == old(self).known().insert(g)
                    &&& res.resync == old(self).known().contains(g)
                    &&& res.notify == (if old(self).known().contains(g) {
                        None
                    } else {
                        Some(added_notification(final(self).known()))
                    })
                },
                RouteEvent::DelRoute(Some(g)) => {
                    &&& final(self).known() == old(self).known().remove(g)
                    &&& res.resync == !old(self).known().contains(g)
                    &&& res.notify == Some(removed_notification(final(self).known()))
                },
                _ => final(self).known() == old(self).known() && res == GatewayUpdate {
                    notify: None,
                    resync: false,
                },
            },
    {
        match ev {
            RouteEvent::NewRoute(Some(g)) => self.add_gateway(g),
            RouteEvent::DelRoute(Some(g)) => self.remove_gateway(g),
            _ => GatewayUpdate { notify: None, resync: false },
        }
    }
}

/// Adding a gateway that was not known announces `Connected` exactly when
/// no gateway was known before, and `Reconnected` otherwise.
pub proof fn lemma_connected_only_from_offline(known: Set<GatewayAddr>, g: GatewayAddr)
    requires
        known.finite(),
        !known.contains(g),
    ensures
        (added_notification(known.insert(g)) == ConnectionChange::Connected) == (known.len() == 0),
{
}

/// Removing a gateway announces `Disconnected` exactly when it was the
/// last known one.
pub proof fn lemma_disconnected_only_when_last(known: Set<GatewayAddr>, g: GatewayAddr)
    requires
        known.finite(),
    ensures
        (removed_notification(known.remove(g)) == ConnectionChange::Disconnected) == (known.remove(
            g,
        ).len() == 0),
        known.contains(g) ==> ((removed_notification(known.remove(g))
            == ConnectionChange::Disconnected) == (known == set![g])),
{
    if known.contains(g) && known.remove(g).len() == 0 {
        assert(known.remove(g) =~= Set::<GatewayAddr>::empty());
        assert(known =~= set![g]) by {
            assert forall|x: GatewayAddr| known.contains(x) implies x == g by {
                if x != g {
                    assert(known.remove(g).contains(x));
                }
            }
        }
    }
    if known == set![g] {
        assert(known.remove(g) =~= Set::<GatewayAddr>::empty());
    }
}

/// A gateway that comes up and goes down again leaves the known set as it
/// was.
pub proof fn lemma_add_remove_restores(known: Set<GatewayAddr>, g: GatewayAddr)
    requires
        !known.contains(g),
    ensures
        known.insert(g).remove(g) == known,
{
    assert(known.insert(g).remove(g) =~= known);
}

} // verus!
