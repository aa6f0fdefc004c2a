use whisperfish::connection::{
    ConnectionChange, ConnectionManager, GatewayAddr, GatewayUpdate, RouteEvent,
};
use whisperfish::profile_refresh::{wake_delay_after_fetch, OutdatedProfileStream, REYIELD_DELAY_MS};
use whisperfish::timers::{ready_sockets, TimerTable};
use whisperfish::typing::{TypingQueue, UpdateTypingNotifications, TYPING_EXPIRY_DELAY_MS};

const GW1: GatewayAddr = GatewayAddr::V4(0xc0a8_0001);
const GW2: GatewayAddr = GatewayAddr::V6(0xfe80_0000_0000_0000_0000_0000_0000_0001);

fn notify(c: ConnectionChange) -> GatewayUpdate {
    GatewayUpdate { notify: Some(c), resync: false }
}

#[test]
fn gateways_come_and_go() {
    let mut mgr = ConnectionManager::new();
    assert_eq!(mgr.add_gateway(GW1), notify(ConnectionChange::Connected));
    assert_eq!(mgr.add_gateway(GW2), notify(ConnectionChange::Reconnected));
    assert_eq!(
        mgr.add_gateway(GW2),
        GatewayUpdate { notify: None, resync: true }
    );
    assert_eq!(mgr.remove_gateway(GW2), notify(ConnectionChange::Reconnected));
    assert_eq!(mgr.remove_gateway(GW1), notify(ConnectionChange::Disconnected));
    assert_eq!(
        mgr.remove_gateway(GW1),
        GatewayUpdate { notify: Some(ConnectionChange::Disconnected), resync: true }
    );
}

#[test]
fn route_events_and_resync() {
    let mut mgr = ConnectionManager::new();
    assert_eq!(
        mgr.handle_route_event(RouteEvent::NewRoute(None)),
        GatewayUpdate { notify: None, resync: false }
    );
    assert_eq!(
        mgr.handle_route_event(RouteEvent::NewRoute(Some(GW1))),
        notify(ConnectionChange::Connected)
    );
    assert_eq!(
        mgr.handle_route_event(RouteEvent::Other),
        GatewayUpdate { notify: None, resync: false }
    );
    assert!(mgr.resync());
    assert!(!mgr.resync());
    // GW1 was known already: the device stays connected, nobody is told.
    assert_eq!(mgr.initialize_gateways(&[GW2, GW2]), None);
    // GW2 is known once: removing it disconnects.
    assert_eq!(
        mgr.handle_route_event(RouteEvent::DelRoute(Some(GW2))),
        notify(ConnectionChange::Disconnected)
    );
    assert!(mgr.resync());
    assert_eq!(mgr.initialize_gateways(&[]), None);
    assert_eq!(mgr.add_gateway(GW1), notify(ConnectionChange::Connected));
}

#[test]
fn resync_connects_only_from_disconnected() {
    let mut mgr = ConnectionManager::new();
    assert!(mgr.resync());
    assert_eq!(
        mgr.initialize_gateways(&[GW1, GW2, GW1]),
        Some(ConnectionChange::Connected)
    );
    assert!(mgr.resync());
    assert_eq!(mgr.initialize_gateways(&[GW2]), None);
    assert_eq!(mgr.remove_gateway(GW2), notify(ConnectionChange::Disconnected));
}

#[test]
fn outdated_profiles_are_not_reyielded_within_delay() {
    let mut s = OutdatedProfileStream::new();
    let candidates = [30u128, 10, 20];
    assert_eq!(s.next_out_of_date_profile(&candidates, 1000), Some(30));
    assert_eq!(s.next_out_of_date_profile(&candidates, 1000), Some(10));
    assert_eq!(s.next_out_of_date_profile(&candidates, 2000), Some(20));
    assert_eq!(s.next_out_of_date_profile(&candidates, 2000), None);
    assert_eq!(s.next_wake(), Some(1000 + REYIELD_DELAY_MS));

    // Just before expiry nothing is dropped.
    s.clean_ignore_set(1000 + REYIELD_DELAY_MS - 1);
    assert_eq!(s.next_out_of_date_profile(&candidates, 1000 + REYIELD_DELAY_MS - 1), None);

    // At expiry the first two come back, the third one not yet.
    s.clean_ignore_set(1000 + REYIELD_DELAY_MS);
    assert_eq!(s.next_wake(), Some(2000 + REYIELD_DELAY_MS));
    assert_eq!(
        s.next_out_of_date_profile(&candidates, 1000 + REYIELD_DELAY_MS),
        Some(30)
    );
    s.clean_ignore_set(u64::MAX);
    assert_eq!(s.next_wake(), None);
}

#[test]
fn wake_delay_after_last_fetch() {
    assert_eq!(wake_delay_after_fetch(10_000, 4_000), 6_000);
    assert_eq!(wake_delay_after_fetch(4_000, 4_000), 0);
    assert_eq!(wake_delay_after_fetch(4_000, 10_000), REYIELD_DELAY_MS);
}

#[test]
fn typing_notifications_expire() {
    let mut q: TypingQueue<&str> = TypingQueue::new();
    assert_eq!(q.update_typing_notifications(0), None);
    assert_eq!(q.typing_notification("alice", 1_000), UpdateTypingNotifications);
    q.typing_notification("bob", 2_000);
    assert_eq!(q.len(), 2);
    // Nothing expired yet; alice's notification expires in three seconds.
    assert_eq!(q.update_typing_notifications(3_000), Some(3_000));
    assert_eq!(q.len(), 2);
    // Alice's notification expires at 1000 + 5000.
    // Bob's expires one second later.
    assert_eq!(q.update_typing_notifications(1_000 + TYPING_EXPIRY_DELAY_MS), Some(1_000));
    assert_eq!(q.len(), 1);
    assert_eq!(q.update_typing_notifications(10_000), None);
    assert_eq!(q.len(), 0);
}

#[test]
fn timers_register_once() {
    let mut t: TimerTable<u8> = TimerTable::new();
    assert!(t.register_timer(1, 100, 0));
    assert!(t.register_timer(2, 200, 0));
    assert!(!t.register_timer(1, 300, 0));
    assert_eq!(t.len(), 2);
    assert_eq!(t.unregister_timer(1), Some(0));
    assert_eq!(t.unregister_timer(1), None);
    assert_eq!(t.unregister_timer(2), Some(0));
    assert_eq!(t.len(), 0);
}

#[test]
fn ready_sockets_get_events() {
    assert_eq!(ready_sockets(&[]), (vec![], false));
    assert_eq!(
        ready_sockets(&[(false, false), (true, false), (false, true), (true, true)]),
        (vec![1, 2, 3], true)
    );
    assert_eq!(ready_sockets(&[(false, false)]), (vec![], false));
}
