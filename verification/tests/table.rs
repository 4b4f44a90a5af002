use uturn::coarse_time::{init, CoarseClock};
use uturn::lookup::{AllocationId, AllocationTable};
use uturn::net::{IpAddr, SocketAddr};

fn client() -> SocketAddr {
    SocketAddr::new(IpAddr::v4(192, 168, 1, 100), 54321)
}

fn client_at(port: u16) -> SocketAddr {
    SocketAddr::new(IpAddr::v4(192, 168, 1, 100), port)
}

fn clock_at(secs: u128) -> CoarseClock {
    let mut clock = init();
    clock.advance_to(secs * 1_000_000_000);
    clock
}

#[test]
fn test_create_allocation() {
    let clock = init();
    let mut table = AllocationTable::new();
    let client = client();

    let id = table.create(client, "testuser".to_string(), 600, &clock);

    assert!(table.get(id).is_some());
    assert!(table.get_by_client(client).is_some());
}

#[test]
fn test_permission_lookup() {
    let clock = init();
    let mut table = AllocationTable::new();
    let client = client();
    let peer_ip = IpAddr::v4(10, 0, 0, 1);

    let id = table.create(client, "testuser".to_string(), 600, &clock);
    table.add_permission(id, peer_ip);

    let found = table.lookup_by_peer_ip(peer_ip);
    assert_eq!(found.len(), 1);
    assert_eq!(found[0], id);
}

#[test]
fn try_add_permissions_capped_rejects_when_over_cap() {
    let clock = init();
    let mut table = AllocationTable::new();
    let id = table.create(client(), "u".to_string(), 600, &clock);

    let peers = [
        IpAddr::v4(10, 0, 0, 1),
        IpAddr::v4(10, 0, 0, 2),
        IpAddr::v4(10, 0, 0, 3),
    ];
    // Cap of 2 with 3 new IPs -> reject, no state modification.
    assert!(!table.try_add_permissions_capped(id, &peers, 2));
    assert_eq!(table.get(id).unwrap().permissions_count(), 0);
    for p in &peers {
        assert!(table.lookup_by_peer_ip(*p).is_empty());
    }
}

#[test]
fn try_add_permissions_capped_allows_refresh_at_cap() {
    let clock = init();
    let mut table = AllocationTable::new();
    let id = table.create(client(), "u".to_string(), 600, &clock);

    let peers = [IpAddr::v4(10, 0, 0, 1), IpAddr::v4(10, 0, 0, 2)];
    assert!(table.try_add_permissions_capped(id, &peers, 2));
    assert_eq!(table.get(id).unwrap().permissions_count(), 2);

    // Refresh the same IPs -- must not count as new additions.
    assert!(table.try_add_permissions_capped(id, &peers, 2));
    assert_eq!(table.get(id).unwrap().permissions_count(), 2);
}

#[test]
fn try_add_permissions_capped_mixed_new_and_existing() {
    let clock = init();
    let mut table = AllocationTable::new();
    let id = table.create(client(), "u".to_string(), 600, &clock);
    let (one, two, three) = (
        IpAddr::v4(10, 0, 0, 1),
        IpAddr::v4(10, 0, 0, 2),
        IpAddr::v4(10, 0, 0, 3),
    );

    assert!(table.try_add_permissions_capped(id, &[one], 2));
    // Existing 10.0.0.1 plus new 10.0.0.2 -> total 2, within cap of 2.
    assert!(table.try_add_permissions_capped(id, &[one, two], 2));
    assert_eq!(table.get(id).unwrap().permissions_count(), 2);
    // Adding a third distinct IP now exceeds cap.
    assert!(!table.try_add_permissions_capped(id, &[three], 2));
    assert_eq!(table.get(id).unwrap().permissions_count(), 2);
}

#[test]
fn cap_holds_over_many_requests() {
    let clock = init();
    let mut table = AllocationTable::new();
    let id = table.create(client(), "u".to_string(), 600, &clock);
    for t in 0..8 {
        let peers: Vec<IpAddr> = (0..16).map(|i| IpAddr::v4(10, t, i, 1)).collect();
        assert_eq!(table.try_add_permissions_capped(id, &peers, 64), t < 4);
    }
    assert_eq!(table.get(id).unwrap().permissions_count(), 64);
}

#[test]
fn a_repeated_ip_counts_once_against_the_cap() {
    let clock = init();
    let mut table = AllocationTable::new();
    let id = table.create(client(), "u".to_string(), 600, &clock);
    let (one, two) = (IpAddr::v4(10, 0, 0, 1), IpAddr::v4(10, 0, 0, 2));
    assert!(table.try_add_permissions_capped(id, &[one, one], 1));
    assert_eq!(table.get(id).unwrap().permissions_count(), 1);
    assert_eq!(table.lookup_by_peer_ip(one), vec![id]);
    assert!(!table.try_add_permissions_capped(id, &[one, two, two], 1));
    assert!(table.try_add_permissions_capped(id, &[two, one, two, one], 2));
    assert_eq!(table.get(id).unwrap().permissions_count(), 2);
    assert_eq!(table.lookup_by_peer_ip(two), vec![id]);
}

#[test]
fn capped_permissions_need_an_allocation() {
    let mut table = AllocationTable::new();
    assert!(!table.try_add_permissions_capped(AllocationId(1), &[], 10));
}

#[test]
fn bind_channel_removes_stale_reverse_and_forward_entries() {
    let clock = init();
    let mut table = AllocationTable::new();
    let id = table.create(client(), "u".to_string(), 600, &clock);
    let a = SocketAddr::new(IpAddr::v4(203, 0, 113, 1), 5000);
    let b = SocketAddr::new(IpAddr::v4(203, 0, 113, 2), 5000);

    // Rebind the channel to another peer: the old peer must no longer map
    // to the channel.
    table.bind_channel(id, 0x4000, a);
    table.bind_channel(id, 0x4000, b);
    {
        let alloc = table.get(id).unwrap();
        assert_eq!(alloc.peer_for_channel(0x4000), Some(b));
        assert_eq!(alloc.channel_for_peer(a), None);
        assert_eq!(alloc.channel_for_peer(b), Some(0x4000));
        assert_eq!(alloc.channels_count(), 1);
    }

    // Rebind the peer to another channel: the old channel must be freed.
    table.bind_channel(id, 0x4001, b);
    {
        let alloc = table.get(id).unwrap();
        assert_eq!(alloc.peer_for_channel(0x4000), None);
        assert_eq!(alloc.peer_for_channel(0x4001), Some(b));
        assert_eq!(alloc.channel_for_peer(b), Some(0x4001));
        assert_eq!(alloc.channels_count(), 1);
    }

    // Refreshing an identical binding is a no-op.
    table.bind_channel(id, 0x4001, b);
    assert_eq!(table.get(id).unwrap().channels_count(), 1);
}

#[test]
fn remove_reports_whether_it_removed() {
    let clock = init();
    let mut table = AllocationTable::new();
    let client = client();
    let id = table.create(client, "u".to_string(), 600, &clock);
    assert!(table.remove(id));
    assert!(!table.remove(id));
    assert!(table.get_by_client(client).is_none());
}

#[test]
fn one_client_has_one_allocation() {
    let clock = init();
    let mut table = AllocationTable::new();
    let (first, created) = table.create_or_get(client(), "u".to_string(), 600, [1; 12], &clock);
    assert!(created);
    let (again, created) = table.create_or_get(client(), "v".to_string(), 60, [2; 12], &clock);
    assert!(!created);
    assert_eq!(first, again);
    let alloc = table.get(first).unwrap();
    assert_eq!(alloc.username(), "u");
    assert!(alloc.was_created_by(&[1; 12]));
    assert!(!alloc.was_created_by(&[2; 12]));
    drop(alloc);
    let (other, created) = table.create_or_get(client_at(1), "u".to_string(), 60, [1; 12], &clock);
    assert!(created);
    assert_ne!(first, other);
}

#[test]
fn generated_ufrag_is_letters_and_digits() {
    let clock = init();
    let mut table = AllocationTable::new();
    let seed = [0, 25, 26, 51, 52, 61, 62, 255, 1, 2, 3, 4];
    let (id, _) =
        table.create_or_get_with(client(), "u".to_string(), 60, [0; 12], &seed, &clock);
    assert_eq!(table.get(id).unwrap().local_ufrag(), "AZaz09AHBCDE");
    assert_eq!(table.lookup_by_ufrag("AZaz09AHBCDE"), Some(id));

    // Without a given seed the ufrag is random.
    let a = table.create(client_at(1), "u".to_string(), 60, &clock);
    let b = table.create(client_at(2), "u".to_string(), 60, &clock);
    let (x, y) = (
        table.get(a).unwrap().local_ufrag().to_string(),
        table.get(b).unwrap().local_ufrag().to_string(),
    );
    assert_eq!(x.len(), 12);
    assert_ne!(x, y);
}

#[test]
fn ice_ufrags_are_first_come_first_served() {
    let clock = init();
    let mut table = AllocationTable::new();
    let a = table.create(client_at(1), "u".to_string(), 60, &clock);
    let b = table.create(client_at(2), "u".to_string(), 60, &clock);
    assert!(table.register_ice_ufrags(a, "alice", "bob"));
    // Taken.
    assert!(!table.register_ice_ufrags(b, "alice", "carol"));
    assert_eq!(table.lookup_by_ice_ufrag("alice"), Some(a));
    // An allocation registers once.
    assert!(!table.register_ice_ufrags(a, "other", "bob"));
    assert_eq!(table.lookup_by_ice_ufrag("other"), None);

    assert!(table.register_ice_ufrags(b, "bob", "alice"));
    assert_eq!(table.find_ice_peers("alice", "bob"), vec![b]);
    assert_eq!(table.find_ice_peers("bob", "alice"), vec![a]);
    assert!(table.find_ice_peers("alice", "carol").is_empty());
}

#[test]
fn pairing_names_who_wants_to_receive() {
    let clock = init();
    let mut table = AllocationTable::new();
    let a = table.create(client_at(1), "u".to_string(), 60, &clock);
    assert!(!table.set_pairing("sender", "alice"));
    assert!(table.register_ice_ufrags(a, "alice", "bob"));
    assert!(table.set_pairing("sender", "alice"));
    assert_eq!(table.get(a).unwrap().get_paired_ufrag(), Some("sender".to_string()));
    assert_eq!(table.find_paired_allocations("sender"), vec![a]);
    assert_eq!(table.find_paired_by_ice_ufrag("sender"), vec![a]);
    assert!(table.find_paired_allocations("nobody").is_empty());
}

#[test]
fn removal_leaves_no_trace() {
    let clock = init();
    let mut table = AllocationTable::new();
    let peer = SocketAddr::new(IpAddr::v4(203, 0, 113, 1), 5000);
    let id = table.create(client_at(1), "u".to_string(), 60, &clock);
    let other = table.create(client_at(2), "u".to_string(), 60, &clock);
    let ufrag = table.get(id).unwrap().local_ufrag().to_string();
    table.add_permission(id, peer.ip);
    table.add_permission(other, peer.ip);
    table.register_peer_tuple(id, peer, &clock);
    table.register_ice_ufrags(id, "alice", "bob");
    assert_eq!(table.lookup_by_peer_addr(peer), (vec![id], true));
    assert!(table.get(id).unwrap().known_peer(peer).is_some());

    assert!(table.remove(id));
    assert!(table.get(id).is_none());
    assert!(!table.is_client(client_at(1)));
    assert_eq!(table.lookup_by_client(client_at(1)), None);
    assert_eq!(table.lookup_by_source(peer), None);
    assert_eq!(table.lookup_by_peer_tuple(peer), None);
    assert_eq!(table.lookup_by_ufrag(&ufrag), None);
    assert_eq!(table.lookup_by_ice_ufrag("alice"), None);
    assert!(table.find_ice_peers("bob", "alice").is_empty());
    // The other one still permits the peer.
    assert_eq!(table.lookup_by_peer_ip(peer.ip), vec![other]);
    assert!(table.get_by_client(client_at(2)).is_some());
}

#[test]
fn learned_peer_is_no_client() {
    let clock = init();
    let mut table = AllocationTable::new();
    let peer = SocketAddr::new(IpAddr::v4(203, 0, 113, 1), 5000);
    let id = table.create(client(), "u".to_string(), 60, &clock);
    table.register_peer_tuple(id, peer, &clock);
    assert!(!table.is_client(peer));
    assert_eq!(table.lookup_by_source(peer), Some(id));
    assert_eq!(table.lookup_by_source(client()), Some(id));
}

#[test]
fn a_peer_is_known_by_when_it_was_last_seen() {
    let mut table = AllocationTable::new();
    let peer = SocketAddr::new(IpAddr::v4(203, 0, 113, 1), 5000);
    let id = table.create(client(), "u".to_string(), 60, &clock_at(0));
    table.register_peer_tuple(id, peer, &clock_at(5));
    assert_eq!(table.get(id).unwrap().known_peer(peer).unwrap().last_seen_ms, 5000);
    table.register_peer_tuple(id, peer, &clock_at(9));
    assert_eq!(table.get(id).unwrap().known_peer(peer).unwrap().last_seen_ms, 9000);
}

#[test]
fn sweeps_remove_exactly_what_is_due() {
    let start = clock_at(0);
    let mut table = AllocationTable::new();
    let short = table.create(client_at(1), "u".to_string(), 10, &start);
    let long = table.create(client_at(2), "u".to_string(), 600, &start);
    assert!(table.cleanup_expired(&clock_at(10)).is_empty());
    let later = clock_at(11);
    assert!(table.get(short).unwrap().is_expired(&later));
    assert_eq!(table.cleanup_expired(&later), vec![client_at(1).ip]);
    assert!(table.get(short).is_none());
    assert!(table.get(long).is_some());

    // Traffic to the client keeps nothing alive, traffic from it does.
    table.touch(long, &clock_at(40));
    assert!(table.cleanup_inactive(&clock_at(44), 45).is_empty());
    table.touch_received(long, &clock_at(44));
    assert!(table.cleanup_inactive(&clock_at(88), 45).is_empty());
    assert_eq!(table.cleanup_inactive(&clock_at(89), 45), vec![client_at(2).ip]);
    assert!(table.get(long).is_none());
}

#[test]
fn orphan_timer_starts_with_the_first_attempt() {
    let mut table = AllocationTable::new();
    let id = table.create(client(), "u".to_string(), 600, &clock_at(0));
    assert!(table.cleanup_orphaned_senders(&clock_at(500), 45).is_empty());
    // The first attempt starts the timer; later failures do not restart it.
    table.touch_relay(id, false, &clock_at(100));
    table.touch_relay(id, false, &clock_at(140));
    assert!(table.cleanup_orphaned_senders(&clock_at(144), 45).is_empty());
    // A success restarts it.
    table.touch_relay(id, true, &clock_at(144));
    assert!(table.cleanup_orphaned_senders(&clock_at(188), 45).is_empty());
    assert_eq!(table.cleanup_orphaned_senders(&clock_at(189), 45), vec![client().ip]);
}

#[test]
fn refresh_sets_the_lifetime() {
    let mut table = AllocationTable::new();
    let id = table.create(client(), "u".to_string(), 60, &clock_at(0));
    assert_eq!(table.get(id).unwrap().remaining_lifetime(&clock_at(20)), 40);
    table.refresh(id, 30, &clock_at(50));
    assert_eq!(table.get(id).unwrap().remaining_lifetime(&clock_at(50)), 30);
    assert!(!table.get(id).unwrap().is_expired(&clock_at(80)));
    assert!(table.get(id).unwrap().is_expired(&clock_at(81)));
    assert_eq!(table.get(id).unwrap().remaining_lifetime(&clock_at(81)), 0);
}

#[test]
fn lifetimes_end_in_the_64_bits_of_the_clock() {
    let mut clock = init();
    clock.advance_to((u64::MAX as u128 - 60_000) * 1_000_000);
    let mut table = AllocationTable::new();
    let id = table.create(client(), "u".to_string(), 60, &clock);
    assert_eq!(table.get(id).unwrap().remaining_lifetime(&clock), 60);
    assert!(!table.get(id).unwrap().is_expired(&clock));
    // One second more, and the end lies past what the clock can show.
    table.refresh(id, 61, &clock);
    assert_eq!(table.get(id).unwrap().remaining_lifetime(&clock), 0);
    assert!(table.get(id).unwrap().is_expired(&clock));
}

#[test]
fn permitting_clients_are_listed_in_order_and_once() {
    let clock = init();
    let mut table = AllocationTable::new();
    let peer = SocketAddr::new(IpAddr::v4(203, 0, 113, 1), 5000);
    let a = table.create(client_at(1), "u".to_string(), 60, &clock);
    let b = table.create(client_at(2), "u".to_string(), 60, &clock);
    table.add_permission(b, peer.ip);
    table.add_permission(a, peer.ip);
    table.add_permission(b, peer.ip);
    assert_eq!(table.lookup_by_peer_addr(peer), (vec![b, a], false));
    // A registered address decides.
    table.register_peer_tuple(a, peer, &clock);
    assert_eq!(table.lookup_by_peer_addr(peer), (vec![a], true));
}

#[test]
fn identifiers_have_a_text() {
    assert_eq!(AllocationId(7).text(), "alloc-7");
    assert_eq!(AllocationId(0).text(), "alloc-0");
    assert_eq!(AllocationId(18446744073709551615).text(), "alloc-18446744073709551615");
}

#[test]
fn an_allocation_by_itself() {
    let clock = clock_at(3);
    let mut a = uturn::lookup::Allocation::new(
        AllocationId(9),
        client(),
        "alice".to_string(),
        60,
        [4; 12],
        &[0; 12],
        &clock,
    );
    assert_eq!(a.id(), AllocationId(9));
    assert_eq!(a.client_addr(), client());
    assert_eq!(a.get_ice_ufrag(), None);
    assert!(a.set_ice_ufrag("x"));
    assert!(a.set_ice_remote_ufrag("y"));
    assert!(a.set_paired_ufrag("z"));
    assert_eq!(a.get_ice_ufrag(), Some("x".to_string()));
    assert_eq!(a.get_ice_remote_ufrag(), Some("y".to_string()));
    assert_eq!(a.get_paired_ufrag(), Some("z".to_string()));
    a.add_permission(IpAddr::v4(1, 2, 3, 4));
    a.add_permission(IpAddr::v4(1, 2, 3, 4));
    assert_eq!(a.permitted_ips(), vec![IpAddr::v4(1, 2, 3, 4)]);
    assert!(a.is_permitted(IpAddr::v4(1, 2, 3, 4)));
    assert!(!a.is_permitted(IpAddr::v4(1, 2, 3, 5)));
    a.touch_relay_attempt(&clock);
    assert!(a.is_orphaned_sender(&clock, 0));
}
