use peerfs::{Peer, PeerAddr, PeerStatus, Peers};

fn v4(a: u8, b: u8, c: u8, d: u8) -> PeerAddr {
    PeerAddr::V4 { ip: u32::from_be_bytes([a, b, c, d]) }
}

#[test]
fn upgrade_never_regresses() {
    let mut s = PeerStatus::Unlinked;
    s.upgrade(PeerStatus::Undefined);
    assert_eq!(s, PeerStatus::Unlinked);

    let mut s = PeerStatus::Linked { token: 100 };
    s.upgrade(PeerStatus::Undefined);
    assert_eq!(s, PeerStatus::Linked { token: 100 });
    s.upgrade(PeerStatus::Unlinked);
    assert_eq!(s, PeerStatus::Linked { token: 100 });

    let mut s = PeerStatus::Undefined;
    s.upgrade(PeerStatus::Unlinked);
    assert_eq!(s, PeerStatus::Unlinked);
    s.upgrade(PeerStatus::Linked { token: 7 });
    assert_eq!(s, PeerStatus::Linked { token: 7 });

    // equal rank: the newer linked token wins
    let mut s = PeerStatus::Linked { token: 1 };
    s.upgrade(PeerStatus::Linked { token: 2 });
    assert_eq!(s, PeerStatus::Linked { token: 2 });
}

#[test]
fn add_upgrades_and_never_downgrades() {
    let addr = v4(127, 0, 0, 1);
    let mut peers = Peers::new();

    peers.add(addr, 1000, PeerStatus::Undefined, 1);
    assert_eq!(peers.get_status(addr, 1000), Some(PeerStatus::Undefined));

    peers.add(addr, 1000, PeerStatus::Unlinked, 2);
    assert_eq!(peers.get_status(addr, 1000), Some(PeerStatus::Unlinked));

    peers.add(addr, 1000, PeerStatus::Undefined, 3);
    assert_eq!(peers.get_status(addr, 1000), Some(PeerStatus::Unlinked));

    peers.add(addr, 2000, PeerStatus::Linked { token: 100 }, 4);
    peers.add(addr, 2000, PeerStatus::Unlinked, 5);
    assert_eq!(peers.get_status(addr, 2000), Some(PeerStatus::Linked { token: 100 }));
}

#[test]
fn records_are_keyed_by_address_and_port() {
    let mut peers = Peers::new();
    peers.add(v4(10, 0, 0, 1), 1000, PeerStatus::Undefined, 0);
    peers.add(v4(10, 0, 0, 2), 1000, PeerStatus::Unlinked, 0);
    peers.add(v4(10, 0, 0, 1), 1001, PeerStatus::Unlinked, 0);
    assert_eq!(peers.len(), 3);
    assert_eq!(peers.get_status(v4(10, 0, 0, 1), 1000), Some(PeerStatus::Undefined));
    assert_eq!(peers.get_status(v4(10, 0, 0, 2), 1000), Some(PeerStatus::Unlinked));
    assert_eq!(peers.get_status(v4(10, 0, 0, 3), 1000), None);
}

#[test]
fn record_keeps_its_creation_timestamp() {
    let mut peers = Peers::new();
    peers.add(v4(10, 0, 0, 1), 1000, PeerStatus::Undefined, 11);
    peers.add(v4(10, 0, 0, 1), 1000, PeerStatus::Unlinked, 99);
    let rec: Peer = peers.get(0);
    assert_eq!(rec.last_active, 11);
    assert_eq!(rec.status, PeerStatus::Unlinked);
}

#[test]
fn undefined_peers_lists_exactly_the_pending_dials() {
    let mut peers = Peers::new();
    assert!(!peers.has_undefined());
    assert!(peers.undefined_peers().is_empty());

    peers.add(v4(10, 0, 0, 1), 1000, PeerStatus::Undefined, 0);
    peers.add(v4(10, 0, 0, 2), 2000, PeerStatus::Unlinked, 0);
    peers.add(v4(10, 0, 0, 3), 3000, PeerStatus::Undefined, 0);
    assert!(peers.has_undefined());
    assert_eq!(
        peers.undefined_peers(),
        vec![(v4(10, 0, 0, 1), 1000), (v4(10, 0, 0, 3), 3000)]
    );

    peers.add(v4(10, 0, 0, 1), 1000, PeerStatus::Linked { token: 100 }, 0);
    peers.add(v4(10, 0, 0, 3), 3000, PeerStatus::Unlinked, 0);
    assert!(!peers.has_undefined());
    assert!(peers.undefined_peers().is_empty());
}
