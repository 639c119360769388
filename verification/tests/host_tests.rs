use peerfs::host::{handle_event, on_dial_success};
use peerfs::{EndpointEvent, HostAction, Links, Packet, PeerAddr, PeerStatus, Peers};

fn localhost() -> PeerAddr {
    PeerAddr::V4 { ip: u32::from_be_bytes([127, 0, 0, 1]) }
}

#[test]
fn rejected_link_event_demands_a_rejection_reply() {
    let mut peers = Peers::new();
    let actions = handle_event(&mut peers, EndpointEvent::RejectedLink, 0);
    assert_eq!(actions, vec![HostAction::SendRejected]);
    assert_eq!(peers.len(), 0);
}

#[test]
fn new_link_event_demands_nothing() {
    let mut peers = Peers::new();
    let actions = handle_event(&mut peers, EndpointEvent::NewLink { token: 100 }, 0);
    assert!(actions.is_empty());
    assert_eq!(peers.len(), 0);
}

#[test]
fn rejected_packet_unlinks_its_sender() {
    let mut peers = Peers::new();
    let event = EndpointEvent::ReceivedPacket {
        token: 101,
        addr: localhost(),
        packet: Packet::Rejected,
    };
    let actions = handle_event(&mut peers, event, 0);
    assert_eq!(actions, vec![HostAction::Unlink { token: 101 }]);
}

#[test]
fn identify_answers_with_the_directory_then_registers_the_sender() {
    let mut peers = Peers::new();
    let x = PeerAddr::V4 { ip: 1 };
    let y = PeerAddr::V4 { ip: 2 };
    peers.add(x, 1000, PeerStatus::Linked { token: 200 }, 0);
    peers.add(y, 2000, PeerStatus::Unlinked, 0);

    let sender = localhost();
    let event = EndpointEvent::ReceivedPacket {
        token: 300,
        addr: sender,
        packet: Packet::PeerIdentify { port: 9000 },
    };
    let actions = handle_event(&mut peers, event, 5);

    assert_eq!(
        actions,
        vec![
            // the linked peer X is announced to the sender, and the
            // sender is forwarded to X's own link
            HostAction::Send { token: 300, packet: Packet::PeerDiscover { addr: x, port: 1000 } },
            HostAction::Send {
                token: 200,
                packet: Packet::PeerDiscover { addr: sender, port: 9000 },
            },
            // the unlinked peer Y is only announced to the sender
            HostAction::Send { token: 300, packet: Packet::PeerDiscover { addr: y, port: 2000 } },
        ]
    );
    assert_eq!(
        peers.get_status(sender, 9000),
        Some(PeerStatus::Linked { token: 300 })
    );
}

#[test]
fn discover_registers_unlinked_and_never_dials() {
    let mut peers = Peers::new();
    let event = EndpointEvent::ReceivedPacket {
        token: 100,
        addr: localhost(),
        packet: Packet::PeerDiscover { addr: PeerAddr::V4 { ip: 9 }, port: 4000 },
    };
    let actions = handle_event(&mut peers, event, 0);
    assert!(actions.is_empty());
    assert_eq!(
        peers.get_status(PeerAddr::V4 { ip: 9 }, 4000),
        Some(PeerStatus::Unlinked)
    );
    // a discovered peer never becomes a dial candidate
    assert!(peers.undefined_peers().is_empty());
}

#[test]
fn discover_never_downgrades_a_linked_peer() {
    let mut peers = Peers::new();
    let x = PeerAddr::V4 { ip: 9 };
    peers.add(x, 4000, PeerStatus::Linked { token: 100 }, 0);
    let event = EndpointEvent::ReceivedPacket {
        token: 101,
        addr: localhost(),
        packet: Packet::PeerDiscover { addr: x, port: 4000 },
    };
    handle_event(&mut peers, event, 0);
    assert_eq!(peers.get_status(x, 4000), Some(PeerStatus::Linked { token: 100 }));
}

#[test]
fn reserved_packets_are_ignored() {
    let mut peers = Peers::new();
    let event = EndpointEvent::ReceivedPacket {
        token: 100,
        addr: localhost(),
        packet: Packet::FileBlockData { request_id: 1, data: vec![1, 2, 3] },
    };
    let actions = handle_event(&mut peers, event, 0);
    assert!(actions.is_empty());
    assert_eq!(peers.len(), 0);
}

#[test]
fn dial_success_marks_linked_and_identifies() {
    let mut peers = Peers::new();
    let b = PeerAddr::V4 { ip: 5 };
    peers.add(b, 7000, PeerStatus::Undefined, 0);
    let packet = on_dial_success(&mut peers, b, 7000, 150, 17127, 1);
    assert_eq!(packet, Packet::PeerIdentify { port: 17127 });
    assert_eq!(peers.get_status(b, 7000), Some(PeerStatus::Linked { token: 150 }));
    assert!(peers.undefined_peers().is_empty());
}

/// One simulated host: its directory, its slot table, its listening
/// port, and where each of its link tokens leads.
struct SimPeer {
    peers: Peers,
    links: Links,
    port: u16,
    /// `(own token, remote host index, remote's token)`
    routes: Vec<(u64, usize, u64)>,
}

impl SimPeer {
    fn new(port: u16) -> SimPeer {
        SimPeer { peers: Peers::new(), links: Links::new(), port, routes: Vec::new() }
    }

    fn route(&self, token: u64) -> (usize, u64) {
        for &(t, j, tj) in &self.routes {
            if t == token {
                return (j, tj);
            }
        }
        panic!("no route for token {token}");
    }
}

/// Runs the discovery protocol over an in-memory network until no
/// packet is in flight.
fn drain(sim: &mut Vec<SimPeer>, queue: &mut Vec<(usize, u64, usize, Packet)>) {
    while let Some((dest, dest_token, src, packet)) = queue.pop() {
        let addr = localhost();
        let _ = src;
        let event = EndpointEvent::ReceivedPacket { token: dest_token, addr, packet };
        let actions = handle_event(&mut sim[dest].peers, event, 0);
        for action in actions {
            match action {
                HostAction::Send { token, packet } => {
                    let (j, tj) = sim[dest].route(token);
                    queue.push((j, tj, dest, packet));
                }
                HostAction::Unlink { token } => {
                    sim[dest].links.unlink(token);
                }
                HostAction::SendRejected => {}
            }
        }
    }
}

fn tick(sim: &mut Vec<SimPeer>, i: usize, queue: &mut Vec<(usize, u64, usize, Packet)>) {
    let candidates = sim[i].peers.undefined_peers();
    for (addr, port) in candidates {
        let j = sim.iter().position(|p| p.port == port).expect("a host listens on that port");
        let ti = sim[i].links.link().expect("dialer has a free slot");
        let tj = sim[j].links.link().expect("listener has a free slot");
        sim[i].routes.push((ti, j, tj));
        sim[j].routes.push((tj, i, ti));
        // the accept side sees the new link; it demands no action
        let accept_actions =
            handle_event(&mut sim[j].peers, EndpointEvent::NewLink { token: tj }, 0);
        assert!(accept_actions.is_empty());
        let my_port = sim[i].port;
        let identify = on_dial_success(&mut sim[i].peers, addr, port, ti, my_port, 0);
        queue.push((j, tj, i, identify));
    }
    drain(sim, queue);
}

#[test]
fn three_peer_discovery_spreads_both_ways() {
    // A knows nobody; only B knows A; only C knows B.
    let mut sim = vec![SimPeer::new(17127), SimPeer::new(17128), SimPeer::new(17129)];
    sim[1].peers.add(localhost(), 17127, PeerStatus::Undefined, 0);
    sim[2].peers.add(localhost(), 17128, PeerStatus::Undefined, 0);

    let mut queue = Vec::new();
    for _ in 0..4 {
        for i in 0..3 {
            tick(&mut sim, i, &mut queue);
        }
    }

    // A's directory holds both B and C at non-Undefined status.
    let b_at_a = sim[0].peers.get_status(localhost(), 17128).expect("A knows B");
    let c_at_a = sim[0].peers.get_status(localhost(), 17129).expect("A knows C");
    assert!(!matches!(b_at_a, PeerStatus::Undefined));
    assert!(!matches!(c_at_a, PeerStatus::Undefined));

    // C also learned of A through B.
    let a_at_c = sim[2].peers.get_status(localhost(), 17127).expect("C knows A");
    assert!(!matches!(a_at_c, PeerStatus::Undefined));
}
