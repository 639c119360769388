//! Discovery protocol decisions: what one endpoint event does to the
//! peer directory and which packets go out in reply. The control loop
//! around these functions performs the socket work; every decision is
//! taken here, from plain values to plain values.

use vstd::prelude::*;
use crate::peers::{add_effect, Peer, Peers, PeerStatus};
use crate::proto::{Packet, PeerAddr};

verus! {

/// One discrete outcome of polling the endpoint.
#[derive(Debug, PartialEq)]
pub enum EndpointEvent {
    /// An inbound connection took the slot with this token.
    NewLink { token: u64 },
    /// An inbound connection found no free slot; it is ownerless and
    /// only good for writing a rejection reply before being dropped.
    RejectedLink,
    /// One decoded packet from the link with this token, with the
    /// link's resolved remote address.
    ReceivedPacket { token: u64, addr: PeerAddr, packet: Packet },
}

/// One packet send or link removal the control loop must perform.
#[derive(Debug, PartialEq)]
pub enum HostAction {
    /// Write this packet on the link slot with this token.
    Send { token: u64, packet: Packet },
    /// Write a rejection packet on the ephemeral rejected connection.
    SendRejected,
    /// Deregister and release the link slot with this token.
    Unlink { token: u64 },
}

/// The discover packet announcing one directory record.
pub open spec fn discover_packet(p: Peer) -> Packet {
    Packet::PeerDiscover { addr: p.addr, port: p.port }
}

/// The replies to a `PeerIdentify` from `(addr, port)` over the link
/// `token`, given the directory as it stood before the sender was
/// registered: each known peer's address goes back over the sender's
/// link, and every linked peer is told about the sender.
pub open spec fn identify_actions(
    records: Seq<Peer>,
    token: u64,
    addr: PeerAddr,
    port: u16,
) -> Seq<HostAction>
    decreases records.len(),
{
    if records.len() == 0 {
        Seq::empty()
    } else {
        let p = records.last();
        identify_actions(records.drop_last(), token, addr, port) + seq![
            HostAction::Send { token, packet: discover_packet(p) },
        ] + match p.status {
            PeerStatus::Linked { token: t } => seq![
                HostAction::Send { token: t, packet: Packet::PeerDiscover { addr, port } },
            ],
            _ => Seq::empty(),
        }
    }
}

/// The actions one event demands, given the directory before the event.
pub open spec fn event_actions(records: Seq<Peer>, event: EndpointEvent) -> Seq<HostAction> {
    match event {
        EndpointEvent::NewLink { .. } => Seq::empty(),
        EndpointEvent::RejectedLink => seq![HostAction::SendRejected],
        EndpointEvent::ReceivedPacket { token, addr, packet } => match packet {
            Packet::Rejected => seq![HostAction::Unlink { token }],
            Packet::PeerIdentify { port } => identify_actions(records, token, addr, port),
            _ => Seq::empty(),
        },
    }
}

/// What one event does to the directory: an identifying sender is
/// registered as linked, a discovered peer as unlinked, everything
/// else leaves the directory alone.
pub open spec fn event_directory_effect(
    pre: Peers,
    post: Peers,
    event: EndpointEvent,
    now: u64,
) -> bool {
    match event {
        EndpointEvent::ReceivedPacket { token, addr, packet } => match packet {
            Packet::PeerIdentify { port } => add_effect(
                pre,
                post,
                addr,
                port,
                PeerStatus::Linked { token },
                now,
            ),
            Packet::PeerDiscover { addr: daddr, port: dport } => add_effect(
                pre,
                post,
                daddr,
                dport,
                PeerStatus::Unlinked,
                now,
            ),
            _ => post == pre,
        },
        _ => post == pre,
    }
}

/// Applies one endpoint event to the directory and returns, in order,
/// the sends and removals the control loop must perform:
/// a rejected inbound connection gets a rejection reply; a `Rejected`
/// packet unlinks its sender; a `PeerIdentify` first answers with
/// every known peer, announces the sender to every linked peer, and
/// only then registers the sender as linked; a `PeerDiscover` records
/// the peer as unlinked, never dialing it; all other packets are
/// ignored.
pub fn handle_event(peers: &mut Peers, event: EndpointEvent, now: u64) -> (r: Vec<HostAction>)
    requires
        old(peers).wf(),
    ensures
        final(peers).wf(),
        r@ == event_actions(old(peers).records(), event),
        event_directory_effect(*old(peers), *final(peers), event, now),
{
    match event {
        EndpointEvent::NewLink { .. } => {
            let r: Vec<HostAction> = Vec::new();
            proof {
                assert(r@ =~= event_actions(peers.records(), event));
            }
            r
        }
        EndpointEvent::RejectedLink => {
            let mut r: Vec<HostAction> = Vec::new();
            r.push(HostAction::SendRejected);
            proof {
                assert(r@ =~= event_actions(peers.records(), event));
            }
            r
        }
        EndpointEvent::ReceivedPacket { token, addr, packet } => match packet {
            Packet::Rejected => {
                let mut r: Vec<HostAction> = Vec::new();
                r.push(HostAction::Unlink { token });
                proof {
                    assert(r@ =~= event_actions(
                        peers.records(),
                        EndpointEvent::ReceivedPacket { token, addr, packet: Packet::Rejected },
                    ));
                }
                r
            }
            Packet::PeerIdentify { port } => {
                let r = handle_identify(peers, token, addr, port, now);
                r
            }
            Packet::PeerDiscover { addr: daddr, port: dport } => {
                peers.add(daddr, dport, PeerStatus::Unlinked, now);
                let r: Vec<HostAction> = Vec::new();
                proof {
                    assert(r@ =~= Seq::<HostAction>::empty());
                }
                r
            }
            _ => {
                let r: Vec<HostAction> = Vec::new();
                proof {
                    assert(r@ =~= Seq::<HostAction>::empty());
                }
                r
            }
        },
    }
}

/// Answers a `PeerIdentify`: sends the whole directory back over the
/// sender's link, forwards the sender's key to every linked peer, and
/// then registers the sender as linked via its token.
fn handle_identify(peers: &mut Peers, token: u64, addr: PeerAddr, port: u16, now: u64) -> (r:
    Vec<HostAction>)
    requires
        old(peers).wf(),
    ensures
        final(peers).wf(),
        r@ == identify_actions(old(peers).records(), token, addr, port),
        add_effect(
            *old(peers),
            *final(peers),
            addr,
            port,
            PeerStatus::Linked { token },
            now,
        ),
{
    let ghost recs = peers.records();
    let n = peers.len();
    let mut r: Vec<HostAction> = Vec::new();
    let mut i: usize = 0;
    while i < n
        invariant
            *peers == *old(peers),
            peers.wf(),
            recs == peers.records(),
            n == recs.len(),
            i <= n,
            r@ == identify_actions(recs.take(i as int), token, addr, port),
        decreases n - i,
    {
        let p = peers.get(i);
        r.push(HostAction::Send { token, packet: Packet::PeerDiscover { addr: p.addr, port: p.port } });
        if let PeerStatus::Linked { token: t } = p.status {
            r.push(HostAction::Send { token: t, packet: Packet::PeerDiscover { addr, port } });
        }
        proof {
            let taken = recs.take(i + 1);
            assert(taken.drop_last() =~= recs.take(i as int));
            assert(taken.last() == recs[i as int]);
            assert(r@ =~= identify_actions(recs.take(i + 1), token, addr, port));
        }
        i += 1;
    }
    proof {
        assert(recs.take(n as int) =~= recs);
    }
    peers.add(addr, port, PeerStatus::Linked { token }, now);
    r
}

/// A dial that connected: the dialed peer is optimistically marked
/// linked with the fresh slot token before any reply, and the returned
/// identify packet, carrying this endpoint's own listening port, must
/// be the first thing sent on the new link.
pub fn on_dial_success(
    peers: &mut Peers,
    addr: PeerAddr,
    port: u16,
    token: u64,
    local_port: u16,
    now: u64,
) -> (r: Packet)
    requires
        old(peers).wf(),
    ensures
        final(peers).wf(),
        add_effect(
            *old(peers),
            *final(peers),
            addr,
            port,
            PeerStatus::Linked { token },
            now,
        ),
        r == (Packet::PeerIdentify { port: local_port }),
{
    peers.add(addr, port, PeerStatus::Linked { token }, now);
    Packet::PeerIdentify { port: local_port }
}

} // verus!
