//! Peer directory: every known peer with its address, listening port,
//! connection status and last-active timestamp, keyed by address and
//! port. Statuses only ever move up a lattice, never down, and a count
//! of `Undefined` records lets the control loop skip dial scanning
//! when none are pending.

use vstd::prelude::*;
use crate::proto::PeerAddr;

verus! {

/// Connection status of a known peer, ordered as a lattice:
/// `Linked` above `Unlinked` above `Undefined`.
#[derive(Clone, Copy, PartialEq, Eq, Structural, Debug)]
pub enum PeerStatus {
    /// Manually seeded, reachability unconfirmed.
    Undefined,
    /// Learned through discovery, no connection attempted yet.
    Unlinked,
    /// Live connection, held in the link slot with this token.
    Linked { token: u64 },
}

impl PeerStatus {
    /// Height in the upgrade lattice.
    pub open spec fn rank(self) -> int {
        match self {
            PeerStatus::Undefined => 0,
            PeerStatus::Unlinked => 1,
            PeerStatus::Linked { .. } => 2,
        }
    }

    /// What `upgrade` leaves behind: the other status wherever it is
    /// at least as high, the current one otherwise.
    pub open spec fn upgrade_spec(self, other: PeerStatus) -> PeerStatus {
        if other.rank() >= self.rank() {
            other
        } else {
            self
        }
    }

    pub fn is_undefined(&self) -> (r: bool)
        ensures
            r == (*self is Undefined),
    {
        matches!(self, PeerStatus::Undefined)
    }

    pub fn is_unlinked(&self) -> (r: bool)
        ensures
            r == (*self is Unlinked),
    {
        matches!(self, PeerStatus::Unlinked)
    }

    pub fn is_linked(&self) -> (r: bool)
        ensures
            r == (*self is Linked),
    {
        matches!(self, PeerStatus::Linked { .. })
    }

    /// Takes the other status only when it is at least as high in the
    /// lattice: a later, weaker sighting never downgrades this one.
    pub fn upgrade(&mut self, other: PeerStatus)
        ensures
            *final(self) == old(self).upgrade_spec(other),
            final(self).rank() >= old(self).rank(),
    {
        let cur = *self;
        match (cur, other) {
            (PeerStatus::Unlinked, PeerStatus::Undefined) => {}
            (PeerStatus::Linked { .. }, PeerStatus::Undefined) => {}
            (PeerStatus::Linked { .. }, PeerStatus::Unlinked) => {}
            _ => {
                *self = other;
            }
        }
    }
}

/// One known peer.
#[derive(Clone, Copy, PartialEq, Eq, Structural, Debug)]
pub struct Peer {
    /// The peer's address.
    pub addr: PeerAddr,
    /// The port of the peer's own listening endpoint.
    pub port: u16,
    /// Connection status, only ever upgraded.
    pub status: PeerStatus,
    /// Caller-supplied timestamp of when the record was created.
    pub last_active: u64,
}

/// Number of `Undefined` records in a directory sequence.
pub open spec fn count_undefined(s: Seq<Peer>) -> int
    decreases s.len(),
{
    if s.len() == 0 {
        0
    } else {
        count_undefined(s.drop_last()) + if s.last().status is Undefined {
            1int
        } else {
            0int
        }
    }
}

proof fn lemma_count_undefined_le_len(s: Seq<Peer>)
    ensures
        0 <= count_undefined(s) <= s.len(),
    decreases s.len(),
{
    if s.len() > 0 {
        lemma_count_undefined_le_len(s.drop_last());
    }
}

proof fn lemma_count_undefined_update(s: Seq<Peer>, i: int, p: Peer)
    requires
        0 <= i < s.len(),
    ensures
        count_undefined(s.update(i, p)) == count_undefined(s) - (
        if s[i].status is Undefined {
            1int
        } else {
            0int
        }) + (
        if p.status is Undefined {
            1int
        } else {
            0int
        }),
    decreases s.len(),
{
    let t = s.update(i, p);
    if i == s.len() - 1 {
        assert(t.drop_last() =~= s.drop_last());
        assert(t.last() == p);
    } else {
        assert(t.drop_last() =~= s.drop_last().update(i, p));
        assert(t.last() == s.last());
        lemma_count_undefined_update(s.drop_last(), i, p);
    }
}

/// The `(address, port)` keys of the `Undefined` records, in
/// directory order.
pub open spec fn undefined_keys(s: Seq<Peer>) -> Seq<(PeerAddr, u16)>
    decreases s.len(),
{
    if s.len() == 0 {
        Seq::empty()
    } else {
        undefined_keys(s.drop_last()) + if s.last().status is Undefined {
            seq![(s.last().addr, s.last().port)]
        } else {
            Seq::empty()
        }
    }
}

/// With no `Undefined` record there is no pending key.
proof fn lemma_undefined_keys_empty(s: Seq<Peer>)
    requires
        count_undefined(s) == 0,
    ensures
        undefined_keys(s) == Seq::<(PeerAddr, u16)>::empty(),
    decreases s.len(),
{
    if s.len() > 0 {
        lemma_count_undefined_le_len(s.drop_last());
        lemma_undefined_keys_empty(s.drop_last());
        assert(undefined_keys(s) =~= Seq::<(PeerAddr, u16)>::empty());
    } else {
        assert(undefined_keys(s) =~= Seq::<(PeerAddr, u16)>::empty());
    }
}

/// What registering a sighting does to the directory: a known key has
/// its status upgraded in place, everything else untouched; an unknown
/// key is appended as a fresh record.
pub open spec fn add_effect(
    pre: Peers,
    post: Peers,
    addr: PeerAddr,
    port: u16,
    status: PeerStatus,
    now: u64,
) -> bool {
    &&& pre.has(addr, port) ==> post.records() == pre.records().update(
        pre.index_of(addr, port),
        Peer {
            status: pre.status_of(addr, port).upgrade_spec(status),
            ..pre.records()[pre.index_of(addr, port)]
        },
    )
    &&& !pre.has(addr, port) ==> post.records() == pre.records().push(
        Peer { addr, port, status, last_active: now },
    )
}

/// Knowledge of all known peers: records with unique `(address, port)`
/// keys, plus a count of `Undefined` records.
pub struct Peers {
    peers: Vec<Peer>,
    undefined_count: usize,
}

impl Peers {
    /// The records held, in insertion order.
    pub closed spec fn records(self) -> Seq<Peer> {
        self.peers@
    }

    /// The `(address, port)` keys are unique and the pending-dial count
    /// is exact.
    pub open spec fn wf(self) -> bool {
        &&& forall|i: int, j: int|
            0 <= i < j < self.records().len() ==> !((#[trigger] self.records()[i]).addr
                == (#[trigger] self.records()[j]).addr && self.records()[i].port
                == self.records()[j].port)
        &&& self.undefined_pending() == count_undefined(self.records())
    }

    /// The held count of `Undefined` records.
    pub closed spec fn undefined_pending(self) -> int {
        self.undefined_count as int
    }

    /// The directory knows this key.
    pub open spec fn has(self, addr: PeerAddr, port: u16) -> bool {
        exists|i: int|
            0 <= i < self.records().len() && (#[trigger] self.records()[i]).addr == addr
                && self.records()[i].port == port
    }

    /// Index of the record with this key.
    pub open spec fn index_of(self, addr: PeerAddr, port: u16) -> int {
        choose|i: int|
            0 <= i < self.records().len() && (#[trigger] self.records()[i]).addr == addr
                && self.records()[i].port == port
    }

    /// The status recorded for this key.
    pub open spec fn status_of(self, addr: PeerAddr, port: u16) -> PeerStatus {
        self.records()[self.index_of(addr, port)].status
    }

    pub fn new() -> (r: Self)
        ensures
            r.wf(),
            r.records() == Seq::<Peer>::empty(),
    {
        let r = Peers { peers: Vec::new(), undefined_count: 0 };
        proof {
            assert(r.records() =~= Seq::<Peer>::empty());
        }
        r
    }

    /// Number of records held.
    pub fn len(&self) -> (r: usize)
        ensures
            r == self.records().len(),
    {
        self.peers.len()
    }

    /// The record at position `i`.
    pub fn get(&self, i: usize) -> (r: Peer)
        requires
            i < self.records().len(),
        ensures
            r == self.records()[i as int],
    {
        self.peers[i]
    }

    /// Index of the record with this key, if any.
    fn find(&self, addr: PeerAddr, port: u16) -> (r: Option<usize>)
        requires
            self.wf(),
        ensures
            match r {
                Some(i) => i < self.records().len() && self.records()[i as int].addr == addr
                    && self.records()[i as int].port == port && i as int == self.index_of(
                    addr,
                    port,
                ),
                None => !self.has(addr, port),
            },
    {
        let n = self.peers.len();
        let mut i: usize = 0;
        while i < n
            invariant
                self.wf(),
                n == self.records().len(),
                i <= n,
                forall|k: int|
                    0 <= k < i ==> !((#[trigger] self.records()[k]).addr == addr
                        && self.records()[k].port == port),
            decreases n - i,
        {
            let p = &self.peers[i];
            if p.addr == addr && p.port == port {
                proof {
                    let j = self.index_of(addr, port);
                    assert(self.records()[i as int].addr == addr);
                    if j != i as int {
                        assert(false);
                    }
                }
                return Some(i);
            }
            i += 1;
        }
        None
    }

    /// Registers a peer sighting: a new key is appended with the given
    /// status; a known key keeps its record and only upgrades its
    /// status, so a sighting never downgrades what is already known.
    pub fn add(&mut self, addr: PeerAddr, port: u16, status: PeerStatus, now: u64)
        requires
            old(self).wf(),
        ensures
            final(self).wf(),
            add_effect(*old(self), *final(self), addr, port, status, now),
            final(self).has(addr, port),
            final(self).status_of(addr, port).rank() >= status.rank(),
            old(self).has(addr, port) ==> final(self).status_of(addr, port).rank() >= old(
                self,
            ).status_of(addr, port).rank(),
    {
        let ghost s0 = self.peers@;
        match self.find(addr, port) {
            Some(i) => {
                let ghost old_rec = s0[i as int];
                let was_undefined = self.peers[i].status.is_undefined();
                let mut st = self.peers[i].status;
                st.upgrade(status);
                let updated = Peer { status: st, ..self.peers[i] };
                self.peers.set(i, updated);
                proof {
                    lemma_count_undefined_update(s0, i as int, updated);
                    lemma_count_undefined_le_len(s0);
                    lemma_count_undefined_le_len(self.peers@);
                }
                if was_undefined && !st.is_undefined() {
                    self.undefined_count = self.undefined_count - 1;
                }
                proof {
                    let j = self.index_of(addr, port);
                    assert(self.records()[i as int].addr == addr);
                    if j != i as int {
                        assert(self.records()[j].addr == addr && self.records()[j].port == port);
                        assert(s0[j].addr == addr && s0[j].port == port);
                        assert(false);
                    }
                }
            }
            None => {
                let rec = Peer { addr, port, status, last_active: now };
                self.peers.push(rec);
                let n_after = self.peers.len();
                proof {
                    assert(self.peers@.drop_last() =~= s0);
                    lemma_count_undefined_le_len(s0);
                    assert(self.undefined_count <= s0.len() && s0.len() == n_after - 1);
                }
                if matches!(status, PeerStatus::Undefined) {
                    self.undefined_count = self.undefined_count + 1;
                }
                proof {
                    let n = s0.len() as int;
                    assert(self.records()[n].addr == addr && self.records()[n].port == port);
                    let j = self.index_of(addr, port);
                    if j != n {
                        assert(self.records()[j].addr == addr && self.records()[j].port == port);
                        assert(s0[j].addr == addr && s0[j].port == port);
                        assert(false);
                    }
                }
            }
        }
    }

    /// The status recorded for this key, if known.
    pub fn get_status(&self, addr: PeerAddr, port: u16) -> (r: Option<PeerStatus>)
        requires
            self.wf(),
        ensures
            r is Some <==> self.has(addr, port),
            r is Some ==> r->0 == self.status_of(addr, port),
    {
        match self.find(addr, port) {
            Some(i) => Some(self.peers[i].status),
            None => None,
        }
    }

    /// Whether any record is still `Undefined`: when this is false the
    /// control loop skips dial scanning entirely.
    pub fn has_undefined(&self) -> (r: bool)
        requires
            self.wf(),
        ensures
            r == (count_undefined(self.records()) > 0),
    {
        self.undefined_count != 0
    }

    /// The keys of all `Undefined` records, in directory order: the
    /// peers the control loop should dial this tick. Returns straight
    /// away when the pending count is zero.
    pub fn undefined_peers(&self) -> (r: Vec<(PeerAddr, u16)>)
        requires
            self.wf(),
        ensures
            r@ == undefined_keys(self.records()),
    {
        let mut r: Vec<(PeerAddr, u16)> = Vec::new();
        if self.undefined_count == 0 {
            proof {
                lemma_undefined_keys_empty(self.records());
                assert(r@ =~= undefined_keys(self.records()));
            }
            return r;
        }
        let n = self.peers.len();
        let mut i: usize = 0;
        while i < n
            invariant
                self.wf(),
                n == self.records().len(),
                i <= n,
                r@ == undefined_keys(self.records().take(i as int)),
            decreases n - i,
        {
            let p = self.peers[i];
            if p.status.is_undefined() {
                r.push((p.addr, p.port));
            }
            proof {
                let taken = self.records().take(i + 1);
                assert(taken.drop_last() =~= self.records().take(i as int));
                assert(taken.last() == self.records()[i as int]);
                assert(r@ =~= undefined_keys(taken));
            }
            i += 1;
        }
        proof {
            assert(self.records().take(n as int) =~= self.records());
        }
        r
    }
}

} // verus!
