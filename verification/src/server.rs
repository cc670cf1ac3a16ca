//! The peer server: owns the interface keys, the peers, the session
//! registry and the routing table, and drives handshakes, transport and
//! timers.  Handlers take the current time and return the effects to
//! perform — datagrams to send, plaintext for the tunnel, timers to arm —
//! so the surrounding event loop stays free of protocol logic.

use vstd::prelude::*;

use crate::crypto::{pub_key_of, random_u32, x25519_public};
use crate::peer::{Endpoint, Peer, Session};
use crate::registry::SessionRegistry;
use crate::router::{IpPrefix, Router};
use crate::WgError;

verus! {

/// Process-wide interface state: the local key pair and the listen port.
pub struct InterfaceInfo {
    pub private_key: Option<Vec<u8>>,
    pub public_key: Option<Vec<u8>>,
    pub listen_port: u16,
}

/// The timers the engine delivers back into the server.
#[derive(Clone, Copy, Debug, PartialEq, Eq, Structural)]
pub enum TimerKind {
    Rekey,
    Reject,
    PassiveKeepAlive,
    PersistentKeepAlive,
}

/// One scheduled timer: its kind, the peer handle and the session index it
/// was armed for.
#[derive(Clone, Copy, Debug, PartialEq, Eq, Structural)]
pub struct TimerMessage {
    pub kind: TimerKind,
    pub peer: usize,
    pub our_index: u32,
}

/// What a handler asks the surrounding loop to do.
pub struct Effects {
    pub udp: Vec<(Endpoint, Vec<u8>)>,
    pub tunnel: Vec<Vec<u8>>,
    pub timers: Vec<(u64, TimerMessage)>,
}

impl Effects {
    /// No effects.
    pub fn none() -> (r: Effects)
        ensures
            r.udp@.len() == 0,
            r.tunnel@.len() == 0,
            r.timers@.len() == 0,
    {
        Effects { udp: Vec::new(), tunnel: Vec::new(), timers: Vec::new() }
    }
}

/// The peer server.
pub struct PeerServer {
    pub info: InterfaceInfo,
    pub peers: Vec<Peer>,
    pub registry: SessionRegistry,
    pub router: Router,
}

impl PeerServer {
    /// The server's global invariant.
    ///
    /// Besides well-formedness of the parts, it carries the registry law:
    /// every session index held by any slot of any peer is linked to that
    /// very peer in the registry.  Since the registry is a map, no index
    /// can be live in two peers at once.
    pub open spec fn wf(self) -> bool {
        &&& self.registry.wf()
        &&& self.router.wf()
        &&& (self.info.private_key matches Some(k) ==> k@.len() == 32)
        &&& (self.info.public_key matches Some(k) ==> k@.len() == 32)
        &&& (forall|i: int| 0 <= i < self.peers@.len() ==> (#[trigger] self.peers@[i]).wf())
        &&& (forall|i: int|
            0 <= i < self.router.table().len() ==> (#[trigger] self.router.table()[i]).1
                < self.peers@.len())
        &&& (forall|i: usize, idx: u32|
            i < self.peers@.len() && #[trigger] self.peers@[i as int].holds_index(idx)
                ==> self.registry.maps(idx, i))
    }

    /// An inbound initiation passes the shape and `mac1` gates.
    pub open spec fn msg1_gate(self, packet: Seq<u8>) -> bool {
        crate::msgs::msg1_well_formed(packet) && packet.subrange(116, 132)
            == crate::crypto::mac16_of(
            crate::msgs::mac1_key_of(self.info.public_key->0@),
            packet.subrange(0, 116),
        )
    }

    /// An inbound response passes the shape and `mac1` gates.
    pub open spec fn msg2_gate(self, packet: Seq<u8>) -> bool {
        crate::msgs::msg2_well_formed(packet) && packet.subrange(60, 76)
            == crate::crypto::mac16_of(
            crate::msgs::mac1_key_of(self.info.public_key->0@),
            packet.subrange(0, 60),
        )
    }

    /// An inbound data packet that must be accepted once decrypted: its
    /// receiver index is registered to peer `pi`, a keyed slot of that
    /// peer carries the index, the sealed payload is exactly the AEAD
    /// sealing of `p` under that session's receive key at the packet's
    /// counter, and the counter clears the replay window.
    pub open spec fn transport_deliverable(self, packet: Seq<u8>, pi: usize, p: Seq<u8>) -> bool {
        let idx = crate::bytes::le_u32_of(packet.subrange(4, 8));
        let cnt = crate::bytes::le_u64_of(packet.subrange(8, 16));
        let cs = crate::peer::carrying_session(self.peers@[pi as int], idx);
        &&& crate::msgs::msg4_well_formed(packet)
        &&& self.registry.maps(idx, pi)
        &&& pi < self.peers@.len()
        &&& cs is Some
        &&& packet.subrange(16, packet.len() as int) == crate::crypto::seal_of(
            cs->0.recv_key@,
            crate::peer::nonce12(cnt),
            p,
        )
        &&& p.len() <= 65535
        &&& cs->0.replay.accepts(cnt)
    }

    /// The *our-index* values of live sessions are distinct across the
    /// whole system: if any two peers hold the same index, they are the
    /// same peer, and within one peer the ring's indices never repeat.
    pub proof fn lemma_live_indices_distinct(self, i: usize, j: usize, idx: u32)
        requires
            self.wf(),
            i < self.peers@.len(),
            j < self.peers@.len(),
            self.peers@[i as int].holds_index(idx),
            self.peers@[j as int].holds_index(idx),
        ensures
            i == j,
    {
        assert(self.registry.maps(idx, i));
        assert(self.registry.maps(idx, j));
        self.registry.lemma_maps_unique(idx, i, j);
    }

    /// A server with the given local key and no peers.  The public key is
    /// derived from the private scalar.
    pub fn new(private_key: Option<Vec<u8>>, listen_port: u16) -> (r: PeerServer)
        requires
            private_key matches Some(k) ==> k@.len() == 32,
        ensures
            r.wf(),
            r.peers@.len() == 0,
            r.router.table().len() == 0,
            forall|idx: u32| !r.registry.contains(idx),
            forall|idx: u32, p: usize| !r.registry.maps(idx, p),
            r.info.listen_port == listen_port,
            r.info.private_key == private_key,
            r.info.public_key is Some == private_key is Some,
            private_key matches Some(k) ==> r.info.public_key matches Some(p) && p@ == pub_key_of(
                k@,
            ),
    {
        let public_key = match &private_key {
            Some(k) => Some(x25519_public(k)),
            None => None,
        };
        PeerServer {
            info: InterfaceInfo { private_key, public_key, listen_port },
            peers: Vec::new(),
            registry: SessionRegistry::new(),
            router: Router::new(),
        }
    }

    /// Replaces the local key pair at runtime.  A key change invalidates
    /// every in-flight and established session: all slots of all peers are
    /// cleared, and the registry is emptied.
    pub fn set_private_key(&mut self, private_key: Option<Vec<u8>>)
        requires
            old(self).wf(),
            private_key matches Some(k) ==> k@.len() == 32,
        ensures
            final(self).wf(),
            final(self).info.private_key == private_key,
            final(self).info.public_key is Some == private_key is Some,
            private_key matches Some(k) ==> final(self).info.public_key matches Some(p) && p@
                == pub_key_of(k@),
            final(self).peers@.len() == old(self).peers@.len(),
            forall|j: int|
                0 <= j < final(self).peers@.len() ==> (#[trigger] final(self).peers@[j]).next is None
                    && final(self).peers@[j].current is None && final(self).peers@[j].previous is None,
            forall|idx: u32| !final(self).registry.contains(idx),
            final(self).router == old(self).router,
    {
        let n = self.peers.len();
        let mut i: usize = 0;
        while i < n
            invariant
                n == self.peers@.len(),
                i <= n,
                self.router == old(self).router,
                self.registry == old(self).registry,
                self.info == old(self).info,
                forall|j: int|
                    0 <= j < i ==> (#[trigger] self.peers@[j]).next is None && self.peers@[j].current is None
                        && self.peers@[j].previous is None,
                forall|j: int| 0 <= j < n ==> (#[trigger] self.peers@[j]).wf(),
                forall|j: int|
                    i <= j < n ==> #[trigger] self.peers@[j] == old(self).peers@[j],
            decreases n - i,
        {
            let peer = &mut self.peers[i];
            peer.next = None;
            peer.current = None;
            peer.previous = None;
            i = i + 1;
        }
        self.registry.clear();
        let public_key = match &private_key {
            Some(k) => Some(x25519_public(k)),
            None => None,
        };
        self.info = InterfaceInfo {
            private_key,
            public_key,
            listen_port: self.info.listen_port,
        };
    }

    /// Adds a configured peer and returns its handle.
    pub fn add_peer(
        &mut self,
        public_key: Vec<u8>,
        psk: Option<Vec<u8>>,
        endpoint: Option<Endpoint>,
        keepalive_interval: Option<u32>,
    ) -> (r: usize)
        requires
            old(self).wf(),
            public_key@.len() == 32,
            psk matches Some(k) ==> k@.len() == 32,
        ensures
            final(self).wf(),
            final(self).peers@.len() == old(self).peers@.len() + 1,
            r == old(self).peers@.len(),
            final(self).peers@[r as int].public_key == public_key,
            final(self).peers@[r as int].current is None,
            final(self).peers@[r as int].next is None,
            final(self).peers@[r as int].previous is None,
            final(self).peers@[r as int].endpoint == endpoint,
            forall|j: int| 0 <= j < old(self).peers@.len() ==> final(self).peers@[j] == old(self).peers@[j],
            final(self).registry == old(self).registry,
            final(self).router == old(self).router,
            final(self).info == old(self).info,
    {
        let psk_bytes = match psk {
            Some(k) => k,
            None => crate::msgs::zero_vec(32),
        };
        let p = Peer::new(public_key, psk_bytes, endpoint, keepalive_interval);
        let r = self.peers.len();
        self.peers.push(p);
        r
    }

    /// Adds one allowed-IP prefix for a peer.
    pub fn add_allowed_ip(&mut self, peer: usize, prefix: IpPrefix)
        requires
            old(self).wf(),
            peer < old(self).peers@.len(),
            prefix.wf(),
        ensures
            final(self).wf(),
            final(self).router.table() == old(self).router.table().push((prefix, peer)),
            final(self).peers == old(self).peers,
            final(self).registry == old(self).registry,
            final(self).info == old(self).info,
    {
        self.router.add_allowed_ip(prefix, peer);
    }

    /// Removes one allowed-IP prefix of a peer.
    pub fn remove_allowed_ip(&mut self, peer: usize, prefix: IpPrefix)
        requires
            old(self).wf(),
        ensures
            final(self).wf(),
            forall|i: int|
                0 <= i < final(self).router.table().len() ==> #[trigger] final(self).router.table()[i]
                    != (prefix, peer),
            final(self).peers == old(self).peers,
            final(self).registry == old(self).registry,
            final(self).info == old(self).info,
    {
        self.router.remove_allowed_ip(prefix, peer);
        proof {
            assert forall|i: int|
                0 <= i < self.router.table().len() implies (#[trigger] self.router.table()[i]).1
                < self.peers@.len() by {
                assert(old(self).router.table().contains(self.router.table()[i]));
                let j = choose|j: int|
                    0 <= j < old(self).router.table().len() && old(self).router.table()[j]
                        == self.router.table()[i];
            }
        }
    }

    /// The handle of the peer with this static public key.
    pub fn peer_by_pubkey(&self, pk: &Vec<u8>) -> (r: Option<usize>)
        ensures
            r matches Some(i) ==> i < self.peers@.len() && self.peers@[i as int].public_key@ == pk@,
            r is None ==> forall|i: int|
                0 <= i < self.peers@.len() ==> (#[trigger] self.peers@[i]).public_key@ != pk@,
    {
        let n = self.peers.len();
        let mut i: usize = 0;
        while i < n
            invariant
                n == self.peers@.len(),
                i <= n,
                forall|j: int| 0 <= j < i ==> (#[trigger] self.peers@[j]).public_key@ != pk@,
            decreases n - i,
        {
            if crate::bytes::bytes_eq(&self.peers[i].public_key, pk) {
                return Some(i);
            }
            i = i + 1;
        }
        None
    }

    /// Draws a fresh random session index, rejecting collisions with the
    /// registry; gives up after a bounded number of draws.
    pub fn fresh_index(&self) -> (r: Option<u32>)
        ensures
            r matches Some(idx) ==> !self.registry.contains(idx),
    {
        let mut tries: usize = 0;
        while tries < 64
            invariant
                tries <= 64,
            decreases 64 - tries,
        {
            let idx = random_u32();
            if self.registry.lookup(idx).is_none() {
                return Some(idx);
            }
            tries = tries + 1;
        }
        None
    }

    /// Ratchets a freshly keyed session into a peer's *current* slot and
    /// keeps the registry in step: the new index is linked to the peer,
    /// the old *current* stays registered as *previous*, and whatever left
    /// the ring — the old *previous*, and any handshake still in flight in
    /// *next* — is removed from the registry for good.
    pub fn ratchet_install(&mut self, pi: usize, s: Session)
        requires
            old(self).wf(),
            pi < old(self).peers@.len(),
            s.wf(),
            !old(self).registry.contains(s.our_index),
        ensures
            final(self).wf(),
            final(self).peers@.len() == old(self).peers@.len(),
            final(self).registry.maps(s.our_index, pi),
            final(self).peers@[pi as int].current_index() == Some(s.our_index),
            final(self).peers@[pi as int].current == Some(s),
            final(self).peers@[pi as int].previous == old(self).peers@[pi as int].current,
            final(self).peers@[pi as int].next is None,
            final(self).peers@[pi as int].endpoint == old(self).peers@[pi as int].endpoint,
            final(self).peers@[pi as int].outgoing_queue == old(self).peers@[pi as int].outgoing_queue,
            final(self).peers@[pi as int].public_key == old(self).peers@[pi as int].public_key,
            final(self).peers@[pi as int].keepalive_interval == old(self).peers@[pi as int].keepalive_interval,
            forall|j: int|
                0 <= j < old(self).peers@.len() && j != pi ==> final(self).peers@[j] == old(self).peers@[j],
            old(self).peers@[pi as int].previous_index() matches Some(dp) ==> !final(self).registry.contains(dp),
            old(self).peers@[pi as int].next_index() matches Some(dn) ==> !final(self).registry.contains(dn),
            final(self).router == old(self).router,
            final(self).info == old(self).info,
    {
        let ghost old_peer = self.peers@[pi as int];
        let ghost old_reg = self.registry;
        let idx = s.our_index;
        let peer = &mut self.peers[pi];
        proof {
            assert(old_peer.wf());
            assert(!old_peer.holds_index(idx)) by {
                if old_peer.holds_index(idx) {
                    assert(old_reg.maps(idx, pi));
                    old_reg.lemma_maps_contains(idx, pi);
                }
            }
        }
        let dead = peer.install_current(s);
        proof {
            assert(self.peers@ == old(self).peers@.update(pi as int, self.peers@[pi as int]));
        }
        if let Some(dp) = dead.0 {
            self.registry.remove(dp);
        }
        if let Some(dn) = dead.1 {
            self.registry.remove(dn);
        }
        let inserted = self.registry.insert(idx, pi);
        proof {
            let new_peer = self.peers@[pi as int];
            // The fresh index never collided, and the removals cannot have
            // introduced it, so the insert went through.
            assert(inserted);
            // The surviving slots of the ratcheted peer stay registered:
            // the kept current/previous indices differ from the removed
            // previous/next indices by the ring's distinctness, and from
            // the fresh index because the fresh index was unregistered.
            assert forall|i: usize, idx2: u32|
                i < self.peers@.len() && #[trigger] self.peers@[i as int].holds_index(idx2)
                    implies self.registry.maps(idx2, i) by {
                let p_i = self.peers@[i as int];
                if i == pi {
                    if idx2 == idx {
                        assert(self.registry.maps(idx, pi));
                    } else {
                        // idx2 is the old current's index, now in previous.
                        assert(p_i.previous_index() == Some(idx2));
                        assert(old_peer.current_index() == Some(idx2));
                        assert(old_peer.holds_index(idx2));
                        assert(old_reg.maps(idx2, pi));
                        assert(match old_peer.previous_index() {
                            Some(dp) => dp != idx2,
                            None => true,
                        });
                        assert(match old_peer.next_index() {
                            Some(dn) => dn != idx2,
                            None => true,
                        });
                        assert(self.registry.maps(idx2, pi));
                    }
                } else {
                    assert(old(self).peers@[i as int].holds_index(idx2));
                    assert(old_reg.maps(idx2, i));
                    // The removed indices belonged to peer `pi` alone.
                    if match old_peer.previous_index() {
                        Some(dp) => idx2 == dp,
                        None => false,
                    } {
                        assert(old_peer.holds_index(idx2));
                        assert(old_reg.maps(idx2, pi));
                        old_reg.lemma_maps_unique(idx2, i, pi);
                        assert(false);
                    }
                    if match old_peer.next_index() {
                        Some(dn) => idx2 == dn,
                        None => false,
                    } {
                        assert(old_peer.holds_index(idx2));
                        assert(old_reg.maps(idx2, pi));
                        old_reg.lemma_maps_unique(idx2, i, pi);
                        assert(false);
                    }
                    if idx2 == idx {
                        old_reg.lemma_maps_contains(idx2, i);
                        assert(false);
                    }
                    assert(self.registry.maps(idx2, i));
                }
            }
        }
    }

    /// Encrypts and emits every queued egress packet of a peer that is
    /// ready for transport; with `keepalive_if_empty`, an empty queue sends
    /// a single empty data packet instead.  When the session's nonce space
    /// is spent, the session is retired from the slot and the registry, and
    /// what remains queued waits for the next handshake.
    pub fn flush_queue(&mut self, pi: usize, now: u64, keepalive_if_empty: bool) -> (r: Vec<
        (Endpoint, Vec<u8>),
    >)
        requires
            old(self).wf(),
            pi < old(self).peers@.len(),
            old(self).peers@[pi as int].current is Some,
            old(self).peers@[pi as int].endpoint is Some,
        ensures
            final(self).wf(),
            final(self).peers@.len() == old(self).peers@.len(),
            forall|j: int|
                0 <= j < old(self).peers@.len() && j != pi ==> final(self).peers@[j] == old(self).peers@[j],
            final(self).router == old(self).router,
            final(self).info == old(self).info,
            final(self).peers@[pi as int].endpoint == old(self).peers@[pi as int].endpoint,
            final(self).peers@[pi as int].public_key == old(self).peers@[pi as int].public_key,
            final(self).peers@[pi as int].next == old(self).peers@[pi as int].next,
            final(self).peers@[pi as int].previous == old(self).peers@[pi as int].previous,
            final(self).peers@[pi as int].current is Some ==> final(self).peers@[pi as int].outgoing_queue@.len() == 0,
            forall|k: int| 0 <= k < r@.len() ==> (#[trigger] r@[k]).0 == old(self).peers@[pi as int].endpoint->0,
            old(self).peers@[pi as int].current->0.send_counter + old(self).peers@[pi as int].outgoing_queue@.len() + 1 <= u64::MAX ==> (final(self).registry == old(self).registry && final(self).peers@[pi as int].current is Some && final(self).peers@[pi as int].current->0.our_index == old(self).peers@[pi as int].current->0.our_index),
            old(self).peers@[pi as int].current->0.send_counter + old(self).peers@[pi as int].outgoing_queue@.len() + 1 <= u64::MAX ==> ({
                let op = old(self).peers@[pi as int];
                let cur0 = op.current->0;
                let fin = final(self).peers@[pi as int];
                &&& fin.current->0.send_key == cur0.send_key
                &&& fin.current->0.recv_key == cur0.recv_key
                &&& fin.current->0.their_index == cur0.their_index
                &&& fin.tx_bytes >= op.tx_bytes
                &&& (op.outgoing_queue@.len() > 0 ==> crate::peer::emits_sealed_fifo(
                    cur0.send_key@,
                    cur0.their_index,
                    cur0.send_counter,
                    op.outgoing_queue@,
                    op.endpoint->0,
                    r@,
                ) && fin.current->0.send_counter == cur0.send_counter + op.outgoing_queue@.len())
                &&& (op.outgoing_queue@.len() == 0 && keepalive_if_empty ==> r@.len() == 1
                    && r@[0].1@.len() == 32 && r@[0].1@ == crate::msgs::spec_msg4_bytes(
                    cur0.their_index,
                    cur0.send_counter,
                    crate::crypto::seal_of(
                        cur0.send_key@,
                        crate::peer::nonce12(cur0.send_counter),
                        Seq::<u8>::empty(),
                    ),
                ))
                &&& (op.outgoing_queue@.len() == 0 && !keepalive_if_empty ==> r@.len() == 0)
            }),
    {
        let ghost old_peer = self.peers@[pi as int];
        let ghost bound_ok = old_peer.current->0.send_counter + old_peer.outgoing_queue@.len() + 1
            <= u64::MAX;
        let mut out: Vec<(Endpoint, Vec<u8>)> = Vec::new();
        let mut exhausted = false;
        {
            let peer = &mut self.peers[pi];
            let ep: Endpoint = match &peer.endpoint {
                Some(e) => *e,
                None => {
                    return out;
                },
            };
            let was_empty = peer.outgoing_queue.len() == 0;
            while !exhausted && peer.outgoing_queue.len() > 0
                invariant
                    was_empty == (old_peer.outgoing_queue@.len() == 0),
                    bound_ok ==> ({
                        let cur0 = old_peer.current->0;
                        &&& out@.len() + peer.outgoing_queue@.len()
                            == old_peer.outgoing_queue@.len()
                        &&& peer.outgoing_queue@ == old_peer.outgoing_queue@.subrange(
                            out@.len() as int,
                            old_peer.outgoing_queue@.len() as int,
                        )
                        &&& peer.current->0.send_counter == cur0.send_counter + out@.len()
                        &&& peer.current->0.send_key == cur0.send_key
                        &&& peer.current->0.recv_key == cur0.recv_key
                        &&& peer.current->0.their_index == cur0.their_index
                        &&& peer.tx_bytes >= old_peer.tx_bytes
                        &&& forall|k: int|
                            0 <= k < out@.len() ==> (#[trigger] out@[k]).1@
                                == crate::msgs::spec_msg4_bytes(
                                cur0.their_index,
                                (cur0.send_counter + k) as u64,
                                crate::crypto::seal_of(
                                    cur0.send_key@,
                                    crate::peer::nonce12((cur0.send_counter + k) as u64),
                                    old_peer.outgoing_queue@[k]@,
                                ),
                            )
                    }),
                    old_peer.wf(),
                    peer.wf(),
                    peer.next == old_peer.next,
                    peer.previous == old_peer.previous,
                    peer.endpoint == old_peer.endpoint,
                    peer.public_key == old_peer.public_key,
                    peer.psk == old_peer.psk,
                    peer.keepalive_interval == old_peer.keepalive_interval,
                    peer.current is Some,
                    peer.current->0.our_index == old_peer.current->0.our_index,
                    old_peer.current is Some,
                    ep == old_peer.endpoint->0,
                    forall|k: int| 0 <= k < out@.len() ==> (#[trigger] out@[k]).0 == ep,
                    bound_ok == (old_peer.current->0.send_counter
                        + old_peer.outgoing_queue@.len() + 1 <= u64::MAX),
                    bound_ok ==> !exhausted && peer.current->0.send_counter
                        + peer.outgoing_queue@.len() <= old_peer.current->0.send_counter
                        + old_peer.outgoing_queue@.len(),
                decreases peer.outgoing_queue@.len(), (if exhausted { 0int } else { 1int }),
            {
                let ctr_spent = match &peer.current {
                    Some(sess) => sess.send_counter == u64::MAX,
                    None => true,
                };
                if ctr_spent {
                    proof {
                        if bound_ok {
                            assert(peer.current is Some);
                            assert(peer.current->0.send_counter == u64::MAX);
                            assert(peer.current->0.send_counter + peer.outgoing_queue@.len()
                                <= old_peer.current->0.send_counter
                                + old_peer.outgoing_queue@.len());
                            assert(old_peer.current->0.send_counter
                                + old_peer.outgoing_queue@.len() + 1 <= u64::MAX);
                            assert(peer.outgoing_queue@.len() >= 1);
                            assert(false);
                        }
                    }
                    exhausted = true;
                } else {
                    let ghost qpre = peer.outgoing_queue@;
                    let ghost jpre = out@.len();
                    let pkt = peer.outgoing_queue.remove(0);
                    proof {
                        if bound_ok {
                            assert(qpre == old_peer.outgoing_queue@.subrange(
                                jpre as int,
                                old_peer.outgoing_queue@.len() as int,
                            ));
                            assert(pkt == old_peer.outgoing_queue@[jpre as int]);
                            assert(peer.outgoing_queue@ =~= old_peer.outgoing_queue@.subrange(
                                jpre as int + 1,
                                old_peer.outgoing_queue@.len() as int,
                            ));
                        }
                    }
                    match &mut peer.current {
                        Some(sess) => {
                            let wire = sess.encrypt_transport(&pkt, now);
                            let wlen = wire.len();
                            out.push((ep, wire));
                            peer.tx_bytes = sat_add(peer.tx_bytes, wlen as u64);
                        },
                        None => {},
                    }
                }
            }
            if !exhausted && was_empty && keepalive_if_empty {
                match &mut peer.current {
                    Some(sess) => {
                        if sess.send_counter < u64::MAX {
                            let empty: Vec<u8> = Vec::new();
                            proof {
                                assert(empty@ =~= Seq::<u8>::empty());
                            }
                            let wire = sess.encrypt_transport(&empty, now);
                            out.push((ep, wire));
                        }
                    },
                    None => {},
                }
            }
        }
        proof {
            assert(self.peers@ == old(self).peers@.update(pi as int, self.peers@[pi as int]));
            assert forall|i: usize, idx2: u32|
                i < self.peers@.len() && #[trigger] self.peers@[i as int].holds_index(idx2)
                    implies self.registry.maps(idx2, i) by {
                if i as int == pi as int {
                    assert(old(self).peers@[pi as int].holds_index(idx2));
                } else {
                    assert(old(self).peers@[i as int].holds_index(idx2));
                }
            }
        }
        if exhausted {
            // The nonce space is spent: retire the current session.
            let dead: Option<u32>;
            {
                let peer = &mut self.peers[pi];
                let gone = peer.current.take();
                dead = match &gone {
                    Some(s) => Some(s.our_index),
                    None => None,
                };
            }
            proof {
                assert(self.peers@ == old(self).peers@.update(pi as int, self.peers@[pi as int]));
            }
            if let Some(didx) = dead {
                self.registry.remove(didx);
            }
            proof {
                assert forall|i: usize, idx2: u32|
                    i < self.peers@.len() && #[trigger] self.peers@[i as int].holds_index(idx2)
                        implies self.registry.maps(idx2, i) by {
                    if i as int == pi as int {
                        assert(old(self).peers@[pi as int].holds_index(idx2));
                        assert(old(self).registry.maps(idx2, pi));
                        assert(match dead {
                            Some(didx) => idx2 != didx,
                            None => true,
                        });
                    } else {
                        assert(old(self).peers@[i as int].holds_index(idx2));
                        assert(old(self).registry.maps(idx2, i));
                        if match dead {
                            Some(didx) => idx2 == didx,
                            None => false,
                        } {
                            assert(old(self).peers@[pi as int].holds_index(idx2));
                            assert(old(self).registry.maps(idx2, pi));
                            old(self).registry.lemma_maps_unique(idx2, i, pi);
                            assert(false);
                        }
                        assert(self.registry.maps(idx2, i));
                    }
                }
            }
        }
        out
    }

    /// Builds and emits a handshake initiation to the peer's endpoint,
    /// installs the half-open session in the *next* slot, registers its
    /// fresh index, and arms the rekey timer.
    pub fn send_handshake_init(&mut self, now: u64, pi: usize) -> (r: Result<Effects, WgError>)
        requires
            old(self).wf(),
            pi < old(self).peers@.len(),
            old(self).info.private_key is Some,
        ensures
            final(self).wf(),
            final(self).peers@.len() == old(self).peers@.len(),
            final(self).router == old(self).router,
            final(self).info == old(self).info,
            old(self).peers@[pi as int].endpoint is None ==> r == Err::<Effects, WgError>(
                WgError::NoEndpoint,
            ),
            r matches Err(e) ==> (e == WgError::NoEndpoint || e == WgError::CryptoFailure),
            r is Err ==> *final(self) == *old(self),
            r is Ok ==> (old(self).peers@[pi as int].next_index() matches Some(d) ==> !final(self).registry.contains(d)),
            r is Ok ==> final(self).peers@[pi as int].last_sent_init == Some(now)
                && final(self).peers@[pi as int].last_tun_queue == (if old(self).peers@[pi as int].last_tun_queue is Some {
                old(self).peers@[pi as int].last_tun_queue
            } else {
                Some(now)
            }),
            r is Ok ==> final(self).peers@[pi as int].outgoing_queue == old(self).peers@[pi as int].outgoing_queue
                && final(self).peers@[pi as int].current == old(self).peers@[pi as int].current
                && final(self).peers@[pi as int].previous == old(self).peers@[pi as int].previous
                && final(self).peers@[pi as int].endpoint == old(self).peers@[pi as int].endpoint
                && final(self).peers@[pi as int].tx_bytes == old(self).peers@[pi as int].tx_bytes
                && (forall|j: int|
                0 <= j < old(self).peers@.len() && j != pi ==> final(self).peers@[j] == old(self).peers@[j]),
            r matches Ok(e) ==> e.udp@.len() == 1 && e.udp@[0].0 == old(self).peers@[pi as int].endpoint->0
                && crate::msgs::msg1_well_formed(e.udp@[0].1@) && e.tunnel@.len() == 0
                && e.timers@.len() == 1 && e.timers@[0].0 == crate::REKEY_TIMEOUT_MS + 2
                * crate::TIMER_TICK_MS && e.timers@[0].1.kind == TimerKind::Rekey && e.timers@[0].1.peer == pi,
            r matches Ok(e) ==> final(self).peers@[pi as int].next is Some
                && final(self).registry.maps(final(self).peers@[pi as int].next->0.our_index, pi)
                && e.timers@[0].1.our_index == final(self).peers@[pi as int].next->0.our_index,
    {
        let ep: Endpoint = match &self.peers[pi].endpoint {
            Some(e) => *e,
            None => {
                return Err(WgError::NoEndpoint);
            },
        };
        let private_key = match &self.info.private_key {
            Some(k) => crate::bytes::sub_bytes(k, 0, k.len()),
            None => {
                return Err(WgError::NoEndpoint);
            },
        };
        let mut hs = match crate::crypto::noise_build_initiator(
            &private_key,
            &self.peers[pi].public_key,
            &self.peers[pi].psk,
        ) {
            Some(h) => h,
            None => {
                return Err(WgError::CryptoFailure);
            },
        };
        let payload = tai64n(now);
        let body = match crate::crypto::noise_write_message(&mut hs, &payload) {
            Some(b) => b,
            None => {
                return Err(WgError::CryptoFailure);
            },
        };
        if body.len() != 108 {
            return Err(WgError::CryptoFailure);
        }
        let idx = match self.fresh_index() {
            Some(i) => i,
            None => {
                return Err(WgError::CryptoFailure);
            },
        };
        let packet = crate::msgs::build_initiation(idx, &body, &self.peers[pi].public_key);
        let dead: Option<u32>;
        {
            let peer = &mut self.peers[pi];
            let gone = peer.next.take();
            dead = match &gone {
                Some(n) => Some(n.our_index),
                None => None,
            };
            peer.next = Some(
                crate::peer::InitSession { our_index: idx, noise: hs, created: now },
            );
            peer.last_sent_init = Some(now);
            if peer.last_tun_queue.is_none() {
                peer.last_tun_queue = Some(now);
            }
        }
        proof {
            assert(self.peers@ == old(self).peers@.update(pi as int, self.peers@[pi as int]));
        }
        if let Some(didx) = dead {
            self.registry.remove(didx);
        }
        let inserted = self.registry.insert(idx, pi);
        proof {
            assert(inserted);
            assert forall|i: usize, idx2: u32|
                i < self.peers@.len() && #[trigger] self.peers@[i as int].holds_index(idx2)
                    implies self.registry.maps(idx2, i) by {
                let old_peer = old(self).peers@[pi as int];
                if i as int == pi as int {
                    if idx2 == idx {
                        assert(self.registry.maps(idx, pi));
                    } else {
                        assert(old_peer.holds_index(idx2));
                        assert(old(self).registry.maps(idx2, pi));
                        assert(match dead {
                            Some(didx) => idx2 != didx,
                            None => true,
                        }) by {
                            if match dead {
                                Some(didx) => idx2 == didx,
                                None => false,
                            } {
                                assert(self.peers@[pi as int].current_index() == Some(idx2)
                                    || self.peers@[pi as int].previous_index() == Some(idx2));
                                assert(old_peer.wf());
                            }
                        }
                        assert(self.registry.maps(idx2, pi));
                    }
                } else {
                    assert(old(self).peers@[i as int].holds_index(idx2));
                    assert(old(self).registry.maps(idx2, i));
                    if match dead {
                        Some(didx) => idx2 == didx,
                        None => false,
                    } {
                        assert(old(self).peers@[pi as int].holds_index(idx2));
                        assert(old(self).registry.maps(idx2, pi));
                        old(self).registry.lemma_maps_unique(idx2, i, pi);
                        assert(false);
                    }
                    if idx2 == idx {
                        old(self).registry.lemma_maps_contains(idx2, i);
                        assert(false);
                    }
                    assert(self.registry.maps(idx2, i));
                }
            }
            if old(self).peers@[pi as int].next_index() is Some {
                let d = old(self).peers@[pi as int].next_index()->0;
                assert(old(self).peers@[pi as int].holds_index(d));
                assert(old(self).registry.maps(d, pi));
                old(self).registry.lemma_maps_contains(d, pi);
                assert(d != idx);
                assert(!self.registry.contains(d));
            }
            assert forall|i: int| 0 <= i < self.peers@.len() implies (
            #[trigger] self.peers@[i]).wf() by {
                if i == pi as int {
                    let np = self.peers@[i];
                    let op = old(self).peers@[pi as int];
                    assert(op.wf());
                    // The fresh index cannot equal a ring index already in
                    // the registry.
                    if np.current is Some && np.current->0.our_index == idx {
                        assert(op.holds_index(idx));
                        assert(old(self).registry.maps(idx, pi));
                        old(self).registry.lemma_maps_contains(idx, pi);
                        assert(false);
                    }
                    if np.previous is Some && np.previous->0.our_index == idx {
                        assert(op.holds_index(idx));
                        assert(old(self).registry.maps(idx, pi));
                        old(self).registry.lemma_maps_contains(idx, pi);
                        assert(false);
                    }
                } else {
                    assert(old(self).peers@[i].wf());
                }
            }
        }
        let mut effects = Effects::none();
        effects.udp.push((ep, packet));
        effects.timers.push(
            (
                crate::REKEY_TIMEOUT_MS + 2 * crate::TIMER_TICK_MS,
                TimerMessage { kind: TimerKind::Rekey, peer: pi, our_index: idx },
            ),
        );
        Ok(effects)
    }

    /// Handles an inbound handshake initiation (type 1): checks shape and
    /// `mac1`, runs the Noise responder, looks the initiator up by its
    /// static key, ratchets the fresh session into *current*, learns the
    /// source as the peer's endpoint, and answers with a type-2 response
    /// whose receiver index echoes the initiator's sender index.
    pub fn handle_ingress_handshake_init(&mut self, now: u64, src: Endpoint, packet: &Vec<u8>)
        -> (r: Result<Effects, WgError>)
        requires
            old(self).wf(),
            old(self).info.private_key is Some,
            old(self).info.public_key is Some,
        ensures
            final(self).wf(),
            final(self).peers@.len() == old(self).peers@.len(),
            final(self).info == old(self).info,
            final(self).router == old(self).router,
            !crate::msgs::msg1_well_formed(packet@) ==> r == Err::<Effects, WgError>(
                WgError::MalformedPacket,
            ),
            crate::msgs::msg1_well_formed(packet@) && packet@.subrange(116, 132)
                != crate::crypto::mac16_of(
                crate::msgs::mac1_key_of(old(self).info.public_key->0@),
                packet@.subrange(0, 116),
            ) ==> r == Err::<Effects, WgError>(WgError::MalformedPacket),
            r is Ok ==> crate::msgs::msg1_well_formed(packet@) && packet@.subrange(116, 132)
                == crate::crypto::mac16_of(
                crate::msgs::mac1_key_of(old(self).info.public_key->0@),
                packet@.subrange(0, 116),
            ),
            r is Err ==> *final(self) == *old(self),
            r matches Err(e) ==> (e == WgError::MalformedPacket || e == WgError::UnknownPeer || e
                == WgError::CryptoFailure),
            r matches Ok(e) ==> e.udp@.len() == 1 && e.udp@[0].0 == src
                && crate::msgs::msg2_well_formed(e.udp@[0].1@) && e.udp@[0].1@.len() == 92
                && crate::bytes::le_u32_of(e.udp@[0].1@.subrange(8, 12)) == crate::bytes::le_u32_of(
                packet@.subrange(4, 8),
            ) && e.tunnel@.len() == 0 && e.timers@.len() == 0,
            r matches Ok(e) ==> exists|pi: usize|
                #![trigger final(self).peers@[pi as int]]
                pi < final(self).peers@.len() && final(self).registry.maps(
                    crate::bytes::le_u32_of(e.udp@[0].1@.subrange(4, 8)),
                    pi,
                ) && final(self).peers@[pi as int].endpoint == Some(src)
                    && final(self).peers@[pi as int].current_index() == Some(
                    crate::bytes::le_u32_of(e.udp@[0].1@.subrange(4, 8)),
                ),
    {
        let (sender_index, noise_body) = match crate::msgs::parse_initiation(packet) {
            Ok(t) => t,
            Err(e) => {
                return Err(e);
            },
        };
        let mac_ok = match &self.info.public_key {
            Some(our_pub) => crate::msgs::verify_mac1(our_pub, packet, 116),
            None => false,
        };
        if !mac_ok {
            return Err(WgError::MalformedPacket);
        }
        let private_key = match &self.info.private_key {
            Some(k) => crate::bytes::sub_bytes(k, 0, k.len()),
            None => {
                return Err(WgError::CryptoFailure);
            },
        };
        let mut hs = match crate::crypto::noise_build_responder(&private_key) {
            Some(h) => h,
            None => {
                return Err(WgError::CryptoFailure);
            },
        };
        let _timestamp = match crate::crypto::noise_read_message(&mut hs, &noise_body) {
            Some(p) => p,
            None => {
                return Err(WgError::CryptoFailure);
            },
        };
        let their_pub = match crate::crypto::noise_remote_static(&hs) {
            Some(k) => k,
            None => {
                return Err(WgError::CryptoFailure);
            },
        };
        let pi = match self.peer_by_pubkey(&their_pub) {
            Some(i) => i,
            None => {
                return Err(WgError::UnknownPeer);
            },
        };
        if !crate::crypto::noise_set_psk2(&mut hs, &self.peers[pi].psk) {
            return Err(WgError::CryptoFailure);
        }
        let empty: Vec<u8> = Vec::new();
        let resp_body = match crate::crypto::noise_write_message(&mut hs, &empty) {
            Some(b) => b,
            None => {
                return Err(WgError::CryptoFailure);
            },
        };
        if resp_body.len() != 48 {
            return Err(WgError::CryptoFailure);
        }
        let (k_init, k_resp) = crate::crypto::noise_raw_split(&mut hs);
        let idx = match self.fresh_index() {
            Some(i) => i,
            None => {
                return Err(WgError::CryptoFailure);
            },
        };
        // As responder we send with the responder-egress key and receive
        // with the initiator-egress key.
        let mut s = Session::new(idx, sender_index, k_resp, k_init, now);
        s.established = true;
        self.ratchet_install(pi, s);
        let response = crate::msgs::build_response(
            idx,
            sender_index,
            &resp_body,
            &self.peers[pi].public_key,
        );
        let ghost mid = *self;
        {
            let peer = &mut self.peers[pi];
            peer.endpoint = Some(src);
            peer.last_handshake = Some(now);
        }
        proof {
            assert(self.peers@ == mid.peers@.update(pi as int, self.peers@[pi as int]));
            assert forall|i: usize, idx2: u32|
                i < self.peers@.len() && #[trigger] self.peers@[i as int].holds_index(idx2)
                    implies self.registry.maps(idx2, i) by {
                if i as int == pi as int {
                    assert(mid.peers@[pi as int].holds_index(idx2));
                } else {
                    assert(mid.peers@[i as int].holds_index(idx2));
                }
            }
            assert forall|i: int| 0 <= i < self.peers@.len() implies (
            #[trigger] self.peers@[i]).wf() by {
                assert(mid.peers@[i].wf());
            }
            assert(response@.subrange(4, 8) =~= crate::bytes::le_u32_bytes(idx));
            crate::bytes::lemma_le_u32_round_trip(idx);
            assert(response@.subrange(8, 12) =~= crate::bytes::le_u32_bytes(sender_index));
            crate::bytes::lemma_le_u32_round_trip(sender_index);
        }
        let mut effects = Effects::none();
        effects.udp.push((src, response));
        proof {
            let new_idx = crate::bytes::le_u32_of(response@.subrange(4, 8));
            assert(new_idx == idx);
            assert(self.peers@[pi as int].current_index() == Some(idx));
            assert(self.registry.maps(idx, pi));
            assert(self.peers@[pi as int].endpoint == Some(src));
            assert(pi < self.peers@.len() && self.registry.maps(new_idx, pi)
                && self.peers@[pi as int].endpoint == Some(src)
                && self.peers@[pi as int].current_index() == Some(new_idx));
            assert(effects.udp@[0].1 == response);
            assert(crate::bytes::le_u32_of(effects.udp@[0].1@.subrange(4, 8)) == idx);
            assert(exists|pj: usize|
                #![trigger self.peers@[pj as int]]
                pj < self.peers@.len() && self.registry.maps(
                    crate::bytes::le_u32_of(effects.udp@[0].1@.subrange(4, 8)),
                    pj,
                ) && self.peers@[pj as int].endpoint == Some(src)
                    && self.peers@[pj as int].current_index() == Some(
                    crate::bytes::le_u32_of(effects.udp@[0].1@.subrange(4, 8)),
                )) by {
                assert(pi < self.peers@.len() && self.registry.maps(
                    crate::bytes::le_u32_of(effects.udp@[0].1@.subrange(4, 8)),
                    pi,
                ) && self.peers@[pi as int].endpoint == Some(src)
                    && self.peers@[pi as int].current_index() == Some(
                    crate::bytes::le_u32_of(effects.udp@[0].1@.subrange(4, 8)),
                ));
            }
        }
        Ok(effects)
    }

    /// Handles an inbound handshake response (type 2): checks shape and
    /// `mac1`, resolves the receiver index through the registry to the
    /// half-open session in some peer's *next* slot, completes the Noise
    /// handshake, ratchets the new session into *current*, flushes the
    /// queued egress traffic (or confirms with one keepalive), and arms
    /// the passive-keepalive, reject and persistent-keepalive timers.
    pub fn handle_ingress_handshake_resp(&mut self, now: u64, src: Endpoint, packet: &Vec<u8>)
        -> (r: Result<Effects, WgError>)
        requires
            old(self).wf(),
            old(self).info.public_key is Some,
        ensures
            final(self).wf(),
            final(self).peers@.len() == old(self).peers@.len(),
            final(self).info == old(self).info,
            final(self).router == old(self).router,
            !crate::msgs::msg2_well_formed(packet@) ==> r == Err::<Effects, WgError>(
                WgError::MalformedPacket,
            ),
            crate::msgs::msg2_well_formed(packet@) && !old(self).msg2_gate(packet@) ==> r == Err::<
                Effects,
                WgError,
            >(WgError::MalformedPacket),
            r is Ok ==> old(self).msg2_gate(packet@),
            old(self).msg2_gate(packet@) && !old(self).registry.contains(
                crate::bytes::le_u32_of(packet@.subrange(8, 12)),
            ) ==> r == Err::<Effects, WgError>(WgError::UnknownPeer),
            forall|pi: usize|
                old(self).msg2_gate(packet@) && #[trigger] old(self).registry.maps(
                    crate::bytes::le_u32_of(packet@.subrange(8, 12)),
                    pi,
                ) ==> ((pi >= old(self).peers@.len() ==> r == Err::<Effects, WgError>(
                    WgError::UnknownPeer,
                )) && (pi < old(self).peers@.len() && old(self).peers@[pi as int].next_index()
                    != Some(crate::bytes::le_u32_of(packet@.subrange(8, 12))) ==> r == Err::<
                    Effects,
                    WgError,
                >(WgError::CryptoFailure))),
            r is Err ==> final(self).registry == old(self).registry && final(self).router == old(
                self,
            ).router && final(self).info == old(self).info && final(self).peers@.len() == old(
                self,
            ).peers@.len() && (forall|j: int|
                0 <= j < old(self).peers@.len() ==> crate::peer::eq_modulo_next_noise(
                    old(self).peers@[j],
                    #[trigger] final(self).peers@[j],
                )),
            r matches Ok(e) ==> (forall|pi: usize|
                #[trigger] old(self).registry.maps(
                    crate::bytes::le_u32_of(packet@.subrange(8, 12)),
                    pi,
                ) && pi < old(self).peers@.len() ==> ({
                    let idx = crate::bytes::le_u32_of(packet@.subrange(8, 12));
                    let oldp = old(self).peers@[pi as int];
                    let fin = final(self).peers@[pi as int];
                    &&& (match oldp.keepalive_interval {
                        Some(secs) => e.timers@.len() == 3 && e.timers@[2] == (
                        (((secs as u64) * 1000) as u64),
                        TimerMessage {
                            kind: TimerKind::PersistentKeepAlive,
                            peer: pi,
                            our_index: idx,
                        },
                        ),
                        None => e.timers@.len() == 2,
                    })
                    &&& (oldp.endpoint matches Some(ep) ==> fin.current is Some && ({
                        let cur = fin.current->0;
                        &&& (oldp.outgoing_queue@.len() > 0 ==> crate::peer::emits_sealed_fifo(
                            cur.send_key@,
                            cur.their_index,
                            0,
                            oldp.outgoing_queue@,
                            ep,
                            e.udp@,
                        ) && fin.outgoing_queue@.len() == 0)
                        &&& (oldp.outgoing_queue@.len() == 0 ==> e.udp@.len() == 1 && e.udp@[0].0
                            == ep && e.udp@[0].1@.len() == 32 && e.udp@[0].1@
                            == crate::msgs::spec_msg4_bytes(
                            cur.their_index,
                            0,
                            crate::crypto::seal_of(
                                cur.send_key@,
                                crate::peer::nonce12(0),
                                Seq::<u8>::empty(),
                            ),
                        ))
                    }))
                })),
            r matches Err(e) ==> (e == WgError::MalformedPacket || e == WgError::UnknownPeer || e
                == WgError::CryptoFailure),
            r matches Ok(e) ==> e.tunnel@.len() == 0 && e.timers@.len() >= 2 && e.timers@[0].0
                == crate::KEEPALIVE_TIMEOUT_MS && e.timers@[0].1.kind == TimerKind::PassiveKeepAlive
                && e.timers@[0].1.our_index == crate::bytes::le_u32_of(packet@.subrange(8, 12))
                && e.timers@[1].0 == crate::REJECT_AFTER_TIME_MS && e.timers@[1].1.kind
                == TimerKind::Reject && e.timers@[1].1.our_index == crate::bytes::le_u32_of(
                packet@.subrange(8, 12),
            ),
            r is Ok ==> final(self).registry.contains(
                crate::bytes::le_u32_of(packet@.subrange(8, 12)),
            ),
    {
        let (sender_index, our_index, body) = match crate::msgs::parse_response(packet) {
            Ok(t) => t,
            Err(e) => {
                return Err(e);
            },
        };
        proof {
            assert(our_index == crate::bytes::le_u32_of(packet@.subrange(8, 12)));
        }
        let mac_ok = match &self.info.public_key {
            Some(our_pub) => crate::msgs::verify_mac1(our_pub, packet, 60),
            None => false,
        };
        if !mac_ok {
            return Err(WgError::MalformedPacket);
        }
        let pi = match self.registry.lookup(our_index) {
            Some(i) => i,
            None => {
                proof {
                    assert forall|pi2: usize|
                        old(self).registry.maps(our_index, pi2) implies false by {
                        old(self).registry.lemma_maps_contains(our_index, pi2);
                    }
                }
                return Err(WgError::UnknownPeer);
            },
        };
        proof {
            assert(old(self).registry.maps(our_index, pi));
            assert forall|pi2: usize|
                #[trigger] old(self).registry.maps(our_index, pi2) implies pi2 == pi by {
                old(self).registry.lemma_maps_unique(our_index, pi2, pi);
            }
        }
        if pi >= self.peers.len() {
            return Err(WgError::UnknownPeer);
        }
        let next_matches = match &self.peers[pi].next {
            Some(n) => n.our_index == our_index,
            None => false,
        };
        if !next_matches {
            return Err(WgError::CryptoFailure);
        }
        let mut half = {
            let peer = &mut self.peers[pi];
            match peer.next.take() {
                Some(n) => n,
                None => {
                    return Err(WgError::CryptoFailure);
                },
            }
        };
        proof {
            assert(self.peers@ == old(self).peers@.update(pi as int, self.peers@[pi as int]));
            assert forall|i: usize, idx2: u32|
                i < self.peers@.len() && #[trigger] self.peers@[i as int].holds_index(idx2)
                    implies self.registry.maps(idx2, i) by {
                if i as int == pi as int {
                    assert(old(self).peers@[pi as int].holds_index(idx2));
                } else {
                    assert(old(self).peers@[i as int].holds_index(idx2));
                }
            }
            assert forall|i: int| 0 <= i < self.peers@.len() implies (
            #[trigger] self.peers@[i]).wf() by {
                assert(old(self).peers@[i].wf());
            }
            assert(self.peers@[pi as int].keepalive_interval == old(self).peers@[pi as int].keepalive_interval);
            assert(self.peers@[pi as int].endpoint == old(self).peers@[pi as int].endpoint);
            assert(self.peers@[pi as int].outgoing_queue == old(self).peers@[pi as int].outgoing_queue);
        }
        let completed = match crate::crypto::noise_read_message(&mut half.noise, &body) {
            Some(_) => true,
            None => false,
        };
        if !completed {
            // Put the half-open session back: the response did not check out.
            let ghost mid0 = *self;
            {
                let peer = &mut self.peers[pi];
                peer.next = Some(half);
            }
            proof {
                assert(self.peers@ == mid0.peers@.update(pi as int, self.peers@[pi as int]));
                assert forall|i: usize, idx2: u32|
                    i < self.peers@.len() && #[trigger] self.peers@[i as int].holds_index(idx2)
                        implies self.registry.maps(idx2, i) by {
                    if i as int == pi as int {
                        assert(old(self).peers@[pi as int].holds_index(idx2));
                    } else {
                        assert(old(self).peers@[i as int].holds_index(idx2));
                    }
                }
                assert forall|i: int| 0 <= i < self.peers@.len() implies (
                #[trigger] self.peers@[i]).wf() by {
                    if i == pi as int {
                        assert(old(self).peers@[i].wf());
                    } else {
                        assert(old(self).peers@[i].wf());
                    }
                }
                assert forall|j: int|
                    0 <= j < old(self).peers@.len() implies crate::peer::eq_modulo_next_noise(
                    old(self).peers@[j],
                    #[trigger] self.peers@[j],
                ) by {
                    if j == pi as int {
                        assert(self.peers@[j].next->0.our_index == old(self).peers@[j].next->0.our_index);
                        assert(self.peers@[j].next->0.created == old(self).peers@[j].next->0.created);
                    }
                }
            }
            return Err(WgError::CryptoFailure);
        }
        let (k_init, k_resp) = crate::crypto::noise_raw_split(&mut half.noise);
        let ghost mid = *self;
        self.registry.remove(our_index);
        proof {
            assert forall|i: usize, idx2: u32|
                i < self.peers@.len() && #[trigger] self.peers@[i as int].holds_index(idx2)
                    implies self.registry.maps(idx2, i) by {
                assert(mid.peers@[i as int].holds_index(idx2));
                assert(mid.registry.maps(idx2, i));
                if idx2 == our_index {
                    // Only the taken half-open session carried this index.
                    assert(old(self).peers@[pi as int].holds_index(our_index));
                    assert(old(self).registry.maps(our_index, pi));
                    if i as int == pi as int {
                        assert(old(self).peers@[pi as int].wf());
                        assert(false);
                    } else {
                        assert(old(self).peers@[i as int].holds_index(idx2));
                        assert(old(self).registry.maps(idx2, i));
                        old(self).registry.lemma_maps_unique(idx2, i, pi);
                        assert(false);
                    }
                }
                assert(self.registry.maps(idx2, i));
            }
        }
        // As initiator we send with the initiator-egress key and receive
        // with the responder-egress key.
        let mut s = Session::new(our_index, sender_index, k_init, k_resp, now);
        s.established = true;
        self.ratchet_install(pi, s);
        let ghost pre_flush = *self;
        proof {
            assert(pre_flush.registry.maps(our_index, pi));
            assert(pre_flush.peers@[pi as int].current->0.send_counter == 0);
            assert(pre_flush.peers@[pi as int].outgoing_queue@.len()
                <= crate::MAX_QUEUE_PACKETS);
        }
        let keepalive_interval = self.peers[pi].keepalive_interval;
        let has_endpoint = self.peers[pi].endpoint.is_some();
        let mut effects = Effects::none();
        if has_endpoint {
            let mut sent = self.flush_queue(pi, now, true);
            let ghost sent0 = sent@;
            let mut k: usize = 0;
            let n = sent.len();
            while k < n
                invariant
                    sent0.len() == n,
                    sent@ == sent0.subrange(k as int, n as int),
                    effects.udp@ == sent0.subrange(0, k as int),
                    k <= n,
                    effects.tunnel@.len() == 0,
                    effects.timers@.len() == 0,
                decreases n - k,
            {
                proof {
                    assert(sent@[0] == sent0[k as int]);
                }
                let item = sent.remove(0);
                effects.udp.push(item);
                proof {
                    assert(sent@ =~= sent0.subrange(k + 1, n as int));
                    assert(effects.udp@ =~= sent0.subrange(0, k + 1));
                }
                k = k + 1;
            }
            proof {
                assert(effects.udp@ =~= sent0);
            }
        }
        let ghost mid2 = *self;
        {
            let peer = &mut self.peers[pi];
            peer.last_handshake = Some(now);
            peer.last_tun_queue = None;
        }
        proof {
            assert(self.peers@ == mid2.peers@.update(pi as int, self.peers@[pi as int]));
            assert forall|i: usize, idx2: u32|
                i < self.peers@.len() && #[trigger] self.peers@[i as int].holds_index(idx2)
                    implies self.registry.maps(idx2, i) by {
                if i as int == pi as int {
                    assert(mid2.peers@[pi as int].holds_index(idx2));
                } else {
                    assert(mid2.peers@[i as int].holds_index(idx2));
                }
            }
            assert forall|i: int| 0 <= i < self.peers@.len() implies (
            #[trigger] self.peers@[i]).wf() by {
                assert(mid2.peers@[i].wf());
            }
        }
        effects.timers.push(
            (
                crate::KEEPALIVE_TIMEOUT_MS,
                TimerMessage { kind: TimerKind::PassiveKeepAlive, peer: pi, our_index },
            ),
        );
        effects.timers.push(
            (
                crate::REJECT_AFTER_TIME_MS,
                TimerMessage { kind: TimerKind::Reject, peer: pi, our_index },
            ),
        );
        if let Some(secs) = keepalive_interval {
            effects.timers.push(
                (
                    (secs as u64) * 1000,
                    TimerMessage { kind: TimerKind::PersistentKeepAlive, peer: pi, our_index },
                ),
            );
        }
        proof {
            assert(self.registry.maps(our_index, pi));
            self.registry.lemma_maps_contains(our_index, pi);
        }
        Ok(effects)
    }

    /// Handles an inbound data message (type 4): resolves the receiver
    /// index through the registry, decrypts on the session that carries it
    /// (current or previous), holds the counter to the replay window,
    /// learns the source address, promotes a previous session that proved
    /// live back to *current*, and forwards non-keepalive plaintext to the
    /// tunnel only when its inner source address is allowed for the
    /// sending peer.
    pub fn handle_ingress_transport(&mut self, now: u64, src: Endpoint, packet: &Vec<u8>) -> (r:
        Result<Effects, WgError>)
        requires
            old(self).wf(),
        ensures
            final(self).wf(),
            final(self).peers@.len() == old(self).peers@.len(),
            final(self).info == old(self).info,
            final(self).router == old(self).router,
            final(self).registry == old(self).registry,
            !crate::msgs::msg4_well_formed(packet@) ==> r == Err::<Effects, WgError>(
                WgError::MalformedPacket,
            ),
            crate::msgs::msg4_well_formed(packet@) && !old(self).registry.contains(
                crate::bytes::le_u32_of(packet@.subrange(4, 8)),
            ) ==> r == Err::<Effects, WgError>(WgError::UnknownPeer),
            r matches Err(e) ==> (e == WgError::MalformedPacket || e == WgError::UnknownPeer || e
                == WgError::CryptoFailure || e == WgError::SourceUnauthorized),
            r matches Err(e) ==> (e != WgError::SourceUnauthorized ==> final(self).peers@ == old(
                self,
            ).peers@),
            forall|pi2: usize, p: Seq<u8>|
                #[trigger] old(self).transport_deliverable(packet@, pi2, p) ==> ({
                    let source_ok = crate::router::spec_inner_source(p) is Some && old(
                        self,
                    ).router.source_allowed(
                        pi2,
                        crate::router::spec_inner_source(p)->0.is_v6,
                        crate::router::spec_inner_source(p)->0.ip,
                    );
                    &&& (p.len() == 0 ==> r is Ok && (r matches Ok(e) ==> e.tunnel@.len() == 0))
                    &&& (p.len() > 0 && source_ok ==> r is Ok && (r matches Ok(e)
                        ==> e.tunnel@.len() == 1 && e.tunnel@[0]@ == p))
                    &&& (p.len() > 0 && !source_ok ==> r == Err::<Effects, WgError>(
                        WgError::SourceUnauthorized,
                    ))
                }),
            r matches Ok(e) ==> e.udp@.len() == 0 && e.timers@.len() == 0 && e.tunnel@.len() <= 1,
            r matches Ok(e) ==> (e.tunnel@.len() == 1 ==> (crate::router::spec_inner_source(
                e.tunnel@[0]@,
            ) matches Some(a) && exists|pj: usize|
                #![trigger final(self).peers@[pj as int]]
                pj < final(self).peers@.len() && old(self).registry.maps(
                    crate::bytes::le_u32_of(packet@.subrange(4, 8)),
                    pj,
                ) && final(self).router.source_allowed(pj, a.is_v6, a.ip))),
    {
        let (our_index, counter, sealed) = match crate::msgs::parse_transport(packet) {
            Ok(t) => t,
            Err(e) => {
                return Err(e);
            },
        };
        proof {
            assert(our_index == crate::bytes::le_u32_of(packet@.subrange(4, 8)));
            assert(counter == crate::bytes::le_u64_of(packet@.subrange(8, 16)));
        }
        let pi = match self.registry.lookup(our_index) {
            Some(i) => i,
            None => {
                proof {
                    assert forall|pi2: usize, p: Seq<u8>|
                        #[trigger] old(self).transport_deliverable(packet@, pi2, p) implies false by {
                        old(self).registry.lemma_maps_contains(our_index, pi2);
                    }
                }
                return Err(WgError::UnknownPeer);
            },
        };
        proof {
            assert(old(self).registry.maps(our_index, pi));
            assert forall|pi2: usize|
                #[trigger] old(self).registry.maps(our_index, pi2) implies pi2 == pi by {
                old(self).registry.lemma_maps_unique(our_index, pi2, pi);
            }
        }
        if pi >= self.peers.len() {
            return Err(WgError::UnknownPeer);
        }
        let in_current = match &self.peers[pi].current {
            Some(s) => s.our_index == our_index,
            None => false,
        };
        let in_previous = match &self.peers[pi].previous {
            Some(s) => s.our_index == our_index,
            None => false,
        };
        if !in_current && !in_previous {
            proof {
                assert(crate::peer::carrying_session(old(self).peers@[pi as int], our_index) is None);
            }
            return Err(WgError::CryptoFailure);
        }
        let ghost carried = crate::peer::carrying_session(old(self).peers@[pi as int], our_index);
        proof {
            if in_current {
                assert(carried == old(self).peers@[pi as int].current);
            } else {
                assert(carried == old(self).peers@[pi as int].previous);
            }
            assert(sealed@ == packet@.subrange(16, packet@.len() as int));
        }
        let dec: Result<Vec<u8>, WgError>;
        {
            let peer = &mut self.peers[pi];
            let res: Result<Vec<u8>, WgError> = if in_current {
                match &mut peer.current {
                    Some(sess) => sess.decrypt_transport(counter, &sealed, now),
                    None => Err(WgError::CryptoFailure),
                }
            } else {
                match &mut peer.previous {
                    Some(sess) => sess.decrypt_transport(counter, &sealed, now),
                    None => Err(WgError::CryptoFailure),
                }
            };
            match res {
                Ok(p) => {
                    let plen = packet.len();
                    peer.rx_bytes = sat_add(peer.rx_bytes, plen as u64);
                    peer.endpoint = Some(src);
                    if in_previous {
                        // The old session proved live after the ratchet:
                        // promote it back to *current*.
                        core::mem::swap(&mut peer.current, &mut peer.previous);
                    }
                    dec = Ok(p);
                },
                Err(e) => {
                    proof {
                        assert(*peer == old(self).peers@[pi as int]);
                    }
                    dec = Err(e);
                },
            }
        }
        proof {
            assert(self.peers@ == old(self).peers@.update(pi as int, self.peers@[pi as int]));
            if dec is Err {
                assert(self.peers@ =~= old(self).peers@);
            }
            assert forall|pi2: usize, p: Seq<u8>|
                #[trigger] old(self).transport_deliverable(packet@, pi2, p) implies (
                dec matches Ok(pt) && pt@ == p) by {
                assert(pi2 == pi);
            }
        }
        let pt: Vec<u8> = match dec {
            Ok(p) => p,
            Err(e) => {
                return Err(e);
            },
        };
        proof {
            assert(self.peers@ == old(self).peers@.update(pi as int, self.peers@[pi as int]));
            assert forall|i: usize, idx2: u32|
                i < self.peers@.len() && #[trigger] self.peers@[i as int].holds_index(idx2)
                    implies self.registry.maps(idx2, i) by {
                if i as int == pi as int {
                    assert(old(self).peers@[pi as int].holds_index(idx2));
                } else {
                    assert(old(self).peers@[i as int].holds_index(idx2));
                }
            }
            assert forall|i: int| 0 <= i < self.peers@.len() implies (
            #[trigger] self.peers@[i]).wf() by {
                assert(old(self).peers@[i].wf());
            }
        }
        let mut effects = Effects::none();
        if pt.len() == 0 {
            // A keepalive: counters and endpoint were updated, nothing is
            // forwarded.
            return Ok(effects);
        }
        let addr = match crate::router::inner_source(&pt) {
            Some(a) => a,
            None => {
                return Err(WgError::SourceUnauthorized);
            },
        };
        if !self.router.check_source(pi, addr) {
            return Err(WgError::SourceUnauthorized);
        }
        effects.tunnel.push(pt);
        proof {
            assert(effects.tunnel@.len() == 1);
            assert(crate::router::spec_inner_source(effects.tunnel@[0]@) == Some(addr));
            assert(pi < self.peers@.len() && old(self).registry.maps(
                crate::bytes::le_u32_of(packet@.subrange(4, 8)),
                pi,
            ) && self.router.source_allowed(pi, addr.is_v6, addr.ip));
        }
        Ok(effects)
    }

    /// Handles one plaintext packet from the tunnel: checks the size
    /// bounds, routes it by longest-prefix match on its destination,
    /// queues it with the owning peer, sends the queue if a session is
    /// ready, and triggers a handshake when the peer has none.
    pub fn handle_egress_packet(&mut self, now: u64, packet: Vec<u8>) -> (r: Result<
        Effects,
        WgError,
    >)
        requires
            old(self).wf(),
            old(self).info.private_key is Some,
        ensures
            final(self).wf(),
            final(self).peers@.len() == old(self).peers@.len(),
            final(self).info == old(self).info,
            final(self).router == old(self).router,
            (packet@.len() == 0 || packet@.len() > crate::MAX_CONTENT_SIZE) <==> r == Err::<
                Effects,
                WgError,
            >(WgError::SizeBounds),
            (1 <= packet@.len() <= crate::MAX_CONTENT_SIZE && (crate::router::spec_inner_dest(
                packet@,
            ) is None || (crate::router::spec_inner_dest(packet@) matches Some(d)
                && !old(self).router.has_route(d.is_v6, d.ip)))) ==> r == Err::<Effects, WgError>(
                WgError::NoRoute,
            ),
            r matches Err(e) && (e == WgError::SizeBounds || e == WgError::NoRoute) ==> *final(self)
                == *old(self),
            r matches Err(e) ==> (e == WgError::SizeBounds || e == WgError::NoRoute || e
                == WgError::NoEndpoint || e == WgError::CryptoFailure),
            r == Err::<Effects, WgError>(WgError::NoRoute) ==> (crate::router::spec_inner_dest(
                packet@,
            ) is None || !old(self).router.has_route(
                crate::router::spec_inner_dest(packet@)->0.is_v6,
                crate::router::spec_inner_dest(packet@)->0.ip,
            )),
            r matches Ok(e) ==> e.tunnel@.len() == 0,
            r matches Ok(e) ==> (exists|pi: usize|
                #![trigger final(self).peers@[pi as int]]
                ({
                    let oldp = old(self).peers@[pi as int];
                    let fin = final(self).peers@[pi as int];
                    let newq = crate::peer::spec_enqueued(oldp.outgoing_queue@, packet);
                    &&& pi < old(self).peers@.len()
                    &&& (exists|i: int|
                        #[trigger] old(self).router.best_at(
                            i,
                            crate::router::spec_inner_dest(packet@)->0.is_v6,
                            crate::router::spec_inner_dest(packet@)->0.ip,
                        ) && old(self).router.table()[i].1 == pi)
                    &&& (oldp.current is Some && oldp.endpoint is Some
                        && oldp.current->0.send_counter + newq.len() + 1 <= u64::MAX
                        ==> crate::peer::emits_sealed_fifo(
                        oldp.current->0.send_key@,
                        oldp.current->0.their_index,
                        oldp.current->0.send_counter,
                        newq,
                        oldp.endpoint->0,
                        e.udp@,
                    ) && fin.outgoing_queue@.len() == 0 && fin.tx_bytes >= oldp.tx_bytes
                        && e.timers@.len() == 0)
                    &&& (oldp.current is None && oldp.next is Some ==> e.udp@.len() == 0
                        && e.timers@.len() == 0 && fin.outgoing_queue@ == newq)
                    &&& (oldp.current is None && oldp.next is None ==> e.udp@.len() == 1
                        && crate::msgs::msg1_well_formed(e.udp@[0].1@) && e.udp@[0].0
                        == oldp.endpoint->0 && e.timers@.len() == 1 && e.timers@[0].1.kind
                        == TimerKind::Rekey && e.timers@[0].0 == crate::REKEY_TIMEOUT_MS + 2
                        * crate::TIMER_TICK_MS && fin.outgoing_queue@ == newq)
                    &&& (oldp.current is Some && oldp.endpoint is None ==> e.udp@.len() == 0
                        && e.timers@.len() == 0 && fin.outgoing_queue@ == newq)
                })),
    {
        if packet.len() == 0 || packet.len() > crate::MAX_CONTENT_SIZE {
            return Err(WgError::SizeBounds);
        }
        let dst = match crate::router::inner_dest(&packet) {
            Some(d) => d,
            None => {
                return Err(WgError::NoRoute);
            },
        };
        let pi = match self.router.route(dst.is_v6, dst.ip) {
            Some(p) => p,
            None => {
                return Err(WgError::NoRoute);
            },
        };
        proof {
            // The routing table only points at configured peers.
            let i = choose|i: int|
                #[trigger] self.router.best_at(i, dst.is_v6, dst.ip) && self.router.table()[i].1
                    == pi;
            assert(pi < self.peers@.len());
        }
        {
            let peer = &mut self.peers[pi];
            peer.enqueue(packet);
            if peer.last_tun_queue.is_none() {
                peer.last_tun_queue = Some(now);
            }
        }
        proof {
            assert(self.peers@ == old(self).peers@.update(pi as int, self.peers@[pi as int]));
            assert forall|i: usize, idx2: u32|
                i < self.peers@.len() && #[trigger] self.peers@[i as int].holds_index(idx2)
                    implies self.registry.maps(idx2, i) by {
                if i as int == pi as int {
                    assert(old(self).peers@[pi as int].holds_index(idx2));
                } else {
                    assert(old(self).peers@[i as int].holds_index(idx2));
                }
            }
            assert forall|i: int| 0 <= i < self.peers@.len() implies (
            #[trigger] self.peers@[i]).wf() by {
                assert(old(self).peers@[i].wf());
            }
            assert(self.peers@[pi as int].current == old(self).peers@[pi as int].current);
            assert(self.peers@[pi as int].next == old(self).peers@[pi as int].next);
            assert(self.peers@[pi as int].previous == old(self).peers@[pi as int].previous);
            assert(self.peers@[pi as int].endpoint == old(self).peers@[pi as int].endpoint);
            assert(self.peers@[pi as int].tx_bytes == old(self).peers@[pi as int].tx_bytes);
            assert(self.peers@[pi as int].outgoing_queue@ == crate::peer::spec_enqueued(
                old(self).peers@[pi as int].outgoing_queue@,
                packet,
            ));
        }
        let ready = self.peers[pi].current.is_some() && self.peers[pi].endpoint.is_some();
        let mut effects = Effects::none();
        if ready {
            let mut sent = self.flush_queue(pi, now, false);
            let ghost sent0 = sent@;
            let mut k: usize = 0;
            let n = sent.len();
            while k < n
                invariant
                    sent0.len() == n,
                    sent@ == sent0.subrange(k as int, n as int),
                    effects.udp@ == sent0.subrange(0, k as int),
                    k <= n,
                    effects.tunnel@.len() == 0,
                    effects.timers@.len() == 0,
                decreases n - k,
            {
                proof {
                    assert(sent@[0] == sent0[k as int]);
                }
                let item = sent.remove(0);
                effects.udp.push(item);
                proof {
                    assert(sent@ =~= sent0.subrange(k + 1, n as int));
                    assert(effects.udp@ =~= sent0.subrange(0, k + 1));
                }
                k = k + 1;
            }
            proof {
                assert(effects.udp@ =~= sent0);
            }
        }
        let needs = self.peers[pi].current.is_none() && self.peers[pi].next.is_none();
        if needs {
            match self.send_handshake_init(now, pi) {
                Ok(mut e2) => {
                    let ghost eu0 = e2.udp@;
                    let ghost et0 = e2.timers@;
                    let ghost ubase = effects.udp@;
                    let mut k: usize = 0;
                    let n = e2.udp.len();
                    while k < n
                        invariant
                            eu0.len() == n,
                            e2.udp@ == eu0.subrange(k as int, n as int),
                            e2.timers@ == et0,
                            effects.udp@ == ubase + eu0.subrange(0, k as int),
                            k <= n,
                            effects.tunnel@.len() == 0,
                            effects.timers@.len() == 0,
                        decreases n - k,
                    {
                        proof {
                            assert(e2.udp@[0] == eu0[k as int]);
                        }
                        let item = e2.udp.remove(0);
                        effects.udp.push(item);
                        proof {
                            assert(e2.udp@ =~= eu0.subrange(k + 1, n as int));
                            assert(effects.udp@ =~= ubase + eu0.subrange(0, k + 1));
                        }
                        k = k + 1;
                    }
                    proof {
                        assert(effects.udp@ =~= ubase + eu0);
                    }
                    let mut k2: usize = 0;
                    let n2 = e2.timers.len();
                    while k2 < n2
                        invariant
                            et0.len() == n2,
                            e2.timers@ == et0.subrange(k2 as int, n2 as int),
                            effects.timers@ == et0.subrange(0, k2 as int),
                            effects.udp@ == ubase + eu0,
                            k2 <= n2,
                            effects.tunnel@.len() == 0,
                        decreases n2 - k2,
                    {
                        proof {
                            assert(e2.timers@[0] == et0[k2 as int]);
                        }
                        let item = e2.timers.remove(0);
                        effects.timers.push(item);
                        proof {
                            assert(e2.timers@ =~= et0.subrange(k2 + 1, n2 as int));
                            assert(effects.timers@ =~= et0.subrange(0, k2 + 1));
                        }
                        k2 = k2 + 1;
                    }
                    proof {
                        assert(effects.timers@ =~= et0);
                        assert(effects.timers@.len() == 1);
                        assert(effects.timers@[0].0 == crate::REKEY_TIMEOUT_MS + 2
                            * crate::TIMER_TICK_MS);
                        assert(effects.timers@[0].1.kind == TimerKind::Rekey);
                    }
                },
                Err(e) => {
                    return Err(e);
                },
            }
        }
        proof {
            let oldp = old(self).peers@[pi as int];
            let fin = self.peers@[pi as int];
            let newq = crate::peer::spec_enqueued(oldp.outgoing_queue@, packet);
            assert(pi < old(self).peers@.len());
            assert(exists|i: int|
                #[trigger] old(self).router.best_at(i, dst.is_v6, dst.ip) && old(
                    self,
                ).router.table()[i].1 == pi);
            if oldp.current is Some && oldp.endpoint is Some && oldp.current->0.send_counter
                + newq.len() + 1 <= u64::MAX {
                assert(crate::peer::emits_sealed_fifo(
                    oldp.current->0.send_key@,
                    oldp.current->0.their_index,
                    oldp.current->0.send_counter,
                    newq,
                    oldp.endpoint->0,
                    effects.udp@,
                ));
                assert(fin.outgoing_queue@.len() == 0);
                assert(fin.tx_bytes >= oldp.tx_bytes);
                assert(effects.timers@.len() == 0);
            }
            if oldp.current is None && oldp.next is Some {
                assert(effects.udp@.len() == 0 && effects.timers@.len() == 0
                    && fin.outgoing_queue@ == newq);
            }
            if oldp.current is None && oldp.next is None {
                assert(!ready);
                assert(needs);
                assert(effects.udp@.len() == 1);
                assert(crate::msgs::msg1_well_formed(effects.udp@[0].1@));
                assert(effects.udp@[0].0 == oldp.endpoint->0);
                assert(effects.timers@.len() == 1);
                assert(effects.timers@[0].1.kind == TimerKind::Rekey);
                assert(effects.timers@[0].0 == crate::REKEY_TIMEOUT_MS + 2
                    * crate::TIMER_TICK_MS);
                assert(fin.outgoing_queue@ == newq);
            }
            if oldp.current is Some && oldp.endpoint is None {
                assert(effects.udp@.len() == 0 && effects.timers@.len() == 0
                    && fin.outgoing_queue@ == newq);
            }
        }
        Ok(effects)
    }

    /// Handles one delivered timer message.  The index the timer carries
    /// is resolved through the registry; a stale index makes the tick a
    /// no-op, which is how obsolete schedules are reaped.
    ///
    /// - `Rekey` re-initiates or waits, by the slot the session sits in;
    /// - `Reject` unconditionally clears the session from its slot and
    ///   from the registry;
    /// - `PassiveKeepAlive` sends an empty data packet when the current
    ///   session has been silent, and re-arms itself;
    /// - `PersistentKeepAlive` always sends an empty data packet and
    ///   re-arms at the peer's configured interval.
    pub fn handle_timer(&mut self, now: u64, msg: TimerMessage) -> (r: Result<Effects, WgError>)
        requires
            old(self).wf(),
            old(self).info.private_key is Some,
        ensures
            final(self).wf(),
            final(self).peers@.len() == old(self).peers@.len(),
            final(self).info == old(self).info,
            final(self).router == old(self).router,
            msg.kind == TimerKind::Reject ==> r is Ok && !final(self).registry.contains(
                msg.our_index,
            ) && (forall|pj: usize|
                pj < final(self).peers@.len() ==> !(#[trigger] final(self).peers@[pj as int]).holds_index(
                    msg.our_index,
                )),
            r matches Ok(e) ==> e.tunnel@.len() == 0,
            msg.kind == TimerKind::PassiveKeepAlive || msg.kind == TimerKind::PersistentKeepAlive
                ==> (r matches Ok(e) ==> e.udp@.len() <= 1 && (e.udp@.len() == 1
                ==> e.udp@[0].1@.len() == 32)),
            (msg.kind == TimerKind::Rekey || msg.kind == TimerKind::PassiveKeepAlive || msg.kind
                == TimerKind::PersistentKeepAlive) && !old(self).registry.contains(msg.our_index)
                ==> r == Err::<Effects, WgError>(WgError::UnknownPeer),
            forall|pi: usize|
                (msg.kind == TimerKind::PassiveKeepAlive || msg.kind
                    == TimerKind::PersistentKeepAlive) && #[trigger] old(self).registry.maps(
                    msg.our_index,
                    pi,
                ) && pi < old(self).peers@.len() ==> ({
                    let oldp = old(self).peers@[pi as int];
                    let cur = oldp.current->0;
                    let t = cur.last_sent->0;
                    let since: u64 = if now >= t {
                        (now - t) as u64
                    } else {
                        0u64
                    };
                    &&& (oldp.current_index() != Some(msg.our_index) ==> r == Err::<
                        Effects,
                        WgError,
                    >(WgError::NoSession))
                    &&& (oldp.current_index() == Some(msg.our_index) && msg.kind
                        == TimerKind::PassiveKeepAlive && cur.last_sent is Some && since
                        < crate::KEEPALIVE_TIMEOUT_MS ==> r is Ok && (r matches Ok(e)
                        ==> e.udp@.len() == 0 && e.timers@.len() == 1 && e.timers@[0].1 == msg
                        && e.timers@[0].0 == (crate::KEEPALIVE_TIMEOUT_MS - since
                        + crate::TIMER_TICK_MS) as u64))
                    &&& (oldp.current_index() == Some(msg.our_index) && (msg.kind
                        == TimerKind::PersistentKeepAlive || cur.last_sent is None || since
                        >= crate::KEEPALIVE_TIMEOUT_MS) && oldp.endpoint is Some
                        && cur.send_counter < u64::MAX ==> r is Ok && (r matches Ok(e)
                        ==> e.udp@.len() == 1 && e.udp@[0].0 == oldp.endpoint->0 && e.udp@[0].1@
                        == crate::msgs::spec_msg4_bytes(
                        cur.their_index,
                        cur.send_counter,
                        crate::crypto::seal_of(
                            cur.send_key@,
                            crate::peer::nonce12(cur.send_counter),
                            Seq::<u8>::empty(),
                        ),
                    ) && (msg.kind == TimerKind::PassiveKeepAlive ==> e.timers@.len() == 1
                        && e.timers@[0] == (crate::KEEPALIVE_TIMEOUT_MS, msg)) && (msg.kind
                        == TimerKind::PersistentKeepAlive ==> e.timers@ == (
                    match oldp.keepalive_interval {
                        Some(secs) => seq![((((secs as u64) * 1000) as u64), msg)],
                        None => Seq::<(u64, TimerMessage)>::empty(),
                    }))))
                }),
            forall|pi: usize|
                msg.kind == TimerKind::Rekey && #[trigger] old(self).registry.maps(
                    msg.our_index,
                    pi,
                ) && pi < old(self).peers@.len() ==> ({
                    let oldp = old(self).peers@[pi as int];
                    let ti = oldp.last_sent_init->0;
                    let since_init: u64 = if now >= ti {
                        (now - ti) as u64
                    } else {
                        0u64
                    };
                    let th = oldp.last_handshake->0;
                    let since_hs: u64 = if now >= th {
                        (now - th) as u64
                    } else {
                        0u64
                    };
                    &&& (oldp.next_index() == Some(msg.our_index) && oldp.last_sent_init is Some
                        && since_init < crate::REKEY_TIMEOUT_MS ==> r is Ok && (r matches Ok(e)
                        ==> e.udp@.len() == 0 && e.timers@.len() == 1 && e.timers@[0].1 == msg
                        && e.timers@[0].0 == (crate::REKEY_TIMEOUT_MS - since_init + 2
                        * crate::TIMER_TICK_MS) as u64))
                    &&& (oldp.current_index() == Some(msg.our_index) && oldp.last_handshake is Some
                        && since_hs <= crate::REKEY_AFTER_TIME_MS ==> r is Ok && (r matches Ok(e)
                        ==> e.udp@.len() == 0 && e.timers@.len() == 1 && e.timers@[0].1 == msg
                        && e.timers@[0].0 == (crate::REKEY_AFTER_TIME_MS - since_hs + 2
                        * crate::TIMER_TICK_MS) as u64))
                    &&& (oldp.current_index() == Some(msg.our_index) && (oldp.last_handshake is None
                        || since_hs > crate::REKEY_AFTER_TIME_MS) ==> (r matches Ok(e)
                        ==> e.udp@.len() == 1 && crate::msgs::msg1_well_formed(e.udp@[0].1@)
                        && e.udp@[0].0 == oldp.endpoint->0 && e.timers@.len() == 1
                        && e.timers@[0].1.kind == TimerKind::Rekey && e.timers@[0].0
                        == crate::REKEY_TIMEOUT_MS + 2 * crate::TIMER_TICK_MS))
                }),
    {
        let mut effects = Effects::none();
        match msg.kind {
            TimerKind::Reject => {
                let pi_opt = self.registry.lookup(msg.our_index);
                if let Some(pi) = pi_opt {
                    if pi < self.peers.len() {
                        {
                            let peer = &mut self.peers[pi];
                            let in_next = match &peer.next {
                                Some(n) => n.our_index == msg.our_index,
                                None => false,
                            };
                            let in_current = match &peer.current {
                                Some(s) => s.our_index == msg.our_index,
                                None => false,
                            };
                            let in_previous = match &peer.previous {
                                Some(s) => s.our_index == msg.our_index,
                                None => false,
                            };
                            if in_next {
                                peer.next = None;
                            } else if in_current {
                                peer.current = None;
                            } else if in_previous {
                                peer.previous = None;
                            }
                        }
                        proof {
                            assert(self.peers@ == old(self).peers@.update(
                                pi as int,
                                self.peers@[pi as int],
                            ));
                            assert forall|i: usize, idx2: u32|
                                i < self.peers@.len() && #[trigger] self.peers@[i as int].holds_index(
                                    idx2,
                                ) implies self.registry.maps(idx2, i) by {
                                if i as int == pi as int {
                                    assert(old(self).peers@[pi as int].holds_index(idx2));
                                } else {
                                    assert(old(self).peers@[i as int].holds_index(idx2));
                                }
                            }
                            assert forall|i: int| 0 <= i < self.peers@.len() implies (
                            #[trigger] self.peers@[i]).wf() by {
                                assert(old(self).peers@[i].wf());
                            }
                        }
                    }
                }
                let ghost mid = *self;
                self.registry.remove(msg.our_index);
                proof {
                    assert forall|i: usize, idx2: u32|
                        i < self.peers@.len() && #[trigger] self.peers@[i as int].holds_index(idx2)
                            implies self.registry.maps(idx2, i) by {
                        assert(mid.peers@[i as int].holds_index(idx2));
                        assert(mid.registry.maps(idx2, i));
                        if idx2 == msg.our_index {
                            // The slot that held it was cleared; any other
                            // holder would collide in the registry.
                            match pi_opt {
                                Some(pi) => {
                                    if pi < mid.peers@.len() {
                                        assert(!mid.peers@[pi as int].holds_index(msg.our_index));
                                        if i as int != pi as int {
                                            assert(old(self).peers@[i as int].holds_index(idx2));
                                            assert(old(self).registry.maps(idx2, i));
                                            assert(old(self).registry.maps(idx2, pi));
                                            old(self).registry.lemma_maps_unique(idx2, i, pi);
                                            assert(false);
                                        } else {
                                            assert(false);
                                        }
                                    } else {
                                        assert(old(self).registry.maps(idx2, i));
                                        assert(old(self).registry.maps(idx2, pi));
                                        old(self).registry.lemma_maps_unique(idx2, i, pi);
                                        assert(false);
                                    }
                                },
                                None => {
                                    assert(old(self).registry.maps(idx2, i));
                                    old(self).registry.lemma_maps_contains(idx2, i);
                                    assert(false);
                                },
                            }
                        }
                        assert(self.registry.maps(idx2, i));
                    }
                    assert forall|pj: usize|
                        pj < self.peers@.len() implies !(#[trigger] self.peers@[pj as int]).holds_index(
                        msg.our_index,
                    ) by {
                        if self.peers@[pj as int].holds_index(msg.our_index) {
                            assert(self.registry.maps(msg.our_index, pj));
                            self.registry.lemma_maps_contains(msg.our_index, pj);
                        }
                    }
                }
                Ok(effects)
            },
            TimerKind::Rekey => {
                let pi = match self.registry.lookup(msg.our_index) {
                    Some(i) => i,
                    None => {
                        proof {
                            assert forall|pi2: usize|
                                old(self).registry.maps(msg.our_index, pi2) implies false by {
                                old(self).registry.lemma_maps_contains(msg.our_index, pi2);
                            }
                        }
                        return Err(WgError::UnknownPeer);
                    },
                };
                proof {
                    assert(old(self).registry.maps(msg.our_index, pi));
                    assert forall|pi2: usize|
                        #[trigger] old(self).registry.maps(msg.our_index, pi2) implies pi2
                        == pi by {
                        old(self).registry.lemma_maps_unique(msg.our_index, pi2, pi);
                    }
                }
                if pi >= self.peers.len() {
                    return Err(WgError::UnknownPeer);
                }
                let in_next = match &self.peers[pi].next {
                    Some(n) => n.our_index == msg.our_index,
                    None => false,
                };
                let in_current = match &self.peers[pi].current {
                    Some(s) => s.our_index == msg.our_index,
                    None => false,
                };
                if in_next {
                    if let Some(t) = self.peers[pi].last_sent_init {
                        let since = if now >= t {
                            now - t
                        } else {
                            0
                        };
                        if since < crate::REKEY_TIMEOUT_MS {
                            effects.timers.push(
                                (
                                    crate::REKEY_TIMEOUT_MS - since + 2 * crate::TIMER_TICK_MS,
                                    msg,
                                ),
                            );
                            return Ok(effects);
                        }
                    }
                    if let Some(t2) = self.peers[pi].last_tun_queue {
                        let since2 = if now >= t2 {
                            now - t2
                        } else {
                            0
                        };
                        if since2 > crate::REKEY_ATTEMPT_TIME_MS {
                            // Too long with nothing getting through: give
                            // this attempt up.
                            {
                                let peer = &mut self.peers[pi];
                                peer.last_tun_queue = None;
                            }
                            proof {
                                assert(self.peers@ == old(self).peers@.update(
                                    pi as int,
                                    self.peers@[pi as int],
                                ));
                                assert forall|i: usize, idx2: u32|
                                    i < self.peers@.len()
                                        && #[trigger] self.peers@[i as int].holds_index(idx2)
                                        implies self.registry.maps(idx2, i) by {
                                    if i as int == pi as int {
                                        assert(old(self).peers@[pi as int].holds_index(idx2));
                                    } else {
                                        assert(old(self).peers@[i as int].holds_index(idx2));
                                    }
                                }
                                assert forall|i: int| 0 <= i < self.peers@.len() implies (
                                #[trigger] self.peers@[i]).wf() by {
                                    assert(old(self).peers@[i].wf());
                                }
                            }
                            return Ok(effects);
                        }
                    }
                    self.send_handshake_init(now, pi)
                } else if in_current {
                    if let Some(t) = self.peers[pi].last_handshake {
                        let since = if now >= t {
                            now - t
                        } else {
                            0
                        };
                        if since <= crate::REKEY_AFTER_TIME_MS {
                            effects.timers.push(
                                (
                                    crate::REKEY_AFTER_TIME_MS - since + 2 * crate::TIMER_TICK_MS,
                                    msg,
                                ),
                            );
                            return Ok(effects);
                        }
                    }
                    self.send_handshake_init(now, pi)
                } else {
                    Err(WgError::UnknownPeer)
                }
            },
            TimerKind::PassiveKeepAlive | TimerKind::PersistentKeepAlive => {
                let persistent = matches!(msg.kind, TimerKind::PersistentKeepAlive);
                let pi = match self.registry.lookup(msg.our_index) {
                    Some(i) => i,
                    None => {
                        proof {
                            assert forall|pi2: usize|
                                old(self).registry.maps(msg.our_index, pi2) implies false by {
                                old(self).registry.lemma_maps_contains(msg.our_index, pi2);
                            }
                        }
                        return Err(WgError::UnknownPeer);
                    },
                };
                proof {
                    assert(old(self).registry.maps(msg.our_index, pi));
                    assert forall|pi2: usize|
                        #[trigger] old(self).registry.maps(msg.our_index, pi2) implies pi2
                        == pi by {
                        old(self).registry.lemma_maps_unique(msg.our_index, pi2, pi);
                    }
                }
                if pi >= self.peers.len() {
                    return Err(WgError::UnknownPeer);
                }
                let in_current = match &self.peers[pi].current {
                    Some(s) => s.our_index == msg.our_index,
                    None => false,
                };
                if !in_current {
                    return Err(WgError::NoSession);
                }
                if !persistent {
                    let last_sent = match &self.peers[pi].current {
                        Some(s) => s.last_sent,
                        None => None,
                    };
                    if let Some(t) = last_sent {
                        let since = if now >= t {
                            now - t
                        } else {
                            0
                        };
                        if since < crate::KEEPALIVE_TIMEOUT_MS {
                            effects.timers.push(
                                (
                                    crate::KEEPALIVE_TIMEOUT_MS - since + crate::TIMER_TICK_MS,
                                    msg,
                                ),
                            );
                            return Ok(effects);
                        }
                    }
                }
                let ep = match &self.peers[pi].endpoint {
                    Some(e) => *e,
                    None => {
                        return Err(WgError::NoEndpoint);
                    },
                };
                let counter_spent = match &self.peers[pi].current {
                    Some(s) => s.send_counter == u64::MAX,
                    None => true,
                };
                if counter_spent {
                    return Err(WgError::CryptoFailure);
                }
                {
                    let peer = &mut self.peers[pi];
                    match &mut peer.current {
                        Some(sess) => {
                            let empty: Vec<u8> = Vec::new();
                            let wire = sess.encrypt_transport(&empty, now);
                            effects.udp.push((ep, wire));
                        },
                        None => {},
                    }
                }
                proof {
                    assert(self.peers@ == old(self).peers@.update(
                        pi as int,
                        self.peers@[pi as int],
                    ));
                    assert forall|i: usize, idx2: u32|
                        i < self.peers@.len() && #[trigger] self.peers@[i as int].holds_index(idx2)
                            implies self.registry.maps(idx2, i) by {
                        if i as int == pi as int {
                            assert(old(self).peers@[pi as int].holds_index(idx2));
                        } else {
                            assert(old(self).peers@[i as int].holds_index(idx2));
                        }
                    }
                    assert forall|i: int| 0 <= i < self.peers@.len() implies (
                    #[trigger] self.peers@[i]).wf() by {
                        assert(old(self).peers@[i].wf());
                    }
                    assert(self.peers@[pi as int].keepalive_interval == old(self).peers@[pi as int].keepalive_interval);
                }
                if persistent {
                    if let Some(secs) = self.peers[pi].keepalive_interval {
                        effects.timers.push(((secs as u64) * 1000, msg));
                    }
                } else {
                    effects.timers.push((crate::KEEPALIVE_TIMEOUT_MS, msg));
                }
                Ok(effects)
            },
        }
    }

    /// Dispatches one inbound UDP datagram by its first byte: handshake
    /// initiation, handshake response, cookie reply (validated for shape
    /// only, not acted upon), or data.
    pub fn handle_ingress_packet(&mut self, now: u64, src: Endpoint, packet: &Vec<u8>) -> (r:
        Result<Effects, WgError>)
        requires
            old(self).wf(),
            old(self).info.private_key is Some,
            old(self).info.public_key is Some,
        ensures
            final(self).wf(),
            final(self).peers@.len() == old(self).peers@.len(),
            final(self).info == old(self).info,
            final(self).router == old(self).router,
            packet@.len() == 0 ==> r == Err::<Effects, WgError>(WgError::MalformedPacket),
            packet@.len() > 0 && packet@[0] == 3u8 ==> (*final(self) == *old(self) && (r is Ok
                <==> packet@.len() == 64)),
            packet@.len() > 0 && (packet@[0] == 0u8 || packet@[0] > 4u8) ==> r == Err::<
                Effects,
                WgError,
            >(WgError::MalformedPacket),
            packet@.len() > 0 && packet@[0] == 1u8 && !crate::msgs::msg1_well_formed(packet@)
                ==> r == Err::<Effects, WgError>(WgError::MalformedPacket),
            crate::msgs::msg1_well_formed(packet@) && !old(self).msg1_gate(packet@) ==> r == Err::<
                Effects,
                WgError,
            >(WgError::MalformedPacket),
            packet@.len() > 0 && packet@[0] == 1u8 ==> (r is Ok ==> old(self).msg1_gate(packet@))
                && (r is Err ==> *final(self) == *old(self)),
            packet@.len() > 0 && packet@[0] == 2u8 && !crate::msgs::msg2_well_formed(packet@)
                ==> r == Err::<Effects, WgError>(WgError::MalformedPacket),
            crate::msgs::msg2_well_formed(packet@) && !old(self).msg2_gate(packet@) ==> r == Err::<
                Effects,
                WgError,
            >(WgError::MalformedPacket),
            r is Ok && packet@.len() > 0 && packet@[0] == 2u8 ==> old(self).msg2_gate(packet@),
            old(self).msg2_gate(packet@) && !old(self).registry.contains(
                crate::bytes::le_u32_of(packet@.subrange(8, 12)),
            ) ==> r == Err::<Effects, WgError>(WgError::UnknownPeer),
            packet@.len() > 0 && packet@[0] == 4u8 && !crate::msgs::msg4_well_formed(packet@)
                ==> r == Err::<Effects, WgError>(WgError::MalformedPacket),
            crate::msgs::msg4_well_formed(packet@) && !old(self).registry.contains(
                crate::bytes::le_u32_of(packet@.subrange(4, 8)),
            ) ==> r == Err::<Effects, WgError>(WgError::UnknownPeer),
            forall|pi2: usize, p: Seq<u8>|
                #[trigger] old(self).transport_deliverable(packet@, pi2, p) ==> ({
                    let source_ok = crate::router::spec_inner_source(p) is Some && old(
                        self,
                    ).router.source_allowed(
                        pi2,
                        crate::router::spec_inner_source(p)->0.is_v6,
                        crate::router::spec_inner_source(p)->0.ip,
                    );
                    &&& (p.len() == 0 ==> r is Ok && (r matches Ok(e) ==> e.tunnel@.len() == 0))
                    &&& (p.len() > 0 && source_ok ==> r is Ok && (r matches Ok(e)
                        ==> e.tunnel@.len() == 1 && e.tunnel@[0]@ == p))
                    &&& (p.len() > 0 && !source_ok ==> r == Err::<Effects, WgError>(
                        WgError::SourceUnauthorized,
                    ))
                }),
    {
        if packet.len() == 0 {
            return Err(WgError::MalformedPacket);
        }
        let t = packet[0];
        if t == 1u8 {
            self.handle_ingress_handshake_init(now, src, packet)
        } else if t == 2u8 {
            self.handle_ingress_handshake_resp(now, src, packet)
        } else if t == 3u8 {
            if packet.len() == crate::msgs::MSG3_LEN {
                Ok(Effects::none())
            } else {
                Err(WgError::MalformedPacket)
            }
        } else if t == 4u8 {
            self.handle_ingress_transport(now, src, packet)
        } else {
            Err(WgError::MalformedPacket)
        }
    }
}

/// `a + b`, saturating at the top of the range.
pub fn sat_add(a: u64, b: u64) -> (r: u64)
    ensures
        r == if a + b <= u64::MAX {
            a + b
        } else {
            u64::MAX as int
        },
{
    if a <= u64::MAX - b {
        a + b
    } else {
        u64::MAX
    }
}

/// The 12-byte TAI64N timestamp that a handshake initiation carries:
/// seconds past the TAI64 label origin big-endian, then nanoseconds.
pub fn tai64n(now_ms: u64) -> (r: Vec<u8>)
    ensures
        r@.len() == 12,
        r@ == crate::bytes::be_u64_bytes((0x4000000000000000 + 10 + now_ms / 1000) as u64)
            + crate::bytes::be_u32_bytes(((now_ms % 1000) * 1000000) as u32),
{
    let secs = now_ms / 1000;
    let nanos: u32 = ((now_ms % 1000) as u32) * 1000000;
    let label: u64 = 0x4000000000000000u64 + 10u64 + secs;
    let mut r: Vec<u8> = Vec::new();
    crate::bytes::push_be_u64(&mut r, label);
    crate::bytes::push_be_u32(&mut r, nanos);
    r
}

} // verus!
