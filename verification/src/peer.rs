//! Per-peer state: the three-slot session ring (previous, current, next),
//! the endpoint, byte counters, handshake bookkeeping and the bounded
//! egress queue; and the keyed session with its nonce counter, replay
//! window and transport AEAD.

use vstd::prelude::*;

use crate::bytes::le_u64_bytes;
use crate::crypto::{aead_open, aead_seal, seal_of};
use crate::msgs::{build_transport, spec_msg4_bytes, zeros};
use crate::replay::ReplayWindow;
use crate::{WgError, MAX_CONTENT_SIZE, MAX_QUEUE_PACKETS};

verus! {

/// A remote address: IPv4 addresses live in the low 32 bits.
#[derive(Clone, Copy, Debug, PartialEq, Eq, Structural)]
pub struct Endpoint {
    pub is_v6: bool,
    pub ip: u128,
    pub port: u16,
}

/// The 12-byte AEAD nonce that WireGuard forms from a send counter:
/// four zero bytes, then the counter little-endian.
pub open spec fn nonce12(counter: u64) -> Seq<u8> {
    zeros(4) + le_u64_bytes(counter)
}

/// Builds the 12-byte AEAD nonce for a counter.
pub fn nonce_bytes(counter: u64) -> (r: Vec<u8>)
    ensures
        r@ == nonce12(counter),
        r@.len() == 12,
{
    let mut r: Vec<u8> = Vec::new();
    r.push(0u8);
    r.push(0u8);
    r.push(0u8);
    r.push(0u8);
    proof {
        assert(r@ =~= zeros(4));
    }
    crate::bytes::push_le_u64(&mut r, counter);
    r
}

/// A keyed session produced by one completed handshake.
pub struct Session {
    pub our_index: u32,
    pub their_index: u32,
    pub send_key: Vec<u8>,
    pub recv_key: Vec<u8>,
    pub send_counter: u64,
    pub replay: ReplayWindow,
    pub established: bool,
    pub created: u64,
    pub last_sent: Option<u64>,
    pub last_recv: Option<u64>,
}

impl Session {
    /// Keys are 32 bytes and the replay window is intact.
    pub open spec fn wf(self) -> bool {
        self.send_key@.len() == 32 && self.recv_key@.len() == 32 && self.replay.wf()
    }

    /// A fresh session with the given indices and keys.
    pub fn new(our_index: u32, their_index: u32, send_key: Vec<u8>, recv_key: Vec<u8>, now: u64)
        -> (r: Session)
        requires
            send_key@.len() == 32,
            recv_key@.len() == 32,
        ensures
            r.wf(),
            r.our_index == our_index,
            r.their_index == their_index,
            r.send_key == send_key,
            r.recv_key == recv_key,
            r.send_counter == 0,
            !r.established,
            r.created == now,
            forall|c: u64| r.replay.accepts(c),
    {
        Session {
            our_index,
            their_index,
            send_key,
            recv_key,
            send_counter: 0,
            replay: ReplayWindow::new(),
            established: false,
            created: now,
            last_sent: None,
            last_recv: None,
        }
    }

    /// Seals a plaintext under the session's send key at the present
    /// counter and wraps it as a data message.  The counter moves strictly
    /// up by one: no nonce is ever used twice.
    pub fn encrypt_transport(&mut self, plain: &Vec<u8>, now: u64) -> (r: Vec<u8>)
        requires
            old(self).wf(),
            old(self).send_counter < u64::MAX,
            plain@.len() <= MAX_CONTENT_SIZE,
        ensures
            final(self).wf(),
            r@ == spec_msg4_bytes(
                old(self).their_index,
                old(self).send_counter,
                seal_of(old(self).send_key@, nonce12(old(self).send_counter), plain@),
            ),
            r@.len() == plain@.len() + 32,
            final(self).send_counter == old(self).send_counter + 1,
            final(self).last_sent == Some(now),
            final(self).our_index == old(self).our_index,
            final(self).their_index == old(self).their_index,
            final(self).send_key == old(self).send_key,
            final(self).recv_key == old(self).recv_key,
            final(self).replay == old(self).replay,
            final(self).established == old(self).established,
            final(self).created == old(self).created,
            final(self).last_recv == old(self).last_recv,
    {
        let nonce = nonce_bytes(self.send_counter);
        let sealed = aead_seal(&self.send_key, &nonce, plain);
        let packet = build_transport(self.their_index, self.send_counter, &sealed);
        self.send_counter = self.send_counter + 1;
        self.last_sent = Some(now);
        packet
    }

    /// Opens a sealed transport payload at the given counter, then holds it
    /// to the replay window.  A counter the window has refused once, or has
    /// already accepted, is refused now and forever.
    pub fn decrypt_transport(&mut self, counter: u64, sealed: &Vec<u8>, now: u64) -> (r: Result<
        Vec<u8>,
        WgError,
    >)
        requires
            old(self).wf(),
        ensures
            final(self).wf(),
            final(self).our_index == old(self).our_index,
            final(self).their_index == old(self).their_index,
            final(self).send_key == old(self).send_key,
            final(self).recv_key == old(self).recv_key,
            final(self).send_counter == old(self).send_counter,
            r is Err ==> *final(self) == *old(self),
            r matches Err(e) ==> e == WgError::CryptoFailure,
            r is Ok ==> old(self).replay.accepts(counter) && !final(self).replay.accepts(counter)
                && final(self).established && final(self).last_recv == Some(now),
            r matches Ok(pt) ==> pt@.len() + 16 == sealed@.len(),
            forall|d: u64| !old(self).replay.accepts(d) ==> !final(self).replay.accepts(d),
            forall|p: Seq<u8>|
                sealed@ == #[trigger] seal_of(old(self).recv_key@, nonce12(counter), p) && p.len()
                    <= 65535 && old(self).replay.accepts(counter) ==> r is Ok && (r matches Ok(pt)
                    && pt@ == p),
    {
        let nonce = nonce_bytes(counter);
        match aead_open(&self.recv_key, &nonce, sealed) {
            None => Err(WgError::CryptoFailure),
            Some(pt) => {
                if !self.replay.check_and_accept(counter) {
                    return Err(WgError::CryptoFailure);
                }
                self.established = true;
                self.last_recv = Some(now);
                Ok(pt)
            },
        }
    }
}

/// Sealing a plaintext at a counter on one side and opening it on the
/// other side of the same keyed session yields the plaintext back: the
/// whole data-message pipeline — sealing, framing, parsing, opening —
/// loses nothing.
pub fn transport_round_trip(
    sender: &mut Session,
    receiver: &mut Session,
    plain: &Vec<u8>,
    now: u64,
) -> (r: Result<Vec<u8>, WgError>)
    requires
        old(sender).wf(),
        old(receiver).wf(),
        old(receiver).recv_key@ == old(sender).send_key@,
        old(sender).send_counter < u64::MAX,
        old(receiver).replay.accepts(old(sender).send_counter),
        1 <= plain@.len() <= MAX_CONTENT_SIZE,
    ensures
        r is Ok,
        r matches Ok(pt) ==> pt@ == plain@,
{
    let ghost c0 = sender.send_counter;
    let packet = sender.encrypt_transport(plain, now);
    proof {
        crate::msgs::lemma_transport_round_trip(
            old(sender).their_index,
            c0,
            seal_of(old(sender).send_key@, nonce12(c0), plain@),
        );
    }
    let (_receiver_index, counter, sealed) = match crate::msgs::parse_transport(&packet) {
        Ok(t) => t,
        Err(_) => {
            return Err(WgError::MalformedPacket);
        },
    };
    proof {
        assert(counter == c0);
        assert(sealed@ == seal_of(old(sender).send_key@, nonce12(c0), plain@));
    }
    receiver.decrypt_transport(counter, &sealed, now)
}

/// `out` is exactly the queue `q` sealed FIFO under `send_key`, wrapped as
/// data messages for `their_index` with counters rising from `start`, all
/// addressed to `ep`.
pub open spec fn emits_sealed_fifo(
    send_key: Seq<u8>,
    their_index: u32,
    start: u64,
    q: Seq<Vec<u8>>,
    ep: Endpoint,
    out: Seq<(Endpoint, Vec<u8>)>,
) -> bool {
    out.len() == q.len() && forall|k: int|
        0 <= k < q.len() ==> (#[trigger] out[k]).0 == ep && out[k].1@ == spec_msg4_bytes(
            their_index,
            (start + k) as u64,
            seal_of(send_key, nonce12((start + k) as u64), q[k]@),
        )
}

/// The two peers agree on everything observable; only the opaque Noise
/// state of a half-open session in *next* may differ.
pub open spec fn eq_modulo_next_noise(a: Peer, b: Peer) -> bool {
    &&& a.public_key == b.public_key
    &&& a.psk == b.psk
    &&& a.endpoint == b.endpoint
    &&& a.keepalive_interval == b.keepalive_interval
    &&& a.current == b.current
    &&& a.previous == b.previous
    &&& a.next is Some == b.next is Some
    &&& a.next_index() == b.next_index()
    &&& (a.next is Some && b.next is Some ==> a.next->0.created == b.next->0.created)
    &&& a.outgoing_queue == b.outgoing_queue
    &&& a.tx_bytes == b.tx_bytes
    &&& a.rx_bytes == b.rx_bytes
    &&& a.last_sent_init == b.last_sent_init
    &&& a.last_tun_queue == b.last_tun_queue
    &&& a.last_handshake == b.last_handshake
}

/// The keyed session of `p` that carries index `idx`: the current slot
/// first, else the previous one; the half-open *next* slot has no keys.
pub open spec fn carrying_session(p: Peer, idx: u32) -> Option<Session> {
    if p.current_index() == Some(idx) {
        p.current
    } else if p.previous_index() == Some(idx) {
        p.previous
    } else {
        None
    }
}

/// The queue after appending `p`, dropping the oldest entry when full.
pub open spec fn spec_enqueued(q: Seq<Vec<u8>>, p: Vec<u8>) -> Seq<Vec<u8>> {
    if q.len() >= MAX_QUEUE_PACKETS {
        q.subrange(1, q.len() as int).push(p)
    } else {
        q.push(p)
    }
}

/// The initiator half of a handshake in flight, waiting in the *next* slot.
pub struct InitSession {
    pub our_index: u32,
    pub noise: snow::HandshakeState,
    pub created: u64,
}

/// One configured peer.
pub struct Peer {
    pub public_key: Vec<u8>,
    pub psk: Vec<u8>,
    pub endpoint: Option<Endpoint>,
    pub keepalive_interval: Option<u32>,
    pub next: Option<InitSession>,
    pub current: Option<Session>,
    pub previous: Option<Session>,
    pub outgoing_queue: Vec<Vec<u8>>,
    pub tx_bytes: u64,
    pub rx_bytes: u64,
    pub last_sent_init: Option<u64>,
    pub last_tun_queue: Option<u64>,
    pub last_handshake: Option<u64>,
}

impl Peer {
    /// The index of the session in flight in *next*, if any.
    pub open spec fn next_index(self) -> Option<u32> {
        match self.next {
            Some(n) => Some(n.our_index),
            None => None,
        }
    }

    /// The index of the *current* session, if any.
    pub open spec fn current_index(self) -> Option<u32> {
        match self.current {
            Some(s) => Some(s.our_index),
            None => None,
        }
    }

    /// The index of the *previous* session, if any.
    pub open spec fn previous_index(self) -> Option<u32> {
        match self.previous {
            Some(s) => Some(s.our_index),
            None => None,
        }
    }

    /// Keys well-formed, sessions well-formed, the ring's indices pairwise
    /// distinct, and the egress queue within its bound.
    pub open spec fn wf(self) -> bool {
        &&& self.public_key@.len() == 32
        &&& self.psk@.len() == 32
        &&& (self.current is Some ==> self.current->0.wf())
        &&& (self.previous is Some ==> self.previous->0.wf())
        &&& (self.next is Some && self.current is Some ==> self.next_index()
            != self.current_index())
        &&& (self.next is Some && self.previous is Some ==> self.next_index()
            != self.previous_index())
        &&& (self.current is Some && self.previous is Some ==> self.current_index()
            != self.previous_index())
        &&& self.outgoing_queue@.len() <= MAX_QUEUE_PACKETS
        &&& (forall|i: int|
            0 <= i < self.outgoing_queue@.len() ==> 1 <= (#[trigger] self.outgoing_queue@[i])@.len()
                <= MAX_CONTENT_SIZE)
    }

    /// Whether one of the three slots holds a session with this index.
    pub open spec fn holds_index(self, idx: u32) -> bool {
        self.next_index() == Some(idx) || self.current_index() == Some(idx)
            || self.previous_index() == Some(idx)
    }

    /// A fresh peer with no sessions and an empty queue.
    pub fn new(
        public_key: Vec<u8>,
        psk: Vec<u8>,
        endpoint: Option<Endpoint>,
        keepalive_interval: Option<u32>,
    ) -> (r: Peer)
        requires
            public_key@.len() == 32,
            psk@.len() == 32,
        ensures
            r.wf(),
            r.public_key == public_key,
            r.psk == psk,
            r.endpoint == endpoint,
            r.keepalive_interval == keepalive_interval,
            r.next is None,
            r.current is None,
            r.previous is None,
            r.outgoing_queue@.len() == 0,
            forall|idx: u32| !r.holds_index(idx),
    {
        Peer {
            public_key,
            psk,
            endpoint,
            keepalive_interval,
            next: None,
            current: None,
            previous: None,
            outgoing_queue: Vec::new(),
            tx_bytes: 0,
            rx_bytes: 0,
            last_sent_init: None,
            last_tun_queue: None,
            last_handshake: None,
        }
    }

    /// A peer can carry transport traffic: a current session and a known
    /// endpoint.
    pub fn ready_for_transport(&self) -> (r: bool)
        ensures
            r == (self.current is Some && self.endpoint is Some),
    {
        self.current.is_some() && self.endpoint.is_some()
    }

    /// A peer needs a fresh handshake: no current session and none in
    /// flight.
    pub fn needs_new_handshake(&self) -> (r: bool)
        ensures
            r == (self.current is None && self.next is None),
    {
        self.current.is_none() && self.next.is_none()
    }

    /// Queues one egress plaintext, dropping the oldest packet when the
    /// queue is full.
    pub fn enqueue(&mut self, packet: Vec<u8>)
        requires
            old(self).wf(),
            1 <= packet@.len() <= MAX_CONTENT_SIZE,
        ensures
            final(self).wf(),
            final(self).outgoing_queue@ == spec_enqueued(old(self).outgoing_queue@, packet),
            final(self).outgoing_queue@.len() <= old(self).outgoing_queue@.len() + 1,
            final(self).outgoing_queue@.len() > 0,
            final(self).outgoing_queue@.last() == packet,
            final(self).tx_bytes == old(self).tx_bytes,
            final(self).rx_bytes == old(self).rx_bytes,
            final(self).keepalive_interval == old(self).keepalive_interval,
            final(self).last_sent_init == old(self).last_sent_init,
            final(self).last_handshake == old(self).last_handshake,
            final(self).next == old(self).next,
            final(self).current == old(self).current,
            final(self).previous == old(self).previous,
            final(self).public_key == old(self).public_key,
            final(self).psk == old(self).psk,
            final(self).endpoint == old(self).endpoint,
    {
        if self.outgoing_queue.len() >= MAX_QUEUE_PACKETS {
            self.outgoing_queue.remove(0);
        }
        self.outgoing_queue.push(packet);
    }

    /// Ratchets a freshly keyed session into *current*: the old current
    /// moves to *previous*; whatever sat in *previous* or in *next* is
    /// dropped, and their indices are handed back for the registry.
    pub fn install_current(&mut self, s: Session) -> (dead: (Option<u32>, Option<u32>))
        requires
            old(self).wf(),
            s.wf(),
            !old(self).holds_index(s.our_index),
        ensures
            final(self).wf(),
            final(self).next is None,
            final(self).current == Some(s),
            final(self).previous == old(self).current,
            dead.0 == old(self).previous_index(),
            dead.1 == old(self).next_index(),
            final(self).public_key == old(self).public_key,
            final(self).psk == old(self).psk,
            final(self).endpoint == old(self).endpoint,
            final(self).keepalive_interval == old(self).keepalive_interval,
            final(self).outgoing_queue == old(self).outgoing_queue,
            final(self).last_sent_init == old(self).last_sent_init,
            final(self).last_tun_queue == old(self).last_tun_queue,
            final(self).last_handshake == old(self).last_handshake,
            forall|idx: u32|
                final(self).holds_index(idx) == (idx == s.our_index || (
                old(self).current matches Some(c) && c.our_index == idx)),
    {
        let dead_prev: Option<u32> = match &self.previous {
            Some(p) => Some(p.our_index),
            None => None,
        };
        let dead_next: Option<u32> = match &self.next {
            Some(n) => Some(n.our_index),
            None => None,
        };
        self.next = None;
        let cur = self.current.take();
        self.previous = cur;
        self.current = Some(s);
        (dead_prev, dead_next)
    }
}

} // verus!
