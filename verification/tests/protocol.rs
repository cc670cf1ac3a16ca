use wireguard_core::peer::Endpoint;
use wireguard_core::router::IpPrefix;
use wireguard_core::server::{PeerServer, TimerKind, TimerMessage};
use wireguard_core::WgError;

const ALICE_PRIV: [u8; 32] = [
    0x77, 0x07, 0x6d, 0x0a, 0x73, 0x18, 0xa5, 0x7d, 0x3c, 0x16, 0xc1, 0x72, 0x51, 0xb2, 0x66,
    0x45, 0xdf, 0x4c, 0x2f, 0x87, 0xeb, 0xc0, 0x99, 0x2a, 0xb1, 0x77, 0xfb, 0xa5, 0x1d, 0xb9,
    0x2c, 0x2a,
];

const ALICE_PUB: [u8; 32] = [
    0x85, 0x20, 0xf0, 0x09, 0x89, 0x30, 0xa7, 0x54, 0x74, 0x8b, 0x7d, 0xdc, 0xb4, 0x3e, 0xf7,
    0x5a, 0x0d, 0xbf, 0x3a, 0x0d, 0x26, 0x38, 0x1a, 0xf4, 0xeb, 0xa4, 0xa9, 0x8e, 0xaa, 0x9b,
    0x4e, 0x6a,
];

const BOB_PRIV: [u8; 32] = [
    0x5d, 0xab, 0x08, 0x7e, 0x62, 0x4a, 0x8a, 0x4b, 0x79, 0xe1, 0x7f, 0x8b, 0x83, 0x80, 0x0e,
    0xe6, 0x6f, 0x3b, 0xb1, 0x29, 0x26, 0x18, 0xb6, 0xfd, 0x1c, 0x2f, 0x8b, 0x27, 0xff, 0x88,
    0xe0, 0xeb,
];

const BOB_PUB: [u8; 32] = [
    0xde, 0x9e, 0xdb, 0x7d, 0x7b, 0x7d, 0xc1, 0xb4, 0xd3, 0x5b, 0x61, 0xc2, 0xec, 0xe4, 0x35,
    0x37, 0x3f, 0x83, 0x43, 0xc8, 0x5b, 0x78, 0x67, 0x4d, 0xad, 0xfc, 0x7e, 0x14, 0x6f, 0x88,
    0x2b, 0x4f,
];

fn ep(ip: u32, port: u16) -> Endpoint {
    Endpoint { is_v6: false, ip: ip as u128, port }
}

fn v4_packet(src: [u8; 4], dst: [u8; 4]) -> Vec<u8> {
    let mut p = vec![0u8; 20];
    p[0] = 0x45;
    p[12..16].copy_from_slice(&src);
    p[16..20].copy_from_slice(&dst);
    p
}

fn read_u32_le(b: &[u8]) -> u32 {
    u32::from_le_bytes([b[0], b[1], b[2], b[3]])
}

/// Alice is the responder; Bob the initiator.  Alice accepts inner sources
/// in 10.0.0.0/24 from Bob; Bob routes 10.0.1.0/24 to Alice.
fn make_pair() -> (PeerServer, PeerServer, Endpoint, Endpoint) {
    let ep_alice = ep(0xc633_6401, 51820);
    let ep_bob = ep(0xc633_6407, 51820);
    let mut alice = PeerServer::new(Some(ALICE_PRIV.to_vec()), 51820);
    let pb = alice.add_peer(BOB_PUB.to_vec(), None, None, None);
    alice.add_allowed_ip(pb, IpPrefix { is_v6: false, addr: 0x0a00_0000, len: 24 });
    let mut bob = PeerServer::new(Some(BOB_PRIV.to_vec()), 51820);
    let pa = bob.add_peer(ALICE_PUB.to_vec(), None, Some(ep_alice), None);
    bob.add_allowed_ip(pa, IpPrefix { is_v6: false, addr: 0x0a00_0100, len: 24 });
    (alice, bob, ep_alice, ep_bob)
}

#[test]
fn public_key_derivation_matches_known_vector() {
    let s = PeerServer::new(Some(ALICE_PRIV.to_vec()), 0);
    assert_eq!(s.info.public_key.as_deref(), Some(&ALICE_PUB[..]));
}

#[test]
fn responder_answers_initiation_with_response() {
    let (mut alice, mut bob, _ep_a, ep_b) = make_pair();
    let e1 = bob.send_handshake_init(1000, 0).unwrap();
    assert_eq!(e1.udp.len(), 1);
    let msg1 = e1.udp[0].1.clone();
    assert_eq!(msg1.len(), 148);
    assert_eq!(msg1[0], 1);
    assert_eq!(e1.timers.len(), 1);
    assert_eq!(e1.timers[0].0, 5200);
    assert_eq!(e1.timers[0].1.kind, TimerKind::Rekey);

    let e2 = alice.handle_ingress_packet(1001, ep_b, &msg1).unwrap();
    assert_eq!(e2.udp.len(), 1);
    let (dest, msg2) = (e2.udp[0].0, e2.udp[0].1.clone());
    assert_eq!(dest, ep_b);
    assert_eq!(msg2.len(), 92);
    assert_eq!(msg2[0], 2);
    // The response's receiver index echoes the initiation's sender index.
    assert_eq!(read_u32_le(&msg2[8..12]), read_u32_le(&msg1[4..8]));
}

#[test]
fn initiator_confirms_with_keepalive_and_arms_timers() {
    let (mut alice, mut bob, _ep_a, ep_b) = make_pair();
    let msg1 = bob.send_handshake_init(1000, 0).unwrap().udp[0].1.clone();
    let msg2 = alice.handle_ingress_packet(1001, ep_b, &msg1).unwrap().udp[0].1.clone();
    let e3 = bob.handle_ingress_packet(1002, ep(0xc633_6401, 51820), &msg2).unwrap();
    // Nothing was queued, so a single empty keepalive confirms the session.
    assert_eq!(e3.udp.len(), 1);
    let keepalive = e3.udp[0].1.clone();
    assert_eq!(keepalive.len(), 32);
    assert_eq!(keepalive[0], 4);
    assert!(e3.timers.len() >= 2);
    assert_eq!(e3.timers[0].0, 10_000);
    assert_eq!(e3.timers[0].1.kind, TimerKind::PassiveKeepAlive);
    assert_eq!(e3.timers[1].0, 180_000);
    assert_eq!(e3.timers[1].1.kind, TimerKind::Reject);
    // The responder takes the keepalive: counters move, nothing reaches
    // the tunnel.
    let e4 = alice.handle_ingress_packet(1003, ep_b, &keepalive).unwrap();
    assert_eq!(e4.tunnel.len(), 0);
    assert_eq!(e4.udp.len(), 0);
}

/// Runs the full handshake and returns both servers ready for transport.
fn establish() -> (PeerServer, PeerServer, Endpoint, Endpoint) {
    let (mut alice, mut bob, ep_a, ep_b) = make_pair();
    let msg1 = bob.send_handshake_init(1000, 0).unwrap().udp[0].1.clone();
    let msg2 = alice.handle_ingress_packet(1001, ep_b, &msg1).unwrap().udp[0].1.clone();
    let e3 = bob.handle_ingress_packet(1002, ep_a, &msg2).unwrap();
    let keepalive = e3.udp[0].1.clone();
    alice.handle_ingress_packet(1003, ep_b, &keepalive).unwrap();
    (alice, bob, ep_a, ep_b)
}

#[test]
fn data_flows_through_the_tunnel() {
    let (mut alice, mut bob, _ep_a, ep_b) = establish();
    let plain = v4_packet([10, 0, 0, 7], [10, 0, 1, 9]);
    let e = bob.handle_egress_packet(2000, plain.clone()).unwrap();
    assert_eq!(e.udp.len(), 1);
    let wire = e.udp[0].1.clone();
    assert_eq!(wire[0], 4);
    let got = alice.handle_ingress_packet(2001, ep_b, &wire).unwrap();
    assert_eq!(got.tunnel.len(), 1);
    assert_eq!(got.tunnel[0], plain);
}

#[test]
fn replayed_data_packet_is_dropped() {
    let (mut alice, mut bob, _ep_a, ep_b) = establish();
    let plain = v4_packet([10, 0, 0, 7], [10, 0, 1, 9]);
    let wire = bob.handle_egress_packet(2000, plain.clone()).unwrap().udp[0].1.clone();
    let first = alice.handle_ingress_packet(2001, ep_b, &wire).unwrap();
    assert_eq!(first.tunnel.len(), 1);
    // The identical datagram a second time fails decryption-side checks
    // and produces no tunnel write.
    let second = alice.handle_ingress_packet(2002, ep_b, &wire);
    assert_eq!(second.err(), Some(WgError::CryptoFailure));
}

#[test]
fn unauthorized_inner_source_is_dropped() {
    let (mut alice, mut bob, _ep_a, ep_b) = establish();
    // 192.168.9.9 is outside Bob's allowed 10.0.0.0/24 on Alice's side.
    let plain = v4_packet([192, 168, 9, 9], [10, 0, 1, 9]);
    let wire = bob.handle_egress_packet(2000, plain).unwrap().udp[0].1.clone();
    let got = alice.handle_ingress_packet(2001, ep_b, &wire);
    assert_eq!(got.err(), Some(WgError::SourceUnauthorized));
}

#[test]
fn route_miss_rejects_egress() {
    let (_alice, mut bob, _ep_a, _ep_b) = establish();
    let plain = v4_packet([10, 0, 0, 7], [203, 0, 113, 9]);
    let e = bob.handle_egress_packet(2000, plain);
    assert_eq!(e.err(), Some(WgError::NoRoute));
}

#[test]
fn size_bounds_are_enforced() {
    let (_alice, mut bob, _ep_a, _ep_b) = establish();
    assert_eq!(bob.handle_egress_packet(2000, Vec::new()).err(), Some(WgError::SizeBounds));
    let huge = vec![0x45u8; 65536];
    assert_eq!(bob.handle_egress_packet(2000, huge).err(), Some(WgError::SizeBounds));
}

#[test]
fn no_endpoint_refuses_initiation() {
    let (mut alice, _bob, _ep_a, _ep_b) = make_pair();
    // Alice never learned Bob's endpoint.
    assert_eq!(alice.send_handshake_init(1000, 0).err(), Some(WgError::NoEndpoint));
}

#[test]
fn unknown_initiator_is_refused() {
    let (mut alice, _bob, _ep_a, ep_b) = make_pair();
    // A third party Alice was never configured with.
    let mallory_priv = [0x40u8; 32];
    let mut mallory = PeerServer::new(Some(mallory_priv.to_vec()), 51820);
    mallory.add_peer(ALICE_PUB.to_vec(), None, Some(ep(0xc633_6401, 51820)), None);
    let msg1 = mallory.send_handshake_init(1000, 0).unwrap().udp[0].1.clone();
    let got = alice.handle_ingress_packet(1001, ep_b, &msg1);
    assert_eq!(got.err(), Some(WgError::UnknownPeer));
}

#[test]
fn unknown_message_types_are_malformed() {
    let (mut alice, _bob, _ep_a, ep_b) = make_pair();
    assert_eq!(
        alice.handle_ingress_packet(1000, ep_b, &vec![9u8; 64]).err(),
        Some(WgError::MalformedPacket)
    );
    assert_eq!(
        alice.handle_ingress_packet(1000, ep_b, &Vec::new()).err(),
        Some(WgError::MalformedPacket)
    );
}

#[test]
fn cookie_reply_is_validated_for_shape_only() {
    let (mut alice, _bob, _ep_a, ep_b) = make_pair();
    let ok = alice.handle_ingress_packet(1000, ep_b, &vec![3u8; 64]).unwrap();
    assert_eq!(ok.udp.len(), 0);
    assert_eq!(
        alice.handle_ingress_packet(1000, ep_b, &vec![3u8; 63]).err(),
        Some(WgError::MalformedPacket)
    );
}

#[test]
fn passive_keepalive_sends_after_silence() {
    let (_alice, mut bob, _ep_a, _ep_b) = establish();
    // The confirmation keepalive went out at t=1002; by t=50000 the
    // session has been silent long enough.
    let msg1_sender = bob.peers[0].current.as_ref().unwrap().our_index;
    let msg = TimerMessage { kind: TimerKind::PassiveKeepAlive, peer: 0, our_index: msg1_sender };
    let e = bob.handle_timer(50_000, msg).unwrap();
    assert_eq!(e.udp.len(), 1);
    assert_eq!(e.udp[0].1.len(), 32);
    assert_eq!(e.udp[0].1[0], 4);
    assert_eq!(e.timers.len(), 1);
    assert_eq!(e.timers[0].0, 10_000);
}

#[test]
fn passive_keepalive_waits_when_recent() {
    let (_alice, mut bob, _ep_a, _ep_b) = establish();
    let idx = bob.peers[0].current.as_ref().unwrap().our_index;
    let msg = TimerMessage { kind: TimerKind::PassiveKeepAlive, peer: 0, our_index: idx };
    // Only a moment after the confirmation keepalive: reschedule, send
    // nothing.
    let e = bob.handle_timer(1005, msg).unwrap();
    assert_eq!(e.udp.len(), 0);
    assert_eq!(e.timers.len(), 1);
}

#[test]
fn rekey_fires_after_rekey_after_time() {
    let (_alice, mut bob, _ep_a, _ep_b) = establish();
    let idx = bob.peers[0].current.as_ref().unwrap().our_index;
    let msg = TimerMessage { kind: TimerKind::Rekey, peer: 0, our_index: idx };
    // last_handshake was at t=1002; 121 seconds later a fresh initiation
    // goes out and a new rekey timer is armed.
    let e = bob.handle_timer(1002 + 121_000, msg).unwrap();
    assert_eq!(e.udp.len(), 1);
    assert_eq!(e.udp[0].1.len(), 148);
    assert_eq!(e.udp[0].1[0], 1);
    assert_eq!(e.timers.len(), 1);
    assert_eq!(e.timers[0].0, 5200);
    assert_eq!(e.timers[0].1.kind, TimerKind::Rekey);
}

#[test]
fn rekey_waits_while_handshake_is_fresh() {
    let (_alice, mut bob, _ep_a, _ep_b) = establish();
    let idx = bob.peers[0].current.as_ref().unwrap().our_index;
    let msg = TimerMessage { kind: TimerKind::Rekey, peer: 0, our_index: idx };
    let e = bob.handle_timer(2000, msg).unwrap();
    assert_eq!(e.udp.len(), 0);
    assert_eq!(e.timers.len(), 1);
    assert_eq!(e.timers[0].1.kind, TimerKind::Rekey);
}

#[test]
fn reject_reaps_the_session() {
    let (mut alice, mut bob, _ep_a, ep_b) = establish();
    // Find Alice's index for the established session from a data packet.
    let plain = v4_packet([10, 0, 0, 7], [10, 0, 1, 9]);
    let wire = bob.handle_egress_packet(2000, plain.clone()).unwrap().udp[0].1.clone();
    let alice_index = read_u32_le(&wire[4..8]);
    let msg = TimerMessage { kind: TimerKind::Reject, peer: 0, our_index: alice_index };
    alice.handle_timer(180_000, msg).unwrap();
    // Data referencing the reaped index no longer resolves.
    let got = alice.handle_ingress_packet(180_001, ep_b, &wire);
    assert_eq!(got.err(), Some(WgError::UnknownPeer));
}

#[test]
fn rekey_on_next_slot_waits_then_retries_then_gives_up() {
    let (_alice, mut bob, _ep_a, _ep_b) = make_pair();
    let e1 = bob.send_handshake_init(1000, 0).unwrap();
    let msg = e1.timers[0].1;
    assert_eq!(msg.kind, TimerKind::Rekey);
    // Shortly after the initiation: too soon, wait the remainder.
    let e2 = bob.handle_timer(1100, msg).unwrap();
    assert_eq!(e2.udp.len(), 0);
    assert_eq!(e2.timers.len(), 1);
    assert_eq!(e2.timers[0].0, 5000 - 100 + 200);
    // After the rekey timeout: a fresh initiation goes out.
    let e3 = bob.handle_timer(7000, msg).unwrap();
    assert_eq!(e3.udp.len(), 1);
    assert_eq!(e3.udp[0].1.len(), 148);
    let msg2 = e3.timers[0].1;
    // Long past the attempt budget (the queue epoch was set at t=1000):
    // the attempt is abandoned without sending or rescheduling.
    let e4 = bob.handle_timer(1000 + 90_001 + 5_000, msg2).unwrap();
    assert_eq!(e4.udp.len(), 0);
    assert_eq!(e4.timers.len(), 0);
}

#[test]
fn persistent_keepalive_always_sends_and_rearms() {
    let ep_alice = ep(0xc633_6401, 51820);
    let mut alice = PeerServer::new(Some(ALICE_PRIV.to_vec()), 51820);
    alice.add_peer(BOB_PUB.to_vec(), None, None, None);
    let mut bob = PeerServer::new(Some(BOB_PRIV.to_vec()), 51820);
    bob.add_peer(ALICE_PUB.to_vec(), None, Some(ep_alice), Some(25));
    let msg1 = bob.send_handshake_init(1000, 0).unwrap().udp[0].1.clone();
    let msg2 = alice
        .handle_ingress_packet(1001, ep(0xc633_6407, 51820), &msg1)
        .unwrap()
        .udp[0]
        .1
        .clone();
    let e3 = bob.handle_ingress_packet(1002, ep_alice, &msg2).unwrap();
    // With an interval configured, the third timer armed is the
    // persistent keepalive at that interval.
    assert_eq!(e3.timers.len(), 3);
    assert_eq!(e3.timers[2].0, 25_000);
    assert_eq!(e3.timers[2].1.kind, TimerKind::PersistentKeepAlive);
    let msg = e3.timers[2].1;
    // It sends even right after traffic, and re-arms at the interval.
    let e = bob.handle_timer(1003, msg).unwrap();
    assert_eq!(e.udp.len(), 1);
    assert_eq!(e.udp[0].1.len(), 32);
    assert_eq!(e.timers.len(), 1);
    assert_eq!(e.timers[0].0, 25_000);
}

#[test]
fn key_change_invalidates_sessions() {
    let (mut alice, mut bob, _ep_a, ep_b) = establish();
    let plain = v4_packet([10, 0, 0, 7], [10, 0, 1, 9]);
    let wire = bob.handle_egress_packet(2000, plain).unwrap().udp[0].1.clone();
    alice.set_private_key(Some([0x42u8; 32].to_vec()));
    let got = alice.handle_ingress_packet(2001, ep_b, &wire);
    assert_eq!(got.err(), Some(WgError::UnknownPeer));
}

#[test]
fn keepalive_timer_for_superseded_session_lapses() {
    let (mut alice, mut bob, ep_a, ep_b) = establish();
    let old_idx = bob.peers[0].current.as_ref().unwrap().our_index;
    // A second handshake ratchets the old session into *previous*.
    let msg1 = bob.send_handshake_init(10_000, 0).unwrap().udp[0].1.clone();
    let msg2 = alice.handle_ingress_packet(10_001, ep_b, &msg1).unwrap().udp[0].1.clone();
    bob.handle_ingress_packet(10_002, ep_a, &msg2).unwrap();
    assert_ne!(bob.peers[0].current.as_ref().unwrap().our_index, old_idx);
    // The keepalive armed for the old session finds it out of *current*.
    let msg = TimerMessage { kind: TimerKind::PassiveKeepAlive, peer: 0, our_index: old_idx };
    assert_eq!(bob.handle_timer(10_003, msg).err(), Some(WgError::NoSession));
}
