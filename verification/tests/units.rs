use wireguard_core::bytes::{push_le_u32, push_le_u64, read_be_u32, read_le_u32, read_le_u64};
use wireguard_core::msgs::{
    build_initiation, build_transport, parse_initiation, parse_response, parse_transport,
    verify_mac1,
};
use wireguard_core::peer::{transport_round_trip, Session};
use wireguard_core::registry::SessionRegistry;
use wireguard_core::replay::ReplayWindow;
use wireguard_core::router::{inner_dest, inner_source, InnerAddr, IpPrefix, Router};
use wireguard_core::WgError;

#[test]
fn le_u32_read_back() {
    let mut b: Vec<u8> = Vec::new();
    push_le_u32(&mut b, 0x1234_5678);
    assert_eq!(b, vec![0x78, 0x56, 0x34, 0x12]);
    assert_eq!(read_le_u32(&b, 0), 0x1234_5678);
}

#[test]
fn le_u64_read_back() {
    let mut b: Vec<u8> = Vec::new();
    push_le_u64(&mut b, 0x0102_0304_0506_0708);
    assert_eq!(b, vec![0x08, 0x07, 0x06, 0x05, 0x04, 0x03, 0x02, 0x01]);
    assert_eq!(read_le_u64(&b, 0), 0x0102_0304_0506_0708);
}

#[test]
fn be_u32_reads_network_order() {
    let b = vec![0xc0u8, 0x00, 0x02, 0x07];
    assert_eq!(read_be_u32(&b, 0), 0xc000_0207);
}

#[test]
fn transport_header_layout() {
    let sealed = vec![0xaau8; 16];
    let p = build_transport(0xBBBB_0001, 7, &sealed);
    assert_eq!(p.len(), 32);
    assert_eq!(&p[0..4], &[4, 0, 0, 0]);
    assert_eq!(&p[4..8], &[0x01, 0x00, 0xBB, 0xBB]);
    assert_eq!(&p[8..16], &[7, 0, 0, 0, 0, 0, 0, 0]);
    let (receiver, counter, body) = parse_transport(&p).unwrap();
    assert_eq!(receiver, 0xBBBB_0001);
    assert_eq!(counter, 7);
    assert_eq!(body, sealed);
}

#[test]
fn transport_rejects_short_and_mistyped() {
    let short = vec![4u8; 31];
    assert_eq!(parse_transport(&short), Err(WgError::MalformedPacket));
    let mut wrong = vec![0u8; 32];
    wrong[0] = 5;
    assert_eq!(parse_transport(&wrong), Err(WgError::MalformedPacket));
}

#[test]
fn initiation_encode_decode_round_trip() {
    let body = vec![0x5au8; 108];
    let responder_pub = vec![0x42u8; 32];
    let p = build_initiation(0x1111_1111, &body, &responder_pub);
    assert_eq!(p.len(), 148);
    assert_eq!(p[0], 1);
    let (sender, got_body) = parse_initiation(&p).unwrap();
    assert_eq!(sender, 0x1111_1111);
    assert_eq!(got_body, body);
}

#[test]
fn initiation_mac1_verifies_only_under_right_key() {
    let body = vec![0x5au8; 108];
    let responder_pub = vec![0x42u8; 32];
    let p = build_initiation(0x1111_1111, &body, &responder_pub);
    assert!(verify_mac1(&responder_pub, &p, 116));
    let other_pub = vec![0x43u8; 32];
    assert!(!verify_mac1(&other_pub, &p, 116));
    let mut tampered = p.clone();
    tampered[20] ^= 1;
    assert!(!verify_mac1(&responder_pub, &tampered, 116));
}

#[test]
fn response_parse_rejects_wrong_length() {
    let p = vec![2u8; 91];
    assert_eq!(parse_response(&p), Err(WgError::MalformedPacket));
}

#[test]
fn replay_window_accepts_once() {
    let mut w = ReplayWindow::new();
    assert!(w.check_and_accept(42));
    assert!(!w.check_and_accept(42));
    assert!(w.check_and_accept(43));
    assert!(!w.check_and_accept(43));
    assert!(!w.check_and_accept(42));
}

#[test]
fn replay_window_allows_out_of_order_inside_window() {
    let mut w = ReplayWindow::new();
    assert!(w.check_and_accept(100));
    assert!(w.check_and_accept(50));
    assert!(!w.check_and_accept(50));
    assert!(w.check_and_accept(51));
}

#[test]
fn replay_window_refuses_far_past() {
    let mut w = ReplayWindow::new();
    assert!(w.check_and_accept(10_000));
    assert!(!w.check_and_accept(10));
    assert!(w.check_and_accept(10_000 - 8191));
}

#[test]
fn registry_insert_lookup_remove() {
    let mut r = SessionRegistry::new();
    assert!(r.insert(7, 0));
    assert!(!r.insert(7, 1));
    assert_eq!(r.lookup(7), Some(0));
    assert_eq!(r.lookup(8), None);
    r.remove(7);
    assert_eq!(r.lookup(7), None);
    assert!(r.insert(7, 1));
    assert_eq!(r.lookup(7), Some(1));
}

#[test]
fn router_longest_prefix_wins() {
    let mut r = Router::new();
    r.add_allowed_ip(IpPrefix { is_v6: false, addr: 0x0a00_0000, len: 8 }, 0);
    r.add_allowed_ip(IpPrefix { is_v6: false, addr: 0x0a00_0000, len: 24 }, 1);
    // 10.0.0.5 matches both 10.0.0.0/8 and 10.0.0.0/24: the /24 wins.
    assert_eq!(r.route(false, 0x0a00_0005), Some(1));
    // 10.9.0.5 only matches the /8.
    assert_eq!(r.route(false, 0x0a09_0005), Some(0));
    // 192.0.2.1 matches nothing.
    assert_eq!(r.route(false, 0xc000_0201), None);
}

#[test]
fn router_remove_prefix() {
    let mut r = Router::new();
    let pfx = IpPrefix { is_v6: false, addr: 0x0a00_0000, len: 24 };
    r.add_allowed_ip(pfx, 0);
    r.add_allowed_ip(IpPrefix { is_v6: false, addr: 0x0a00_0100, len: 24 }, 0);
    assert_eq!(r.route(false, 0x0a00_0005), Some(0));
    r.remove_allowed_ip(pfx, 0);
    assert_eq!(r.route(false, 0x0a00_0005), None);
    assert_eq!(r.route(false, 0x0a00_0105), Some(0));
}

#[test]
fn router_source_check() {
    let mut r = Router::new();
    r.add_allowed_ip(IpPrefix { is_v6: false, addr: 0x0a00_0000, len: 24 }, 3);
    assert!(r.check_source(3, InnerAddr { is_v6: false, ip: 0x0a00_0007 }));
    assert!(!r.check_source(2, InnerAddr { is_v6: false, ip: 0x0a00_0007 }));
    assert!(!r.check_source(3, InnerAddr { is_v6: false, ip: 0x0a00_0107 }));
}

#[test]
fn inner_addresses_parse_by_version_nibble() {
    let mut v4 = vec![0u8; 20];
    v4[0] = 0x45;
    v4[12..16].copy_from_slice(&[10, 0, 0, 7]);
    v4[16..20].copy_from_slice(&[10, 0, 1, 9]);
    assert_eq!(inner_source(&v4), Some(InnerAddr { is_v6: false, ip: 0x0a00_0007 }));
    assert_eq!(inner_dest(&v4), Some(InnerAddr { is_v6: false, ip: 0x0a00_0109 }));
    let mut v6 = vec![0u8; 40];
    v6[0] = 0x60;
    v6[8] = 0x20;
    v6[9] = 0x01;
    v6[23] = 0x01;
    assert_eq!(
        inner_source(&v6),
        Some(InnerAddr { is_v6: true, ip: 0x2001_0000_0000_0000_0000_0000_0000_0001 })
    );
    // Too short for either header.
    assert_eq!(inner_source(&vec![0x45u8; 10]), None);
}

#[test]
fn router_handles_v6_prefixes() {
    let mut r = Router::new();
    r.add_allowed_ip(
        IpPrefix { is_v6: true, addr: 0xfd00_0000_0000_0000_0000_0000_0000_0000, len: 8 },
        5,
    );
    assert_eq!(r.route(true, 0xfd00_0000_0000_0000_0000_0000_0000_0042), Some(5));
    assert_eq!(r.route(true, 0xfe00_0000_0000_0000_0000_0000_0000_0042), None);
    // Families never mix.
    assert_eq!(r.route(false, 0xfd00_0000), None);
}

#[test]
fn sealed_transport_round_trip() {
    let key = vec![0x11u8; 32];
    let mut a = Session::new(1, 2, key.clone(), vec![0u8; 32], 0);
    let mut b = Session::new(2, 1, vec![0u8; 32], key, 0);
    let plain = vec![1u8, 2, 3, 4, 5];
    let got = transport_round_trip(&mut a, &mut b, &plain, 10).unwrap();
    assert_eq!(got, plain);
}

#[test]
fn decrypt_refuses_replayed_counter() {
    let key = vec![0x11u8; 32];
    let mut a = Session::new(1, 2, key.clone(), vec![0u8; 32], 0);
    let mut b = Session::new(2, 1, vec![0u8; 32], key, 0);
    // Drive the sender's counter up to 42 first.
    let junk = vec![9u8; 4];
    for _ in 0..42 {
        let _ = a.encrypt_transport(&junk, 0);
    }
    let packet = a.encrypt_transport(&junk, 0);
    let (_, counter, sealed) = parse_transport(&packet).unwrap();
    assert_eq!(counter, 42);
    assert_eq!(b.decrypt_transport(counter, &sealed, 0).unwrap(), junk);
    // The identical packet a second time is a replay.
    assert_eq!(b.decrypt_transport(counter, &sealed, 0), Err(WgError::CryptoFailure));
}

#[test]
fn decrypt_refuses_wrong_key() {
    let mut a = Session::new(1, 2, vec![0x11u8; 32], vec![0u8; 32], 0);
    let mut b = Session::new(2, 1, vec![0u8; 32], vec![0x12u8; 32], 0);
    let plain = vec![7u8; 8];
    let packet = a.encrypt_transport(&plain, 0);
    let (_, counter, sealed) = parse_transport(&packet).unwrap();
    assert_eq!(b.decrypt_transport(counter, &sealed, 0), Err(WgError::CryptoFailure));
}
