//! The UDP wire format: handshake initiation (type 1, 148 bytes), handshake
//! response (type 2, 92 bytes), cookie reply (type 3, 64 bytes, validated
//! only) and the data message (type 4, 32 bytes or more).  All integers are
//! little-endian; `mac1` is a keyed BLAKE2s authenticator over the message
//! prefix under a key derived from the responder's public key.

use vstd::prelude::*;

use crate::bytes::{
    bytes_eq, le_u32_bytes, le_u32_of, le_u64_bytes, le_u64_of, lemma_le_u32_round_trip,
    lemma_le_u64_round_trip, push_bytes, push_le_u32, push_le_u64, read_le_u32, read_le_u64,
    sub_bytes,
};
use crate::crypto::{blake2s_hash, blake2s_mac16, blake2s_of, mac16_of};
use crate::WgError;

verus! {

pub const MSG1_LEN: usize = 148;

pub const MSG2_LEN: usize = 92;

pub const MSG3_LEN: usize = 64;

pub const MSG4_HEADER_LEN: usize = 16;

pub const MSG4_MIN_LEN: usize = 32;

/// A sequence of `n` zero bytes.
pub open spec fn zeros(n: nat) -> Seq<u8> {
    Seq::new(n, |i: int| 0u8)
}

/// A vector of `n` zero bytes.
pub fn zero_vec(n: usize) -> (r: Vec<u8>)
    ensures
        r@ == zeros(n as nat),
{
    let mut r: Vec<u8> = Vec::new();
    let mut i: usize = 0;
    while i < n
        invariant
            i <= n,
            r@ == zeros(i as nat),
        decreases n - i,
    {
        r.push(0u8);
        proof {
            assert(r@ =~= zeros((i + 1) as nat));
        }
        i = i + 1;
    }
    r
}

/// The label that keys `mac1`.
pub open spec fn label_mac1() -> Seq<u8> {
    seq![0x6du8, 0x61u8, 0x63u8, 0x31u8, 0x2du8, 0x2du8, 0x2du8, 0x2du8]
}

/// The `mac1` key for a responder public key: `HASH("mac1----" || pub)`.
pub open spec fn mac1_key_of(responder_pub: Seq<u8>) -> Seq<u8> {
    blake2s_of(label_mac1() + responder_pub)
}

/// Derives the `mac1` key for a responder public key.
pub fn mac1_key(responder_pub: &Vec<u8>) -> (r: Vec<u8>)
    ensures
        r@ == mac1_key_of(responder_pub@),
        r@.len() == 32,
{
    let mut data: Vec<u8> = Vec::new();
    data.push(0x6du8);
    data.push(0x61u8);
    data.push(0x63u8);
    data.push(0x31u8);
    data.push(0x2du8);
    data.push(0x2du8);
    data.push(0x2du8);
    data.push(0x2du8);
    proof {
        assert(data@ =~= label_mac1());
    }
    push_bytes(&mut data, responder_pub);
    blake2s_hash(&data)
}

/// Checks the `mac1` field of a handshake packet: the 16 bytes at
/// `prefix_len` must equal the keyed authenticator of the prefix under the
/// responder's `mac1` key.
pub fn verify_mac1(responder_pub: &Vec<u8>, packet: &Vec<u8>, prefix_len: usize) -> (r: bool)
    requires
        prefix_len + 16 <= packet@.len(),
    ensures
        r == (packet@.subrange(prefix_len as int, prefix_len + 16) == mac16_of(
            mac1_key_of(responder_pub@),
            packet@.subrange(0, prefix_len as int),
        )),
{
    let key = mac1_key(responder_pub);
    let prefix = sub_bytes(packet, 0, prefix_len);
    let expected = blake2s_mac16(&key, &prefix);
    let found = sub_bytes(packet, prefix_len, 16);
    bytes_eq(&found, &expected)
}

/// The bytes of a handshake initiation with the given fields.
pub open spec fn spec_msg1_bytes(sender: u32, body: Seq<u8>, mac1: Seq<u8>, mac2: Seq<u8>) -> Seq<
    u8,
> {
    seq![1u8, 0u8, 0u8, 0u8] + le_u32_bytes(sender) + body + mac1 + mac2
}

/// A 148-byte initiation packet with correct type and reserved bytes.
pub open spec fn msg1_well_formed(p: Seq<u8>) -> bool {
    p.len() == MSG1_LEN && p[0] == 1u8 && p[1] == 0u8 && p[2] == 0u8 && p[3] == 0u8
}

/// The bytes of a handshake response with the given fields.
pub open spec fn spec_msg2_bytes(
    sender: u32,
    receiver: u32,
    body: Seq<u8>,
    mac1: Seq<u8>,
    mac2: Seq<u8>,
) -> Seq<u8> {
    seq![2u8, 0u8, 0u8, 0u8] + le_u32_bytes(sender) + le_u32_bytes(receiver) + body + mac1 + mac2
}

/// A 92-byte response packet with correct type and reserved bytes.
pub open spec fn msg2_well_formed(p: Seq<u8>) -> bool {
    p.len() == MSG2_LEN && p[0] == 2u8 && p[1] == 0u8 && p[2] == 0u8 && p[3] == 0u8
}

/// The bytes of a data message: header then AEAD-sealed payload.
pub open spec fn spec_msg4_bytes(receiver: u32, counter: u64, sealed: Seq<u8>) -> Seq<u8> {
    seq![4u8, 0u8, 0u8, 0u8] + le_u32_bytes(receiver) + le_u64_bytes(counter) + sealed
}

/// A data packet of at least 32 bytes with correct type and reserved bytes.
pub open spec fn msg4_well_formed(p: Seq<u8>) -> bool {
    p.len() >= MSG4_MIN_LEN && p[0] == 4u8 && p[1] == 0u8 && p[2] == 0u8 && p[3] == 0u8
}

/// Parses an initiation packet into `(sender_index, noise_body)`.
pub fn parse_initiation(p: &Vec<u8>) -> (r: Result<(u32, Vec<u8>), WgError>)
    ensures
        r is Ok == msg1_well_formed(p@),
        r matches Ok(t) ==> t.0 == le_u32_of(p@.subrange(4, 8)) && t.1@ == p@.subrange(8, 116),
        r matches Err(e) ==> e == WgError::MalformedPacket,
{
    if p.len() != MSG1_LEN || p[0] != 1u8 || p[1] != 0u8 || p[2] != 0u8 || p[3] != 0u8 {
        return Err(WgError::MalformedPacket);
    }
    let sender = read_le_u32(p, 4);
    let body = sub_bytes(p, 8, 108);
    Ok((sender, body))
}

/// Parses a response packet into `(sender_index, receiver_index, noise_body)`.
pub fn parse_response(p: &Vec<u8>) -> (r: Result<(u32, u32, Vec<u8>), WgError>)
    ensures
        r is Ok == msg2_well_formed(p@),
        r matches Ok(t) ==> t.0 == le_u32_of(p@.subrange(4, 8)) && t.1 == le_u32_of(
            p@.subrange(8, 12),
        ) && t.2@ == p@.subrange(12, 60),
        r matches Err(e) ==> e == WgError::MalformedPacket,
{
    if p.len() != MSG2_LEN || p[0] != 2u8 || p[1] != 0u8 || p[2] != 0u8 || p[3] != 0u8 {
        return Err(WgError::MalformedPacket);
    }
    let sender = read_le_u32(p, 4);
    let receiver = read_le_u32(p, 8);
    let body = sub_bytes(p, 12, 48);
    Ok((sender, receiver, body))
}

/// Parses a data packet into `(receiver_index, counter, sealed_payload)`.
pub fn parse_transport(p: &Vec<u8>) -> (r: Result<(u32, u64, Vec<u8>), WgError>)
    ensures
        r is Ok == msg4_well_formed(p@),
        r matches Ok(t) ==> t.0 == le_u32_of(p@.subrange(4, 8)) && t.1 == le_u64_of(
            p@.subrange(8, 16),
        ) && t.2@ == p@.subrange(16, p@.len() as int),
        r matches Err(e) ==> e == WgError::MalformedPacket,
{
    if p.len() < MSG4_MIN_LEN || p[0] != 4u8 || p[1] != 0u8 || p[2] != 0u8 || p[3] != 0u8 {
        return Err(WgError::MalformedPacket);
    }
    let receiver = read_le_u32(p, 4);
    let counter = read_le_u64(p, 8);
    let sealed = sub_bytes(p, 16, p.len() - 16);
    Ok((receiver, counter, sealed))
}

/// Assembles an initiation packet: type, sender index, Noise body, `mac1`
/// keyed by the remote peer's public key, and a zero `mac2`.
pub fn build_initiation(sender: u32, body: &Vec<u8>, responder_pub: &Vec<u8>) -> (r: Vec<u8>)
    requires
        body@.len() == 108,
    ensures
        r@ == spec_msg1_bytes(
            sender,
            body@,
            mac16_of(
                mac1_key_of(responder_pub@),
                seq![1u8, 0u8, 0u8, 0u8] + le_u32_bytes(sender) + body@,
            ),
            zeros(16),
        ),
        msg1_well_formed(r@),
{
    let mut p: Vec<u8> = Vec::new();
    p.push(1u8);
    p.push(0u8);
    p.push(0u8);
    p.push(0u8);
    proof {
        assert(p@ =~= seq![1u8, 0u8, 0u8, 0u8]);
    }
    push_le_u32(&mut p, sender);
    push_bytes(&mut p, body);
    let key = mac1_key(responder_pub);
    let mac = blake2s_mac16(&key, &p);
    push_bytes(&mut p, &mac);
    let zero_mac = zero_vec(16);
    push_bytes(&mut p, &zero_mac);
    proof {
        assert(p@ =~= spec_msg1_bytes(
            sender,
            body@,
            mac16_of(
                mac1_key_of(responder_pub@),
                seq![1u8, 0u8, 0u8, 0u8] + le_u32_bytes(sender) + body@,
            ),
            zeros(16),
        ));
    }
    p
}

/// Assembles a response packet: type, sender and receiver indices, Noise
/// body, `mac1` keyed by the initiator's public key, and a zero `mac2`.
pub fn build_response(
    sender: u32,
    receiver: u32,
    body: &Vec<u8>,
    initiator_pub: &Vec<u8>,
) -> (r: Vec<u8>)
    requires
        body@.len() == 48,
    ensures
        r@ == spec_msg2_bytes(
            sender,
            receiver,
            body@,
            mac16_of(
                mac1_key_of(initiator_pub@),
                seq![2u8, 0u8, 0u8, 0u8] + le_u32_bytes(sender) + le_u32_bytes(receiver) + body@,
            ),
            zeros(16),
        ),
        msg2_well_formed(r@),
{
    let mut p: Vec<u8> = Vec::new();
    p.push(2u8);
    p.push(0u8);
    p.push(0u8);
    p.push(0u8);
    proof {
        assert(p@ =~= seq![2u8, 0u8, 0u8, 0u8]);
    }
    push_le_u32(&mut p, sender);
    push_le_u32(&mut p, receiver);
    push_bytes(&mut p, body);
    let key = mac1_key(initiator_pub);
    let mac = blake2s_mac16(&key, &p);
    push_bytes(&mut p, &mac);
    let zero_mac = zero_vec(16);
    push_bytes(&mut p, &zero_mac);
    proof {
        assert(p@ =~= spec_msg2_bytes(
            sender,
            receiver,
            body@,
            mac16_of(
                mac1_key_of(initiator_pub@),
                seq![2u8, 0u8, 0u8, 0u8] + le_u32_bytes(sender) + le_u32_bytes(receiver) + body@,
            ),
            zeros(16),
        ));
    }
    p
}

/// Assembles a data packet from its header fields and sealed payload.
pub fn build_transport(receiver: u32, counter: u64, sealed: &Vec<u8>) -> (r: Vec<u8>)
    ensures
        r@ == spec_msg4_bytes(receiver, counter, sealed@),
{
    let mut p: Vec<u8> = Vec::new();
    p.push(4u8);
    p.push(0u8);
    p.push(0u8);
    p.push(0u8);
    proof {
        assert(p@ =~= seq![4u8, 0u8, 0u8, 0u8]);
    }
    push_le_u32(&mut p, receiver);
    push_le_u64(&mut p, counter);
    push_bytes(&mut p, sealed);
    p
}

/// Decoding a well-formed initiation message yields the fields it was built
/// from: the wire layout loses nothing.
pub proof fn lemma_initiation_round_trip(sender: u32, body: Seq<u8>, mac1: Seq<u8>, mac2: Seq<u8>)
    requires
        body.len() == 108,
        mac1.len() == 16,
        mac2.len() == 16,
    ensures
        msg1_well_formed(spec_msg1_bytes(sender, body, mac1, mac2)),
        le_u32_of(spec_msg1_bytes(sender, body, mac1, mac2).subrange(4, 8)) == sender,
        spec_msg1_bytes(sender, body, mac1, mac2).subrange(8, 116) == body,
        spec_msg1_bytes(sender, body, mac1, mac2).subrange(116, 132) == mac1,
        spec_msg1_bytes(sender, body, mac1, mac2).subrange(132, 148) == mac2,
{
    let p = spec_msg1_bytes(sender, body, mac1, mac2);
    assert(p.subrange(4, 8) =~= le_u32_bytes(sender));
    lemma_le_u32_round_trip(sender);
    assert(p.subrange(8, 116) =~= body);
    assert(p.subrange(116, 132) =~= mac1);
    assert(p.subrange(132, 148) =~= mac2);
}

/// Decoding a well-formed data-message header yields its fields.
pub proof fn lemma_transport_round_trip(receiver: u32, counter: u64, sealed: Seq<u8>)
    requires
        sealed.len() >= 16,
        sealed.len() <= 65551,
    ensures
        msg4_well_formed(spec_msg4_bytes(receiver, counter, sealed)),
        le_u32_of(spec_msg4_bytes(receiver, counter, sealed).subrange(4, 8)) == receiver,
        le_u64_of(spec_msg4_bytes(receiver, counter, sealed).subrange(8, 16)) == counter,
        spec_msg4_bytes(receiver, counter, sealed).subrange(
            16,
            spec_msg4_bytes(receiver, counter, sealed).len() as int,
        ) == sealed,
{
    let p = spec_msg4_bytes(receiver, counter, sealed);
    assert(p.subrange(4, 8) =~= le_u32_bytes(receiver));
    lemma_le_u32_round_trip(receiver);
    assert(p.subrange(8, 16) =~= le_u64_bytes(counter));
    lemma_le_u64_round_trip(counter);
    assert(p.subrange(16, p.len() as int) =~= sealed);
}

} // verus!
