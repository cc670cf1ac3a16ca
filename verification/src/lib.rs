//! Core of a userspace WireGuard peer server: handshake state machine,
//! per-peer session ring, session index registry, allowed-IP routing,
//! the encrypted transport pipeline and the timer rules.

pub mod bytes;
pub mod crypto;
pub mod msgs;
pub mod peer;
pub mod registry;
pub mod replay;
pub mod router;
pub mod server;

use vstd::prelude::*;

verus! {

/// Why a packet or a request was dropped.
#[derive(Clone, Copy, Debug, PartialEq, Eq, Structural)]
pub enum WgError {
    /// Wrong length, unknown type, or a bad mac1.
    MalformedPacket,
    /// A public key or a session index that no map holds.
    UnknownPeer,
    /// AEAD decryption failed, or the replay window refused the counter.
    CryptoFailure,
    /// No allowed-IP prefix covers the destination of an egress packet.
    NoRoute,
    /// The peer has no current session.
    NoSession,
    /// A payload outside `[1, MAX_CONTENT_SIZE]`.
    SizeBounds,
    /// The inner source IP of a decrypted packet is not allowed for its peer.
    SourceUnauthorized,
    /// The peer's endpoint is unknown.
    NoEndpoint,
}

pub const REKEY_TIMEOUT_MS: u64 = 5000;

pub const REKEY_AFTER_TIME_MS: u64 = 120000;

pub const REJECT_AFTER_TIME_MS: u64 = 180000;

pub const REKEY_ATTEMPT_TIME_MS: u64 = 90000;

pub const KEEPALIVE_TIMEOUT_MS: u64 = 10000;

pub const TIMER_TICK_MS: u64 = 100;

pub const MAX_CONTENT_SIZE: usize = 65535;

pub const MAX_QUEUE_PACKETS: usize = 1024;

} // verus!
