//! The cryptographic collaborators of the core, behind trusted contracts:
//! the Noise IKpsk2 engine (snow), the transport AEAD (chacha20poly1305),
//! the keyed hash for `mac1` (blake2) and Curve25519 public-key derivation
//! (x25519-dalek).  Everything proved in the rest of the crate speaks of
//! these calls through the names and contracts given here.

use vstd::prelude::*;

use blake2::digest::{KeyInit, Mac};
use blake2::Blake2sMac;
use chacha20poly1305::aead::Aead;
use chacha20poly1305::ChaCha20Poly1305;

verus! {

/// snow's Noise handshake state, carried opaquely between the wrappers below.
#[verifier::external_type_specification]
#[verifier::external_body]
pub struct ExHandshakeState(snow::HandshakeState);

/// The ciphertext (with its 16-byte tag) that ChaCha20-Poly1305 produces
/// for a key, a 12-byte nonce and a plaintext.
pub uninterp spec fn seal_of(key: Seq<u8>, nonce: Seq<u8>, plain: Seq<u8>) -> Seq<u8>;

/// The BLAKE2s-256 digest of a byte string.
pub uninterp spec fn blake2s_of(data: Seq<u8>) -> Seq<u8>;

/// The keyed BLAKE2s 16-byte authenticator of a byte string.
pub uninterp spec fn mac16_of(key: Seq<u8>, data: Seq<u8>) -> Seq<u8>;

/// The Curve25519 public key derived from a 32-byte scalar.
pub uninterp spec fn pub_key_of(scalar: Seq<u8>) -> Seq<u8>;

/// Relies on chacha20poly1305::ChaCha20Poly1305 through aead::Aead::encrypt:
/// the result is a function of key, nonce and plaintext alone, and carries a
/// 16-byte tag after the ciphertext.
#[verifier::external_body]
pub(crate) fn aead_seal(key: &Vec<u8>, nonce: &Vec<u8>, plain: &Vec<u8>) -> (r: Vec<u8>)
    requires
        key@.len() == 32,
        nonce@.len() == 12,
        plain@.len() <= 65535,
    ensures
        r@ == seal_of(key@, nonce@, plain@),
        r@.len() == plain@.len() + 16,
{
    let cipher = <ChaCha20Poly1305 as chacha20poly1305::KeyInit>::new_from_slice(
        key.as_slice(),
    ).unwrap();
    let n = chacha20poly1305::Nonce::try_from(nonce.as_slice()).unwrap();
    cipher.encrypt(&n, plain.as_slice()).unwrap()
}

/// Relies on chacha20poly1305::ChaCha20Poly1305 through aead::Aead::decrypt:
/// decryption inverts encryption under the same key and nonce, verifies the
/// tag, and never panics on foreign input.
#[verifier::external_body]
pub(crate) fn aead_open(key: &Vec<u8>, nonce: &Vec<u8>, sealed: &Vec<u8>) -> (r: Option<Vec<u8>>)
    requires
        key@.len() == 32,
        nonce@.len() == 12,
    ensures
        forall|p: Seq<u8>|
            sealed@ == #[trigger] seal_of(key@, nonce@, p) && p.len() <= 65535 ==> r is Some
                && r->0@ == p,
        r matches Some(q) ==> q@.len() + 16 == sealed@.len(),
{
    let cipher = <ChaCha20Poly1305 as chacha20poly1305::KeyInit>::new_from_slice(
        key.as_slice(),
    ).unwrap();
    let n = chacha20poly1305::Nonce::try_from(nonce.as_slice()).unwrap();
    match cipher.decrypt(&n, sealed.as_slice()) {
        Ok(p) => Some(p),
        Err(_) => None,
    }
}

/// Relies on blake2::Blake2s256 through digest::Digest: a 32-byte digest that
/// depends on the input bytes alone.
#[verifier::external_body]
pub(crate) fn blake2s_hash(data: &Vec<u8>) -> (r: Vec<u8>)
    ensures
        r@ == blake2s_of(data@),
        r@.len() == 32,
{
    let mut h = <blake2::Blake2s256 as blake2::Digest>::new();
    blake2::Digest::update(&mut h, data.as_slice());
    blake2::Digest::finalize(h).to_vec()
}

/// Relies on blake2::Blake2sMac with a 16-byte output through digest::Mac:
/// a keyed authenticator that depends on key and input alone.
#[verifier::external_body]
pub(crate) fn blake2s_mac16(key: &Vec<u8>, data: &Vec<u8>) -> (r: Vec<u8>)
    requires
        key@.len() == 32,
    ensures
        r@ == mac16_of(key@, data@),
        r@.len() == 16,
{
    let mut m = <Blake2sMac<blake2::digest::consts::U16> as KeyInit>::new_from_slice(
        key.as_slice(),
    ).unwrap();
    Mac::update(&mut m, data.as_slice());
    m.finalize().into_bytes().to_vec()
}

/// Relies on x25519_dalek::x25519 applied to the curve base point: the public
/// key is a function of the private scalar alone.
#[verifier::external_body]
pub(crate) fn x25519_public(private_key: &Vec<u8>) -> (r: Vec<u8>)
    requires
        private_key@.len() == 32,
    ensures
        r@ == pub_key_of(private_key@),
        r@.len() == 32,
{
    let k: [u8; 32] = private_key.as_slice().try_into().unwrap();
    x25519_dalek::x25519(k, x25519_dalek::X25519_BASEPOINT_BYTES).to_vec()
}

/// Relies on rand::random for fresh 32-bit session indices; nothing is
/// promised of the value.  The thread RNG aborts the process if the OS
/// entropy source fails at first use — an environment failure on a par
/// with memory exhaustion.
#[verifier::external_body]
pub(crate) fn random_u32() -> (r: u32) {
    rand::random::<u32>()
}

/// Relies on snow's Builder with the WireGuard Noise pattern
/// (IKpsk2, 25519, ChaChaPoly, BLAKE2s), prologue and psk slot 2,
/// and on Builder::build_initiator.
#[verifier::external_body]
pub(crate) fn noise_build_initiator(
    private_key: &Vec<u8>,
    their_pub: &Vec<u8>,
    psk: &Vec<u8>,
) -> (r: Option<snow::HandshakeState>)
    requires
        private_key@.len() == 32,
        their_pub@.len() == 32,
        psk@.len() == 32,
{
    let params: snow::params::NoiseParams =
        "Noise_IKpsk2_25519_ChaChaPoly_BLAKE2s".parse().ok()?;
    let psk_arr: &[u8; 32] = psk.as_slice().try_into().ok()?;
    snow::Builder::new(params)
        .local_private_key(private_key.as_slice()).ok()?
        .remote_public_key(their_pub.as_slice()).ok()?
        .prologue(b"WireGuard v1 zx2c4 Jason@zx2c4.com").ok()?
        .psk(2, psk_arr).ok()?
        .build_initiator().ok()
}

/// Relies on snow's Builder with the WireGuard Noise pattern and on
/// Builder::build_responder; the pre-shared key is set later, once the
/// initiator's static key is known.
#[verifier::external_body]
pub(crate) fn noise_build_responder(private_key: &Vec<u8>) -> (r: Option<snow::HandshakeState>)
    requires
        private_key@.len() == 32,
{
    let params: snow::params::NoiseParams =
        "Noise_IKpsk2_25519_ChaChaPoly_BLAKE2s".parse().ok()?;
    snow::Builder::new(params)
        .local_private_key(private_key.as_slice()).ok()?
        .prologue(b"WireGuard v1 zx2c4 Jason@zx2c4.com").ok()?
        .build_responder().ok()
}

/// Relies on snow::HandshakeState::read_message: consumes one handshake
/// message and yields its decrypted payload, or fails.
#[verifier::external_body]
pub(crate) fn noise_read_message(
    st: &mut snow::HandshakeState,
    message: &Vec<u8>,
) -> (r: Option<Vec<u8>>) {
    let mut buf = vec![0u8; 65551];
    match st.read_message(message.as_slice(), &mut buf) {
        Ok(n) => {
            buf.truncate(n);
            Some(buf)
        },
        Err(_) => None,
    }
}

/// Relies on snow::HandshakeState::write_message: produces the next
/// handshake message for a payload, or fails.
#[verifier::external_body]
pub(crate) fn noise_write_message(
    st: &mut snow::HandshakeState,
    payload: &Vec<u8>,
) -> (r: Option<Vec<u8>>) {
    let mut buf = vec![0u8; 65551];
    match st.write_message(payload.as_slice(), &mut buf) {
        Ok(n) => {
            buf.truncate(n);
            Some(buf)
        },
        Err(_) => None,
    }
}

/// Relies on snow::HandshakeState::set_psk to install the pre-shared key in
/// slot 2 before the response message is written.
#[verifier::external_body]
pub(crate) fn noise_set_psk2(st: &mut snow::HandshakeState, psk: &Vec<u8>) -> (r: bool)
    requires
        psk@.len() == 32,
{
    st.set_psk(2, psk.as_slice()).is_ok()
}

/// Relies on snow::HandshakeState::get_remote_static: the initiator's static
/// public key, 32 bytes for Curve25519, once the handshake has revealed it.
#[verifier::external_body]
pub(crate) fn noise_remote_static(st: &snow::HandshakeState) -> (r: Option<Vec<u8>>)
    ensures
        r matches Some(k) ==> k@.len() == 32,
{
    st.get_remote_static().map(|k| k.to_vec())
}

/// Relies on snow::HandshakeState::dangerously_get_raw_split: the two
/// 32-byte transport keys of a completed handshake, initiator-egress first.
#[verifier::external_body]
pub(crate) fn noise_raw_split(st: &mut snow::HandshakeState) -> (r: (Vec<u8>, Vec<u8>))
    ensures
        r.0@.len() == 32,
        r.1@.len() == 32,
{
    let (a, b) = st.dangerously_get_raw_split();
    (a.to_vec(), b.to_vec())
}

} // verus!
