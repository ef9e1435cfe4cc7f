//! Key derivation and authenticated encryption of frame payloads.
//!
//! The key is the SHA-256 digest of the pre-shared key followed by the
//! session salt. Payloads are sealed with XChaCha20-Poly1305 under a nonce
//! made of the salt, the frame's sequence number and its timestamp, with the
//! frame header as associated data.

use crate::frame::{push_be32, push_be64, spec_be32, spec_be64};
use chacha20poly1305::aead::{Aead, KeyInit, Payload};
use chacha20poly1305::XChaCha20Poly1305;
use sha2::{Digest, Sha256};
use vstd::prelude::*;
use vstd::slice::slice_to_vec;
use vstd::string::StringSliceAdditionalSpecFns;

verus! {

/// Length of the authentication tag that sealing appends.
pub const TAG_LEN: usize = 16;

/// `aead::Error`, which says that sealing or opening failed and nothing
/// more.
#[verifier::external_type_specification]
#[verifier::external_body]
pub struct ExAeadError(chacha20poly1305::aead::Error);

/// The SHA-256 digest of `data`.
pub uninterp spec fn sha256(data: Seq<u8>) -> Seq<u8>;

/// The ciphertext and tag that XChaCha20-Poly1305 makes of `msg`, or `None`
/// where the cipher refuses.
pub uninterp spec fn xchacha_seal(key: Seq<u8>, nonce: Seq<u8>, aad: Seq<u8>, msg: Seq<u8>)
    -> Option<Seq<u8>>;

/// The plaintext that XChaCha20-Poly1305 recovers from `sealed`, or `None`
/// where authentication fails.
pub uninterp spec fn xchacha_open(key: Seq<u8>, nonce: Seq<u8>, aad: Seq<u8>, sealed: Seq<u8>)
    -> Option<Seq<u8>>;

/// Whether the cipher takes a message of `len` bytes: it refuses one of
/// 2^32 - 1 blocks of 64 bytes or more, and no other.
pub open spec fn spec_sealable(len: nat) -> bool {
    len / 64 < 0xffff_ffff
}

/// The nonce of a frame: salt, sequence, timestamp, four zero bytes.
pub open spec fn spec_nonce(salt: Seq<u8>, sequence: u32, timestamp_ns: u64) -> Seq<u8> {
    salt + spec_be32(sequence) + spec_be64(timestamp_ns) + seq![0u8, 0u8, 0u8, 0u8]
}

/// The key of a session: the digest of the key text's bytes and the salt.
pub open spec fn spec_derive_key(psk: Seq<u8>, salt: Seq<u8>) -> Seq<u8> {
    sha256(psk + salt)
}

/// Calls `Sha256::digest` of the `sha2` crate. Trusted: the 32 bytes that
/// come back are the named digest of `data`.
#[verifier::external_body]
fn sha256_digest(data: &[u8]) -> (digest: [u8; 32])
    ensures
        digest@ == sha256(data@),
{
    Sha256::digest(data).into()
}

/// Calls `Aead::encrypt` on an `XChaCha20Poly1305` keyed with `key`.
/// Trusted: the outcome is the named one, a ciphertext is the message's
/// length plus the 16-byte tag, and opening it under the same key, nonce
/// and associated data gives the message back. Trusted too: the cipher
/// seals every message short of its block limit, the one test on which it
/// gives up.
#[verifier::external_body]
fn aead_seal(key: &[u8; 32], nonce: &[u8; 24], aad: &[u8], msg: &[u8]) -> (sealed: Result<
    Vec<u8>,
    chacha20poly1305::aead::Error,
>)
    ensures
        match sealed {
            Ok(ct) => xchacha_seal(key@, nonce@, aad@, msg@) == Some(ct@) && ct@.len() == msg@.len()
                + TAG_LEN && xchacha_open(key@, nonce@, aad@, ct@) == Some(msg@),
            Err(_) => xchacha_seal(key@, nonce@, aad@, msg@) is None,
        },
        spec_sealable(msg@.len()) ==> sealed is Ok,
{
    XChaCha20Poly1305::new(key.into()).encrypt(nonce.into(), Payload { msg, aad })
}

/// Calls `Aead::decrypt` on an `XChaCha20Poly1305` keyed with `key`.
/// Trusted: the outcome is the named one, and a plaintext is the input's
/// length less the 16-byte tag.
#[verifier::external_body]
fn aead_open(key: &[u8; 32], nonce: &[u8; 24], aad: &[u8], sealed: &[u8]) -> (opened: Result<
    Vec<u8>,
    chacha20poly1305::aead::Error,
>)
    ensures
        match opened {
            Ok(pt) => xchacha_open(key@, nonce@, aad@, sealed@) == Some(pt@) && pt@.len() + TAG_LEN
                == sealed@.len(),
            Err(_) => xchacha_open(key@, nonce@, aad@, sealed@) is None,
        },
{
    XChaCha20Poly1305::new(key.into()).decrypt(nonce.into(), Payload { msg: sealed, aad })
}

/// Derives the session key from the key text and the salt.
pub fn derive_key(psk: &str, salt: &[u8; 8]) -> (key: [u8; 32])
    ensures
        key@ == spec_derive_key(psk.spec_bytes(), salt@),
{
    let mut material: Vec<u8> = slice_to_vec(psk.as_bytes());
    material.extend_from_slice(salt.as_slice());
    assert(material@ =~= psk.spec_bytes() + salt@);
    sha256_digest(material.as_slice())
}

/// Builds the nonce of the frame with the given sequence and timestamp.
pub fn build_nonce(salt: &[u8; 8], sequence: u32, timestamp_ns: u64) -> (nonce: [u8; 24])
    ensures
        nonce@ == spec_nonce(salt@, sequence, timestamp_ns),
{
    let mut bytes: Vec<u8> = slice_to_vec(salt.as_slice());
    push_be32(&mut bytes, sequence);
    push_be64(&mut bytes, timestamp_ns);
    let mut nonce: [u8; 24] = [0u8; 24];
    let mut i: usize = 0;
    proof {
        crate::frame::lemma_be32_round_trip(sequence);
        crate::frame::lemma_be64_round_trip(timestamp_ns);
    }
    while i < 20
        invariant
            i <= 20,
            bytes@.len() == 20,
            bytes@ == salt@ + spec_be32(sequence) + spec_be64(timestamp_ns),
            forall|j: int| 0 <= j < i ==> nonce@[j] == bytes@[j],
            forall|j: int| i <= j < 24 ==> nonce@[j] == 0u8,
        decreases 20 - i,
    {
        nonce[i] = bytes[i];
        i += 1;
    }
    assert(nonce@ =~= spec_nonce(salt@, sequence, timestamp_ns));
    nonce
}

/// Seals `msg` for the frame with the given sequence and timestamp, with
/// `aad` as associated data. What comes out opens to `msg` again under the
/// same key, salt, sequence, timestamp and associated data. A message short
/// of the cipher's block limit is always sealed.
pub fn seal_payload(
    key: &[u8; 32],
    salt: &[u8; 8],
    sequence: u32,
    timestamp_ns: u64,
    aad: &[u8],
    msg: &[u8],
) -> (sealed: Result<Vec<u8>, chacha20poly1305::aead::Error>)
    ensures
        match sealed {
            Ok(ct) => xchacha_seal(key@, spec_nonce(salt@, sequence, timestamp_ns), aad@, msg@)
                == Some(ct@) && ct@.len() == msg@.len() + TAG_LEN && xchacha_open(
                key@,
                spec_nonce(salt@, sequence, timestamp_ns),
                aad@,
                ct@,
            ) == Some(msg@),
            Err(_) => xchacha_seal(key@, spec_nonce(salt@, sequence, timestamp_ns), aad@, msg@)
                is None,
        },
        spec_sealable(msg@.len()) ==> sealed is Ok,
{
    let nonce = build_nonce(salt, sequence, timestamp_ns);
    aead_seal(key, &nonce, aad, msg)
}

/// Opens what [`seal_payload`] made, for the frame with the given sequence
/// and timestamp and with `aad` as associated data.
pub fn open_payload(
    key: &[u8; 32],
    salt: &[u8; 8],
    sequence: u32,
    timestamp_ns: u64,
    aad: &[u8],
    sealed: &[u8],
) -> (opened: Result<Vec<u8>, chacha20poly1305::aead::Error>)
    ensures
        match opened {
            Ok(pt) => xchacha_open(key@, spec_nonce(salt@, sequence, timestamp_ns), aad@, sealed@)
                == Some(pt@) && pt@.len() + TAG_LEN == sealed@.len(),
            Err(_) => xchacha_open(key@, spec_nonce(salt@, sequence, timestamp_ns), aad@, sealed@)
                is None,
        },
{
    let nonce = build_nonce(salt, sequence, timestamp_ns);
    aead_open(key, &nonce, aad, sealed)
}

} // verus!
