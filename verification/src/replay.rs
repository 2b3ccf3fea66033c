//! Replay protection: the monotonic counter of an account and derived nonces.

use crate::codec::{bytes_equal, i64_le_bytes, put_bytes, put_i64};
use crate::errors::CryptoError;
use crate::hash::{sha256, sha256_digest};
use vstd::prelude::*;

verus! {

/// The size of a derived nonce in bytes.
pub const NONCE_SIZE: usize = 32;

/// The counter value that follows `stored`: one more, and `u64::MAX` where
/// there is no more.
pub open spec fn next_counter(stored: u64) -> u64 {
    if stored < u64::MAX {
        (stored + 1) as u64
    } else {
        stored
    }
}

/// What is hashed into a derived nonce: the message, the timestamp in
/// little-endian bytes, and the identity.
pub open spec fn nonce_input(message: Seq<u8>, timestamp: i64, user_pubkey: Seq<u8>) -> Seq<u8> {
    message + i64_le_bytes(timestamp) + user_pubkey
}

/// Whether `nonce` is one of `used_nonces`.
pub open spec fn nonce_recorded(nonce: Seq<u8>, used_nonces: Seq<[u8; 32]>) -> bool {
    exists|i: int| 0 <= i < used_nonces.len() && (#[trigger] used_nonces[i])@ == nonce
}

/// Replay protection for authorization attempts.
pub struct ReplayProtection;

impl ReplayProtection {
    /// Whether `candidate` may follow `stored`: only a strictly greater
    /// counter value is fresh, an equal or lower one is a replay.
    pub fn is_valid_next(stored: u64, candidate: u64) -> (fresh: bool)
        ensures
            fresh == (candidate > stored),
    {
        candidate > stored
    }

    /// Moves the counter on by exactly one. At `u64::MAX` it stays: it
    /// never wraps to zero.
    pub fn advance(stored: &mut u64)
        ensures
            *final(stored) == next_counter(*old(stored)),
            *final(stored) >= *old(stored),
    {
        if *stored < u64::MAX {
            *stored = *stored + 1;
        }
    }

    /// Joins the inputs of a derived nonce into the bytes that are hashed.
    pub fn nonce_preimage(message: &[u8], timestamp: i64, user_pubkey: &[u8]) -> (input: Vec<u8>)
        ensures
            input@ == nonce_input(message@, timestamp, user_pubkey@),
    {
        let mut input: Vec<u8> = Vec::new();
        put_bytes(&mut input, message);
        put_i64(&mut input, timestamp);
        put_bytes(&mut input, user_pubkey);
        input
    }

    /// Derives a nonce from a message, a timestamp and an identity: the
    /// SHA-256 digest of the three joined. The same inputs give the same
    /// nonce.
    pub fn generate_nonce(message: &[u8], timestamp: i64, user_pubkey: &[u8]) -> (nonce: [u8; 32])
        ensures
            nonce@ == sha256_digest(nonce_input(message@, timestamp, user_pubkey@)),
    {
        let input = Self::nonce_preimage(message, timestamp, user_pubkey);
        sha256(input.as_slice())
    }

    /// Accepts a derived nonce of exactly thirty-two bytes.
    pub fn validate_nonce_format(nonce: &[u8]) -> (outcome: Result<(), CryptoError>)
        ensures
            nonce@.len() == NONCE_SIZE ==> outcome == Ok::<(), CryptoError>(()),
            nonce@.len() != NONCE_SIZE ==> outcome == Err::<(), CryptoError>(
                CryptoError::InvalidNonce,
            ),
    {
        if nonce.len() != NONCE_SIZE {
            return Err(CryptoError::InvalidNonce);
        }
        Ok(())
    }

    /// Whether `nonce` has been recorded in `used_nonces`.
    pub fn is_nonce_used(nonce: &[u8; 32], used_nonces: &[[u8; 32]]) -> (used: bool)
        ensures
            used == nonce_recorded(nonce@, used_nonces@),
    {
        let mut i: usize = 0;
        while i < used_nonces.len()
            invariant
                i <= used_nonces@.len(),
                forall|j: int| 0 <= j < i ==> (#[trigger] used_nonces@[j])@ != nonce@,
            decreases used_nonces@.len() - i,
        {
            if bytes_equal(used_nonces[i].as_slice(), nonce.as_slice()) {
                return true;
            }
            i += 1;
        }
        false
    }

    /// Records `nonce` in `used_nonces`, once: a nonce that is there
    /// already is not added again.
    pub fn mark_nonce_used(nonce: &[u8; 32], used_nonces: &mut Vec<[u8; 32]>)
        ensures
            nonce_recorded(nonce@, old(used_nonces)@) ==> final(used_nonces)@ == old(used_nonces)@,
            !nonce_recorded(nonce@, old(used_nonces)@) ==> final(used_nonces)@ == old(
                used_nonces,
            )@.push(*nonce),
            nonce_recorded(nonce@, final(used_nonces)@),
    {
        if !Self::is_nonce_used(nonce, used_nonces.as_slice()) {
            used_nonces.push(*nonce);
            assert(used_nonces@[used_nonces@.len() - 1]@ == nonce@);
        }
    }
}

/// No counter value follows itself or a greater one, each is followed by
/// the next, and advancing from the greatest value stays there.
pub proof fn lemma_counter_order(stored: u64)
    ensures
        !(stored > stored),
        stored > 0 ==> !((stored - 1) as u64 > stored),
        stored < u64::MAX ==> (stored + 1) as u64 > stored,
        next_counter(u64::MAX) == u64::MAX,
        next_counter(stored) >= stored,
        stored < u64::MAX ==> next_counter(stored) == stored + 1,
{
}

} // verus!
