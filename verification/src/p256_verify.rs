//! ECDSA over P-256: the signature check behind every authorization.

use crate::errors::CryptoError;
use crate::hash::{sha256, sha256_digest};
use p256::ecdsa::signature::hazmat::PrehashVerifier;
use p256::ecdsa::{Signature, VerifyingKey};
use vstd::prelude::*;
use vstd::slice::slice_subrange;

verus! {

/// Whether `sec1` is the SEC1 encoding of a point of the curve P-256 that
/// can serve as a public key.
pub uninterp spec fn sec1_point_valid(sec1: Seq<u8>) -> bool;

/// The uncompressed SEC1 encoding of the point that `sec1` encodes.
pub uninterp spec fn sec1_uncompressed(sec1: Seq<u8>) -> Seq<u8>;

/// Whether ECDSA over P-256 accepts `signature` for the message digest
/// `digest` under the public key with the SEC1 encoding `sec1_key`.
pub uninterp spec fn ecdsa_accepts(sec1_key: Seq<u8>, digest: Seq<u8>, signature: Seq<u8>) -> bool;

/// The number that `bytes` spell, most significant byte first.
pub open spec fn be_value(bytes: Seq<u8>) -> nat
    decreases bytes.len(),
{
    if bytes.len() == 0 {
        0
    } else {
        be_value(bytes.drop_last()) * 256 + bytes.last() as nat
    }
}

/// The order of the group of points of P-256.
pub open spec fn p256_order() -> nat {
    0xffffffff00000000ffffffffffffffffbce6faada7179e84f3b9cac2fc632551nat
}

/// Whether `signature` is a well-formed fixed-size signature: the two
/// halves `r` and `s`, thirty-two bytes each, both at least one and below
/// the order of the group.
pub open spec fn signature_well_formed(signature: Seq<u8>) -> bool {
    &&& signature.len() == 64
    &&& 0 < be_value(signature.subrange(0, 32)) < p256_order()
    &&& 0 < be_value(signature.subrange(32, 64)) < p256_order()
}

/// The SEC1 encoding of the point with the raw coordinates `raw`: the tag
/// of an uncompressed point, then the coordinates.
pub open spec fn sec1_of_raw(raw: Seq<u8>) -> Seq<u8> {
    seq![4u8] + raw
}

/// The verdict on a signature, from what the curve library found.
pub open spec fn verdict_of(key_is_point: bool, signature_is_well_formed: bool, accepted: bool)
    -> Result<(), CryptoError> {
    if !key_is_point {
        Err(CryptoError::InvalidP256PublicKey)
    } else if !signature_is_well_formed {
        Err(CryptoError::InvalidSignatureFormat)
    } else if !accepted {
        Err(CryptoError::SignatureVerificationFailed)
    } else {
        Ok(())
    }
}

/// The outcome of verifying `signature` over `message` under the raw
/// public key `public_key`.
///
/// The key must be sixty-four bytes and the signature sixty-four or
/// sixty-five, of which the last is dropped. The key must then be a point
/// of the curve, the signature well formed, and the signature must belong
/// to the SHA-256 digest of the message.
pub open spec fn p256_outcome(message: Seq<u8>, signature: Seq<u8>, public_key: Seq<u8>) -> Result<
    (),
    CryptoError,
> {
    if public_key.len() != 64 {
        Err(CryptoError::InvalidP256PublicKey)
    } else if signature.len() != 64 && signature.len() != 65 {
        Err(CryptoError::InvalidSignatureFormat)
    } else {
        verdict_of(
            sec1_point_valid(sec1_of_raw(public_key)),
            signature_well_formed(signature.take(64)),
            ecdsa_accepts(sec1_of_raw(public_key), sha256_digest(message), signature.take(64)),
        )
    }
}

/// Asks `p256::ecdsa::VerifyingKey::from_sec1_bytes` whether `sec1` is a
/// public key.
///
/// Trusted: the answer depends on the bytes alone.
#[verifier::external_body]
fn is_sec1_public_key(sec1: &[u8]) -> (valid: bool)
    ensures
        valid == sec1_point_valid(sec1@),
{
    VerifyingKey::from_sec1_bytes(sec1).is_ok()
}

/// Asks `p256::ecdsa::Signature::from_slice` whether `signature` parses.
///
/// Trusted: it parses exactly where it is sixty-four bytes long and both
/// halves, read as big-endian numbers, lie between one and the order of the
/// group, the order excluded.
#[verifier::external_body]
fn is_signature(signature: &[u8]) -> (valid: bool)
    ensures
        valid == signature_well_formed(signature@),
{
    Signature::from_slice(signature).is_ok()
}

/// Verifies with `PrehashVerifier::verify_prehash` of
/// `p256::ecdsa::VerifyingKey`, on the key and signature parsed from their
/// bytes.
///
/// Trusted: the answer is that of ECDSA over P-256 on the digest, a
/// function of the three byte strings alone.
#[verifier::external_body]
fn ecdsa_verify_prehash(sec1_key: &[u8], digest: &[u8; 32], signature: &[u8]) -> (accepted: bool)
    requires
        sec1_point_valid(sec1_key@),
        signature_well_formed(signature@),
    ensures
        accepted == ecdsa_accepts(sec1_key@, digest@, signature@),
{
    match (VerifyingKey::from_sec1_bytes(sec1_key), Signature::from_slice(signature)) {
        (Ok(key), Ok(parsed)) => key.verify_prehash(digest, &parsed).is_ok(),
        _ => false,
    }
}

/// Parses `sec1` with `VerifyingKey::from_sec1_bytes` and encodes the
/// point again, uncompressed, with `VerifyingKey::to_encoded_point`.
///
/// Trusted: there is a result exactly for a public key; it depends on the
/// bytes alone and is sixty-five bytes long, a tag and the two coordinates.
#[verifier::external_body]
fn uncompress_sec1(sec1: &[u8]) -> (encoded: Option<Vec<u8>>)
    ensures
        encoded is Some == sec1_point_valid(sec1@),
        encoded matches Some(bytes) ==> bytes@ == sec1_uncompressed(sec1@) && bytes@.len() == 65,
{
    match VerifyingKey::from_sec1_bytes(sec1) {
        Ok(key) => Some(key.to_encoded_point(false).as_bytes().to_vec()),
        Err(_) => None,
    }
}

/// The verdict on a signature, from what the curve library found: the key
/// is judged first, then the form of the signature, then the signature
/// itself.
pub fn signature_verdict(key_is_point: bool, signature_is_well_formed: bool, accepted: bool) -> (verdict:
    Result<(), CryptoError>)
    ensures
        verdict == verdict_of(key_is_point, signature_is_well_formed, accepted),
{
    if !key_is_point {
        Err(CryptoError::InvalidP256PublicKey)
    } else if !signature_is_well_formed {
        Err(CryptoError::InvalidSignatureFormat)
    } else if !accepted {
        Err(CryptoError::SignatureVerificationFailed)
    } else {
        Ok(())
    }
}

/// Verifies `signature` over `message` under the raw public key
/// `public_key`, the two coordinates of a point without a tag.
pub fn verify_p256_signature(message: &[u8], signature: &[u8], public_key: &[u8]) -> (outcome:
    Result<(), CryptoError>)
    ensures
        outcome == p256_outcome(message@, signature@, public_key@),
{
    if public_key.len() != 64 {
        return Err(CryptoError::InvalidP256PublicKey);
    }
    if signature.len() != 64 && signature.len() != 65 {
        return Err(CryptoError::InvalidSignatureFormat);
    }
    let message_hash = sha256(message);
    let mut sec1_key: Vec<u8> = Vec::new();
    sec1_key.push(4u8);
    sec1_key.extend_from_slice(public_key);
    assert(sec1_key@ =~= sec1_of_raw(public_key@));
    let sig_bytes = slice_subrange(signature, 0, 64);
    assert(sig_bytes@ =~= signature@.take(64));
    if !is_sec1_public_key(sec1_key.as_slice()) {
        return signature_verdict(false, false, false);
    }
    if !is_signature(sig_bytes) {
        return signature_verdict(true, false, false);
    }
    let accepted = ecdsa_verify_prehash(sec1_key.as_slice(), &message_hash, sig_bytes);
    signature_verdict(true, true, accepted)
}

/// The two coordinates in an uncompressed encoding of a point: the
/// sixty-four bytes behind the tag.
pub fn raw_coordinates(encoded: &[u8]) -> (raw: Result<[u8; 64], CryptoError>)
    ensures
        encoded@.len() >= 65 ==> (raw matches Ok(key) && key@ == encoded@.subrange(1, 65)),
        encoded@.len() < 65 ==> raw == Err::<[u8; 64], CryptoError>(
            CryptoError::InvalidP256PublicKey,
        ),
{
    if encoded.len() < 65 {
        return Err(CryptoError::InvalidP256PublicKey);
    }
    let mut uncompressed = [0u8; 64];
    let mut i: usize = 0;
    while i < 64
        invariant
            i <= 64,
            encoded@.len() >= 65,
            forall|j: int| 0 <= j < i ==> uncompressed@[j] == encoded@[j + 1],
        decreases 64 - i,
    {
        uncompressed[i] = encoded[i + 1];
        i += 1;
    }
    assert(uncompressed@ =~= encoded@.subrange(1, 65));
    Ok(uncompressed)
}

/// The outcome of expanding the compressed key `compressed`.
pub open spec fn decompress_outcome(compressed: Seq<u8>) -> Result<Seq<u8>, CryptoError> {
    if compressed.len() == 33 && sec1_point_valid(compressed) {
        Ok(sec1_uncompressed(compressed).subrange(1, 65))
    } else {
        Err(CryptoError::InvalidP256PublicKey)
    }
}

/// Expands a compressed public key of thirty-three bytes to its two raw
/// coordinates.
pub fn decompress_p256_public_key(compressed: &[u8]) -> (key: Result<[u8; 64], CryptoError>)
    ensures
        match decompress_outcome(compressed@) {
            Ok(raw) => key matches Ok(k) && k@ == raw,
            Err(e) => key matches Err(f) && f == e,
        },
{
    if compressed.len() != 33 {
        return Err(CryptoError::InvalidP256PublicKey);
    }
    match uncompress_sec1(compressed) {
        None => Err(CryptoError::InvalidP256PublicKey),
        Some(coords) => raw_coordinates(coords.as_slice()),
    }
}

} // verus!
