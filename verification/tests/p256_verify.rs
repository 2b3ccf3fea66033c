use attesta::p256_verify::{
    decompress_p256_public_key, raw_coordinates, signature_verdict, verify_p256_signature,
};
use attesta::CryptoError;
use p256::ecdsa::signature::Signer;
use p256::ecdsa::{Signature, SigningKey};

fn signing_key() -> SigningKey {
    SigningKey::from_slice(&[7u8; 32]).unwrap()
}

fn raw_public_key(key: &SigningKey) -> Vec<u8> {
    key.verifying_key().to_encoded_point(false).as_bytes()[1..].to_vec()
}

fn sign(key: &SigningKey, message: &[u8]) -> Vec<u8> {
    let signature: Signature = key.sign(message);
    signature.to_bytes().to_vec()
}

#[test]
fn test_verify_p256_signature_invalid_key_length() {
    let message = b"test message";
    let signature = &[0u8; 64];
    let public_key = &[0u8; 32]; // Wrong length

    let result = verify_p256_signature(message, signature, public_key);
    assert!(result.is_err());
    assert_eq!(result.unwrap_err(), CryptoError::InvalidP256PublicKey);
}

#[test]
fn test_verify_p256_signature_invalid_signature_length() {
    let message = b"test message";
    let signature = &[0u8; 32]; // Wrong length
    let public_key = &[0u8; 64];

    let result = verify_p256_signature(message, signature, public_key);
    assert!(result.is_err());
    assert_eq!(result.unwrap_err(), CryptoError::InvalidSignatureFormat);
}

#[test]
fn test_decompress_p256_public_key_invalid_length() {
    let compressed = &[0u8; 32]; // Wrong length
    let result = decompress_p256_public_key(compressed);
    assert!(result.is_err());
    assert_eq!(result.unwrap_err(), CryptoError::InvalidP256PublicKey);
}

#[test]
fn signature_of_the_key_holder_verifies() {
    let key = signing_key();
    let public_key = raw_public_key(&key);
    assert_eq!(public_key.len(), 64);
    for message in [&b""[..], &b"a"[..], &b"transfer 5 to bob"[..], &[0u8; 300][..]] {
        let signature = sign(&key, message);
        assert_eq!(signature.len(), 64);
        assert_eq!(verify_p256_signature(message, &signature, &public_key), Ok(()));
    }
}

#[test]
fn signature_with_a_recovery_byte_verifies() {
    let key = signing_key();
    let public_key = raw_public_key(&key);
    let message = b"transfer 5 to bob";
    let mut signature = sign(&key, message);
    signature.push(1);
    assert_eq!(signature.len(), 65);
    assert_eq!(verify_p256_signature(message, &signature, &public_key), Ok(()));
    signature[64] = 0xff;
    assert_eq!(verify_p256_signature(message, &signature, &public_key), Ok(()));
    signature.push(0);
    assert_eq!(
        verify_p256_signature(message, &signature, &public_key),
        Err(CryptoError::InvalidSignatureFormat)
    );
}

#[test]
fn any_flipped_bit_of_the_message_fails() {
    let key = signing_key();
    let public_key = raw_public_key(&key);
    let message = b"transfer 5 to bob".to_vec();
    let signature = sign(&key, &message);
    for bit in 0..message.len() * 8 {
        let mut changed = message.clone();
        changed[bit / 8] ^= 1 << (bit % 8);
        assert_eq!(
            verify_p256_signature(&changed, &signature, &public_key),
            Err(CryptoError::SignatureVerificationFailed)
        );
    }
}

#[test]
fn any_flipped_bit_of_the_signature_fails() {
    let key = signing_key();
    let public_key = raw_public_key(&key);
    let message = b"transfer 5 to bob";
    let signature = sign(&key, message);
    for bit in 0..signature.len() * 8 {
        let mut changed = signature.clone();
        changed[bit / 8] ^= 1 << (bit % 8);
        let outcome = verify_p256_signature(message, &changed, &public_key);
        assert!(
            outcome == Err(CryptoError::SignatureVerificationFailed)
                || outcome == Err(CryptoError::InvalidSignatureFormat)
        );
    }
}

#[test]
fn any_flipped_bit_of_the_key_fails() {
    let key = signing_key();
    let public_key = raw_public_key(&key);
    let message = b"transfer 5 to bob";
    let signature = sign(&key, message);
    for bit in 0..public_key.len() * 8 {
        let mut changed = public_key.clone();
        changed[bit / 8] ^= 1 << (bit % 8);
        let outcome = verify_p256_signature(message, &signature, &changed);
        assert!(
            outcome == Err(CryptoError::InvalidP256PublicKey)
                || outcome == Err(CryptoError::SignatureVerificationFailed)
        );
    }
}

#[test]
fn signature_under_another_key_fails() {
    let key = signing_key();
    let other = SigningKey::from_slice(&[8u8; 32]).unwrap();
    let message = b"transfer 5 to bob";
    let signature = sign(&other, message);
    assert_eq!(
        verify_p256_signature(message, &signature, &raw_public_key(&key)),
        Err(CryptoError::SignatureVerificationFailed)
    );
}

#[test]
fn key_off_the_curve_is_refused() {
    let key = signing_key();
    let message = b"transfer 5 to bob";
    let signature = sign(&key, message);
    assert_eq!(
        verify_p256_signature(message, &signature, &[0u8; 64]),
        Err(CryptoError::InvalidP256PublicKey)
    );
    assert_eq!(
        verify_p256_signature(message, &signature, &[0xffu8; 64]),
        Err(CryptoError::InvalidP256PublicKey)
    );
}

#[test]
fn key_length_is_judged_before_the_signature() {
    assert_eq!(
        verify_p256_signature(b"m", &[0u8; 3], &[0u8; 63]),
        Err(CryptoError::InvalidP256PublicKey)
    );
    assert_eq!(
        verify_p256_signature(b"m", &[0u8; 3], &[0u8; 65]),
        Err(CryptoError::InvalidP256PublicKey)
    );
    assert_eq!(verify_p256_signature(b"m", &[], &[]), Err(CryptoError::InvalidP256PublicKey));
}

#[test]
fn signature_with_a_half_out_of_range_is_malformed() {
    let key = signing_key();
    let public_key = raw_public_key(&key);
    let message = b"transfer 5 to bob";
    let good = sign(&key, message);

    // r = 0
    let mut zero_r = good.clone();
    zero_r[..32].copy_from_slice(&[0u8; 32]);
    assert_eq!(
        verify_p256_signature(message, &zero_r, &public_key),
        Err(CryptoError::InvalidSignatureFormat)
    );
    // s = 0
    let mut zero_s = good.clone();
    zero_s[32..].copy_from_slice(&[0u8; 32]);
    assert_eq!(
        verify_p256_signature(message, &zero_s, &public_key),
        Err(CryptoError::InvalidSignatureFormat)
    );
    // r = the order of the group
    let order: [u8; 32] = [
        0xff, 0xff, 0xff, 0xff, 0x00, 0x00, 0x00, 0x00, 0xff, 0xff, 0xff, 0xff, 0xff, 0xff, 0xff,
        0xff, 0xbc, 0xe6, 0xfa, 0xad, 0xa7, 0x17, 0x9e, 0x84, 0xf3, 0xb9, 0xca, 0xc2, 0xfc, 0x63,
        0x25, 0x51,
    ];
    let mut big_r = good.clone();
    big_r[..32].copy_from_slice(&order);
    assert_eq!(
        verify_p256_signature(message, &big_r, &public_key),
        Err(CryptoError::InvalidSignatureFormat)
    );
    // r = the order less one is well formed, though no signature
    let mut below = order;
    below[31] = 0x50;
    let mut near_r = good.clone();
    near_r[..32].copy_from_slice(&below);
    assert_eq!(
        verify_p256_signature(message, &near_r, &public_key),
        Err(CryptoError::SignatureVerificationFailed)
    );
    // r = 1, s = 1 is well formed, though no signature
    let mut ones = vec![0u8; 64];
    ones[31] = 1;
    ones[63] = 1;
    assert_eq!(
        verify_p256_signature(message, &ones, &public_key),
        Err(CryptoError::SignatureVerificationFailed)
    );
}

#[test]
fn verdict_judges_key_then_form_then_signature() {
    assert_eq!(signature_verdict(true, true, true), Ok(()));
    assert_eq!(
        signature_verdict(true, true, false),
        Err(CryptoError::SignatureVerificationFailed)
    );
    assert_eq!(signature_verdict(true, false, true), Err(CryptoError::InvalidSignatureFormat));
    assert_eq!(signature_verdict(true, false, false), Err(CryptoError::InvalidSignatureFormat));
    assert_eq!(signature_verdict(false, true, true), Err(CryptoError::InvalidP256PublicKey));
    assert_eq!(signature_verdict(false, false, false), Err(CryptoError::InvalidP256PublicKey));
}

#[test]
fn compressed_key_expands_to_its_coordinates() {
    for seed in [7u8, 8, 9, 200] {
        let key = SigningKey::from_slice(&[seed; 32]).unwrap();
        let compressed = key.verifying_key().to_encoded_point(true);
        assert_eq!(compressed.as_bytes().len(), 33);
        let expanded = decompress_p256_public_key(compressed.as_bytes()).unwrap();
        assert_eq!(expanded.to_vec(), raw_public_key(&key));
        assert_ne!(expanded.to_vec(), compressed.as_bytes()[..].to_vec());
    }
}

#[test]
fn compressed_key_that_is_no_point_is_refused() {
    // No point of the curve has the x coordinate 0xff..ff.
    let mut compressed = [0xffu8; 33];
    compressed[0] = 2;
    assert_eq!(
        decompress_p256_public_key(&compressed),
        Err(CryptoError::InvalidP256PublicKey)
    );
    // Unknown tag.
    let key = signing_key();
    let mut tagged = key.verifying_key().to_encoded_point(true).as_bytes().to_vec();
    tagged[0] = 7;
    assert_eq!(decompress_p256_public_key(&tagged), Err(CryptoError::InvalidP256PublicKey));
    // An uncompressed key is not a compressed one.
    let uncompressed = key.verifying_key().to_encoded_point(false);
    assert_eq!(
        decompress_p256_public_key(uncompressed.as_bytes()),
        Err(CryptoError::InvalidP256PublicKey)
    );
    assert_eq!(decompress_p256_public_key(&[]), Err(CryptoError::InvalidP256PublicKey));
}

#[test]
fn expanded_key_verifies_signatures() {
    let key = signing_key();
    let compressed = key.verifying_key().to_encoded_point(true);
    let expanded = decompress_p256_public_key(compressed.as_bytes()).unwrap();
    let message = b"transfer 5 to bob";
    assert_eq!(verify_p256_signature(message, &sign(&key, message), &expanded), Ok(()));
}

#[test]
fn raw_coordinates_skip_the_tag() {
    let mut encoded = vec![4u8];
    encoded.extend((0..64).map(|i| i as u8 + 10));
    let raw = raw_coordinates(&encoded).unwrap();
    assert_eq!(raw.to_vec(), (0..64).map(|i| i as u8 + 10).collect::<Vec<u8>>());
    encoded.push(99);
    assert_eq!(raw_coordinates(&encoded).unwrap(), raw);
    assert_eq!(raw_coordinates(&encoded[..64]), Err(CryptoError::InvalidP256PublicKey));
    assert_eq!(raw_coordinates(&[]), Err(CryptoError::InvalidP256PublicKey));
}
