use attesta::replay::ReplayProtection;
use attesta::CryptoError;
use sha2::{Digest, Sha256};

fn from_hex(text: &str) -> Vec<u8> {
    (0..text.len() / 2)
        .map(|i| u8::from_str_radix(&text[2 * i..2 * i + 2], 16).unwrap())
        .collect()
}

#[test]
fn test_generate_nonce() {
    let message = b"test message";
    let timestamp = 1234567890i64;
    let user_pubkey = b"test public key";

    let nonce = ReplayProtection::generate_nonce(message, timestamp, user_pubkey);
    assert_eq!(nonce.len(), 32);
}

#[test]
fn test_generate_nonce_different_inputs_different_outputs() {
    let message1 = b"message 1";
    let message2 = b"message 2";
    let timestamp = 1234567890i64;
    let user_pubkey = b"test public key";

    let nonce1 = ReplayProtection::generate_nonce(message1, timestamp, user_pubkey);
    let nonce2 = ReplayProtection::generate_nonce(message2, timestamp, user_pubkey);

    assert_ne!(nonce1, nonce2);
}

#[test]
fn test_validate_nonce_format_valid() {
    let nonce = [0u8; 32];
    assert!(ReplayProtection::validate_nonce_format(&nonce).is_ok());
}

#[test]
fn test_validate_nonce_format_invalid() {
    let nonce = [0u8; 31];
    assert!(ReplayProtection::validate_nonce_format(&nonce).is_err());

    let nonce = [0u8; 33];
    assert!(ReplayProtection::validate_nonce_format(&nonce).is_err());
}

#[test]
fn test_is_nonce_used() {
    let nonce1 = [1u8; 32];
    let nonce2 = [2u8; 32];
    let used_nonces = vec![nonce1];

    assert!(ReplayProtection::is_nonce_used(&nonce1, &used_nonces));
    assert!(!ReplayProtection::is_nonce_used(&nonce2, &used_nonces));
}

#[test]
fn test_mark_nonce_used() {
    let nonce = [1u8; 32];
    let mut used_nonces = Vec::new();

    ReplayProtection::mark_nonce_used(&nonce, &mut used_nonces);
    assert!(used_nonces.contains(&nonce));
    assert_eq!(used_nonces.len(), 1);

    // Adding same nonce again shouldn't duplicate
    ReplayProtection::mark_nonce_used(&nonce, &mut used_nonces);
    assert_eq!(used_nonces.len(), 1);
}

#[test]
fn invalid_nonce_format_names_its_error() {
    assert_eq!(
        ReplayProtection::validate_nonce_format(&[0u8; 31]),
        Err(CryptoError::InvalidNonce)
    );
    assert_eq!(ReplayProtection::validate_nonce_format(&[]), Err(CryptoError::InvalidNonce));
    assert_eq!(ReplayProtection::validate_nonce_format(&[9u8; 32]), Ok(()));
}

#[test]
fn generated_nonce_is_the_digest_of_the_joined_inputs() {
    let nonce = ReplayProtection::generate_nonce(b"test message", 1234567890, b"test public key");
    let expected = from_hex("06eeb5a01b0b040b0b241518868a01460c77c2f67626a1da9bb0745b6f0577a3");
    assert_eq!(nonce.to_vec(), expected);

    let mut hasher = Sha256::new();
    hasher.update(b"test message");
    hasher.update(1234567890i64.to_le_bytes());
    hasher.update(b"test public key");
    let expected: [u8; 32] = hasher.finalize().into();
    assert_eq!(nonce, expected);
}

#[test]
fn nonce_preimage_joins_message_timestamp_and_identity() {
    let input = ReplayProtection::nonce_preimage(b"ab", -2, b"xyz");
    let mut expected = b"ab".to_vec();
    expected.extend_from_slice(&[0xfe, 0xff, 0xff, 0xff, 0xff, 0xff, 0xff, 0xff]);
    expected.extend_from_slice(b"xyz");
    assert_eq!(input, expected);
}

#[test]
fn generated_nonce_depends_on_timestamp_and_identity() {
    let base = ReplayProtection::generate_nonce(b"m", 1, b"k");
    assert_eq!(base, ReplayProtection::generate_nonce(b"m", 1, b"k"));
    assert_ne!(base, ReplayProtection::generate_nonce(b"m", 2, b"k"));
    assert_ne!(base, ReplayProtection::generate_nonce(b"m", 1, b"l"));
}

#[test]
fn counter_accepts_only_greater_values() {
    for n in [0u64, 1, 5, 1_000_000, u64::MAX - 1, u64::MAX] {
        assert!(!ReplayProtection::is_valid_next(n, n));
        if n > 0 {
            assert!(!ReplayProtection::is_valid_next(n, n - 1));
        }
        if n < u64::MAX {
            assert!(ReplayProtection::is_valid_next(n, n + 1));
        }
    }
    assert!(ReplayProtection::is_valid_next(5, 100));
    assert!(!ReplayProtection::is_valid_next(5, 0));
}

#[test]
fn counter_advances_by_one_and_saturates() {
    let mut counter = 0u64;
    ReplayProtection::advance(&mut counter);
    assert_eq!(counter, 1);
    ReplayProtection::advance(&mut counter);
    assert_eq!(counter, 2);

    let mut counter = u64::MAX - 1;
    ReplayProtection::advance(&mut counter);
    assert_eq!(counter, u64::MAX);
    ReplayProtection::advance(&mut counter);
    assert_eq!(counter, u64::MAX);
}

#[test]
fn marking_keeps_the_order_of_first_use() {
    let mut used = Vec::new();
    ReplayProtection::mark_nonce_used(&[3u8; 32], &mut used);
    ReplayProtection::mark_nonce_used(&[1u8; 32], &mut used);
    ReplayProtection::mark_nonce_used(&[3u8; 32], &mut used);
    assert_eq!(used, vec![[3u8; 32], [1u8; 32]]);
    assert!(!ReplayProtection::is_nonce_used(&[2u8; 32], &used));
    assert!(!ReplayProtection::is_nonce_used(&[2u8; 32], &[]));
}
