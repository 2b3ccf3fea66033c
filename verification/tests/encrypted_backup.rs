use attesta::encrypted_backup::{derive_backup_key, nonce_of_digest, EncryptedBackup};
use attesta::CodecError;
use sha2::{Digest, Sha256};

fn from_hex(text: &str) -> Vec<u8> {
    (0..text.len() / 2)
        .map(|i| u8::from_str_radix(&text[2 * i..2 * i + 2], 16).unwrap())
        .collect()
}

#[test]
fn backup_records_the_digest_of_its_key() {
    let backup = EncryptedBackup::new(b"secret key", b"account data", 1_700_000_000);
    assert_eq!(
        backup.key_hash.to_vec(),
        from_hex("66859b7ade4e68cb65041b88a7ad5214df71cdcfa27dff2efcc80a81e9ba5fa0")
    );
    assert_eq!(
        backup.nonce.to_vec(),
        from_hex("a02c0c99c7ba79e0335cd1b10d20d5d870a64a28f2f213d8f0535717e39dbb68")[..12].to_vec()
    );
    assert_eq!(backup.encrypted_data, b"account data".to_vec());
    assert_eq!(backup.created_at, 1_700_000_000);
    assert_eq!(backup.version, 1);
}

#[test]
fn backup_nonce_depends_on_key_and_time() {
    let base = EncryptedBackup::new(b"secret key", b"data", 5);
    assert_eq!(base.nonce, EncryptedBackup::new(b"secret key", b"other", 5).nonce);
    assert_ne!(base.nonce, EncryptedBackup::new(b"secret key", b"data", 6).nonce);
    assert_ne!(base.nonce, EncryptedBackup::new(b"secret kez", b"data", 5).nonce);
    let mut input = b"secret key".to_vec();
    input.extend_from_slice(&5i64.to_le_bytes());
    assert_eq!(base.nonce.to_vec(), Sha256::digest(&input)[..12].to_vec());
}

#[test]
fn backup_opens_with_its_key_alone() {
    let backup = EncryptedBackup::new(b"secret key", b"account data", 1);
    assert!(backup.verify_key(b"secret key"));
    assert!(!backup.verify_key(b"secret kez"));
    assert!(!backup.verify_key(b""));
    assert_eq!(backup.decrypt(b"secret key"), Ok(b"account data".to_vec()));
    assert_eq!(backup.decrypt(b"Secret key"), Err("Invalid encryption key"));
    assert_eq!(backup.decrypt(b""), Err("Invalid encryption key"));
    let empty = EncryptedBackup::new(b"", b"", 0);
    assert!(empty.verify_key(b""));
    assert_eq!(empty.decrypt(b""), Ok(vec![]));
}

#[test]
fn key_hash_is_compared_byte_by_byte() {
    let backup = EncryptedBackup::new(b"secret key", b"account data", 1);
    let mut digest = backup.key_hash;
    assert!(backup.key_hash_is(&digest));
    digest[31] ^= 1;
    assert!(!backup.key_hash_is(&digest));
    assert!(!backup.key_hash_is(&[0u8; 32]));
}

#[test]
fn nonce_is_the_start_of_the_digest() {
    let mut digest = [0u8; 32];
    for (i, byte) in digest.iter_mut().enumerate() {
        *byte = i as u8 + 1;
    }
    assert_eq!(nonce_of_digest(&digest), [1, 2, 3, 4, 5, 6, 7, 8, 9, 10, 11, 12]);
}

#[test]
fn backup_key_is_the_digest_of_the_phrase() {
    assert_eq!(
        derive_backup_key("correct horse battery staple").to_vec(),
        from_hex("c4bbcb1fbec99d65bf59d85c8cb62ee2db963f0fe106f483d9afa73bd4e39a8a")
    );
    assert_eq!(
        derive_backup_key("abc").to_vec(),
        from_hex("ba7816bf8f01cfea414140de5dae2223b00361a396177a9cb410ff61f20015ad")
    );
    assert_eq!(
        derive_backup_key("gr\u{fc}n").to_vec(),
        Sha256::digest("gr\u{fc}n".as_bytes()).to_vec()
    );
    let key = derive_backup_key("abc");
    let backup = EncryptedBackup::new(&key, b"data", 3);
    assert_eq!(backup.decrypt(&derive_backup_key("abc")), Ok(b"data".to_vec()));
    assert!(backup.decrypt(&derive_backup_key("abd")).is_err());
}

#[test]
fn serialized_backup_matches_borsh_and_reads_back() {
    let backup = EncryptedBackup::new(b"secret key", b"account data", -4);
    let bytes = backup.to_bytes().unwrap();
    let expected = borsh::to_vec(&(
        backup.key_hash,
        backup.encrypted_data.clone(),
        backup.nonce,
        backup.created_at,
        backup.version,
    ))
    .unwrap();
    assert_eq!(bytes, expected);
    assert_eq!(bytes.len(), 32 + 4 + 12 + 12 + 8 + 1);

    let back = EncryptedBackup::from_bytes(&bytes).unwrap();
    assert_eq!(back.key_hash, backup.key_hash);
    assert_eq!(back.encrypted_data, backup.encrypted_data);
    assert_eq!(back.nonce, backup.nonce);
    assert_eq!(back.created_at, -4);
    assert_eq!(back.version, 1);
    assert!(back.verify_key(b"secret key"));
}

#[test]
fn malformed_backup_bytes_name_their_error() {
    let bytes = EncryptedBackup::new(b"k", b"data", 9).to_bytes().unwrap();
    for keep in 0..bytes.len() {
        assert_eq!(EncryptedBackup::from_bytes(&bytes[..keep]).err(), Some(CodecError::UnexpectedEnd));
    }
    let mut longer = bytes.clone();
    longer.push(0);
    assert_eq!(EncryptedBackup::from_bytes(&longer).err(), Some(CodecError::TrailingBytes));
    let mut versioned = bytes.clone();
    let last = versioned.len() - 1;
    versioned[last] = 200;
    assert_eq!(EncryptedBackup::from_bytes(&versioned).unwrap().version, 200);
}
