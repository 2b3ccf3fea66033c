use attesta::multi_passkey::{MultiPasskey, PasskeyEntry, RegistryError};
use attesta::CodecError;

fn registry(threshold: u8, capacity: u8) -> MultiPasskey {
    MultiPasskey::new(
        [1u8; 64],
        b"primary".to_vec(),
        "Phone".to_string(),
        100,
        threshold,
        capacity,
    )
}

fn add(registry: &mut MultiPasskey, id: &[u8]) -> Result<(), RegistryError> {
    registry.add_passkey([2u8; 64], id.to_vec(), "Laptop".to_string(), 200)
}

fn ids(registry: &MultiPasskey) -> Vec<Vec<u8>> {
    registry.additional.iter().map(|entry| entry.credential_id.clone()).collect()
}

#[test]
fn entry_is_enabled_and_named() {
    let entry = PasskeyEntry::new([3u8; 64], vec![1, 2], "K\u{fc}che".to_string(), -5);
    assert_eq!(entry.public_key, [3u8; 64]);
    assert_eq!(entry.credential_id, vec![1, 2]);
    assert_eq!(entry.name, "K\u{fc}che".as_bytes().to_vec());
    assert_eq!(entry.name, vec![b'K', 0xc3, 0xbc, b'c', b'h', b'e']);
    assert!(entry.enabled);
    assert_eq!(entry.added_at, -5);
    assert_eq!(entry.name_str().unwrap(), "K\u{fc}che");
}

#[test]
fn name_that_is_no_text_is_an_error() {
    let mut entry = PasskeyEntry::new([3u8; 64], vec![1], String::new(), 0);
    assert_eq!(entry.name_str().unwrap(), "");
    entry.name = vec![b'a', 0xff];
    assert!(entry.name_str().is_err());
    entry.name = vec![0xe4, 0xb8, 0x96];
    assert_eq!(entry.name_str().unwrap(), "\u{4e16}");
    entry.name = vec![0xe4, 0xb8];
    assert!(entry.name_str().is_err());
}

#[test]
fn new_registry_holds_its_primary_alone() {
    let registry = registry(2, 5);
    assert_eq!(registry.primary.credential_id, b"primary".to_vec());
    assert_eq!(registry.primary.public_key, [1u8; 64]);
    assert_eq!(registry.primary.name, b"Phone".to_vec());
    assert!(registry.primary.enabled);
    assert_eq!(registry.primary.added_at, 100);
    assert!(registry.additional.is_empty());
    assert_eq!(registry.recovery_threshold, 2);
    assert_eq!(registry.max_passkeys, 5);
}

#[test]
fn threshold_and_capacity_are_brought_into_range() {
    let cases = [
        // (threshold, capacity) -> (threshold, capacity)
        ((0u8, 5u8), (1u8, 5u8)),
        ((1, 5), (1, 5)),
        ((5, 5), (5, 5)),
        ((6, 5), (5, 5)),
        ((255, 5), (5, 5)),
        ((3, 0), (1, 1)),
        ((0, 0), (1, 1)),
        ((0, 1), (1, 1)),
        ((255, 255), (255, 255)),
    ];
    for ((threshold, capacity), (expected_threshold, expected_capacity)) in cases {
        let registry = registry(threshold, capacity);
        assert_eq!(registry.recovery_threshold, expected_threshold);
        assert_eq!(registry.max_passkeys, expected_capacity);
        assert!(1 <= registry.recovery_threshold);
        assert!(registry.recovery_threshold <= registry.max_passkeys);
    }
}

#[test]
fn registry_fills_up_to_its_capacity() {
    let mut registry = registry(1, 4);
    assert_eq!(add(&mut registry, b"a"), Ok(()));
    assert_eq!(add(&mut registry, b"b"), Ok(()));
    assert_eq!(add(&mut registry, b"c"), Ok(()));
    assert_eq!(registry.additional.len(), 3);
    let before = ids(&registry);
    assert_eq!(add(&mut registry, b"d"), Err(RegistryError::MaxCredentialsReached));
    assert_eq!(add(&mut registry, b"a"), Err(RegistryError::MaxCredentialsReached));
    assert_eq!(ids(&registry), before);
    assert_eq!(ids(&registry), vec![b"a".to_vec(), b"b".to_vec(), b"c".to_vec()]);
}

#[test]
fn registry_of_one_takes_no_additional_passkey() {
    let mut registry = registry(1, 1);
    assert_eq!(add(&mut registry, b"a"), Err(RegistryError::MaxCredentialsReached));
    assert!(registry.additional.is_empty());
    let mut two = self::registry(1, 2);
    assert_eq!(add(&mut two, b"a"), Ok(()));
    assert_eq!(add(&mut two, b"b"), Err(RegistryError::MaxCredentialsReached));
}

#[test]
fn largest_registry_takes_254_additional_passkeys() {
    let mut registry = registry(1, 255);
    for i in 0..254u32 {
        assert_eq!(add(&mut registry, &i.to_le_bytes()), Ok(()));
    }
    assert_eq!(add(&mut registry, b"one more"), Err(RegistryError::MaxCredentialsReached));
    assert_eq!(registry.additional.len(), 254);
}

#[test]
fn credential_id_is_added_once() {
    let mut registry = registry(1, 5);
    assert_eq!(add(&mut registry, b"a"), Ok(()));
    assert_eq!(add(&mut registry, b"a"), Err(RegistryError::DuplicateCredential));
    assert_eq!(add(&mut registry, b"b"), Ok(()));
    assert_eq!(add(&mut registry, b"a"), Err(RegistryError::DuplicateCredential));
    assert_eq!(add(&mut registry, b"b"), Err(RegistryError::DuplicateCredential));
    assert_eq!(ids(&registry), vec![b"a".to_vec(), b"b".to_vec()]);
}

#[test]
fn added_passkey_is_enabled_and_last() {
    let mut registry = registry(1, 5);
    add(&mut registry, b"a").unwrap();
    registry
        .add_passkey([7u8; 64], b"b".to_vec(), "Key".to_string(), 300)
        .unwrap();
    let last = &registry.additional[1];
    assert_eq!(last.public_key, [7u8; 64]);
    assert_eq!(last.credential_id, b"b".to_vec());
    assert_eq!(last.name, b"Key".to_vec());
    assert!(last.enabled);
    assert_eq!(last.added_at, 300);
    assert_eq!(registry.primary.credential_id, b"primary".to_vec());
    assert_eq!(registry.recovery_threshold, 1);
    assert_eq!(registry.max_passkeys, 5);
}

#[test]
fn primary_is_never_removed() {
    let mut registry = registry(1, 5);
    assert_eq!(registry.remove_passkey(b"primary"), Err(RegistryError::CannotRemovePrimary));
    add(&mut registry, b"a").unwrap();
    assert_eq!(registry.remove_passkey(b"primary"), Err(RegistryError::CannotRemovePrimary));
    assert_eq!(registry.primary.credential_id, b"primary".to_vec());
    assert_eq!(ids(&registry), vec![b"a".to_vec()]);
}

#[test]
fn unknown_id_is_not_found() {
    let mut registry = registry(1, 5);
    assert_eq!(registry.remove_passkey(b"a"), Err(RegistryError::NotFound));
    add(&mut registry, b"a").unwrap();
    assert_eq!(registry.remove_passkey(b"b"), Err(RegistryError::NotFound));
    assert_eq!(registry.remove_passkey(b""), Err(RegistryError::NotFound));
    assert_eq!(ids(&registry), vec![b"a".to_vec()]);
}

#[test]
fn removal_takes_exactly_one_passkey() {
    let mut registry = registry(1, 6);
    for id in [&b"a"[..], b"b", b"c", b"d"] {
        add(&mut registry, id).unwrap();
    }
    assert_eq!(registry.remove_passkey(b"b"), Ok(()));
    assert_eq!(ids(&registry), vec![b"a".to_vec(), b"c".to_vec(), b"d".to_vec()]);
    assert_eq!(registry.remove_passkey(b"b"), Err(RegistryError::NotFound));
    assert_eq!(registry.remove_passkey(b"d"), Ok(()));
    assert_eq!(registry.remove_passkey(b"a"), Ok(()));
    assert_eq!(ids(&registry), vec![b"c".to_vec()]);
    assert_eq!(add(&mut registry, b"b"), Ok(()));
    assert_eq!(ids(&registry), vec![b"c".to_vec(), b"b".to_vec()]);
}

#[test]
fn removal_makes_room_again() {
    let mut registry = registry(1, 2);
    add(&mut registry, b"a").unwrap();
    assert_eq!(add(&mut registry, b"b"), Err(RegistryError::MaxCredentialsReached));
    registry.remove_passkey(b"a").unwrap();
    assert_eq!(add(&mut registry, b"b"), Ok(()));
}

#[test]
fn find_looks_at_the_primary_first() {
    let mut registry = registry(1, 5);
    add(&mut registry, b"a").unwrap();
    registry
        .add_passkey([7u8; 64], b"b".to_vec(), "Key".to_string(), 300)
        .unwrap();
    assert_eq!(registry.find_passkey(b"primary").unwrap().public_key, [1u8; 64]);
    assert_eq!(registry.find_passkey(b"a").unwrap().public_key, [2u8; 64]);
    assert_eq!(registry.find_passkey(b"b").unwrap().public_key, [7u8; 64]);
    assert_eq!(registry.find_passkey(b"b").unwrap().added_at, 300);
    assert!(registry.find_passkey(b"c").is_none());
    assert!(registry.find_passkey(b"").is_none());
    assert!(registry.find_passkey(b"primar").is_none());
}

#[test]
fn enabled_passkeys_keep_their_order() {
    let mut registry = registry(1, 6);
    for id in [&b"a"[..], b"b", b"c"] {
        add(&mut registry, id).unwrap();
    }
    let listed: Vec<Vec<u8>> =
        registry.enabled_passkeys().iter().map(|e| e.credential_id.clone()).collect();
    assert_eq!(
        listed,
        vec![b"primary".to_vec(), b"a".to_vec(), b"b".to_vec(), b"c".to_vec()]
    );

    registry.additional[1].enabled = false;
    let listed: Vec<Vec<u8>> =
        registry.enabled_passkeys().iter().map(|e| e.credential_id.clone()).collect();
    assert_eq!(listed, vec![b"primary".to_vec(), b"a".to_vec(), b"c".to_vec()]);

    registry.primary.enabled = false;
    let listed: Vec<Vec<u8>> =
        registry.enabled_passkeys().iter().map(|e| e.credential_id.clone()).collect();
    assert_eq!(listed, vec![b"a".to_vec(), b"c".to_vec()]);

    registry.additional[0].enabled = false;
    registry.additional[2].enabled = false;
    assert!(registry.enabled_passkeys().is_empty());
}

#[test]
fn recovery_needs_the_threshold_of_enabled_passkeys() {
    let mut registry = registry(3, 5);
    assert!(!registry.can_recover());
    add(&mut registry, b"a").unwrap();
    assert!(!registry.can_recover());
    add(&mut registry, b"b").unwrap();
    assert!(registry.can_recover());
    add(&mut registry, b"c").unwrap();
    assert!(registry.can_recover());

    registry.additional[0].enabled = false;
    assert!(registry.can_recover());
    registry.primary.enabled = false;
    assert!(!registry.can_recover());
    registry.primary.enabled = true;
    assert!(registry.can_recover());
    registry.remove_passkey(b"c").unwrap();
    assert!(!registry.can_recover());
}

#[test]
fn single_passkey_recovers_at_threshold_one() {
    let mut registry = registry(1, 3);
    assert!(registry.can_recover());
    registry.primary.enabled = false;
    assert!(!registry.can_recover());
}

#[test]
fn registry_errors_describe_themselves() {
    assert_eq!(
        RegistryError::MaxCredentialsReached.message(),
        "Maximum number of passkeys reached"
    );
    assert_eq!(RegistryError::DuplicateCredential.message(), "Credential ID already exists");
    assert_eq!(RegistryError::CannotRemovePrimary.message(), "Cannot remove primary passkey");
    assert_eq!(RegistryError::NotFound.message(), "Passkey not found");
}

fn borsh_entry(entry: &PasskeyEntry) -> Vec<u8> {
    borsh::to_vec(&(
        entry.public_key,
        entry.credential_id.clone(),
        entry.name.clone(),
        entry.enabled,
        entry.added_at,
    ))
    .unwrap()
}

#[test]
fn serialized_registry_matches_borsh() {
    let mut registry = registry(2, 5);
    add(&mut registry, b"a").unwrap();
    add(&mut registry, b"bb").unwrap();
    registry.additional[0].enabled = false;
    registry.additional[1].added_at = -9;

    let mut expected = borsh_entry(&registry.primary);
    expected.extend_from_slice(&2u32.to_le_bytes());
    expected.extend_from_slice(&borsh_entry(&registry.additional[0]));
    expected.extend_from_slice(&borsh_entry(&registry.additional[1]));
    expected.extend_from_slice(&[2, 5]);
    let bytes = registry.to_bytes().unwrap();
    assert_eq!(bytes, expected);

    let tuples: Vec<([u8; 64], Vec<u8>, Vec<u8>, bool, i64)> = registry
        .additional
        .iter()
        .map(|e| (e.public_key, e.credential_id.clone(), e.name.clone(), e.enabled, e.added_at))
        .collect();
    let mut listed = borsh_entry(&registry.primary);
    listed.extend_from_slice(&borsh::to_vec(&tuples).unwrap());
    listed.extend_from_slice(&[2, 5]);
    assert_eq!(bytes, listed);
}

#[test]
fn serialized_registry_reads_back() {
    let mut registry = registry(2, 5);
    add(&mut registry, b"a").unwrap();
    add(&mut registry, b"bb").unwrap();
    registry.additional[0].enabled = false;
    let bytes = registry.to_bytes().unwrap();
    let back = MultiPasskey::from_bytes(&bytes).unwrap();
    assert_eq!(back.recovery_threshold, 2);
    assert_eq!(back.max_passkeys, 5);
    assert_eq!(back.primary.credential_id, b"primary".to_vec());
    assert_eq!(back.primary.name, b"Phone".to_vec());
    assert_eq!(back.primary.added_at, 100);
    assert_eq!(ids(&back), vec![b"a".to_vec(), b"bb".to_vec()]);
    assert!(!back.additional[0].enabled);
    assert!(back.additional[1].enabled);
    assert_eq!(back.additional[1].public_key, [2u8; 64]);
    assert_eq!(back.to_bytes().unwrap(), bytes);

    let alone = self::registry(1, 1);
    let back = MultiPasskey::from_bytes(&alone.to_bytes().unwrap()).unwrap();
    assert!(back.additional.is_empty());
}

#[test]
fn malformed_registry_bytes_name_their_error() {
    let mut registry = registry(2, 5);
    add(&mut registry, b"a").unwrap();
    let bytes = registry.to_bytes().unwrap();
    for keep in 0..bytes.len() {
        assert_eq!(MultiPasskey::from_bytes(&bytes[..keep]).err(), Some(CodecError::UnexpectedEnd));
    }
    let mut longer = bytes.clone();
    longer.push(0);
    assert_eq!(MultiPasskey::from_bytes(&longer).err(), Some(CodecError::TrailingBytes));

    // the flag of the primary passkey stands behind key, id and name
    let flag = 64 + 4 + 7 + 4 + 5;
    assert_eq!(bytes[flag], 1);
    let mut bad_flag = bytes.clone();
    bad_flag[flag] = 2;
    assert_eq!(MultiPasskey::from_bytes(&bad_flag).err(), Some(CodecError::InvalidValue));
    let mut off = bytes.clone();
    off[flag] = 0;
    assert!(!MultiPasskey::from_bytes(&off).unwrap().primary.enabled);

    // a count that announces more passkeys than follow
    let count = flag + 1 + 8;
    assert_eq!(&bytes[count..count + 4], &[1, 0, 0, 0]);
    let mut more = bytes.clone();
    more[count] = 2;
    assert_eq!(MultiPasskey::from_bytes(&more).err(), Some(CodecError::UnexpectedEnd));
    let mut fewer = bytes.clone();
    fewer[count] = 0;
    assert_eq!(MultiPasskey::from_bytes(&fewer).err(), Some(CodecError::TrailingBytes));
}

#[test]
fn credential_id_of_the_primary_is_not_added_again() {
    let mut registry = registry(1, 5);
    assert_eq!(add(&mut registry, b"primary"), Err(RegistryError::DuplicateCredential));
    assert!(registry.additional.is_empty());
    add(&mut registry, b"a").unwrap();
    assert_eq!(add(&mut registry, b"primary"), Err(RegistryError::DuplicateCredential));
    assert_eq!(ids(&registry), vec![b"a".to_vec()]);
    assert_eq!(registry.primary.credential_id, b"primary".to_vec());
    assert_eq!(registry.find_passkey(b"primary").unwrap().public_key, [1u8; 64]);
    // A full registry says so first.
    let mut full = self::registry(1, 1);
    assert_eq!(add(&mut full, b"primary"), Err(RegistryError::MaxCredentialsReached));
}

#[test]
fn removal_undoes_an_addition() {
    let mut registry = registry(2, 5);
    add(&mut registry, b"a").unwrap();
    registry.additional[0].enabled = false;
    let before = registry.to_bytes().unwrap();
    for id in [&b"b"[..], b"", b"primar", b"aa"] {
        assert_eq!(add(&mut registry, id), Ok(()));
        assert_ne!(registry.to_bytes().unwrap(), before);
        assert_eq!(registry.remove_passkey(id), Ok(()));
        assert_eq!(registry.to_bytes().unwrap(), before);
    }
}
