//! Backups of account data under a key that is known by its hash alone.

use crate::codec::{
    bytes_equal, field_bytes, i64_le_bytes, lemma_bytes_round_trip, lemma_field_round_trip,
    lemma_i64_bytes_of_value, lemma_i64_round_trip, lemma_take_bytes_is_bytes,
    lemma_take_field_is_field, put_bytes, put_field, put_i64, read_array, read_field, read_i64,
    take_bytes, take_field, take_i64, CodecError,
};
use crate::hash::{sha256, sha256_digest};
use vstd::prelude::*;
use vstd::slice::slice_to_vec;
use vstd::string::StringSliceAdditionalSpecFns;

verus! {

/// The version of the backup format that this library writes.
pub const BACKUP_VERSION: u8 = 1;

/// A backup as a mathematical value.
pub struct EncryptedBackupView {
    pub key_hash: Seq<u8>,
    pub encrypted_data: Seq<u8>,
    pub nonce: Seq<u8>,
    pub created_at: i64,
    pub version: u8,
}

impl EncryptedBackupView {
    /// Whether `encryption_key` is the key of the backup: its digest is
    /// the recorded one.
    pub open spec fn opens_with(self, encryption_key: Seq<u8>) -> bool {
        sha256_digest(encryption_key) == self.key_hash
    }

    /// The serialized backup: key hash, data behind its length, nonce,
    /// time of creation, version.
    pub open spec fn encoding(self) -> Seq<u8> {
        self.key_hash + field_bytes(self.encrypted_data) + self.nonce + i64_le_bytes(
            self.created_at,
        ) + seq![self.version]
    }
}

/// What is hashed into the nonce of a backup: the key, then the time of
/// creation in little-endian bytes.
pub open spec fn backup_nonce_input(encryption_key: Seq<u8>, created_at: i64) -> Seq<u8> {
    encryption_key + i64_le_bytes(created_at)
}

/// What reading `data` as a serialized backup gives.
pub open spec fn decode_backup(data: Seq<u8>) -> Result<EncryptedBackupView, CodecError> {
    match take_bytes(data, 32) {
        None => Err(CodecError::UnexpectedEnd),
        Some((key_hash, rest1)) => match take_field(rest1) {
            None => Err(CodecError::UnexpectedEnd),
            Some((encrypted_data, rest2)) => match take_bytes(rest2, 12) {
                None => Err(CodecError::UnexpectedEnd),
                Some((nonce, rest3)) => match take_i64(rest3) {
                    None => Err(CodecError::UnexpectedEnd),
                    Some((created_at, rest4)) => if rest4.len() < 1 {
                        Err(CodecError::UnexpectedEnd)
                    } else if rest4.len() > 1 {
                        Err(CodecError::TrailingBytes)
                    } else {
                        Ok(
                            EncryptedBackupView {
                                key_hash,
                                encrypted_data,
                                nonce,
                                created_at,
                                version: rest4[0],
                            },
                        )
                    },
                },
            },
        },
    }
}

/// A backup of account data for recovery.
#[derive(Debug, Clone)]
pub struct EncryptedBackup {
    /// The digest of the key.
    pub key_hash: [u8; 32],
    /// The data of the backup.
    pub encrypted_data: Vec<u8>,
    /// The nonce of the backup.
    pub nonce: [u8; 12],
    /// When the backup was made.
    pub created_at: i64,
    /// The version of the format.
    pub version: u8,
}

impl View for EncryptedBackup {
    type V = EncryptedBackupView;

    open spec fn view(&self) -> EncryptedBackupView {
        EncryptedBackupView {
            key_hash: self.key_hash@,
            encrypted_data: self.encrypted_data@,
            nonce: self.nonce@,
            created_at: self.created_at,
            version: self.version,
        }
    }
}

/// The first twelve bytes of a digest: the nonce of a backup.
pub fn nonce_of_digest(digest: &[u8; 32]) -> (nonce: [u8; 12])
    ensures
        nonce@ == digest@.take(12),
{
    let mut nonce = [0u8; 12];
    let mut i: usize = 0;
    while i < 12
        invariant
            i <= 12,
            forall|j: int| 0 <= j < i ==> nonce@[j] == digest@[j],
        decreases 12 - i,
    {
        nonce[i] = digest[i];
        i += 1;
    }
    assert(nonce@ =~= digest@.take(12));
    nonce
}

impl EncryptedBackup {
    /// A backup of `account_data` under `encryption_key`, made at
    /// `created_at`. The key is recorded by its digest; the nonce is the
    /// start of the digest of key and time.
    pub fn new(encryption_key: &[u8], account_data: &[u8], created_at: i64) -> (backup:
        EncryptedBackup)
        ensures
            backup@ == (EncryptedBackupView {
                key_hash: sha256_digest(encryption_key@),
                encrypted_data: account_data@,
                nonce: sha256_digest(backup_nonce_input(encryption_key@, created_at)).take(12),
                created_at,
                version: BACKUP_VERSION,
            }),
    {
        let key_hash = sha256(encryption_key);
        let mut nonce_input: Vec<u8> = Vec::new();
        put_bytes(&mut nonce_input, encryption_key);
        put_i64(&mut nonce_input, created_at);
        let nonce_digest = sha256(nonce_input.as_slice());
        let nonce = nonce_of_digest(&nonce_digest);
        let encrypted_data = slice_to_vec(account_data);
        EncryptedBackup { key_hash, encrypted_data, nonce, created_at, version: BACKUP_VERSION }
    }

    /// Whether `digest` is the recorded digest of the key.
    pub fn key_hash_is(&self, digest: &[u8; 32]) -> (same: bool)
        ensures
            same == (digest@ == self@.key_hash),
    {
        bytes_equal(digest.as_slice(), self.key_hash.as_slice())
    }

    /// Whether `encryption_key` is the key of the backup.
    pub fn verify_key(&self, encryption_key: &[u8]) -> (matches: bool)
        ensures
            matches == self@.opens_with(encryption_key@),
    {
        let digest = sha256(encryption_key);
        self.key_hash_is(&digest)
    }

    /// The data of the backup, for the holder of the key.
    pub fn decrypt(&self, encryption_key: &[u8]) -> (data: Result<Vec<u8>, &'static str>)
        ensures
            self@.opens_with(encryption_key@) ==> (data matches Ok(d) && d@
                == self@.encrypted_data),
            !self@.opens_with(encryption_key@) ==> (data matches Err(e) && e@
                == "Invalid encryption key"@),
    {
        if !self.verify_key(encryption_key) {
            return Err("Invalid encryption key");
        }
        Ok(slice_to_vec(self.encrypted_data.as_slice()))
    }

    /// Serializes the backup. Fails only where the data is longer than its
    /// length prefix can say.
    pub fn to_bytes(&self) -> (bytes: Result<Vec<u8>, CodecError>)
        ensures
            self@.encrypted_data.len() <= u32::MAX ==> (bytes matches Ok(b) && b@
                == self@.encoding()),
            self@.encrypted_data.len() > u32::MAX ==> bytes == Err::<Vec<u8>, CodecError>(
                CodecError::TooLong,
            ),
    {
        if self.encrypted_data.len() > u32::MAX as usize {
            return Err(CodecError::TooLong);
        }
        let mut bytes: Vec<u8> = Vec::new();
        put_bytes(&mut bytes, self.key_hash.as_slice());
        put_field(&mut bytes, self.encrypted_data.as_slice());
        put_bytes(&mut bytes, self.nonce.as_slice());
        put_i64(&mut bytes, self.created_at);
        bytes.push(self.version);
        assert(bytes@ =~= self@.encoding());
        Ok(bytes)
    }

    /// Reads a serialized backup: the whole of `data`, no byte more or
    /// less.
    pub fn from_bytes(data: &[u8]) -> (backup: Result<EncryptedBackup, CodecError>)
        ensures
            match decode_backup(data@) {
                Ok(view) => backup matches Ok(b) && b@ == view,
                Err(e) => backup matches Err(f) && f == e,
            },
    {
        let (key_hash, rest) = match read_array::<32>(data) {
            Some(read) => read,
            None => return Err(CodecError::UnexpectedEnd),
        };
        let (encrypted_data, rest) = match read_field(rest) {
            Some(read) => read,
            None => return Err(CodecError::UnexpectedEnd),
        };
        let (nonce, rest) = match read_array::<12>(rest) {
            Some(read) => read,
            None => return Err(CodecError::UnexpectedEnd),
        };
        let (created_at, rest) = match read_i64(rest) {
            Some(read) => read,
            None => return Err(CodecError::UnexpectedEnd),
        };
        if rest.len() < 1 {
            return Err(CodecError::UnexpectedEnd);
        }
        if rest.len() > 1 {
            return Err(CodecError::TrailingBytes);
        }
        Ok(EncryptedBackup { key_hash, encrypted_data, nonce, created_at, version: rest[0] })
    }
}

/// The key that belongs to a recovery phrase: the digest of its bytes.
pub fn derive_backup_key(recovery_phrase: &str) -> (key: [u8; 32])
    ensures
        key@ == sha256_digest(recovery_phrase.spec_bytes()),
{
    sha256(recovery_phrase.as_bytes())
}

/// Reading a serialized backup gives the backup back.
pub proof fn lemma_backup_round_trip(backup: EncryptedBackupView)
    requires
        backup.key_hash.len() == 32,
        backup.nonce.len() == 12,
        backup.encrypted_data.len() <= u32::MAX,
    ensures
        decode_backup(backup.encoding()) == Ok::<EncryptedBackupView, CodecError>(backup),
{
    let d4 = seq![backup.version];
    let d3 = i64_le_bytes(backup.created_at) + d4;
    let d2 = backup.nonce + d3;
    let d1 = field_bytes(backup.encrypted_data) + d2;
    let d0 = backup.key_hash + d1;
    assert(backup.encoding() =~= d0);
    lemma_bytes_round_trip(backup.key_hash, d1);
    lemma_field_round_trip(backup.encrypted_data, d2);
    lemma_bytes_round_trip(backup.nonce, d3);
    lemma_i64_round_trip(backup.created_at, d4);
}

/// A backup that was read from bytes is the backup that those bytes
/// serialize: nothing else reads as a backup.
pub proof fn lemma_read_backup_was_written(data: Seq<u8>)
    requires
        decode_backup(data) is Ok,
    ensures
        ({
            let backup = decode_backup(data).unwrap();
            &&& backup.key_hash.len() == 32
            &&& backup.nonce.len() == 12
            &&& backup.encrypted_data.len() <= u32::MAX
            &&& data == backup.encoding()
        }),
{
    let backup = decode_backup(data).unwrap();
    lemma_take_bytes_is_bytes(data, 32);
    let (_, rest1) = take_bytes(data, 32).unwrap();
    lemma_take_field_is_field(rest1);
    let (_, rest2) = take_field(rest1).unwrap();
    lemma_take_bytes_is_bytes(rest2, 12);
    let (_, rest3) = take_bytes(rest2, 12).unwrap();
    lemma_i64_bytes_of_value(rest3);
    let (_, rest4) = take_i64(rest3).unwrap();
    assert(rest3 =~= rest3.take(8) + rest4);
    assert(rest4 =~= seq![backup.version]);
    assert(data =~= backup.encoding());
}

/// A backup opens with the key it was made with.
pub proof fn lemma_backup_opens_with_its_key(
    encryption_key: Seq<u8>,
    account_data: Seq<u8>,
    created_at: i64,
)
    ensures
        (EncryptedBackupView {
            key_hash: sha256_digest(encryption_key),
            encrypted_data: account_data,
            nonce: sha256_digest(backup_nonce_input(encryption_key, created_at)).take(12),
            created_at,
            version: BACKUP_VERSION,
        }).opens_with(encryption_key),
{
}

} // verus!
