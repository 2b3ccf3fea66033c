//! The smart account: the credential that controls it, its replay
//! counter and its policy.

use crate::codec::{
    field_bytes, i64_le_bytes, lemma_bytes_round_trip, lemma_field_round_trip,
    lemma_i64_bytes_of_value, lemma_i64_round_trip, lemma_take_bytes_is_bytes,
    lemma_take_field_is_field, lemma_u64_bytes_of_value, lemma_u64_round_trip, put_bytes, put_field, put_i64, put_u64,
    read_array, read_field, read_i64, read_u64, take_bytes, take_field, take_i64, take_u64,
    u64_le_bytes, CodecError,
};
use crate::replay::{next_counter, ReplayProtection};
use vstd::prelude::*;

verus! {

/// The tag in front of a stored account: `ATTESTA` and a zero byte.
pub const ATTESTA_ACCOUNT_DISCRIMINATOR: [u8; 8] = [0x41, 0x54, 0x54, 0x45, 0x53, 0x54, 0x41, 0x00];

/// An account as a mathematical value.
pub struct AttestaAccountView {
    pub owner: Seq<u8>,
    pub passkey_public_key: Seq<u8>,
    pub credential_id: Seq<u8>,
    pub nonce: u64,
    pub policy: Seq<u8>,
    pub created_at: i64,
    pub updated_at: i64,
}

impl AttestaAccountView {
    /// The account after one successful action at time `now`: the counter
    /// moved on by one, the time of the last update refreshed.
    pub open spec fn advanced(self, now: i64) -> AttestaAccountView {
        AttestaAccountView { nonce: next_counter(self.nonce), updated_at: now, ..self }
    }

    /// The account with another policy.
    pub open spec fn with_policy(self, policy: Seq<u8>) -> AttestaAccountView {
        AttestaAccountView { policy, ..self }
    }

    /// Whether the variable-length fields are short enough for their
    /// length prefixes.
    pub open spec fn fits(self) -> bool {
        self.credential_id.len() <= u32::MAX && self.policy.len() <= u32::MAX
    }

    /// The serialized record: owner, public key, credential id behind its
    /// length, counter, policy behind its length, and the two timestamps.
    pub open spec fn encoding(self) -> Seq<u8> {
        self.owner + self.passkey_public_key + field_bytes(self.credential_id) + u64_le_bytes(
            self.nonce,
        ) + field_bytes(self.policy) + i64_le_bytes(self.created_at) + i64_le_bytes(
            self.updated_at,
        )
    }
}

/// What reading `data` as a serialized account gives.
pub open spec fn decode_account(data: Seq<u8>) -> Result<AttestaAccountView, CodecError> {
    match take_bytes(data, 32) {
        None => Err(CodecError::UnexpectedEnd),
        Some((owner, rest1)) => match take_bytes(rest1, 64) {
            None => Err(CodecError::UnexpectedEnd),
            Some((passkey_public_key, rest2)) => match take_field(rest2) {
                None => Err(CodecError::UnexpectedEnd),
                Some((credential_id, rest3)) => match take_u64(rest3) {
                    None => Err(CodecError::UnexpectedEnd),
                    Some((nonce, rest4)) => match take_field(rest4) {
                        None => Err(CodecError::UnexpectedEnd),
                        Some((policy, rest5)) => match take_i64(rest5) {
                            None => Err(CodecError::UnexpectedEnd),
                            Some((created_at, rest6)) => match take_i64(rest6) {
                                None => Err(CodecError::UnexpectedEnd),
                                Some((updated_at, rest7)) => if rest7.len() > 0 {
                                    Err(CodecError::TrailingBytes)
                                } else {
                                    Ok(
                                        AttestaAccountView {
                                            owner,
                                            passkey_public_key,
                                            credential_id,
                                            nonce,
                                            policy,
                                            created_at,
                                            updated_at,
                                        },
                                    )
                                },
                            },
                        },
                    },
                },
            },
        },
    }
}

/// An account that a passkey controls.
#[derive(Debug, Clone, PartialEq)]
pub struct AttestaAccount {
    /// The identity that owns the account.
    pub owner: [u8; 32],
    /// The raw coordinates of the passkey's public key.
    pub passkey_public_key: [u8; 64],
    /// The credential that the public key belongs to.
    pub credential_id: Vec<u8>,
    /// The highest nonce consumed so far.
    pub nonce: u64,
    /// The serialized policy; empty for none.
    pub policy: Vec<u8>,
    /// When the account was created.
    pub created_at: i64,
    /// When the account last changed.
    pub updated_at: i64,
}

impl View for AttestaAccount {
    type V = AttestaAccountView;

    open spec fn view(&self) -> AttestaAccountView {
        AttestaAccountView {
            owner: self.owner@,
            passkey_public_key: self.passkey_public_key@,
            credential_id: self.credential_id@,
            nonce: self.nonce,
            policy: self.policy@,
            created_at: self.created_at,
            updated_at: self.updated_at,
        }
    }
}

impl AttestaAccount {
    /// A new account: its counter at zero, created and last updated at
    /// `created_at`.
    pub fn new(
        owner: [u8; 32],
        passkey_public_key: [u8; 64],
        credential_id: Vec<u8>,
        policy: Vec<u8>,
        created_at: i64,
    ) -> (account: AttestaAccount)
        ensures
            account@ == (AttestaAccountView {
                owner: owner@,
                passkey_public_key: passkey_public_key@,
                credential_id: credential_id@,
                nonce: 0,
                policy: policy@,
                created_at,
                updated_at: created_at,
            }),
    {
        AttestaAccount {
            owner,
            passkey_public_key,
            credential_id,
            nonce: 0,
            policy,
            created_at,
            updated_at: created_at,
        }
    }

    /// Consumes one nonce after a successful action at time `now`: the
    /// counter moves on by one and never back, and the time of the last
    /// update becomes `now`.
    pub fn increment_nonce(&mut self, now: i64)
        ensures
            final(self)@ == old(self)@.advanced(now),
            final(self).nonce >= old(self).nonce,
    {
        ReplayProtection::advance(&mut self.nonce);
        self.updated_at = now;
    }

    /// Whether `provided_nonce` is fresh: strictly greater than the
    /// counter.
    pub fn validate_nonce(&self, provided_nonce: u64) -> (fresh: bool)
        ensures
            fresh == (provided_nonce > self.nonce),
    {
        ReplayProtection::is_valid_next(self.nonce, provided_nonce)
    }

    /// Serializes the account. Fails only where the credential id or the
    /// policy is longer than a length prefix can say.
    pub fn to_bytes(&self) -> (bytes: Result<Vec<u8>, CodecError>)
        ensures
            self@.fits() ==> (bytes matches Ok(b) && b@ == self@.encoding()),
            !self@.fits() ==> bytes == Err::<Vec<u8>, CodecError>(CodecError::TooLong),
    {
        if self.credential_id.len() > u32::MAX as usize || self.policy.len() > u32::MAX as usize {
            return Err(CodecError::TooLong);
        }
        let mut bytes: Vec<u8> = Vec::new();
        put_bytes(&mut bytes, self.owner.as_slice());
        put_bytes(&mut bytes, self.passkey_public_key.as_slice());
        put_field(&mut bytes, self.credential_id.as_slice());
        put_u64(&mut bytes, self.nonce);
        put_field(&mut bytes, self.policy.as_slice());
        put_i64(&mut bytes, self.created_at);
        put_i64(&mut bytes, self.updated_at);
        assert(bytes@ =~= self@.encoding());
        Ok(bytes)
    }

    /// Reads a serialized account: the whole of `data`, no byte more or
    /// less.
    pub fn from_bytes(data: &[u8]) -> (account: Result<AttestaAccount, CodecError>)
        ensures
            match decode_account(data@) {
                Ok(view) => account matches Ok(a) && a@ == view,
                Err(e) => account matches Err(f) && f == e,
            },
    {
        let (owner, rest) = match read_array::<32>(data) {
            Some(read) => read,
            None => return Err(CodecError::UnexpectedEnd),
        };
        let (passkey_public_key, rest) = match read_array::<64>(rest) {
            Some(read) => read,
            None => return Err(CodecError::UnexpectedEnd),
        };
        let (credential_id, rest) = match read_field(rest) {
            Some(read) => read,
            None => return Err(CodecError::UnexpectedEnd),
        };
        let (nonce, rest) = match read_u64(rest) {
            Some(read) => read,
            None => return Err(CodecError::UnexpectedEnd),
        };
        let (policy, rest) = match read_field(rest) {
            Some(read) => read,
            None => return Err(CodecError::UnexpectedEnd),
        };
        let (created_at, rest) = match read_i64(rest) {
            Some(read) => read,
            None => return Err(CodecError::UnexpectedEnd),
        };
        let (updated_at, rest) = match read_i64(rest) {
            Some(read) => read,
            None => return Err(CodecError::UnexpectedEnd),
        };
        if rest.len() > 0 {
            return Err(CodecError::TrailingBytes);
        }
        Ok(
            AttestaAccount {
                owner,
                passkey_public_key,
                credential_id,
                nonce,
                policy,
                created_at,
                updated_at,
            },
        )
    }
}

/// Reading a serialized account gives the account back.
pub proof fn lemma_account_round_trip(account: AttestaAccountView)
    requires
        account.owner.len() == 32,
        account.passkey_public_key.len() == 64,
        account.fits(),
    ensures
        decode_account(account.encoding()) == Ok::<AttestaAccountView, CodecError>(account),
{
    let f3 = field_bytes(account.credential_id);
    let f4 = u64_le_bytes(account.nonce);
    let f5 = field_bytes(account.policy);
    let f6 = i64_le_bytes(account.created_at);
    let f7 = i64_le_bytes(account.updated_at);
    let d7 = f7 + Seq::<u8>::empty();
    let d6 = f6 + d7;
    let d5 = f5 + d6;
    let d4 = f4 + d5;
    let d3 = f3 + d4;
    let d2 = account.passkey_public_key + d3;
    let d1 = account.owner + d2;
    assert(d7 =~= f7);
    assert(account.encoding() =~= d1);
    lemma_bytes_round_trip(account.owner, d2);
    lemma_bytes_round_trip(account.passkey_public_key, d3);
    lemma_field_round_trip(account.credential_id, d4);
    lemma_u64_round_trip(account.nonce, d5);
    lemma_field_round_trip(account.policy, d6);
    lemma_i64_round_trip(account.created_at, d7);
    lemma_i64_round_trip(account.updated_at, Seq::empty());
}

/// An account that was read from bytes is the account that those bytes
/// serialize: nothing else reads as an account.
pub proof fn lemma_read_account_was_written(data: Seq<u8>)
    requires
        decode_account(data) is Ok,
    ensures
        ({
            let account = decode_account(data).unwrap();
            &&& account.owner.len() == 32
            &&& account.passkey_public_key.len() == 64
            &&& account.fits()
            &&& data == account.encoding()
        }),
{
    let account = decode_account(data).unwrap();
    lemma_take_bytes_is_bytes(data, 32);
    let (_, rest1) = take_bytes(data, 32).unwrap();
    lemma_take_bytes_is_bytes(rest1, 64);
    let (_, rest2) = take_bytes(rest1, 64).unwrap();
    lemma_take_field_is_field(rest2);
    let (_, rest3) = take_field(rest2).unwrap();
    lemma_u64_bytes_of_value(rest3);
    let (_, rest4) = take_u64(rest3).unwrap();
    assert(rest3 =~= rest3.take(8) + rest4);
    lemma_take_field_is_field(rest4);
    let (_, rest5) = take_field(rest4).unwrap();
    lemma_i64_bytes_of_value(rest5);
    let (_, rest6) = take_i64(rest5).unwrap();
    assert(rest5 =~= rest5.take(8) + rest6);
    lemma_i64_bytes_of_value(rest6);
    let (_, rest7) = take_i64(rest6).unwrap();
    assert(rest6 =~= rest6.take(8) + rest7);
    assert(rest7 =~= Seq::<u8>::empty());
    assert(data =~= account.encoding());
}

} // verus!
