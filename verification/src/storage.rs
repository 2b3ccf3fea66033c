//! Accounts in a byte-addressed store: the tagged record of an account in
//! a region of bytes, and the address under which a program keeps it.

use crate::account::{
    decode_account, lemma_account_round_trip, lemma_read_account_was_written, AttestaAccount,
    AttestaAccountView, ATTESTA_ACCOUNT_DISCRIMINATOR,
};
use crate::codec::bytes_equal;
use solana_program::pubkey::Pubkey;
use vstd::prelude::*;
use vstd::slice::slice_subrange;

verus! {

/// The size of the tag in front of a stored account.
pub const DISCRIMINATOR_SIZE: usize = 8;

/// The longest seed that an address can be derived from.
pub const MAX_SEED_LEN: usize = 32;

/// The first seed of every account address: the text `attesta`.
pub const ACCOUNT_SEED_PREFIX: [u8; 7] = [0x61, 0x74, 0x74, 0x65, 0x73, 0x74, 0x61];

/// Why a region of the store could not be read or written as an account.
#[derive(Debug, Clone, Copy, PartialEq, Eq, Structural)]
pub enum StorageError {
    /// The region is too small, does not carry the tag of an account, or
    /// does not hold exactly one serialized account behind the tag; or the
    /// account cannot be serialized.
    InvalidAccountData,
}

/// The program-derived address for `seeds` under the program
/// `program_id`, with its bump seed; nothing where no address can be
/// derived.
pub uninterp spec fn program_address(seeds: Seq<Seq<u8>>, program_id: Seq<u8>) -> Option<
    (Seq<u8>, u8),
>;

/// The seeds of the address of an account: the prefix, the owner, and the
/// caller's seed.
pub open spec fn account_seeds(owner: Seq<u8>, seed: Seq<u8>) -> Seq<Seq<u8>> {
    seq![ACCOUNT_SEED_PREFIX@, owner, seed]
}

/// Derives an address with `Pubkey::try_find_program_address` of
/// `solana_program`.
///
/// Trusted: the address and its bump seed depend on the seeds and the
/// program id alone.
#[verifier::external_body]
fn find_program_address(prefix: &[u8], owner: &[u8], seed: &[u8], program_id: &[u8; 32]) -> (found:
    Option<([u8; 32], u8)>)
    ensures
        match program_address(seq![prefix@, owner@, seed@], program_id@) {
            Some((address, bump)) => found matches Some((a, b)) && a@ == address && b == bump,
            None => found is None,
        },
{
    Pubkey::try_find_program_address(&[prefix, owner, seed], &Pubkey::new_from_array(*program_id))
        .map(|(address, bump)| (address.to_bytes(), bump))
}

/// The address at which the program `program_id` keeps the account of
/// `owner` for `seed`, with the bump seed that leads to it. There is none
/// for a seed of more than thirty-two bytes.
pub fn derive_attesta_account(program_id: &[u8; 32], owner: &[u8; 32], seed: &[u8]) -> (address:
    Option<([u8; 32], u8)>)
    ensures
        seed@.len() > MAX_SEED_LEN ==> address is None,
        seed@.len() <= MAX_SEED_LEN ==> match program_address(
            account_seeds(owner@, seed@),
            program_id@,
        ) {
            Some((derived, bump)) => address matches Some((a, b)) && a@ == derived && b == bump,
            None => address is None,
        },
{
    if seed.len() > MAX_SEED_LEN {
        return None;
    }
    find_program_address(ACCOUNT_SEED_PREFIX.as_slice(), owner.as_slice(), seed, program_id)
}

/// What a region of the store holds.
pub open spec fn stored_account(region: Seq<u8>) -> Result<AttestaAccountView, StorageError> {
    if region.len() < DISCRIMINATOR_SIZE {
        Err(StorageError::InvalidAccountData)
    } else if region.take(DISCRIMINATOR_SIZE as int) != ATTESTA_ACCOUNT_DISCRIMINATOR@ {
        Err(StorageError::InvalidAccountData)
    } else {
        match decode_account(region.skip(DISCRIMINATOR_SIZE as int)) {
            Ok(account) => Ok(account),
            Err(_) => Err(StorageError::InvalidAccountData),
        }
    }
}

/// Whether `account` can be stored in a region of `size` bytes.
pub open spec fn storable(account: AttestaAccountView, size: nat) -> bool {
    account.fits() && DISCRIMINATOR_SIZE + account.encoding().len() <= size
}

/// The region after `account` was stored in it: the tag, the serialized
/// account, and behind them what the region held before.
pub open spec fn region_with(region: Seq<u8>, account: AttestaAccountView) -> Seq<u8> {
    ATTESTA_ACCOUNT_DISCRIMINATOR@ + account.encoding() + region.skip(
        DISCRIMINATOR_SIZE + account.encoding().len(),
    )
}

/// Reads the account in `data`, a region of the store: the tag of an
/// account, then exactly one serialized account.
pub fn load_attesta_account(data: &[u8]) -> (account: Result<AttestaAccount, StorageError>)
    ensures
        match stored_account(data@) {
            Ok(view) => account matches Ok(a) && a@ == view,
            Err(e) => account matches Err(f) && f == e,
        },
{
    if data.len() < DISCRIMINATOR_SIZE {
        return Err(StorageError::InvalidAccountData);
    }
    let tag = slice_subrange(data, 0, DISCRIMINATOR_SIZE);
    assert(tag@ =~= data@.take(DISCRIMINATOR_SIZE as int));
    if !bytes_equal(tag, ATTESTA_ACCOUNT_DISCRIMINATOR.as_slice()) {
        return Err(StorageError::InvalidAccountData);
    }
    let account_data = slice_subrange(data, DISCRIMINATOR_SIZE, data.len());
    assert(account_data@ =~= data@.skip(DISCRIMINATOR_SIZE as int));
    match AttestaAccount::from_bytes(account_data) {
        Ok(account) => Ok(account),
        Err(_) => Err(StorageError::InvalidAccountData),
    }
}

/// Writes `account` to the front of `data`, a region of the store: the
/// tag, then the serialized account. The rest of the region, and the whole
/// region where the account does not fit, stay as they are.
pub fn save_attesta_account(account: &AttestaAccount, data: &mut Vec<u8>) -> (outcome: Result<
    (),
    StorageError,
>)
    ensures
        storable(account@, old(data)@.len()) ==> outcome == Ok::<(), StorageError>(())
            && final(data)@ == region_with(old(data)@, account@),
        !storable(account@, old(data)@.len()) ==> outcome == Err::<(), StorageError>(
            StorageError::InvalidAccountData,
        ) && final(data)@ == old(data)@,
        final(data)@.len() == old(data)@.len(),
{
    let serialized = match account.to_bytes() {
        Ok(bytes) => bytes,
        Err(_) => {
            return Err(StorageError::InvalidAccountData);
        },
    };
    if data.len() < DISCRIMINATOR_SIZE || data.len() - DISCRIMINATOR_SIZE < serialized.len() {
        return Err(StorageError::InvalidAccountData);
    }
    let total_size = DISCRIMINATOR_SIZE + serialized.len();
    let mut i: usize = 0;
    while i < total_size
        invariant
            i <= total_size <= data@.len(),
            total_size == DISCRIMINATOR_SIZE + serialized@.len(),
            data@.len() == old(data)@.len(),
            forall|j: int|
                0 <= j < i ==> data@[j] == (ATTESTA_ACCOUNT_DISCRIMINATOR@ + serialized@)[j],
            forall|j: int| i <= j < data@.len() ==> data@[j] == old(data)@[j],
        decreases total_size - i,
    {
        let byte = if i < DISCRIMINATOR_SIZE {
            ATTESTA_ACCOUNT_DISCRIMINATOR[i]
        } else {
            serialized[i - DISCRIMINATOR_SIZE]
        };
        data[i] = byte;
        i += 1;
    }
    assert(data@ =~= region_with(old(data)@, account@));
    Ok(())
}

/// Stores a new account for `owner`, created at `now`, in `data`.
pub fn init_attesta_account(
    data: &mut Vec<u8>,
    owner: &[u8; 32],
    passkey_public_key: [u8; 64],
    credential_id: Vec<u8>,
    policy: Vec<u8>,
    now: i64,
) -> (outcome: Result<(), StorageError>)
    ensures
        ({
            let account = AttestaAccountView {
                owner: owner@,
                passkey_public_key: passkey_public_key@,
                credential_id: credential_id@,
                nonce: 0,
                policy: policy@,
                created_at: now,
                updated_at: now,
            };
            &&& storable(account, old(data)@.len()) ==> outcome == Ok::<(), StorageError>(())
                && final(data)@ == region_with(old(data)@, account)
            &&& !storable(account, old(data)@.len()) ==> outcome == Err::<(), StorageError>(
                StorageError::InvalidAccountData,
            ) && final(data)@ == old(data)@
        }),
{
    let account = AttestaAccount::new(*owner, passkey_public_key, credential_id, policy, now);
    save_attesta_account(&account, data)
}

/// An account stored in a region that it fills exactly is read back as it
/// was stored.
pub proof fn lemma_load_after_save(region: Seq<u8>, account: AttestaAccountView)
    requires
        account.owner.len() == 32,
        account.passkey_public_key.len() == 64,
        account.fits(),
        region.len() == DISCRIMINATOR_SIZE + account.encoding().len(),
    ensures
        stored_account(region_with(region, account)) == Ok::<AttestaAccountView, StorageError>(
            account,
        ),
{
    let stored = region_with(region, account);
    lemma_account_round_trip(account);
    assert(stored.take(DISCRIMINATOR_SIZE as int) =~= ATTESTA_ACCOUNT_DISCRIMINATOR@);
    assert(stored.skip(DISCRIMINATOR_SIZE as int) =~= account.encoding());
}

/// A region from which an account was read holds the tag and the
/// serialized account, and nothing else.
pub proof fn lemma_loaded_account_was_saved(region: Seq<u8>)
    requires
        stored_account(region) is Ok,
    ensures
        ({
            let account = stored_account(region).unwrap();
            &&& account.fits()
            &&& region == ATTESTA_ACCOUNT_DISCRIMINATOR@ + account.encoding()
        }),
{
    let account = stored_account(region).unwrap();
    lemma_read_account_was_written(region.skip(DISCRIMINATOR_SIZE as int));
    assert(region =~= region.take(DISCRIMINATOR_SIZE as int) + region.skip(
        DISCRIMINATOR_SIZE as int,
    ));
}

} // verus!
