//! The instructions of the account program, as functions from the bytes
//! that a host hands in to the bytes that it stores.

use crate::account::{decode_account, AttestaAccount, AttestaAccountView};
use crate::auth::{AuthorizationProof, AuthorizationProofView};
use crate::codec::bytes_equal;
use crate::execute::{execute_transaction, execution_outcome, PolicyResult};
use crate::webauthn::{decode_assertion, WebAuthnSignature};
use vstd::prelude::*;

verus! {

/// Why an instruction failed.
#[derive(Debug, Clone, Copy, PartialEq, Eq, Structural)]
pub enum AttestaError {
    /// The serialized assertion is malformed.
    InvalidSignature,
    /// The proof did not authorize the action, or the policy denied it.
    ExecutionFailed,
    /// The action needs the approval of further signers.
    RequiresApproval,
    /// The policy denied the action.
    PolicyDenied,
    /// The signer is not the owner of the account.
    Unauthorized,
    /// The account cannot be serialized.
    SerializationFailed,
    /// The stored bytes are no account.
    InvalidAccountData,
}

impl AttestaError {
    /// The text of [`AttestaError::message`].
    pub open spec fn message_text(self) -> Seq<char> {
        match self {
            AttestaError::InvalidSignature => "Invalid signature format"@,
            AttestaError::ExecutionFailed => "Transaction execution failed"@,
            AttestaError::RequiresApproval => "Transaction requires additional approvals"@,
            AttestaError::PolicyDenied => "Transaction denied by policy"@,
            AttestaError::Unauthorized => "Unauthorized: not the account owner"@,
            AttestaError::SerializationFailed => "Failed to serialize account data"@,
            AttestaError::InvalidAccountData => "Invalid account data format"@,
        }
    }

    /// A short description of the error for people.
    pub fn message(self) -> (text: &'static str)
        ensures
            text@ == self.message_text(),
    {
        match self {
            AttestaError::InvalidSignature => "Invalid signature format",
            AttestaError::ExecutionFailed => "Transaction execution failed",
            AttestaError::RequiresApproval => "Transaction requires additional approvals",
            AttestaError::PolicyDenied => "Transaction denied by policy",
            AttestaError::Unauthorized => "Unauthorized: not the account owner",
            AttestaError::SerializationFailed => "Failed to serialize account data",
            AttestaError::InvalidAccountData => "Invalid account data format",
        }
    }
}

/// The account that `initialize` creates.
pub open spec fn initial_account(
    owner: Seq<u8>,
    passkey_public_key: Seq<u8>,
    credential_id: Seq<u8>,
    policy: Seq<u8>,
    now: i64,
) -> AttestaAccountView {
    AttestaAccountView {
        owner,
        passkey_public_key,
        credential_id,
        nonce: 0,
        policy,
        created_at: now,
        updated_at: now,
    }
}

/// What the instruction `execute` returns: the new bytes of the account
/// where the action was allowed, and an error in every other case.
pub open spec fn execute_outcome(
    account_data: Seq<u8>,
    webauthn_sig: Seq<u8>,
    nonce: u64,
    message_hash: Seq<u8>,
    amount: u64,
    now: i64,
) -> Result<Seq<u8>, AttestaError> {
    match decode_account(account_data) {
        Err(_) => Err(AttestaError::InvalidAccountData),
        Ok(account) => match decode_assertion(webauthn_sig) {
            None => Err(AttestaError::InvalidSignature),
            Some(assertion) => {
                let proof = AuthorizationProofView { webauthn_sig: assertion, nonce, message_hash };
                match execution_outcome(account, proof, amount, now) {
                    Err(_) => Err(AttestaError::ExecutionFailed),
                    Ok(PolicyResult::Allowed) => Ok(account.advanced(now).encoding()),
                    Ok(PolicyResult::RequiresApproval) => Err(AttestaError::RequiresApproval),
                    Ok(PolicyResult::Denied) => Err(AttestaError::PolicyDenied),
                }
            },
        },
    }
}

/// What the instruction `update_policy` returns: the bytes of the account
/// with the new policy, for its owner alone.
pub open spec fn update_policy_outcome(account_data: Seq<u8>, owner: Seq<u8>, new_policy: Seq<u8>)
    -> Result<Seq<u8>, AttestaError> {
    match decode_account(account_data) {
        Err(_) => Err(AttestaError::InvalidAccountData),
        Ok(account) => if account.owner != owner {
            Err(AttestaError::Unauthorized)
        } else if new_policy.len() > u32::MAX {
            Err(AttestaError::SerializationFailed)
        } else {
            Ok(account.with_policy(new_policy).encoding())
        },
    }
}

/// Creates the account of `owner` at time `now` and returns its bytes.
pub fn initialize(
    owner: [u8; 32],
    passkey_public_key: [u8; 64],
    credential_id: Vec<u8>,
    policy: Vec<u8>,
    now: i64,
) -> (account_data: Result<Vec<u8>, AttestaError>)
    ensures
        ({
            let account = initial_account(
                owner@,
                passkey_public_key@,
                credential_id@,
                policy@,
                now,
            );
            &&& account.fits() ==> (account_data matches Ok(bytes) && bytes@ == account.encoding())
            &&& !account.fits() ==> account_data == Err::<Vec<u8>, AttestaError>(
                AttestaError::SerializationFailed,
            )
        }),
{
    let account = AttestaAccount::new(owner, passkey_public_key, credential_id, policy, now);
    match account.to_bytes() {
        Ok(bytes) => Ok(bytes),
        Err(_) => Err(AttestaError::SerializationFailed),
    }
}

/// Executes an action of `amount` at time `now` on the account stored as
/// `account_data`, authorized by the serialized assertion `webauthn_sig`
/// for `nonce` and `message_hash`. Returns the bytes to store where the
/// action was allowed; nothing is to be stored in any other case.
pub fn execute(
    account_data: &[u8],
    webauthn_sig: &[u8],
    nonce: u64,
    message_hash: [u8; 32],
    amount: u64,
    now: i64,
) -> (stored: Result<Vec<u8>, AttestaError>)
    ensures
        match execute_outcome(account_data@, webauthn_sig@, nonce, message_hash@, amount, now) {
            Ok(bytes) => stored matches Ok(b) && b@ == bytes,
            Err(e) => stored matches Err(f) && f == e,
        },
{
    let mut account = match AttestaAccount::from_bytes(account_data) {
        Ok(account) => account,
        Err(_) => {
            return Err(AttestaError::InvalidAccountData);
        },
    };
    let webauthn_signature = match WebAuthnSignature::from_bytes(webauthn_sig) {
        Ok(assertion) => assertion,
        Err(_) => {
            return Err(AttestaError::InvalidSignature);
        },
    };
    let proof = AuthorizationProof::new(webauthn_signature, nonce, message_hash);
    let result = match execute_transaction(&mut account, &proof, amount, now) {
        Ok(result) => result,
        Err(_) => {
            return Err(AttestaError::ExecutionFailed);
        },
    };
    match result {
        PolicyResult::Allowed => match account.to_bytes() {
            Ok(bytes) => Ok(bytes),
            Err(_) => Err(AttestaError::SerializationFailed),
        },
        PolicyResult::RequiresApproval => Err(AttestaError::RequiresApproval),
        PolicyResult::Denied => Err(AttestaError::PolicyDenied),
    }
}

/// Replaces the policy of the account stored as `account_data` on behalf
/// of `owner`, and returns the bytes to store.
pub fn update_policy(account_data: &[u8], owner: &[u8; 32], new_policy: Vec<u8>) -> (stored: Result<
    Vec<u8>,
    AttestaError,
>)
    ensures
        match update_policy_outcome(account_data@, owner@, new_policy@) {
            Ok(bytes) => stored matches Ok(b) && b@ == bytes,
            Err(e) => stored matches Err(f) && f == e,
        },
{
    let mut account = match AttestaAccount::from_bytes(account_data) {
        Ok(account) => account,
        Err(_) => {
            return Err(AttestaError::InvalidAccountData);
        },
    };
    if !bytes_equal(account.owner.as_slice(), owner.as_slice()) {
        return Err(AttestaError::Unauthorized);
    }
    account.policy = new_policy;
    match account.to_bytes() {
        Ok(bytes) => Ok(bytes),
        Err(_) => Err(AttestaError::SerializationFailed),
    }
}

} // verus!
