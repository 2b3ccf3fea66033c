//! Authorization: an assertion bound to a nonce and a message digest,
//! checked against an account.

use crate::account::{AttestaAccount, AttestaAccountView};
use crate::codec::{bytes_equal, put_u64, u64_le_bytes};
use crate::errors::CryptoError;
use crate::webauthn::{
    verify_webauthn_signature, webauthn_outcome, WebAuthnSignature, WebAuthnSignatureView,
};
use vstd::prelude::*;

verus! {

/// The outcome of checking an assertion against the credential of an
/// account.
///
/// The assertion must name the account's credential and must verify under
/// the account's key for the challenge; after that an empty challenge or an
/// empty message is refused as a mismatch.
pub open spec fn authorization_outcome(
    account: AttestaAccountView,
    assertion: WebAuthnSignatureView,
    challenge: Seq<u8>,
    message: Seq<u8>,
) -> Result<(), CryptoError> {
    if assertion.credential_id != account.credential_id {
        Err(CryptoError::InvalidCredentialId)
    } else {
        match webauthn_outcome(assertion, account.passkey_public_key, challenge) {
            Err(e) => Err(e),
            Ok(_) => if challenge.len() == 0 || message.len() == 0 {
                Err(CryptoError::ChallengeMismatch)
            } else {
                Ok(())
            },
        }
    }
}

/// Checks that the passkey of `account` authorized `message` in answer to
/// `challenge`.
pub fn verify_passkey_authorization(
    account: &AttestaAccount,
    webauthn_sig: &WebAuthnSignature,
    challenge: &[u8],
    message: &[u8],
) -> (outcome: Result<(), CryptoError>)
    ensures
        outcome == authorization_outcome(account@, webauthn_sig@, challenge@, message@),
{
    if !bytes_equal(webauthn_sig.credential_id.as_slice(), account.credential_id.as_slice()) {
        return Err(CryptoError::InvalidCredentialId);
    }
    match verify_webauthn_signature(
        webauthn_sig,
        account.passkey_public_key.as_slice(),
        challenge,
    ) {
        Err(e) => {
            return Err(e);
        },
        Ok(_) => {},
    }
    if challenge.len() == 0 {
        return Err(CryptoError::ChallengeMismatch);
    }
    if message.len() == 0 {
        return Err(CryptoError::ChallengeMismatch);
    }
    Ok(())
}

/// A proof as a mathematical value.
pub struct AuthorizationProofView {
    pub webauthn_sig: WebAuthnSignatureView,
    pub nonce: u64,
    pub message_hash: Seq<u8>,
}

impl AuthorizationProofView {
    /// The challenge that the authenticator must have answered: the
    /// little-endian bytes of the nonce.
    pub open spec fn challenge(self) -> Seq<u8> {
        u64_le_bytes(self.nonce)
    }

    /// The outcome of checking the proof against `account`: a nonce that
    /// is not above the account's counter is a replay, whatever else the
    /// proof holds; a fresh one leaves the verdict to the assertion.
    pub open spec fn outcome(self, account: AttestaAccountView) -> Result<(), CryptoError> {
        if !(self.nonce > account.nonce) {
            Err(CryptoError::ReplayAttack)
        } else {
            authorization_outcome(account, self.webauthn_sig, self.challenge(), self.message_hash)
        }
    }
}

/// The evidence that the owner of an account authorized one action.
#[derive(Debug, Clone)]
pub struct AuthorizationProof {
    /// The assertion of the authenticator.
    pub webauthn_sig: WebAuthnSignature,
    /// The nonce of this attempt.
    pub nonce: u64,
    /// The digest of the action that was authorized.
    pub message_hash: [u8; 32],
}

impl View for AuthorizationProof {
    type V = AuthorizationProofView;

    open spec fn view(&self) -> AuthorizationProofView {
        AuthorizationProofView {
            webauthn_sig: self.webauthn_sig@,
            nonce: self.nonce,
            message_hash: self.message_hash@,
        }
    }
}

impl AuthorizationProof {
    /// A proof made of an assertion, a nonce and a message digest.
    pub fn new(webauthn_sig: WebAuthnSignature, nonce: u64, message_hash: [u8; 32]) -> (proof:
        AuthorizationProof)
        ensures
            proof@ == (AuthorizationProofView {
                webauthn_sig: webauthn_sig@,
                nonce,
                message_hash: message_hash@,
            }),
    {
        AuthorizationProof { webauthn_sig, nonce, message_hash }
    }

    /// Checks the proof against `account`: first the nonce, then the
    /// assertion. The account is only read; a proof can be checked again.
    pub fn verify(&self, account: &AttestaAccount) -> (outcome: Result<(), CryptoError>)
        ensures
            outcome == self@.outcome(account@),
    {
        if !account.validate_nonce(self.nonce) {
            return Err(CryptoError::ReplayAttack);
        }
        let mut challenge: Vec<u8> = Vec::new();
        put_u64(&mut challenge, self.nonce);
        assert(challenge@ =~= u64_le_bytes(self.nonce));
        verify_passkey_authorization(
            account,
            &self.webauthn_sig,
            challenge.as_slice(),
            self.message_hash.as_slice(),
        )
    }
}

/// A proof with the nonce that an account has consumed, or a lower one, is
/// a replay.
pub proof fn lemma_stale_nonce_is_replay(proof: AuthorizationProofView, account: AttestaAccountView)
    requires
        proof.nonce <= account.nonce,
    ensures
        proof.outcome(account) == Err::<(), CryptoError>(CryptoError::ReplayAttack),
{
}

} // verus!
