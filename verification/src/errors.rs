//! Errors of the cryptographic checks.

use vstd::prelude::*;

verus! {

/// Why a cryptographic check rejected its input.
#[derive(Debug, Clone, Copy, PartialEq, Eq, Structural)]
pub enum CryptoError {
    /// The assertion as a whole is not a usable WebAuthn signature.
    InvalidWebAuthnSignature,
    /// The public key has the wrong length or is no point of the curve.
    InvalidP256PublicKey,
    /// The signature does not belong to the message under the key.
    SignatureVerificationFailed,
    /// The signature, or a serialized assertion, is malformed.
    InvalidSignatureFormat,
    /// The nonce is not greater than the one the account has consumed.
    ReplayAttack,
    /// The nonce does not have the expected size.
    InvalidNonce,
    /// The challenge is empty, is no text, or is missing from the client data.
    ChallengeMismatch,
    /// The assertion names another credential than the account's.
    InvalidCredentialId,
    /// The authenticator data is too short to be genuine.
    InvalidAuthenticatorData,
}

impl CryptoError {
    /// The number of this error among the errors, counted from zero in the
    /// order of declaration.
    pub open spec fn spec_code(self) -> u32 {
        match self {
            CryptoError::InvalidWebAuthnSignature => 0,
            CryptoError::InvalidP256PublicKey => 1,
            CryptoError::SignatureVerificationFailed => 2,
            CryptoError::InvalidSignatureFormat => 3,
            CryptoError::ReplayAttack => 4,
            CryptoError::InvalidNonce => 5,
            CryptoError::ChallengeMismatch => 6,
            CryptoError::InvalidCredentialId => 7,
            CryptoError::InvalidAuthenticatorData => 8,
        }
    }

    /// The numeric code under which a host program reports this error.
    #[verifier::when_used_as_spec(spec_code)]
    pub fn code(self) -> (code: u32)
        ensures
            code == self.spec_code(),
    {
        match self {
            CryptoError::InvalidWebAuthnSignature => 0,
            CryptoError::InvalidP256PublicKey => 1,
            CryptoError::SignatureVerificationFailed => 2,
            CryptoError::InvalidSignatureFormat => 3,
            CryptoError::ReplayAttack => 4,
            CryptoError::InvalidNonce => 5,
            CryptoError::ChallengeMismatch => 6,
            CryptoError::InvalidCredentialId => 7,
            CryptoError::InvalidAuthenticatorData => 8,
        }
    }

    /// The text of [`CryptoError::message`].
    pub open spec fn message_text(self) -> Seq<char> {
        match self {
            CryptoError::InvalidWebAuthnSignature => "Invalid WebAuthn signature"@,
            CryptoError::InvalidP256PublicKey => "Invalid P-256 public key"@,
            CryptoError::SignatureVerificationFailed => "Signature verification failed"@,
            CryptoError::InvalidSignatureFormat => "Invalid signature format"@,
            CryptoError::ReplayAttack => "Replay attack detected: nonce already used"@,
            CryptoError::InvalidNonce => "Invalid nonce"@,
            CryptoError::ChallengeMismatch => "Challenge mismatch"@,
            CryptoError::InvalidCredentialId => "Invalid credential ID"@,
            CryptoError::InvalidAuthenticatorData => "Invalid authenticator data"@,
        }
    }

    /// A short description of the error for people.
    pub fn message(self) -> (text: &'static str)
        ensures
            text@ == self.message_text(),
    {
        match self {
            CryptoError::InvalidWebAuthnSignature => "Invalid WebAuthn signature",
            CryptoError::InvalidP256PublicKey => "Invalid P-256 public key",
            CryptoError::SignatureVerificationFailed => "Signature verification failed",
            CryptoError::InvalidSignatureFormat => "Invalid signature format",
            CryptoError::ReplayAttack => "Replay attack detected: nonce already used",
            CryptoError::InvalidNonce => "Invalid nonce",
            CryptoError::ChallengeMismatch => "Challenge mismatch",
            CryptoError::InvalidCredentialId => "Invalid credential ID",
            CryptoError::InvalidAuthenticatorData => "Invalid authenticator data",
        }
    }
}

} // verus!
