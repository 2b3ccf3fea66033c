//! Passkey authorization engine: signature checks, replay protection,
//! policies and the credential registry behind a smart account.

pub mod account;
pub mod auth;
pub mod codec;
pub mod encrypted_backup;
pub mod errors;
pub mod execute;
pub mod hash;
pub mod multi_passkey;
pub mod p256_verify;
pub mod policies;
pub mod program;
pub mod replay;
pub mod storage;
pub mod text;
pub mod webauthn;

pub use account::{AttestaAccount, ATTESTA_ACCOUNT_DISCRIMINATOR};
pub use auth::{verify_passkey_authorization, AuthorizationProof};
pub use codec::CodecError;
pub use encrypted_backup::{derive_backup_key, EncryptedBackup};
pub use errors::CryptoError;
pub use execute::{execute_transaction, validate_instruction, ExecuteError, PolicyResult};
pub use multi_passkey::{MultiPasskey, PasskeyEntry, RegistryError};
pub use p256_verify::verify_p256_signature;
pub use policies::{Policy, PolicyType};
pub use replay::ReplayProtection;
pub use webauthn::{verify_webauthn_signature, WebAuthnSignature};
