//! WebAuthn assertions: their wire format and their verification.

use crate::codec::{
    field_bytes, lemma_field_round_trip, lemma_take_field_is_field, lemma_take_field_of_prefix,
    put_bytes, put_field, read_field, take_field,
};
use crate::errors::CryptoError;
use crate::hash::{sha256, sha256_digest};
use crate::p256_verify::{p256_outcome, verify_p256_signature};
use crate::text::{lenient_text, lossy_text, occurs_in, strict_text, text_contains};
use vstd::prelude::*;
use vstd::utf8::{decode_utf8, valid_utf8};

verus! {

/// The least number of bytes of genuine authenticator data: the hash of
/// the relying party's name, the flags and the signature counter.
pub const MIN_AUTHENTICATOR_DATA_LEN: usize = 37;

/// An assertion as a mathematical value: its four byte strings.
pub struct WebAuthnSignatureView {
    pub authenticator_data: Seq<u8>,
    pub client_data_json: Seq<u8>,
    pub signature: Seq<u8>,
    pub credential_id: Seq<u8>,
}

impl WebAuthnSignatureView {
    /// The wire form: the four fields in order, each behind its length.
    pub open spec fn encoding(self) -> Seq<u8> {
        field_bytes(self.authenticator_data) + field_bytes(self.client_data_json) + field_bytes(
            self.signature,
        ) + field_bytes(self.credential_id)
    }

    /// Whether every field is short enough for its length prefix.
    pub open spec fn fits(self) -> bool {
        &&& self.authenticator_data.len() <= u32::MAX
        &&& self.client_data_json.len() <= u32::MAX
        &&& self.signature.len() <= u32::MAX
        &&& self.credential_id.len() <= u32::MAX
    }
}

/// What reading `data` as a serialized assertion gives: the four fields
/// that make up the whole of it, or nothing where one of them is cut short
/// or bytes are left behind the fourth.
pub open spec fn decode_assertion(data: Seq<u8>) -> Option<WebAuthnSignatureView> {
    match take_field(data) {
        None => None,
        Some((authenticator_data, rest1)) => match take_field(rest1) {
            None => None,
            Some((client_data_json, rest2)) => match take_field(rest2) {
                None => None,
                Some((signature, rest3)) => match take_field(rest3) {
                    None => None,
                    Some((credential_id, rest4)) => if rest4.len() > 0 {
                        None
                    } else {
                        Some(
                            WebAuthnSignatureView {
                                authenticator_data,
                                client_data_json,
                                signature,
                                credential_id,
                            },
                        )
                    },
                },
            },
        },
    }
}

/// What an authenticator produced in answer to a challenge.
#[derive(Debug, Clone)]
pub struct WebAuthnSignature {
    /// The authenticator's own data: flags, counter and the like.
    pub authenticator_data: Vec<u8>,
    /// The client's data, a JSON text that carries the challenge.
    pub client_data_json: Vec<u8>,
    /// The signature over the authenticator data and the hash of the client
    /// data.
    pub signature: Vec<u8>,
    /// The credential that signed.
    pub credential_id: Vec<u8>,
}

impl View for WebAuthnSignature {
    type V = WebAuthnSignatureView;

    open spec fn view(&self) -> WebAuthnSignatureView {
        WebAuthnSignatureView {
            authenticator_data: self.authenticator_data@,
            client_data_json: self.client_data_json@,
            signature: self.signature@,
            credential_id: self.credential_id@,
        }
    }
}

impl WebAuthnSignature {
    /// An assertion made of its four parts.
    pub fn new(
        authenticator_data: Vec<u8>,
        client_data_json: Vec<u8>,
        signature: Vec<u8>,
        credential_id: Vec<u8>,
    ) -> (assertion: WebAuthnSignature)
        ensures
            assertion@ == (WebAuthnSignatureView {
                authenticator_data: authenticator_data@,
                client_data_json: client_data_json@,
                signature: signature@,
                credential_id: credential_id@,
            }),
    {
        WebAuthnSignature { authenticator_data, client_data_json, signature, credential_id }
    }

    /// The wire form of the assertion.
    pub fn to_bytes(&self) -> (bytes: Vec<u8>)
        ensures
            bytes@ == self@.encoding(),
    {
        let mut bytes: Vec<u8> = Vec::new();
        put_field(&mut bytes, self.authenticator_data.as_slice());
        put_field(&mut bytes, self.client_data_json.as_slice());
        put_field(&mut bytes, self.signature.as_slice());
        put_field(&mut bytes, self.credential_id.as_slice());
        assert(bytes@ =~= self@.encoding());
        bytes
    }

    /// Reads an assertion from its wire form: the whole of `data`, no byte
    /// more or less. A buffer that ends inside a field or inside a length,
    /// and one that goes on behind the fourth field, is refused.
    pub fn from_bytes(data: &[u8]) -> (assertion: Result<WebAuthnSignature, CryptoError>)
        ensures
            match decode_assertion(data@) {
                Some(view) => assertion matches Ok(a) && a@ == view,
                None => assertion matches Err(e) && e == CryptoError::InvalidSignatureFormat,
            },
    {
        let (authenticator_data, rest) = match read_field(data) {
            Some(read) => read,
            None => return Err(CryptoError::InvalidSignatureFormat),
        };
        let (client_data_json, rest) = match read_field(rest) {
            Some(read) => read,
            None => return Err(CryptoError::InvalidSignatureFormat),
        };
        let (signature, rest) = match read_field(rest) {
            Some(read) => read,
            None => return Err(CryptoError::InvalidSignatureFormat),
        };
        let (credential_id, rest) = match read_field(rest) {
            Some(read) => read,
            None => return Err(CryptoError::InvalidSignatureFormat),
        };
        if rest.len() > 0 {
            return Err(CryptoError::InvalidSignatureFormat);
        }
        Ok(WebAuthnSignature { authenticator_data, client_data_json, signature, credential_id })
    }
}

/// The four fields of an assertion read off the front of its wire form,
/// with what follows the wire form left behind.
proof fn lemma_fields_of_wire_form(assertion: WebAuthnSignatureView, extra: Seq<u8>)
    requires
        assertion.fits(),
    ensures
        ({
            let data = assertion.encoding() + extra;
            let rest1 = field_bytes(assertion.client_data_json) + field_bytes(assertion.signature)
                + field_bytes(assertion.credential_id) + extra;
            let rest2 = field_bytes(assertion.signature) + field_bytes(assertion.credential_id)
                + extra;
            let rest3 = field_bytes(assertion.credential_id) + extra;
            &&& take_field(data) == Some((assertion.authenticator_data, rest1))
            &&& take_field(rest1) == Some((assertion.client_data_json, rest2))
            &&& take_field(rest2) == Some((assertion.signature, rest3))
            &&& take_field(rest3) == Some((assertion.credential_id, extra))
        }),
{
    let f1 = field_bytes(assertion.authenticator_data);
    let f2 = field_bytes(assertion.client_data_json);
    let f3 = field_bytes(assertion.signature);
    let f4 = field_bytes(assertion.credential_id);
    let data = assertion.encoding() + extra;
    assert(data =~= f1 + (f2 + f3 + f4 + extra));
    lemma_field_round_trip(assertion.authenticator_data, f2 + f3 + f4 + extra);
    assert(f2 + f3 + f4 + extra =~= f2 + (f3 + f4 + extra));
    lemma_field_round_trip(assertion.client_data_json, f3 + f4 + extra);
    assert(f3 + f4 + extra =~= f3 + (f4 + extra));
    lemma_field_round_trip(assertion.signature, f4 + extra);
    lemma_field_round_trip(assertion.credential_id, extra);
}

/// Reading the wire form of an assertion gives the assertion back,
/// whatever bytes its fields hold.
pub proof fn lemma_assertion_round_trip(assertion: WebAuthnSignatureView)
    requires
        assertion.fits(),
    ensures
        decode_assertion(assertion.encoding()) == Some(assertion),
{
    lemma_fields_of_wire_form(assertion, Seq::empty());
    assert(assertion.encoding() + Seq::<u8>::empty() =~= assertion.encoding());
}

/// A wire form with anything behind it is refused: a buffer that is too
/// long reads as no assertion.
pub proof fn lemma_overlong_assertion_is_refused(assertion: WebAuthnSignatureView, extra: Seq<u8>)
    requires
        assertion.fits(),
        extra.len() > 0,
    ensures
        decode_assertion(assertion.encoding() + extra) is None,
{
    lemma_fields_of_wire_form(assertion, extra);
}

/// An assertion that was read from a buffer is the assertion whose wire
/// form the buffer holds: nothing else reads as an assertion.
pub proof fn lemma_read_assertion_was_written(data: Seq<u8>)
    requires
        decode_assertion(data) is Some,
    ensures
        ({
            let assertion = decode_assertion(data).unwrap();
            &&& assertion.fits()
            &&& data == assertion.encoding()
        }),
{
    let assertion = decode_assertion(data).unwrap();
    lemma_take_field_is_field(data);
    let (f1, rest1) = take_field(data).unwrap();
    lemma_take_field_is_field(rest1);
    let (f2, rest2) = take_field(rest1).unwrap();
    lemma_take_field_is_field(rest2);
    let (f3, rest3) = take_field(rest2).unwrap();
    lemma_take_field_is_field(rest3);
    let (f4, rest4) = take_field(rest3).unwrap();
    assert(rest4 =~= Seq::<u8>::empty());
    assert(data =~= assertion.encoding());
}

/// A wire form cut short anywhere is refused: no proper prefix of it reads
/// as an assertion.
pub proof fn lemma_truncated_assertion_is_refused(assertion: WebAuthnSignatureView, keep: int)
    requires
        assertion.fits(),
        0 <= keep < assertion.encoding().len(),
    ensures
        decode_assertion(assertion.encoding().take(keep)) is None,
{
    let f1 = field_bytes(assertion.authenticator_data);
    let f2 = field_bytes(assertion.client_data_json);
    let f3 = field_bytes(assertion.signature);
    let f4 = field_bytes(assertion.credential_id);
    let d0 = assertion.encoding();
    let d1 = f2 + f3 + f4;
    let d2 = f3 + f4;
    let d3 = f4;
    assert(d0 =~= f1 + d1);
    assert(d1 =~= f2 + d2);
    assert(d2 =~= f3 + d3);
    assert(d3 =~= f4 + Seq::<u8>::empty());
    lemma_field_round_trip(assertion.authenticator_data, d1);
    lemma_field_round_trip(assertion.client_data_json, d2);
    lemma_field_round_trip(assertion.signature, d3);
    lemma_field_round_trip(assertion.credential_id, Seq::empty());
    lemma_take_field_of_prefix(d0, keep);
    if keep >= f1.len() {
        let k1 = keep - f1.len();
        lemma_take_field_of_prefix(d1, k1);
        if k1 >= f2.len() {
            let k2 = k1 - f2.len();
            lemma_take_field_of_prefix(d2, k2);
            if k2 >= f3.len() {
                let k3 = k2 - f3.len();
                lemma_take_field_of_prefix(d3, k3);
            }
        }
    }
}

/// Whether `challenge` is bound into `client_data`: it must be text, must
/// not be empty, and must occur in the client data read as text.
pub open spec fn challenge_matches(client_data: Seq<u8>, challenge: Seq<u8>) -> bool {
    &&& valid_utf8(challenge)
    &&& decode_utf8(challenge).len() > 0
    &&& occurs_in(decode_utf8(challenge), lenient_text(client_data))
}

/// The message that an authenticator signs: its own data, then the digest
/// of the client data.
pub open spec fn signed_message(authenticator_data: Seq<u8>, client_data: Seq<u8>) -> Seq<u8> {
    authenticator_data + sha256_digest(client_data)
}

/// In client data that is valid UTF-8 a challenge is searched among the
/// characters that the client data encodes.
pub proof fn lemma_challenge_in_valid_client_data(client_data: Seq<u8>, challenge: Seq<u8>)
    requires
        valid_utf8(client_data),
    ensures
        challenge_matches(client_data, challenge) == (valid_utf8(challenge) && decode_utf8(
            challenge,
        ).len() > 0 && occurs_in(decode_utf8(challenge), decode_utf8(client_data))),
{
}

/// An empty challenge is bound into no client data.
pub proof fn lemma_empty_challenge_never_matches(client_data: Seq<u8>, challenge: Seq<u8>)
    requires
        challenge.len() == 0,
    ensures
        !challenge_matches(client_data, challenge),
{
    assert(decode_utf8(challenge).len() == 0);
}

/// The outcome of verifying an assertion against a key and a challenge.
pub open spec fn webauthn_outcome(
    assertion: WebAuthnSignatureView,
    public_key: Seq<u8>,
    expected_challenge: Seq<u8>,
) -> Result<(), CryptoError> {
    if assertion.authenticator_data.len() < MIN_AUTHENTICATOR_DATA_LEN {
        Err(CryptoError::InvalidAuthenticatorData)
    } else if !challenge_matches(assertion.client_data_json, expected_challenge) {
        Err(CryptoError::ChallengeMismatch)
    } else {
        p256_outcome(
            signed_message(assertion.authenticator_data, assertion.client_data_json),
            assertion.signature,
            public_key,
        )
    }
}

/// Whether the challenge text, if the challenge was text at all, is not
/// empty and occurs in the client text.
pub fn challenge_found(client_text: &str, challenge_text: Option<&str>) -> (found: bool)
    ensures
        found == (challenge_text matches Some(t) && t@.len() > 0 && occurs_in(t@, client_text@)),
{
    match challenge_text {
        None => false,
        Some(text) => !text.is_empty() && text_contains(client_text, text),
    }
}

/// Joins authenticator data and the digest of the client data into the
/// message that was signed.
pub fn join_signed_message(authenticator_data: &[u8], client_data_hash: &[u8; 32]) -> (message:
    Vec<u8>)
    ensures
        message@ == authenticator_data@ + client_data_hash@,
{
    let mut message: Vec<u8> = Vec::new();
    put_bytes(&mut message, authenticator_data);
    put_bytes(&mut message, client_data_hash.as_slice());
    assert(message@ =~= authenticator_data@ + client_data_hash@);
    message
}

/// Verifies an assertion: the authenticator data is long enough, the
/// expected challenge occurs in the client data, and the signature over
/// authenticator data and client-data digest is valid under `public_key`.
pub fn verify_webauthn_signature(
    webauthn_sig: &WebAuthnSignature,
    public_key: &[u8],
    expected_challenge: &[u8],
) -> (outcome: Result<(), CryptoError>)
    ensures
        outcome == webauthn_outcome(webauthn_sig@, public_key@, expected_challenge@),
{
    if webauthn_sig.authenticator_data.len() < MIN_AUTHENTICATOR_DATA_LEN {
        return Err(CryptoError::InvalidAuthenticatorData);
    }
    let client_text = lossy_text(webauthn_sig.client_data_json.as_slice());
    let challenge_text = strict_text(expected_challenge);
    if !challenge_found(client_text.as_str(), challenge_text) {
        return Err(CryptoError::ChallengeMismatch);
    }
    let client_data_hash = sha256(webauthn_sig.client_data_json.as_slice());
    let message = join_signed_message(
        webauthn_sig.authenticator_data.as_slice(),
        &client_data_hash,
    );
    verify_p256_signature(message.as_slice(), webauthn_sig.signature.as_slice(), public_key)
}

} // verus!
