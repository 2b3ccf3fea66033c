//! Text inside byte strings, as the standard library reads it.

use vstd::prelude::*;
use vstd::utf8::{decode_utf8, valid_utf8};

verus! {

/// The text that a lenient reader makes of `bytes`: the characters that
/// the bytes encode in UTF-8, with a replacement character wherever they
/// encode none.
pub uninterp spec fn lossy_utf8_text(bytes: Seq<u8>) -> Seq<char>;

/// The text that is searched for a challenge: the characters that
/// `bytes` encode where they are valid UTF-8, and what a lenient reader
/// makes of them where they are not.
pub open spec fn lenient_text(bytes: Seq<u8>) -> Seq<char> {
    if valid_utf8(bytes) {
        decode_utf8(bytes)
    } else {
        lossy_utf8_text(bytes)
    }
}

/// Whether `needle` stands in `hay` as one unbroken run of characters.
pub open spec fn occurs_in(needle: Seq<char>, hay: Seq<char>) -> bool {
    exists|start: int|
        0 <= start <= hay.len() - needle.len() && #[trigger] hay.subrange(
            start,
            start + needle.len(),
        ) == needle
}

/// Reads `bytes` as text with `String::from_utf8_lossy`.
///
/// Trusted: the text depends on the bytes alone, and bytes that are valid
/// UTF-8 are read as the characters they encode.
#[verifier::external_body]
pub(crate) fn lossy_text(bytes: &[u8]) -> (text: String)
    ensures
        text@ == lossy_utf8_text(bytes@),
        valid_utf8(bytes@) ==> text@ == decode_utf8(bytes@),
{
    String::from_utf8_lossy(bytes).into_owned()
}

/// Reads `bytes` as text with `std::str::from_utf8`.
///
/// Trusted: the call succeeds exactly on valid UTF-8, and then gives the
/// characters that the bytes encode.
#[verifier::external_body]
pub(crate) fn strict_text(bytes: &[u8]) -> (text: Option<&str>)
    ensures
        text is Some == valid_utf8(bytes@),
        text matches Some(t) ==> t@ == decode_utf8(bytes@),
{
    std::str::from_utf8(bytes).ok()
}

/// Searches `hay` for `needle` with `str::contains`.
///
/// Trusted: the call says whether some stretch of `hay` equals `needle`.
#[verifier::external_body]
pub(crate) fn text_contains(hay: &str, needle: &str) -> (found: bool)
    ensures
        found == occurs_in(needle@, hay@),
{
    hay.contains(needle)
}

/// Turns `bytes` into a string with `String::from_utf8`.
///
/// Trusted: the call succeeds exactly on valid UTF-8, and then gives the
/// characters that the bytes encode.
#[verifier::external_body]
pub(crate) fn owned_text(bytes: Vec<u8>) -> (text: Result<String, std::string::FromUtf8Error>)
    ensures
        text is Ok == valid_utf8(bytes@),
        text matches Ok(t) ==> t@ == decode_utf8(bytes@),
{
    String::from_utf8(bytes)
}

/// The error of `String::from_utf8`.
#[verifier::external_type_specification]
#[verifier::external_body]
pub struct ExFromUtf8Error(std::string::FromUtf8Error);

} // verus!
