//! Base64 in the three forms that payloads arrive in.

use vstd::prelude::*;
use base64::Engine;

verus! {

/// The most bytes that are written in base64 at once.
pub const MAX_ENCODED_INPUT: usize = usize::MAX / 2;

/// The standard base64 form, with padding, of `bytes`.
pub uninterp spec fn base64_text(bytes: Seq<u8>) -> Seq<char>;

/// The URL-safe base64 form, without padding, of `bytes`.
pub uninterp spec fn base64url_text(bytes: Seq<u8>) -> Seq<char>;

/// The bytes that `text` stands for in standard base64 with padding, or the
/// text of the decoder's complaint.
pub uninterp spec fn base64_bytes(text: Seq<char>) -> Result<Seq<u8>, Seq<char>>;

/// The bytes that `text` stands for in URL-safe base64 with padding, or the
/// text of the decoder's complaint.
pub uninterp spec fn base64url_bytes(text: Seq<char>) -> Result<Seq<u8>, Seq<char>>;

/// The bytes that `text` stands for in URL-safe base64 without padding, or
/// the text of the decoder's complaint.
pub uninterp spec fn base64url_unpadded_bytes(text: Seq<char>) -> Result<Seq<u8>, Seq<char>>;

/// The views of a decoder's result.
pub open spec fn bytes_view(r: Result<Vec<u8>, String>) -> Result<Seq<u8>, Seq<char>> {
    match r {
        Ok(bytes) => Ok(bytes@),
        Err(message) => Err(message@),
    }
}

/// Calls `encode` of `base64::engine::general_purpose::STANDARD`. The result
/// depends on the bytes alone; the contract gives it a name. The call fails
/// only where the length of the result would not fit the machine word, which
/// the bound on the input keeps out.
#[verifier::external_body]
pub(crate) fn encode_base64(bytes: &[u8]) -> (text: String)
    requires
        bytes@.len() <= MAX_ENCODED_INPUT,
    ensures
        text@ == base64_text(bytes@),
{
    base64::engine::general_purpose::STANDARD.encode(bytes)
}

/// Calls `encode` of `base64::engine::general_purpose::URL_SAFE_NO_PAD`. The
/// result depends on the bytes alone; the contract gives it a name. The
/// bound on the input keeps out the one failure, a result too long for the
/// machine word.
#[verifier::external_body]
pub(crate) fn encode_base64url(bytes: &[u8]) -> (text: String)
    requires
        bytes@.len() <= MAX_ENCODED_INPUT,
    ensures
        text@ == base64url_text(bytes@),
{
    base64::engine::general_purpose::URL_SAFE_NO_PAD.encode(bytes)
}

/// Calls `decode` of `base64::engine::general_purpose::STANDARD`. The result
/// depends on the text alone; the contract gives it a name. An error comes
/// back as its text.
#[verifier::external_body]
pub(crate) fn decode_base64(text: &str) -> (r: Result<Vec<u8>, String>)
    ensures
        bytes_view(r) == base64_bytes(text@),
{
    base64::engine::general_purpose::STANDARD.decode(text).map_err(|e| e.to_string())
}

/// Calls `decode` of `base64::engine::general_purpose::URL_SAFE`. The result
/// depends on the text alone; the contract gives it a name. An error comes
/// back as its text.
#[verifier::external_body]
pub(crate) fn decode_base64url(text: &str) -> (r: Result<Vec<u8>, String>)
    ensures
        bytes_view(r) == base64url_bytes(text@),
{
    base64::engine::general_purpose::URL_SAFE.decode(text).map_err(|e| e.to_string())
}

/// Calls `decode` of `base64::engine::general_purpose::URL_SAFE_NO_PAD`. The
/// result depends on the text alone; the contract gives it a name. An error
/// comes back as its text.
#[verifier::external_body]
pub(crate) fn decode_base64url_unpadded(text: &str) -> (r: Result<Vec<u8>, String>)
    ensures
        bytes_view(r) == base64url_unpadded_bytes(text@),
{
    base64::engine::general_purpose::URL_SAFE_NO_PAD.decode(text).map_err(|e| e.to_string())
}

} // verus!
