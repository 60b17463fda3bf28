//! Bytes as base64 text, in the standard alphabet with padding.

use base64::Engine;
use vstd::prelude::*;

verus! {

/// What the standard base64 engine decodes a text to: bytes, or an error with
/// this text.
pub uninterp spec fn base64_decoded(text: Seq<char>) -> Result<Seq<u8>, Seq<char>>;

/// The base64 text that the standard engine encodes bytes to.
pub uninterp spec fn base64_encoded(bytes: Seq<u8>) -> Seq<char>;

/// `Engine::decode` of `base64::engine::general_purpose::STANDARD`. The contract
/// names the bytes, or the text of the error.
#[verifier::external_body]
pub(crate) fn decode_base64(text: &str) -> (r: Result<Vec<u8>, String>)
    ensures
        match r {
            Ok(b) => base64_decoded(text@) == Ok::<Seq<u8>, Seq<char>>(b@),
            Err(m) => base64_decoded(text@) == Err::<Seq<u8>, Seq<char>>(m@),
        },
{
    base64::engine::general_purpose::STANDARD.decode(text).map_err(|e| e.to_string())
}

/// `Engine::encode` of `base64::engine::general_purpose::STANDARD`. The contract
/// names the text, and adds that decoding it gives back the bytes. The bound
/// keeps the length of the text within what a string can hold.
#[verifier::external_body]
pub(crate) fn encode_base64(bytes: &[u8]) -> (r: String)
    requires
        bytes@.len() <= 0x1000_0000,
    ensures
        r@ == base64_encoded(bytes@),
        (base64_decoded(r@) == Ok::<Seq<u8>, Seq<char>>(bytes@)),
{
    base64::engine::general_purpose::STANDARD.encode(bytes)
}

} // verus!
