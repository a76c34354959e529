//! The base64 decoders of the outside crate `base64`.

use base64::engine::general_purpose::{STANDARD, URL_SAFE};
use base64::Engine;
use vstd::prelude::*;
use vstd::utf8::encode_utf8;

verus! {

/// The bytes that a text in the standard base64 alphabet decodes to.
pub uninterp spec fn base64_standard(text: Seq<char>) -> Option<Seq<u8>>;

/// The bytes that a text in the URL-safe base64 alphabet decodes to.
pub uninterp spec fn base64_url_safe(text: Seq<char>) -> Option<Seq<u8>>;

/// `base64::Engine::decode` of the `STANDARD` engine: what a text decodes to
/// depends on the text alone. Padding is required, so every three bytes, and
/// what is left of them at the end, take four characters. Which bytes the
/// characters stand for is left unsaid.
#[verifier::external_body]
pub(crate) fn decode_standard(text: &str) -> (r: Option<Vec<u8>>)
    ensures
        r matches Some(bytes) ==> base64_standard(text@) == Some(bytes@) && encode_utf8(
            text@,
        ).len() == 4 * ((bytes@.len() + 2) / 3),
        r is None ==> base64_standard(text@) is None,
{
    STANDARD.decode(text).ok()
}

/// `base64::Engine::decode` of the `URL_SAFE` engine: what a text decodes to
/// depends on the text alone. Padding is required, so every three bytes, and
/// what is left of them at the end, take four characters. Which bytes the
/// characters stand for is left unsaid.
#[verifier::external_body]
pub(crate) fn decode_url_safe(text: &str) -> (r: Option<Vec<u8>>)
    ensures
        r matches Some(bytes) ==> base64_url_safe(text@) == Some(bytes@) && encode_utf8(
            text@,
        ).len() == 4 * ((bytes@.len() + 2) / 3),
        r is None ==> base64_url_safe(text@) is None,
{
    URL_SAFE.decode(text).ok()
}

} // verus!
