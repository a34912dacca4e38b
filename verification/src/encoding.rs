//! Transport decoding of provider payloads — base64 bodies, lossy UTF-8
//! recovery, percent-encoding of URL path segments — through the outside
//! crates, behind trusted contracts.

use vstd::prelude::*;
use base64::Engine;

verus! {

/// Why a fetched file's content could not be decoded.  Such a failure is
/// scoped to the one file: the walker skips it and goes on.
#[derive(Clone, Copy, Debug, PartialEq, Eq)]
pub enum ContentError {
    /// The provider tagged the body with a transport encoding other than
    /// base64, the only one supported.
    UnsupportedEncoding,
    /// The body was not valid base64.
    InvalidBase64,
    /// The response carried no content field at all.
    MissingContent,
}

/// What standard-alphabet base64 decoding yields for a text: its decoded
/// bytes when the text is valid padded base64, nothing otherwise.
pub uninterp spec fn b64_decode_of(s: Seq<char>) -> Option<Seq<u8>>;

/// What lossy UTF-8 conversion makes of a byte sequence.
pub uninterp spec fn utf8_lossy_of(b: Seq<u8>) -> Seq<char>;

/// What percent-encoding makes of a text.
pub uninterp spec fn url_encoded(s: Seq<char>) -> Seq<char>;

/// Relies on base64's `Engine::decode` with the `STANDARD` engine: the
/// result is a function of the input text alone — the decoded bytes for
/// valid base64, an error otherwise.
#[verifier::external_body]
pub(crate) fn base64_decode(s: &str) -> (r: Option<Vec<u8>>)
    ensures
        r is Some <==> b64_decode_of(s@) is Some,
        r matches Some(v) ==> b64_decode_of(s@) == Some(v@),
{
    base64::engine::general_purpose::STANDARD.decode(s).ok()
}

/// Relies on `String::from_utf8_lossy`: the result is a function of the
/// bytes alone; invalid sequences come back as replacement characters.
#[verifier::external_body]
pub(crate) fn utf8_lossy(bytes: &Vec<u8>) -> (r: String)
    ensures
        r@ == utf8_lossy_of(bytes@),
{
    String::from_utf8_lossy(bytes).into_owned()
}

/// Relies on `str::replace`: replacing the one-character pattern `"\n"`
/// with the empty string keeps exactly the other characters, in order.
#[verifier::external_body]
pub(crate) fn strip_newlines(s: &str) -> (r: String)
    ensures
        r@ == s@.filter(|c: char| c != '\n'),
{
    s.replace("\n", "")
}

/// Relies on `urlencoding::encode`: the result is a function of the input
/// alone — every byte except ASCII alphanumerics and `-`, `_`, `.`, `~`
/// percent-encoded.
#[verifier::external_body]
pub(crate) fn url_encode(s: &str) -> (r: String)
    ensures
        r@ == url_encoded(s@),
{
    urlencoding::encode(s).into_owned()
}

} // verus!
