//! The inference variant's unit worker pieces: a local binary resource is
//! encoded into a transport-safe textual form, framed as the single-field
//! request body for the fixed local endpoint, and the structured response
//! of three optional free-text fields is classified like any other unit.

use vstd::prelude::*;

use base64::Engine;

verus! {

/// The structured response of the local inference endpoint: up to three
/// optional free-text fields.
pub struct ExtractedFields {
    pub words_in_mark: Option<String>,
    pub chinese_character: Option<String>,
    pub description_of_device: Option<String>,
}

/// The transport-safe textual form of a byte string, as the standard
/// sixty-four-character alphabet with padding renders it: a fixed function
/// of the bytes alone.
pub uninterp spec fn base64_of(bytes: Seq<u8>) -> Seq<char>;

/// Relies on base64's `Engine::encode` with the `STANDARD` engine: the
/// rendering is a pure function of the input bytes, four output characters
/// for every three input bytes, the last group padded. The engine panics
/// when the encoded length cannot be represented in `usize`, so inputs that
/// large are excluded here.
#[verifier::external_body]
fn base64_encode(bytes: &Vec<u8>) -> (r: String)
    requires
        bytes@.len() <= usize::MAX / 4,
    ensures
        r@ == base64_of(bytes@),
        r@.len() == 4 * ((bytes@.len() + 2) / 3),
{
    base64::engine::general_purpose::STANDARD.encode(bytes.as_slice())
}

/// Frames an already-encoded resource as the endpoint's request body: one
/// JSON object with the encoding as its single `image` field.
pub fn frame_invoke_body(encoded: &str) -> (r: String)
    ensures
        r@ == "{\"image\":\""@ + encoded@ + "\"}"@,
{
    let mut s = String::from_str("{\"image\":\"");
    s.append(encoded);
    s.append("\"}");
    s
}

/// Encodes one local resource's bytes and frames the request body around
/// the encoding.
pub fn encode_image_request(bytes: &Vec<u8>) -> (r: String)
    requires
        bytes@.len() <= usize::MAX / 4,
    ensures
        r@ == "{\"image\":\""@ + base64_of(bytes@) + "\"}"@,
{
    let encoded = base64_encode(bytes);
    frame_invoke_body(encoded.as_str())
}

/// The fixed local endpoint's address: the configured base joined with the
/// invocation path.
pub fn invoke_url(base: &str) -> (r: String)
    ensures
        r@ == base@ + "/invoke"@,
{
    let mut s = String::from_str(base);
    s.append("/invoke");
    s
}

} // verus!
