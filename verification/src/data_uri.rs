//! Images sent and shown inline as base64, bare or as a `data:` URI.

use vstd::prelude::*;

use base64::prelude::BASE64_STANDARD;
use base64::Engine;

use crate::gate::Rejection;
use crate::text::{last_index, last_index_of, to_chars, trim, trimmed};

verus! {

/// What standard base64 decoding (padded alphabet of RFC 4648) makes of `text`: the
/// bytes, or the decoder's message.
pub uninterp spec fn base64_decoded(text: Seq<char>) -> Result<Seq<u8>, Seq<char>>;

/// `Engine::decode` of `base64::prelude::BASE64_STANDARD` on the text, its error
/// turned into its message. The contract names the outcome after the text alone.
#[verifier::external_body]
fn decode_base64(text: &str) -> (r: Result<Vec<u8>, String>)
    ensures
        base64_decoded(text@) == match r {
            Ok(v) => Ok(v@),
            Err(m) => Err::<Seq<u8>, Seq<char>>(m@),
        },
{
    match BASE64_STANDARD.decode(text) {
        Ok(v) => Ok(v),
        Err(e) => Err(e.to_string()),
    }
}

/// The base64 text of an inline image: what follows the last comma (the whole text
/// when there is none, so a bare base64 string works too), trimmed.
pub open spec fn spec_data_uri_payload(s: Seq<char>) -> Seq<char> {
    match last_index_of(s, ',') {
        Some(i) => trimmed(s.skip(i + 1)),
        None => trimmed(s),
    }
}

/// The base64 text of an inline image.
pub fn data_uri_payload(s: &str) -> (p: String)
    ensures
        p@ == spec_data_uri_payload(s@),
{
    let c: Vec<char> = to_chars(s);
    match last_index(&c, ',') {
        Some(i) => {
            let rest: &str = s.substring_char(i + 1, c.len());
            proof {
                assert(rest@ =~= s@.skip(i + 1));
            }
            trim(rest)
        },
        None => trim(s),
    }
}

/// The request answer for a decoded payload: the bytes, or 400 with the decoder's
/// message.
pub fn image_bytes_or_rejection(decoded: Result<Vec<u8>, String>) -> (r: Result<Vec<u8>, Rejection>)
    ensures
        match decoded {
            Ok(v) => r == Ok::<Vec<u8>, Rejection>(v),
            Err(m) => r matches Err(rej) && rej.status == 400 && rej.message@ == "Invalid base64 image: "@ + m@,
        },
{
    match decoded {
        Ok(v) => Ok(v),
        Err(m) => {
            let mut message: String = String::from_str("Invalid base64 image: ");
            message.append(m.as_str());
            Err(Rejection { status: 400, message })
        },
    }
}

/// Decode an inline image sent as base64, bare or as a `data:` URI.
pub fn decode_data_uri(b64: &str) -> (r: Result<Vec<u8>, Rejection>)
    ensures
        match base64_decoded(spec_data_uri_payload(b64@)) {
            Ok(bytes) => r matches Ok(v) && v@ == bytes,
            Err(m) => r matches Err(rej) && rej.status == 400 && rej.message@ == "Invalid base64 image: "@ + m,
        },
{
    let payload: String = data_uri_payload(b64);
    image_bytes_or_rejection(decode_base64(payload.as_str()))
}

/// What standard base64 encoding (padded alphabet of RFC 4648) makes of `bytes`.
pub uninterp spec fn base64_encoded(bytes: Seq<u8>) -> Seq<char>;

/// `Engine::encode` of `base64::prelude::BASE64_STANDARD`. The contract names the
/// text after the bytes alone.
#[verifier::external_body]
fn encode_base64(bytes: &[u8]) -> (text: String)
    ensures
        text@ == base64_encoded(bytes@),
{
    BASE64_STANDARD.encode(bytes)
}

/// A JPEG as a `data:` URI.
pub fn jpeg_data_uri(jpeg: &[u8]) -> (uri: String)
    ensures
        uri@ == "data:image/jpeg;base64,"@ + base64_encoded(jpeg@),
{
    let mut uri: String = String::from_str("data:image/jpeg;base64,");
    let encoded: String = encode_base64(jpeg);
    uri.append(encoded.as_str());
    uri
}

} // verus!
