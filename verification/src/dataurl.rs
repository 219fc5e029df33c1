//! Data URLs: decoding the base64 payload of a `data:` URL and assembling
//! one from a media type and an already-encoded payload.

use vstd::prelude::*;

use base64::Engine;

use crate::bytes::{find_byte, find_byte_index};
use vstd::slice::slice_subrange;

verus! {

/// What the standard base64 alphabet decodes a byte string to, or `None`
/// where it is not valid standard base64 with padding.
pub uninterp spec fn base64_decoded(s: Seq<u8>) -> Option<Seq<u8>>;

/// The standard base64 encoding, with padding, of a byte string.
pub uninterp spec fn base64_chars(s: Seq<u8>) -> Seq<char>;

/// Relies on `base64::engine::general_purpose::STANDARD.decode`: the result
/// is a function of the input bytes alone, named `base64_decoded`.
#[verifier::external_body]
fn base64_decode(s: &[u8]) -> (r: Option<Vec<u8>>)
    ensures
        match r {
            Some(v) => base64_decoded(s@) == Some(v@),
            None => base64_decoded(s@) is None,
        },
{
    base64::engine::general_purpose::STANDARD.decode(s).ok()
}

/// Relies on `base64::engine::general_purpose::STANDARD.encode`: the result
/// is a function of the input bytes alone, named `base64_chars`.
#[verifier::external_body]
pub fn base64_encode(s: &[u8]) -> (r: String)
    ensures
        r@ == base64_chars(s@),
{
    base64::engine::general_purpose::STANDARD.encode(s)
}

/// The payload of a data URL: everything after the first comma, base64
/// decoded; `None` when there is no comma or the payload is not base64.
pub open spec fn spec_decode_data_url(s: Seq<u8>) -> Option<Seq<u8>> {
    match find_byte(s, 44) {
        None => None,
        Some(i) => base64_decoded(s.skip(i + 1)),
    }
}

/// Decodes the base64 payload that follows the first comma of a data URL.
pub fn decode_data_url(data_url: &[u8]) -> (r: Option<Vec<u8>>)
    ensures
        match r {
            Some(v) => spec_decode_data_url(data_url@) == Some(v@),
            None => spec_decode_data_url(data_url@) is None,
        },
{
    proof {
        crate::bytes::lemma_find_byte(data_url@, 44);
    }
    match find_byte_index(data_url, 44) {
        None => None,
        Some(i) => {
            let n: usize = data_url.len();
            assert(i < n);
            let payload: &[u8] = slice_subrange(data_url, i + 1, n);
            proof {
                assert(payload@ =~= data_url@.skip(i + 1));
            }
            base64_decode(payload)
        },
    }
}

/// Assembles a `data:` URL from a media type and a base64 payload.
pub fn data_url(mime: &str, payload_b64: &str) -> (r: String)
    ensures
        r@ == "data:"@ + mime@ + ";base64,"@ + payload_b64@,
{
    let mut out: String = String::from_str("data:");
    out.append(mime);
    out.append(";base64,");
    out.append(payload_b64);
    out
}

} // verus!
