//! Undoing the transport wrapping of a document: base64 text to
//! compressed bytes, gzip bytes to document bytes, and UTF-8 reading.
//! Each outside call stands behind a contract over a name for its
//! result; the composition is verified against those names.
use std::io::Read;
use vstd::prelude::*;
use vstd::utf8::{encode_utf8, valid_utf8};

verus! {

/// What decoding a text as standard base64 yields: the decoded bytes, or
/// nothing when the text is not valid base64.  A function of the text
/// alone.
pub uninterp spec fn b64_decoded(s: Seq<char>) -> Option<Seq<u8>>;

/// Relies on base64::decode with the standard alphabet: deterministic in
/// its input, `Ok` exactly on valid base64 text.
#[verifier::external_body]
fn b64_decode(s: &str) -> (r: Option<Vec<u8>>)
    ensures
        match r {
            Some(v) => b64_decoded(s@) == Some(v@),
            None => b64_decoded(s@) is None,
        },
{
    match base64::decode(s) {
        Ok(v) => Some(v),
        Err(_) => None,
    }
}

/// What gzip decompression yields for a byte sequence: the decompressed
/// bytes, or nothing when the bytes are not a well-formed gzip stream.
/// A function of the bytes alone.
pub uninterp spec fn gunzip_of(b: Seq<u8>) -> Option<Seq<u8>>;

/// Relies on flate2's GzDecoder read over an in-memory slice:
/// decompression is deterministic in the compressed bytes.
#[verifier::external_body]
fn gunzip(b: &[u8]) -> (r: Option<Vec<u8>>)
    ensures
        match r {
            Some(v) => gunzip_of(b@) == Some(v@),
            None => gunzip_of(b@) is None,
        },
{
    let mut gz = flate2::read::GzDecoder::new(b);
    let mut out = Vec::new();
    match gz.read_to_end(&mut out) {
        Ok(_) => Some(out),
        Err(_) => None,
    }
}

/// Relies on String::from_utf8: succeeds exactly on valid UTF-8 input
/// and returns the string whose encoding is those bytes.
#[verifier::external_body]
fn utf8_string(b: Vec<u8>) -> (r: Option<String>)
    ensures
        r is Some <==> valid_utf8(b@),
        match r {
            Some(s) => encode_utf8(s@) == b@,
            None => true,
        },
{
    match String::from_utf8(b) {
        Ok(s) => Some(s),
        Err(_) => None,
    }
}

/// Undo the transport wrapping of a document: read the text as base64,
/// decompress the result as gzip, and read the decompressed bytes as
/// UTF-8 text.  Succeeds exactly when every step does, and then returns
/// the text whose UTF-8 encoding is the decompressed bytes.
pub fn decode_document(data: &str) -> (r: Option<String>)
    ensures
        match b64_decoded(data@) {
            None => r is None,
            Some(c) => match gunzip_of(c) {
                None => r is None,
                Some(bytes) => {
                    &&& (r is Some <==> valid_utf8(bytes))
                    &&& (r matches Some(s) ==> encode_utf8(s@) == bytes)
                },
            },
        },
{
    let compressed = match b64_decode(data) {
        None => {
            return None;
        },
        Some(c) => c,
    };
    let bytes = match gunzip(compressed.as_slice()) {
        None => {
            return None;
        },
        Some(b) => b,
    };
    utf8_string(bytes)
}

} // verus!
