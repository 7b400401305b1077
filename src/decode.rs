//! Content decoding: undoing a declared `content-encoding` and reading the
//! result as UTF-8 text.
use vstd::prelude::*;
use vstd::utf8::{decode_utf8, encode_utf8, valid_utf8};

use crate::error::FetchError;
use crate::http::{
    content_encoding_bytes, content_encoding_word, find_header, gzip_bytes, gzip_word,
    header_value, headers_view,
};
use crate::bytes::eq_bytes;

verus! {

/// What decompressing `data` as one gzip member gives; `None` where the
/// data is not valid gzip.
pub uninterp spec fn gunzip_result(data: Seq<u8>) -> Option<Seq<u8>>;

/// Relies on `flate2::read::GzDecoder` read to the end: it decompresses one
/// gzip member, and fails on malformed or truncated data. The outcome
/// depends on the bytes alone.
#[verifier::external_body]
fn gunzip(data: &[u8]) -> (r: Option<Vec<u8>>)
    ensures
        r matches Some(v) ==> gunzip_result(data@) == Some(v@),
        r is None ==> gunzip_result(data@) is None,
{
    let mut decoder = flate2::read::GzDecoder::new(data);
    let mut out: Vec<u8> = Vec::new();
    match std::io::Read::read_to_end(&mut decoder, &mut out) {
        Ok(_) => Some(out),
        Err(_) => None,
    }
}

/// Relies on `String::from_utf8`: it succeeds exactly on valid UTF-8 and
/// keeps the bytes as they are.
#[verifier::external_body]
fn utf8_text(bytes: Vec<u8>) -> (r: Option<String>)
    ensures
        r is Some <==> valid_utf8(bytes@),
        r matches Some(s) ==> encode_utf8(s@) == bytes@,
{
    String::from_utf8(bytes).ok()
}

/// Reads bytes as UTF-8 text.
pub fn text_of(bytes: Vec<u8>) -> (r: Result<String, FetchError>)
    ensures
        r matches Ok(s) ==> valid_utf8(bytes@) && s@ == decode_utf8(bytes@),
        r matches Err(e) ==> !valid_utf8(bytes@) && e == FetchError::EncodingError,
{
    broadcast use vstd::utf8::encode_utf8_decode_utf8;

    match utf8_text(bytes) {
        Some(s) => Ok(s),
        None => Err(FetchError::EncodingError),
    }
}

/// The body bytes once the declared content encoding is undone: as they are
/// without a `content-encoding` header, decompressed for `gzip`, and `None`
/// for any other encoding or for malformed gzip data.
pub open spec fn decoded_spec(hs: Seq<(Seq<u8>, Seq<u8>)>, body: Seq<u8>) -> Option<Seq<u8>> {
    match header_value(hs, content_encoding_word()) {
        None => Some(body),
        Some(enc) => if enc == gzip_word() {
            gunzip_result(body)
        } else {
            None
        },
    }
}

/// The text of a response body: the declared content encoding undone, then
/// read as UTF-8. Fails with `EncodingError` on an unsupported encoding,
/// malformed compressed data or bytes that are not UTF-8.
pub fn decode_body(headers: &Vec<(Vec<u8>, Vec<u8>)>, body: Vec<u8>) -> (r: Result<
    String,
    FetchError,
>)
    ensures
        r matches Ok(s) ==> decoded_spec(headers_view(headers@), body@) matches Some(b)
            && valid_utf8(b) && s@ == decode_utf8(b),
        r matches Err(e) ==> e == FetchError::EncodingError && !(decoded_spec(
            headers_view(headers@),
            body@,
        ) matches Some(b) && valid_utf8(b)),
{
    let bytes = match find_header(headers, content_encoding_bytes().as_slice()) {
        None => body,
        Some(enc) => if eq_bytes(enc.as_slice(), gzip_bytes().as_slice()) {
            match gunzip(body.as_slice()) {
                Some(v) => v,
                None => {
                    return Err(FetchError::EncodingError);
                },
            }
        } else {
            return Err(FetchError::EncodingError);
        },
    };
    text_of(bytes)
}

} // verus!
