//! The decoders that this library calls and does not verify: the gzip and
//! zlib stream decoders of `flate2`, and the UTF-8 check of the standard
//! library. What is assumed of each is stated here.

use vstd::prelude::*;
use vstd::string::*;
use vstd::utf8::valid_utf8;
use std::io::Read;
use flate2::read::{GzDecoder, ZlibDecoder};

verus! {

/// What `flate2::read::GzDecoder` yields when the whole of `stream` is read
/// through it: the content of the first gzip member, or `None` where the
/// decoder reports an error.
pub uninterp spec fn gzip_inflated(stream: Seq<u8>) -> Option<Seq<u8>>;

/// What `flate2::read::ZlibDecoder` yields when the whole of `stream` is read
/// through it: the content of the zlib stream, or `None` where the decoder
/// reports an error.
pub uninterp spec fn zlib_inflated(stream: Seq<u8>) -> Option<Seq<u8>>;

/// Decodes `stream` with `flate2::read::GzDecoder::new` and reads the decoder
/// to its end. Assumed: the outcome depends on the bytes of `stream` alone,
/// so it can be named `gzip_inflated(stream@)`. Nothing is assumed of what
/// the decoded bytes are.
#[verifier::external_body]
pub(crate) fn inflate_gzip(stream: &[u8]) -> (inflated: Option<Vec<u8>>)
    ensures
        inflated matches Some(bytes) ==> gzip_inflated(stream@) == Some(bytes@),
        inflated is None ==> gzip_inflated(stream@) is None,
{
    let mut bytes = Vec::new();
    match GzDecoder::new(stream).read_to_end(&mut bytes) {
        Ok(_) => Some(bytes),
        Err(_) => None,
    }
}

/// Decodes `stream` with `flate2::read::ZlibDecoder::new` and reads the
/// decoder to its end. Assumed: the outcome depends on the bytes of `stream`
/// alone, so it can be named `zlib_inflated(stream@)`. Nothing is assumed of
/// what the decoded bytes are.
#[verifier::external_body]
pub(crate) fn inflate_zlib(stream: &[u8]) -> (inflated: Option<Vec<u8>>)
    ensures
        inflated matches Some(bytes) ==> zlib_inflated(stream@) == Some(bytes@),
        inflated is None ==> zlib_inflated(stream@) is None,
{
    let mut bytes = Vec::new();
    match ZlibDecoder::new(stream).read_to_end(&mut bytes) {
        Ok(_) => Some(bytes),
        Err(_) => None,
    }
}

/// The error of `core::str::from_utf8`; it is carried, never examined.
#[verifier::external_type_specification]
#[verifier::external_body]
pub struct ExUtf8Error(core::str::Utf8Error);

/// `core::str::from_utf8` succeeds exactly on the byte sequences that are
/// valid UTF-8, and the string slice it returns is made of the bytes given.
pub assume_specification[ core::str::from_utf8 ](v: &[u8]) -> (converted: Result<
    &str,
    core::str::Utf8Error,
>)
    ensures
        converted is Ok <==> valid_utf8(v@),
        converted matches Ok(text) ==> text.spec_bytes() == v@,
;

} // verus!
