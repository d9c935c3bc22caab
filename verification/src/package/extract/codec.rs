//! The decompressors that unpacking uses, from outside crates.
//!
//! Each decoder is a function of its input alone; what it yields is named,
//! not restated.
use vstd::prelude::*;
use vstd::utf8::{decode_utf8, valid_utf8};
use crate::error::SpmError;
use crate::text::{push_str, starts_with};

verus! {

/// What `flate2`'s gzip decoder yields for some bytes, when it succeeds.
pub uninterp spec fn gzip_decode(data: Seq<u8>) -> Option<Seq<u8>>;

/// What `xz2`'s xz decoder yields for some bytes, when it succeeds.
pub uninterp spec fn xz_decode(data: Seq<u8>) -> Option<Seq<u8>>;

/// What `zstd::decode_all` yields for some bytes, when it succeeds.
pub uninterp spec fn zstd_decode(data: Seq<u8>) -> Option<Seq<u8>>;

/// `flate2::read::GzDecoder::new(data)` read to the end: the decompressed
/// bytes, or the text of the I/O error.
#[verifier::external_body]
pub fn gunzip(data: &[u8]) -> (r: Result<Vec<u8>, String>)
    ensures
        r matches Ok(v) ==> gzip_decode(data@) == Some(v@),
        r is Err ==> gzip_decode(data@) is None,
{
    let mut decoder = flate2::read::GzDecoder::new(data);
    let mut out = Vec::new();
    match std::io::Read::read_to_end(&mut decoder, &mut out) {
        Ok(_) => Ok(out),
        Err(e) => Err(e.to_string()),
    }
}

/// `xz2::read::XzDecoder::new(data)` read to the end: the decompressed
/// bytes, or the text of the I/O error.
#[verifier::external_body]
pub fn unxz(data: &[u8]) -> (r: Result<Vec<u8>, String>)
    ensures
        r matches Ok(v) ==> xz_decode(data@) == Some(v@),
        r is Err ==> xz_decode(data@) is None,
{
    let mut decoder = xz2::read::XzDecoder::new(data);
    let mut out = Vec::new();
    match std::io::Read::read_to_end(&mut decoder, &mut out) {
        Ok(_) => Ok(out),
        Err(e) => Err(e.to_string()),
    }
}

/// `zstd::decode_all(data)`: the decompressed bytes, or the text of the
/// error when the data is not a zstd stream it can decode.
#[verifier::external_body]
pub fn unzstd(data: &[u8]) -> (r: Result<Vec<u8>, String>)
    ensures
        r matches Ok(v) ==> zstd_decode(data@) == Some(v@),
        r is Err ==> zstd_decode(data@) is None,
{
    match zstd::decode_all(data) {
        Ok(out) => Ok(out),
        Err(e) => Err(e.to_string()),
    }
}


/// What `zstd`'s encoder writes for some bytes at a compression level,
/// when it succeeds.
pub uninterp spec fn zstd_encode(data: Seq<u8>, level: i32) -> Option<Seq<u8>>;

/// `zstd::Encoder::new(Vec::new(), level)`, all of `data` copied in, then
/// `finish`: the compressed bytes, or the step that failed (0 creating the
/// encoder, 1 copying, 2 finishing) and the text of its error.
#[verifier::external_body]
pub fn zstd_compress(data: &[u8], level: i32) -> (r: Result<Vec<u8>, (u8, String)>)
    ensures
        r matches Ok(v) ==> zstd_encode(data@, level) == Some(v@),
        r matches Err(e) ==> zstd_encode(data@, level) is None && e.0 <= 2,
{
    let mut encoder = match zstd::Encoder::new(Vec::new(), level) {
        Ok(e) => e,
        Err(e) => return Err((0, e.to_string())),
    };
    if let Err(e) = std::io::copy(&mut &data[..], &mut encoder) {
        return Err((1, e.to_string()));
    }
    match encoder.finish() {
        Ok(v) => Ok(v),
        Err(e) => Err((2, e.to_string())),
    }
}


/// `String::from_utf8`: the text of `b` when it is valid UTF-8, else the
/// text of the error.
#[verifier::external_body]
pub fn string_from_utf8(b: Vec<u8>) -> (r: Result<String, String>)
    ensures
        r is Ok <==> valid_utf8(b@),
        r matches Ok(s) ==> s@ == decode_utf8(b@),
{
    String::from_utf8(b).map_err(|e| e.to_string())
}

/// The text of some bytes, when they are valid UTF-8.
pub open spec fn text_of(b: Seq<u8>) -> Option<Seq<char>> {
    if valid_utf8(b) {
        Some(decode_utf8(b))
    } else {
        None
    }
}

/// The message `read_to_string` gives for bytes that are not UTF-8.
pub open spec fn not_utf8_text() -> Seq<char> {
    "stream did not contain valid UTF-8"@
}

/// What reading a decoder's output to a string gives: the decoded text,
/// or an error after `prefix` (the decoder's own message, or
/// `not_utf8_text` when the output is not UTF-8).
pub open spec fn decoded_text_ok(decoded: Option<Seq<u8>>, prefix: Seq<char>, r: Result<String, SpmError>) -> bool {
    match decoded {
        None => r matches Err(SpmError::Compression(m)) && starts_with(m@, prefix),
        Some(b) => match text_of(b) {
            Some(t) => r matches Ok(s) && s@ == t,
            None => r matches Err(SpmError::Compression(m)) && m@ == prefix + not_utf8_text(),
        },
    }
}

fn text_or_error(decoded: Result<Vec<u8>, String>, prefix: &str) -> (r: Result<String, SpmError>)
    ensures
        match decoded {
            Err(e) => r matches Err(SpmError::Compression(m)) && m@ == prefix@ + e@,
            Ok(b) => match text_of(b@) {
                Some(t) => r matches Ok(s) && s@ == t,
                None => r matches Err(SpmError::Compression(m)) && m@ == prefix@ + not_utf8_text(),
            },
        },
{
    match decoded {
        Err(e) => {
            let mut m = String::new();
            push_str(&mut m, prefix);
            push_str(&mut m, e.as_str());
            Err(SpmError::Compression(m))
        },
        Ok(b) => match string_from_utf8(b) {
            Ok(s) => Ok(s),
            Err(_) => {
                let mut m = String::new();
                push_str(&mut m, prefix);
                push_str(&mut m, "stream did not contain valid UTF-8");
                Err(SpmError::Compression(m))
            },
        },
    }
}

/// gzip data read to a string (`GzDecoder` and `read_to_string`); errors
/// start with `prefix`.
pub fn gz_to_text(data: &[u8], prefix: &str) -> (r: Result<String, SpmError>)
    ensures
        decoded_text_ok(gzip_decode(data@), prefix@, r),
{
    let d = gunzip(data);
    let r = text_or_error(d, prefix);
    proof {
        if let Err(SpmError::Compression(ref m)) = r {
            if gzip_decode(data@) is None {
                assert(m@.take(prefix@.len() as int) =~= prefix@);
            }
        }
    }
    r
}

/// xz data read to a string (`XzDecoder` and `read_to_string`); errors
/// start with `prefix`.
pub fn xz_to_text(data: &[u8], prefix: &str) -> (r: Result<String, SpmError>)
    ensures
        decoded_text_ok(xz_decode(data@), prefix@, r),
{
    let d = unxz(data);
    let r = text_or_error(d, prefix);
    proof {
        if let Err(SpmError::Compression(ref m)) = r {
            if xz_decode(data@) is None {
                assert(m@.take(prefix@.len() as int) =~= prefix@);
            }
        }
    }
    r
}

} // verus!
