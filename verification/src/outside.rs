//! Trusted declarations for the outside crates the library leans on:
//! the clock, the brotli codec, the SHA-256 digest, and UTF-8 decoding.
//! Each wrapper's contract states only what the called crate documents.

use vstd::prelude::*;

verus! {

/// Relies on chrono::Utc::now: the current moment.  Nothing is assumed
/// of the returned timestamp.
#[verifier::external_body]
fn now_timestamp() -> i64 {
    chrono::Utc::now().timestamp()
}

/// Relies on chrono's RFC 3339 formatting of the current moment.
/// Nothing is assumed of the returned text.
#[verifier::external_body]
pub fn now_rfc3339() -> String {
    chrono::Utc::now().to_rfc3339()
}

/// The current time as seconds since the Unix epoch, clamped at zero.
pub fn now_unix_secs() -> u64 {
    let t = now_timestamp();
    if t < 0 {
        0
    } else {
        t as u64
    }
}

/// The brotli stream produced for `data` at the given quality (window 22,
/// 4 KB buffer).  The encoder output is a function of its input and
/// parameters alone.
pub uninterp spec fn brotli_of(data: Seq<u8>, quality: u32) -> Seq<u8>;

/// Relies on brotli::CompressorWriter: compressing to an in-memory
/// buffer cannot fail, and the encoding depends only on the input and
/// the parameters.
#[verifier::external_body]
pub fn brotli_compress(data: &Vec<u8>, quality: u32) -> (r: Vec<u8>)
    requires
        quality <= 11,
    ensures
        r@ == brotli_of(data@, quality),
{
    let mut out: Vec<u8> = Vec::new();
    {
        let mut w = brotli::CompressorWriter::new(&mut out, 4096, quality, 22);
        std::io::Write::write_all(&mut w, data.as_slice()).expect("write to memory");
        std::io::Write::flush(&mut w).expect("flush to memory");
    }
    out
}

/// Relies on brotli::Decompressor: decompressing a stream produced by the
/// encoder yields the original bytes; malformed input is reported.
#[verifier::external_body]
pub fn brotli_decompress(data: &Vec<u8>) -> (r: Option<Vec<u8>>)
    ensures
        forall|b: Seq<u8>, q: u32|
            q <= 11 && data@ == brotli_of(b, q) ==> r is Some && r->0@ == b,
{
    let mut out: Vec<u8> = Vec::new();
    let mut d = brotli::Decompressor::new(data.as_slice(), 4096);
    match std::io::Read::read_to_end(&mut d, &mut out) {
        Ok(_) => Some(out),
        Err(_) => None,
    }
}

/// The SHA-256 digest of a byte sequence: a function of the input alone.
pub uninterp spec fn sha256_of(data: Seq<u8>) -> Seq<u8>;

/// Relies on sha2::Sha256: a 32-byte digest determined by the input.
#[verifier::external_body]
pub fn sha256(data: &Vec<u8>) -> (r: Vec<u8>)
    ensures
        r@ == sha256_of(data@),
        r@.len() == 32,
{
    <sha2::Sha256 as sha2::Digest>::digest(data.as_slice()).to_vec()
}

/// Relies on String::from_utf8: valid UTF-8 decodes to the corresponding
/// characters, and invalid input is rejected.
#[verifier::external_body]
pub fn string_from_utf8(v: Vec<u8>) -> (r: Option<String>)
    ensures
        vstd::utf8::valid_utf8(v@) ==> r is Some && r->0@ == vstd::utf8::decode_utf8(v@),
        !vstd::utf8::valid_utf8(v@) ==> r is None,
{
    match String::from_utf8(v) {
        Ok(s) => Some(s),
        Err(_) => None,
    }
}

} // verus!
