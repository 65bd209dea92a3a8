//! Checksums, digests and encodings computed by outside crates, each behind one
//! trusted wrapper whose contract says what the result is.

use base64::Engine as _;
use sha2::Digest as _;
use std::io::Read as _;
use vstd::prelude::*;

verus! {

/// One bit step of the reflected CRC-32 (IEEE 802.3, polynomial 0xEDB88320) register.
pub open spec fn crc_step(c: u32) -> u32 {
    if c & 1 == 1 {
        (c >> 1) ^ 0xEDB8_8320u32
    } else {
        c >> 1
    }
}

/// Folds one byte into the CRC-32 register (eight bit steps).
pub open spec fn crc_byte(c: u32, b: u8) -> u32 {
    let x = c ^ (b as u32);
    crc_step(crc_step(crc_step(crc_step(crc_step(crc_step(crc_step(crc_step(x))))))))
}

/// CRC-32 register after folding all bytes, starting from all ones.
pub open spec fn crc_register(data: Seq<u8>) -> u32
    decreases data.len(),
{
    if data.len() == 0 {
        0xFFFF_FFFFu32
    } else {
        crc_byte(crc_register(data.drop_last()), data.last())
    }
}

/// The CRC-32 (IEEE) checksum of a byte sequence, as PNG chunk CRCs use it.
pub open spec fn crc32_ieee(data: Seq<u8>) -> u32 {
    crc_register(data) ^ 0xFFFF_FFFFu32
}

/// `crc32fast::hash`: the CRC-32 (IEEE) checksum of the bytes, which is the
/// checksum the crate documents computing.
#[verifier::external_body]
pub(crate) fn crc32(data: &[u8]) -> (r: u32)
    ensures
        r == crc32_ieee(data@),
{
    crc32fast::hash(data)
}

/// SHA-1 digest of a byte sequence, as the `sha1` crate computes it.
pub uninterp spec fn sha1_of(data: Seq<u8>) -> Seq<u8>;

/// `sha1::Sha1::digest`: the 20-byte SHA-1 digest of the bytes.
#[verifier::external_body]
pub(crate) fn sha1_digest(data: &[u8]) -> (r: [u8; 20])
    ensures
        r@ == sha1_of(data@),
{
    sha1::Sha1::digest(data).into()
}

/// SHA-256 digest of a byte sequence, as the `sha2` crate computes it.
pub uninterp spec fn sha256_of(data: Seq<u8>) -> Seq<u8>;

/// `sha2::Sha256::digest`: the 32-byte SHA-256 digest of the bytes.
#[verifier::external_body]
pub(crate) fn sha256_digest(data: &[u8]) -> (r: [u8; 32])
    ensures
        r@ == sha256_of(data@),
{
    sha2::Sha256::digest(data).into()
}

/// Standard (padded) base64 text of a byte sequence, as the `base64` crate's
/// `STANDARD` engine encodes it.
pub uninterp spec fn base64_text(data: Seq<u8>) -> Seq<char>;

/// `base64::engine::general_purpose::STANDARD.encode`.
#[verifier::external_body]
pub(crate) fn base64_encode(data: &[u8]) -> (r: String)
    ensures
        r@ == base64_text(data@),
{
    base64::engine::general_purpose::STANDARD.encode(data)
}

/// Bytes the `base64` crate's `STANDARD` engine decodes from its input, or
/// `None` where it reports a decode error.
pub uninterp spec fn base64_bytes(text: Seq<u8>) -> Option<Seq<u8>>;

/// `base64::engine::general_purpose::STANDARD.decode`.
#[verifier::external_body]
pub(crate) fn base64_decode(text: &[u8]) -> (r: Option<Vec<u8>>)
    ensures
        match r {
            Some(v) => base64_bytes(text@) == Some(v@),
            None => base64_bytes(text@).is_none(),
        },
{
    base64::engine::general_purpose::STANDARD.decode(text).ok()
}

/// The first `limit` bytes that `flate2`'s zlib decoder produces from `data`,
/// or `None` where it reports a read error before producing them.
pub uninterp spec fn zlib_inflate_prefix(data: Seq<u8>, limit: u64) -> Option<Seq<u8>>;

/// `flate2::read::ZlibDecoder` read through `Read::take(limit)` to its end.
#[verifier::external_body]
pub(crate) fn zlib_inflate(data: &[u8], limit: u64) -> (r: Option<Vec<u8>>)
    ensures
        match r {
            Some(v) => zlib_inflate_prefix(data@, limit) == Some(v@) && v@.len() <= limit,
            None => zlib_inflate_prefix(data@, limit).is_none(),
        },
{
    let mut output = Vec::new();
    let mut decoder = flate2::read::ZlibDecoder::new(data).take(limit);
    match decoder.read_to_end(&mut output) {
        Ok(_) => Some(output),
        Err(_) => None,
    }
}

/// `std::str::from_utf8`: decodes the bytes when they are valid UTF-8.
#[verifier::external_body]
pub(crate) fn utf8_decode(bytes: &[u8]) -> (r: Option<String>)
    ensures
        match r {
            Some(s) => vstd::utf8::valid_utf8(bytes@) && s@ == vstd::utf8::decode_utf8(bytes@),
            None => !vstd::utf8::valid_utf8(bytes@),
        },
{
    std::str::from_utf8(bytes).ok().map(String::from)
}

} // verus!
