//! Hash functions used for integrity checks, and their hex rendering.
use vstd::prelude::*;

use crate::text;

verus! {

/// One shift of the reflected CRC-32 register with the IEEE polynomial
/// (0xEDB88320 in reflected form).
pub open spec fn crc_shift(c: u32) -> u32 {
    if c & 1 == 1 {
        (c >> 1) ^ 0xEDB8_8320
    } else {
        c >> 1
    }
}

/// The register after one byte: the byte XOR-ed into the low bits, then
/// eight shifts.
pub open spec fn crc_byte(c: u32, b: u8) -> u32 {
    let x = c ^ (b as u32);
    crc_shift(crc_shift(crc_shift(crc_shift(crc_shift(crc_shift(crc_shift(crc_shift(x))))))))
}

/// The register after `data`, started at all ones.
pub open spec fn crc_register(data: Seq<u8>) -> u32
    decreases data.len(),
{
    if data.len() == 0 {
        0xFFFF_FFFF
    } else {
        crc_byte(crc_register(data.drop_last()), data.last())
    }
}

/// The CRC-32 (IEEE, as in zlib and PNG) of `data`: the final register,
/// inverted.
pub open spec fn crc32_of(data: Seq<u8>) -> u32 {
    crc_register(data) ^ 0xFFFF_FFFF
}

/// The MD5 digest of `data`, as `md5::Md5::digest` computes it.
pub uninterp spec fn md5_of(data: Seq<u8>) -> Seq<u8>;

/// The SHA-1 digest of `data`, as `sha1::Sha1::digest` computes it.
pub uninterp spec fn sha1_of(data: Seq<u8>) -> Seq<u8>;

/// The two running sums of Adler-32 after `data`: `a` starts at 1 and adds
/// each byte, `b` starts at 0 and adds each new `a`, both modulo 65521.
pub open spec fn adler_sums(data: Seq<u8>) -> (int, int)
    decreases data.len(),
{
    if data.len() == 0 {
        (1, 0)
    } else {
        let (a, b) = adler_sums(data.drop_last());
        let a2 = (a + data.last()) % 65521;
        (a2, (b + a2) % 65521)
    }
}

/// The Adler-32 checksum of `data`: `b` in the high 16 bits, `a` in the low.
pub open spec fn adler32_of(data: Seq<u8>) -> u32 {
    let (a, b) = adler_sums(data);
    (b * 65536 + a) as u32
}

/// The SHA-256 digest of `data`, as `sha2::Sha256::digest` computes it.
pub uninterp spec fn sha256_of(data: Seq<u8>) -> Seq<u8>;

/// CRC-32 of `bytes`: calls `crc32fast::hash`, which computes the IEEE
/// CRC-32 that `crc32_of` states.
#[verifier::external_body]
pub fn crc32(bytes: &[u8]) -> (r: u32)
    ensures
        r == crc32_of(bytes@),
{
    crc32fast::hash(bytes)
}

/// MD5 of `bytes`: calls `md5::Md5::digest` (crate `md-5`) and converts the
/// digest to an array. The contract only names the result.
#[verifier::external_body]
pub fn md5(bytes: &[u8]) -> (r: [u8; 16])
    ensures
        r@ == md5_of(bytes@),
{
    <md5::Md5 as md5::Digest>::digest(bytes).into()
}

/// SHA-1 of `bytes`: calls `sha1::Sha1::digest` and converts the digest to an
/// array. The contract only names the result.
#[verifier::external_body]
pub fn sha1(bytes: &[u8]) -> (r: [u8; 20])
    ensures
        r@ == sha1_of(bytes@),
{
    <sha1::Sha1 as sha1::Digest>::digest(bytes).into()
}

/// Adler-32 of `bytes`: calls `adler::adler32_slice`, which computes the
/// checksum that `adler32_of` states.
#[verifier::external_body]
pub fn adler32(bytes: &[u8]) -> (r: u32)
    ensures
        r == adler32_of(bytes@),
{
    adler::adler32_slice(bytes)
}

/// SHA-256 of `bytes`: calls `sha2::Sha256::digest` and converts the digest
/// to an array. The contract only names the result.
#[verifier::external_body]
pub fn sha256(bytes: &[u8]) -> (r: [u8; 32])
    ensures
        r@ == sha256_of(bytes@),
{
    <sha2::Sha256 as sha2::Digest>::digest(bytes).into()
}

/// The SHA-256 of `bytes` as lowercase hex, the library's content address.
pub fn sha256_hex(bytes: &[u8]) -> (r: String)
    ensures
        r@ == text::hex_of(sha256_of(bytes@)),
{
    let d = sha256(bytes);
    hex(&d)
}

/// Lowercase hex rendering of a digest.
pub fn hex(bytes: &[u8]) -> (r: String)
    ensures
        r@ == text::hex_of(bytes@),
{
    let mut s = String::new();
    text::push_hex(&mut s, bytes);
    s
}

} // verus!
