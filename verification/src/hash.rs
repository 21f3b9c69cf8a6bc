//! Digest and encoding helpers from outside crates, behind trusted wrappers.

use base64::Engine as _;
use md5::Digest as Md5Digest;
use sha1::Digest as Sha1Digest;
use sha2::Digest as Sha256Digest;
use vstd::prelude::*;

verus! {

/// The MD5 digest of a byte sequence; always 16 bytes.
pub uninterp spec fn md5_of(input: Seq<u8>) -> Seq<u8>;

/// The SHA-1 digest of a byte sequence; always 20 bytes.
pub uninterp spec fn sha1_of(input: Seq<u8>) -> Seq<u8>;

/// The SHA-256 digest of a byte sequence; always 32 bytes.
pub uninterp spec fn sha256_of(input: Seq<u8>) -> Seq<u8>;

/// The standard unpadded base64 text of a byte sequence.
pub uninterp spec fn b64_of(input: Seq<u8>) -> Seq<char>;

/// The lowercase hexadecimal digit for a value below 16.
pub open spec fn hex_digit(n: u8) -> char
    recommends
        n < 16,
{
    if n < 10 {
        (('0' as u8) + n) as char
    } else {
        (('a' as u8) + (n - 10)) as char
    }
}

/// The lowercase hexadecimal text of a byte sequence: two digits per byte,
/// high nibble first.
pub open spec fn hex_of(input: Seq<u8>) -> Seq<char> {
    Seq::new(
        input.len() * 2,
        |i: int|
            if i % 2 == 0 {
                hex_digit(input[i / 2] / 16)
            } else {
                hex_digit(input[i / 2] % 16)
            },
    )
}

/// Compute MD5 hash.
///
/// Relies on the `md-5` crate's `Md5` digest: the result depends on the
/// input bytes alone and is always 16 bytes long.
#[verifier::external_body]
pub fn md5(input: &[u8]) -> (r: Vec<u8>)
    ensures
        r@ == md5_of(input@),
        r@.len() == 16,
{
    let mut hasher = md5::Md5::new();
    hasher.update(input);
    hasher.finalize().to_vec()
}

/// Compute SHA1 hash.
///
/// Relies on the `sha1` crate's `Sha1` digest: the result depends on the
/// input bytes alone and is always 20 bytes long.
#[verifier::external_body]
pub fn sha1(input: &[u8]) -> (r: Vec<u8>)
    ensures
        r@ == sha1_of(input@),
        r@.len() == 20,
{
    let mut hasher = sha1::Sha1::new();
    hasher.update(input);
    hasher.finalize().to_vec()
}

/// Compute SHA256 hash.
///
/// Relies on the `sha2` crate's `Sha256` digest: the result depends on the
/// input bytes alone and is always 32 bytes long.
#[verifier::external_body]
pub fn sha256(input: &[u8]) -> (r: Vec<u8>)
    ensures
        r@ == sha256_of(input@),
        r@.len() == 32,
{
    let mut hasher = sha2::Sha256::new();
    hasher.update(input);
    hasher.finalize().to_vec()
}

/// Convert bytes to hex string.
///
/// Relies on `hex::encode`: two lowercase digits for each byte, high nibble
/// first.
#[verifier::external_body]
pub fn to_hex(input: &[u8]) -> (r: String)
    ensures
        r@ == hex_of(input@),
{
    hex::encode(input)
}

/// Convert bytes to base64 string (raw, no padding).
///
/// Relies on `base64`'s `STANDARD_NO_PAD` engine: the text depends on the
/// input bytes alone, four characters for every three bytes without padding.
#[verifier::external_body]
pub fn to_b64(input: &[u8]) -> (r: String)
    ensures
        r@ == b64_of(input@),
        r@.len() == (4 * input@.len() + 2) / 3,
{
    base64::engine::general_purpose::STANDARD_NO_PAD.encode(input)
}

} // verus!
