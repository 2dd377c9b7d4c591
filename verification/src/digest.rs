//! Content fingerprints: the first eight hex digits of a SHA-256 digest. A
//! fingerprint is a naming hint; nothing relies on it to tell contents apart.

use crate::text::{chars_of, slice_chars, string_of};
use sha2::{Digest, Sha256};
use vstd::prelude::*;
use vstd::utf8::encode_utf8;

verus! {

/// The SHA-256 digest of a byte string.
pub uninterp spec fn sha256(data: Seq<u8>) -> Seq<u8>;

/// `Sha256::digest` of the `sha2` crate: the digest of the data, which for
/// SHA-256 is 32 bytes long.
#[verifier::external_body]
pub(crate) fn sha256_digest(data: &[u8]) -> (r: Vec<u8>)
    ensures
        r@ == sha256(data@),
        r@.len() == 32,
{
    Sha256::digest(data).to_vec()
}

/// The lower-case hex digit for `n`, `0 <= n <= 15`.
pub open spec fn hex_digit(n: int) -> char {
    if n == 0 {
        '0'
    } else if n == 1 {
        '1'
    } else if n == 2 {
        '2'
    } else if n == 3 {
        '3'
    } else if n == 4 {
        '4'
    } else if n == 5 {
        '5'
    } else if n == 6 {
        '6'
    } else if n == 7 {
        '7'
    } else if n == 8 {
        '8'
    } else if n == 9 {
        '9'
    } else if n == 10 {
        'a'
    } else if n == 11 {
        'b'
    } else if n == 12 {
        'c'
    } else if n == 13 {
        'd'
    } else if n == 14 {
        'e'
    } else {
        'f'
    }
}

/// Two lower-case hex digits for each byte, the high half first.
pub open spec fn hex_text(bytes: Seq<u8>) -> Seq<char> {
    Seq::new(
        2 * bytes.len(),
        |i: int|
            if i % 2 == 0 {
                hex_digit(bytes[i / 2] as int / 16)
            } else {
                hex_digit(bytes[i / 2] as int % 16)
            },
    )
}

/// `hex::encode`: each byte as two lower-case hex digits.
#[verifier::external_body]
pub(crate) fn hex_encode(bytes: &Vec<u8>) -> (r: String)
    ensures
        r@ == hex_text(bytes@),
{
    hex::encode(bytes)
}

/// The fingerprint of a content: the first eight hex digits of its digest.
pub open spec fn fingerprint(data: Seq<u8>) -> Seq<char> {
    hex_text(sha256(data)).take(8)
}

/// The fingerprint of the given bytes.
pub fn hash_short_of_bytes(data: &[u8]) -> (r: String)
    ensures
        r@ == fingerprint(data@),
        r@.len() == 8,
{
    let digest = sha256_digest(data);
    let hex = chars_of(hex_encode(&digest).as_str());
    let short = slice_chars(&hex, 0, 8);
    assert(hex@.take(8) =~= hex@.subrange(0, 8));
    string_of(&short)
}

/// The fingerprint of a text: that of its UTF-8 bytes.
pub open spec fn text_fingerprint(text: Seq<char>) -> Seq<char> {
    fingerprint(encode_utf8(text))
}

/// The fingerprint of a text, taken over its UTF-8 bytes.
pub fn hash_short_from_seed(seed: &str) -> (r: String)
    ensures
        r@ == text_fingerprint(seed@),
        r@.len() == 8,
{
    hash_short_of_bytes(seed.as_bytes())
}

} // verus!
