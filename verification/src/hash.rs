//! SHA-1 digests and their hexadecimal rendering.

use sha1::{Digest, Sha1};
use vstd::prelude::*;

verus! {

/// Number of bytes in a SHA-1 digest.
pub const DIGEST_LEN: usize = 20;

/// The SHA-1 digest of `data`, as the `sha1` crate computes it.
pub uninterp spec fn sha1_digest(data: Seq<u8>) -> Seq<u8>;

/// The lowercase hexadecimal digit for a value in `0..16`.
pub open spec fn hex_digit(nibble: int) -> char {
    seq!['0', '1', '2', '3', '4', '5', '6', '7', '8', '9', 'a', 'b', 'c', 'd', 'e', 'f'][nibble]
}

/// Two lowercase hexadecimal digits per byte, high nibble first.
pub open spec fn hex_chars(bytes: Seq<u8>) -> Seq<char> {
    Seq::new(
        2 * bytes.len(),
        |i: int|
            if i % 2 == 0 {
                hex_digit(bytes[i / 2] as int / 16)
            } else {
                hex_digit(bytes[i / 2] as int % 16)
            },
    )
}

/// Calls `sha1::Sha1::digest` (from the `Digest` trait). Trusted: the result
/// is the digest that the crate computes for these bytes, and it is 20 bytes
/// long (the crate fixes the output size of SHA-1 at 20).
#[verifier::external_body]
fn sha1_of(bytes: &[u8]) -> (digest: Vec<u8>)
    ensures
        digest@ == sha1_digest(bytes@),
        digest@.len() == DIGEST_LEN,
{
    Sha1::digest(bytes).to_vec()
}

/// Calls `hex::encode`. Trusted: the result holds, for each input byte in
/// order, the lowercase hexadecimal digit of its high nibble followed by
/// that of its low nibble.
#[verifier::external_body]
pub(crate) fn hex_encode(bytes: &[u8]) -> (text: String)
    ensures
        text@ == hex_chars(bytes@),
{
    hex::encode(bytes)
}

/// The SHA-1 digest of `bytes`, 20 raw bytes.
pub fn b_sha1(bytes: &Vec<u8>) -> (digest: Vec<u8>)
    ensures
        digest@ == sha1_digest(bytes@),
        digest@.len() == DIGEST_LEN,
{
    sha1_of(bytes.as_slice())
}

/// The SHA-1 digest of `bytes`, as 40 lowercase hexadecimal digits.
pub fn hex_sha1(bytes: &[u8]) -> (text: String)
    ensures
        text@ == hex_chars(sha1_digest(bytes@)),
        text@.len() == 2 * DIGEST_LEN,
{
    let digest = sha1_of(bytes);
    hex_encode(digest.as_slice())
}

} // verus!
