//! Cryptographic digests rendered as lowercase hexadecimal text.
//!
//! The chain links blocks by a 256-bit digest of each block's canonical
//! encoding, the proof-of-work predicate tests a digest prefix, and the
//! address pipeline composes two digest families. The digests themselves are
//! computed by an outside crate; their results are named here and everything
//! built on top of them is verified against those names.

use vstd::prelude::*;
use crypto::digest::Digest;

verus! {

/// Whether a character is a lowercase hexadecimal digit.
pub open spec fn is_hex_lower_char(c: char) -> bool {
    ('0' <= c && c <= '9') || ('a' <= c && c <= 'f')
}

/// Whether every character of a sequence is a lowercase hexadecimal digit.
pub open spec fn hex_lower(s: Seq<char>) -> bool {
    forall|i: int| 0 <= i < s.len() ==> is_hex_lower_char(#[trigger] s[i])
}

/// The SHA-256 digest of the UTF-8 encoding of a character sequence,
/// rendered as 64 lowercase hexadecimal characters.
pub uninterp spec fn sha256_hex_of(s: Seq<char>) -> Seq<char>;

/// The RIPEMD-160 digest of the UTF-8 encoding of a character sequence,
/// rendered as 40 lowercase hexadecimal characters.
pub uninterp spec fn ripemd160_hex_of(s: Seq<char>) -> Seq<char>;

/// Relies on `crypto::sha2::Sha256` with `Digest::result_str`: the digest is
/// a function of the input bytes alone, 256 bits long, rendered as lowercase
/// hexadecimal.
#[verifier::external_body]
pub fn sha256_hex(input: &Vec<char>) -> (r: Vec<char>)
    ensures
        r@ == sha256_hex_of(input@),
        r@.len() == 64,
        hex_lower(r@),
{
    let s: String = input.iter().collect();
    let mut hasher = crypto::sha2::Sha256::new();
    hasher.input(s.as_bytes());
    hasher.result_str().chars().collect()
}

/// Relies on `crypto::ripemd160::Ripemd160` with `Digest::result_str`: the
/// digest is a function of the input bytes alone, 160 bits long, rendered as
/// lowercase hexadecimal.
#[verifier::external_body]
pub fn ripemd160_hex(input: &Vec<char>) -> (r: Vec<char>)
    ensures
        r@ == ripemd160_hex_of(input@),
        r@.len() == 40,
        hex_lower(r@),
{
    let s: String = input.iter().collect();
    let mut hasher = crypto::ripemd160::Ripemd160::new();
    hasher.input(s.as_bytes());
    hasher.result_str().chars().collect()
}

} // verus!
