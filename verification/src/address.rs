//! The address codec: a deterministic pipeline from an arbitrary identifier
//! string to a short, checksummed, human-shareable address, and back.
//!
//! The binary address is 25 bytes, carried as 50 lowercase hexadecimal
//! characters: one version byte, the RIPEMD-160 digest of the identifier's
//! SHA-256 digest, and a four-byte checksum drawn from a double SHA-256 of
//! the versioned digest. Its text form is the base-58 encoding of the 25
//! bytes.

use vstd::prelude::*;
use rust_base58::{FromBase58, ToBase58};
use crate::digest::{hex_lower, is_hex_lower_char, ripemd160_hex, ripemd160_hex_of, sha256_hex, sha256_hex_of};
use crate::hex::{bytes_hex, bytes_to_hex, hex_pairs_to_bytes, hex_to_bytes, lemma_hex_round_trip_rev};
use crate::ledger::Blockchain;
use crate::text::{chars_to_string, push_chars, str_to_chars};

verus! {

/// The binary address derived from an identifier, in hexadecimal: the
/// version byte, then the RIPEMD-160 digest of the identifier's SHA-256
/// digest, then the first four checksum bytes of the double SHA-256 of the
/// versioned digest.
pub open spec fn derive_binaddr(id: Seq<char>) -> Seq<char> {
    let versioned = seq!['0', '0'] + ripemd160_hex_of(sha256_hex_of(id));
    versioned + sha256_hex_of(sha256_hex_of(versioned)).take(8)
}

/// The base-58 text of a byte sequence, as `rust_base58` encodes it.
pub uninterp spec fn base58_of(b: Seq<u8>) -> Seq<char>;

/// Relies on `rust_base58::ToBase58` for byte slices: the encoding is a
/// function of the bytes alone.
#[verifier::external_body]
fn base58_encode(v: &Vec<u8>) -> (r: String)
    ensures
        r@ == base58_of(v@),
{
    v.as_slice().to_base58()
}

/// Relies on `rust_base58::FromBase58` for strings: decoding inverts the
/// encoding, so a string that is some byte sequence's encoding decodes, and
/// to exactly those bytes; a failure carries the offending byte and its
/// position.
#[verifier::external_body]
fn base58_decode(s: &String) -> (r: Result<Vec<u8>, (u8, usize)>)
    ensures
        (exists|b: Seq<u8>| s@ == base58_of(b)) ==> r is Ok,
        r matches Ok(v) ==> forall|b: Seq<u8>| s@ == base58_of(b) ==> v@ == b,
{
    match s.as_str().from_base58() {
        Ok(v) => Ok(v),
        Err(rust_base58::base58::FromBase58Error::InvalidBase58Byte(c, i)) => Err((c, i)),
    }
}

impl Blockchain {
    /// Derives the 25-byte binary address of an identifier, in hexadecimal.
    pub fn generate_address_bin(identifier: &String) -> (r: String)
        ensures
            r@ == derive_binaddr(identifier@),
            r@.len() == 50,
            hex_lower(r@),
    {
        let id_chars = str_to_chars(identifier.as_str());
        let sha = sha256_hex(&id_chars);
        let ripemd = ripemd160_hex(&sha);
        let mut versioned: Vec<char> = Vec::new();
        versioned.push('0');
        versioned.push('0');
        push_chars(&mut versioned, &ripemd);
        assert(versioned@ =~= seq!['0', '0'] + ripemd160_hex_of(sha256_hex_of(identifier@)));
        let second = sha256_hex(&versioned);
        let third = sha256_hex(&second);
        let mut out = versioned;
        let mut k: usize = 0;
        while k < 8
            invariant
                k <= 8,
                third@.len() == 64,
                out@ =~= seq!['0', '0'] + ripemd160_hex_of(sha256_hex_of(identifier@))
                    + third@.take(k as int),
            decreases 8 - k,
        {
            out.push(third[k]);
            assert(out@ =~= seq!['0', '0'] + ripemd160_hex_of(sha256_hex_of(identifier@))
                + third@.take(k as int + 1));
            k = k + 1;
        }
        assert(out@ =~= derive_binaddr(identifier@));
        assert forall|i: int| 0 <= i < out@.len() implies is_hex_lower_char(#[trigger] out@[i]) by {
            if i >= 2 && i < 42 {
                assert(out@[i] == ripemd160_hex_of(sha256_hex_of(identifier@))[i - 2]);
            }
            if i >= 42 {
                assert(out@[i] == third@[i - 42]);
            }
        }
        chars_to_string(&out)
    }

    /// Encodes a hexadecimal binary address as base-58 text.
    pub fn generate_address(bin_addr: &String) -> (r: String)
        requires
            bin_addr@.len() == 50,
            hex_lower(bin_addr@),
        ensures
            r@ == base58_of(hex_pairs_to_bytes(bin_addr@)),
    {
        let chars = str_to_chars(bin_addr.as_str());
        let bytes = hex_to_bytes(&chars);
        base58_encode(&bytes)
    }

    /// Decodes a base-58 address back to its hexadecimal binary form. Asks
    /// for text that is an encoding; `try_binaddr_from` checks that first.
    pub fn generate_binaddr_from(address: &String) -> (r: String)
        requires
            exists|b: Seq<u8>| address@ == base58_of(b),
        ensures
            forall|b: Seq<u8>| address@ == base58_of(b) ==> r@ == bytes_hex(b),
    {
        let decoded = match base58_decode(address) {
            Ok(v) => v,
            Err(_) => vstd::pervasive::unreached(),
        };
        let hex = bytes_to_hex(&decoded);
        chars_to_string(&hex)
    }

    /// Decodes a base-58 address back to its hexadecimal binary form, or
    /// `None` when the text is no byte sequence's encoding.
    pub fn try_binaddr_from(address: &String) -> (r: Option<String>)
        ensures
            (exists|b: Seq<u8>| address@ == base58_of(b)) ==> r is Some,
            r matches Some(h) ==> exists|b: Seq<u8>|
                address@ == base58_of(b) && h@ == bytes_hex(b),
    {
        match base58_decode(address) {
            Err(_) => None,
            Ok(v) => {
                let reencoded = base58_encode(&v);
                if reencoded == *address {
                    assert(address@ == base58_of(v@));
                    let h = Blockchain::generate_binaddr_from(address);
                    assert(h@ == bytes_hex(v@));
                    Some(h)
                } else {
                    assert(!(exists|b: Seq<u8>| address@ == base58_of(b))) by {
                        if exists|b: Seq<u8>| address@ == base58_of(b) {
                            let b = choose|b: Seq<u8>| address@ == base58_of(b);
                            assert(v@ == b);
                        }
                    }
                    None
                }
            },
        }
    }
}

/// The address round trip: decoding the base-58 encoding of a binary address
/// yields the binary address back, for every 25-byte hexadecimal input and
/// in particular for every derived address.
pub fn address_round_trip(bin_addr: &String) -> (r: String)
    requires
        bin_addr@.len() == 50,
        hex_lower(bin_addr@),
    ensures
        r@ == bin_addr@,
{
    let encoded = Blockchain::generate_address(bin_addr);
    assert(encoded@ == base58_of(hex_pairs_to_bytes(bin_addr@)));
    let decoded = Blockchain::generate_binaddr_from(&encoded);
    proof {
        lemma_hex_round_trip_rev(bin_addr@);
    }
    decoded
}

} // verus!
