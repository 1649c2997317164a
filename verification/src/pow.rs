//! Proof of work: search for and verify a scalar whose digest, together with
//! the previous proof, begins with four zero characters.

use vstd::prelude::*;
use crate::digest::{sha256_hex, sha256_hex_of};
use crate::digits::{dec_str, dec_u64};
use crate::ledger::Blockchain;

verus! {

/// The digest a candidate proof is judged by: the SHA-256 digest, in
/// lowercase hexadecimal, of the decimal string of the previous proof
/// followed immediately by the decimal string of the candidate.
pub open spec fn pow_digest(last_proof: u64, proof: u64) -> Seq<char> {
    sha256_hex_of(dec_str(last_proof as nat) + dec_str(proof as nat))
}

/// The fixed difficulty-4 policy: a candidate proof wins exactly when its
/// digest begins with four '0' characters.
pub open spec fn pow_valid(last_proof: u64, proof: u64) -> bool {
    let d = pow_digest(last_proof, proof);
    d.len() >= 4 && d[0] == '0' && d[1] == '0' && d[2] == '0' && d[3] == '0'
}

impl Blockchain {
    /// Whether `proof` is a winning proof of work over `last_proof`.
    pub fn valid_proof(last_proof: u64, proof: u64) -> (r: bool)
        ensures
            r == pow_valid(last_proof, proof),
    {
        let mut guess = dec_u64(last_proof);
        let mut rest = dec_u64(proof);
        guess.append(&mut rest);
        let digest = sha256_hex(&guess);
        digest[0] == '0' && digest[1] == '0' && digest[2] == '0' && digest[3] == '0'
    }

    /// Tries every scalar in increasing order and returns the smallest
    /// winning proof of work over `last_proof`, or `None` when no scalar of
    /// the word wins (with the fixed difficulty this never happens in
    /// practice).
    pub fn search_proof(last_proof: u64) -> (r: Option<u64>)
        ensures
            match r {
                Some(p) => pow_valid(last_proof, p) && forall|q: u64|
                    q < p ==> !pow_valid(last_proof, q),
                None => forall|q: u64| !pow_valid(last_proof, q),
            },
    {
        let mut proof: u64 = 0;
        loop
            invariant
                forall|q: u64| q < proof ==> !pow_valid(last_proof, q),
            decreases u64::MAX - proof,
        {
            if Blockchain::valid_proof(last_proof, proof) {
                return Some(proof);
            }
            if proof == u64::MAX {
                return None;
            }
            proof = proof + 1;
        }
    }

    /// Finds the smallest scalar that is a winning proof of work over
    /// `last_proof`. The search is unbounded by design and does not return
    /// without a winning proof, so inputs that admit none are excluded.
    pub fn proof_of_work(&self, last_proof: u64) -> (proof: u64)
        requires
            exists|q: u64| pow_valid(last_proof, q),
        ensures
            pow_valid(last_proof, proof),
            forall|q: u64| q < proof ==> !pow_valid(last_proof, q),
    {
        let ghost w = choose|q: u64| pow_valid(last_proof, q);
        let mut proof: u64 = 0;
        loop
            invariant
                proof <= w,
                pow_valid(last_proof, w),
                forall|q: u64| q < proof ==> !pow_valid(last_proof, q),
            decreases w - proof,
        {
            if Blockchain::valid_proof(last_proof, proof) {
                return proof;
            }
            assert(proof < w);
            proof = proof + 1;
        }
    }
}

} // verus!
