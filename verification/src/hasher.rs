//! The block hasher: a deterministic content digest of a block.

use vstd::prelude::*;
use crate::digest::{sha256_hex, sha256_hex_of};
use crate::json::{block_chars, block_json};
use crate::ledger::{Block, BlockView, Blockchain};
use crate::text::chars_to_string;

verus! {

/// The content digest of a block: the SHA-256 digest, in lowercase
/// hexadecimal, of the block's canonical rendering. A pure function of the
/// block's fields, so structurally equal blocks hash alike.
pub open spec fn block_hash(b: BlockView) -> Seq<char> {
    sha256_hex_of(block_json(b))
}

impl Blockchain {
    /// The digest that links the next block back to `block`.
    pub fn hash(block: &Block) -> (r: String)
        ensures
            r@ == block_hash(block@),
    {
        let rendering = block_chars(block);
        let digest = sha256_hex(&rendering);
        chars_to_string(&digest)
    }
}

} // verus!
