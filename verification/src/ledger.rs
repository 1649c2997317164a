//! The ledger data model and its operations: transactions, blocks, and the
//! chain with its mempool and peer set; block creation, transaction
//! admission, mining, and the chain-validity check.

use vstd::prelude::*;
use vstd::string::StringExecFns;
use crate::hasher::block_hash;
use crate::pow::pow_valid;

verus! {

/// A transfer of an amount between two identifiers. The sentinel sender "0"
/// marks a mining reward (a mint); no balance check ties the amount to any
/// account state.
pub struct Transaction {
    pub sender: String,
    pub recipient: String,
    pub amount: i64,
}

/// The mathematical value of a transaction.
pub struct TransactionView {
    pub sender: Seq<char>,
    pub recipient: Seq<char>,
    pub amount: i64,
}

impl View for Transaction {
    type V = TransactionView;

    open spec fn view(&self) -> TransactionView {
        TransactionView { sender: self.sender@, recipient: self.recipient@, amount: self.amount }
    }
}

impl Clone for Transaction {
    fn clone(&self) -> (r: Self)
        ensures
            r@ == self@,
    {
        Transaction {
            sender: self.sender.clone(),
            recipient: self.recipient.clone(),
            amount: self.amount,
        }
    }
}

/// A block: its 1-based position, creation instant, the transactions it
/// confirmed in inclusion order, the winning proof-of-work scalar, and the
/// digest of the preceding block ("1" for the genesis block).
pub struct Block {
    pub index: u64,
    pub timestamp: u64,
    pub transactions: Vec<Transaction>,
    pub proof: u64,
    pub previous_hash: String,
}

/// The mathematical value of a block.
pub struct BlockView {
    pub index: u64,
    pub timestamp: u64,
    pub transactions: Seq<TransactionView>,
    pub proof: u64,
    pub previous_hash: Seq<char>,
}

/// The values of a sequence of transactions.
pub open spec fn view_txs(s: Seq<Transaction>) -> Seq<TransactionView> {
    Seq::new(s.len(), |i: int| s[i]@)
}

impl View for Block {
    type V = BlockView;

    open spec fn view(&self) -> BlockView {
        BlockView {
            index: self.index,
            timestamp: self.timestamp,
            transactions: view_txs(self.transactions@),
            proof: self.proof,
            previous_hash: self.previous_hash@,
        }
    }
}

impl Clone for Block {
    fn clone(&self) -> (r: Self)
        ensures
            r@ == self@,
    {
        let mut transactions: Vec<Transaction> = Vec::new();
        let mut i: usize = 0;
        while i < self.transactions.len()
            invariant
                i <= self.transactions@.len(),
                transactions@.len() == i,
                forall|j: int| 0 <= j < i ==> transactions@[j]@ == self.transactions@[j]@,
            decreases self.transactions@.len() - i,
        {
            transactions.push(self.transactions[i].clone());
            i = i + 1;
        }
        let r = Block {
            index: self.index,
            timestamp: self.timestamp,
            transactions,
            proof: self.proof,
            previous_hash: self.previous_hash.clone(),
        };
        assert(r@.transactions =~= self@.transactions);
        r
    }
}

/// The ledger: the hash-linked chain, the mempool of transactions awaiting
/// the next mined block, and the registered peer addresses.
pub struct Blockchain {
    pub chain: Vec<Block>,
    pub current_transactions: Vec<Transaction>,
    pub nodes: Vec<String>,
}

/// The mathematical value of a ledger.
pub struct BlockchainView {
    pub chain: Seq<BlockView>,
    pub current_transactions: Seq<TransactionView>,
    pub nodes: Seq<Seq<char>>,
}

/// The values of a sequence of blocks.
pub open spec fn view_blocks(s: Seq<Block>) -> Seq<BlockView> {
    Seq::new(s.len(), |i: int| s[i]@)
}

/// The values of a sequence of strings.
pub open spec fn view_strings(s: Seq<String>) -> Seq<Seq<char>> {
    Seq::new(s.len(), |i: int| s[i]@)
}

impl View for Blockchain {
    type V = BlockchainView;

    open spec fn view(&self) -> BlockchainView {
        BlockchainView {
            chain: view_blocks(self.chain@),
            current_transactions: view_txs(self.current_transactions@),
            nodes: view_strings(self.nodes@),
        }
    }
}

/// The literal previous-hash value of the genesis block; a deliberate
/// sentinel, not a real digest.
pub open spec fn genesis_prev() -> Seq<char> {
    seq!['1']
}

/// The sentinel sender of a mining reward: a mint, not a transfer.
pub open spec fn mint_sender() -> Seq<char> {
    seq!['0']
}

/// The reward granted to whoever mined a block.
pub open spec fn reward_tx(recipient: Seq<char>) -> TransactionView {
    TransactionView { sender: mint_sender(), recipient, amount: 1 }
}

/// The shape of a freshly synthesized genesis block: position 1, the
/// sentinel previous-hash, the fixed proof, and no transactions.
pub open spec fn genesis_block(b: BlockView) -> bool {
    &&& b.index == 1
    &&& b.previous_hash == genesis_prev()
    &&& b.proof == 100
    &&& b.transactions.len() == 0
}

/// Whether `cur` extends `prev` correctly: its stored previous-block digest
/// is the digest of `prev`, and its proof wins over the proof of `prev`.
pub open spec fn linked(prev: BlockView, cur: BlockView) -> bool {
    &&& cur.previous_hash == block_hash(prev)
    &&& pow_valid(prev.proof, cur.proof)
}

/// The hash-linking invariant: every consecutive pair of blocks is linked.
/// Vacuously true of chains shorter than two blocks.
pub open spec fn links_ok(chain: Seq<BlockView>) -> bool {
    forall|i: int| 1 <= i < chain.len() ==> linked(chain[i - 1], #[trigger] chain[i])
}

/// Whether block positions are dense and 1-based.
pub open spec fn indexed(chain: Seq<BlockView>) -> bool {
    forall|i: int| 0 <= i < chain.len() ==> (#[trigger] chain[i]).index == i + 1
}

/// Whether the registered peers are pairwise distinct.
pub open spec fn nodes_unique(nodes: Seq<Seq<char>>) -> bool {
    forall|i: int, j: int| 0 <= i < j < nodes.len() ==> nodes[i] != nodes[j]
}

/// A well-formed ledger: the chain is never empty and is hash-linked
/// throughout, and the peer set holds no duplicates.
impl Blockchain {
    pub open spec fn wf(&self) -> bool {
        &&& self@.chain.len() >= 1
        &&& links_ok(self@.chain)
        &&& nodes_unique(self@.nodes)
    }
}

/// Appending a block linked to the last block preserves the hash-linking
/// invariant.
pub proof fn lemma_links_ok_push(chain: Seq<BlockView>, b: BlockView)
    requires
        links_ok(chain),
        chain.len() >= 1,
        linked(chain.last(), b),
    ensures
        links_ok(chain.push(b)),
{
    let pushed = chain.push(b);
    assert forall|i: int| 1 <= i < pushed.len() implies linked(pushed[i - 1], #[trigger] pushed[i]) by {
        if i < chain.len() {
            assert(linked(chain[i - 1], chain[i]));
        } else {
            assert(pushed[i] == b);
            assert(pushed[i - 1] == chain.last());
        }
    }
}

/// The link invariant, spelled out: in a well-formed ledger — as built by
/// `new` and preserved by every operation — each block after the first
/// carries the digest of its predecessor and a proof that wins over the
/// predecessor's proof.
pub proof fn lemma_link_invariant(ledger: Blockchain)
    requires
        ledger.wf(),
    ensures
        forall|i: int|
            1 <= i < ledger@.chain.len() ==> (#[trigger] ledger@.chain[i]).previous_hash
                == block_hash(ledger@.chain[i - 1]) && pow_valid(
                ledger@.chain[i - 1].proof,
                ledger@.chain[i].proof,
            ),
{
    assert forall|i: int|
        1 <= i < ledger@.chain.len() implies (#[trigger] ledger@.chain[i]).previous_hash
        == block_hash(ledger@.chain[i - 1]) && pow_valid(
        ledger@.chain[i - 1].proof,
        ledger@.chain[i].proof,
    ) by {
        assert(linked(ledger@.chain[i - 1], ledger@.chain[i]));
    }
}

/// Relies on `time::precise_time_ns`: an instant of the process clock in
/// nanoseconds. Nothing is promised of the value.
#[verifier::external_body]
fn now_ns() -> u64 {
    time::precise_time_ns()
}

impl Blockchain {
    /// Relies on `uuid::Uuid::new_v4` and its `simple` rendering: a fresh
    /// random identifier of 32 characters. Nothing else is promised of a
    /// random value.
    #[verifier::external_body]
    pub fn new_identifier() -> (r: String)
        ensures
            r@.len() == 32,
    {
        uuid::Uuid::new_v4().simple().to_string()
    }

    /// Builds a ledger holding only the genesis block: position 1, the
    /// sentinel previous-hash "1", the fixed proof 100, and no transactions.
    pub fn new() -> (r: Blockchain)
        ensures
            r@.chain.len() == 1,
            r@.chain[0].index == 1,
            r@.chain[0].previous_hash == genesis_prev(),
            r@.chain[0].proof == 100,
            r@.chain[0].transactions == Seq::<TransactionView>::empty(),
            r@.current_transactions == Seq::<TransactionView>::empty(),
            r@.nodes == Seq::<Seq<char>>::empty(),
            r.wf(),
            indexed(r@.chain),
    {
        let mut blockchain = Blockchain {
            chain: Vec::new(),
            current_transactions: Vec::new(),
            nodes: Vec::new(),
        };
        let prev = String::from_str("1");
        proof {
            reveal_strlit("1");
            assert(prev@ =~= genesis_prev());
        }
        blockchain.new_block(100, Some(prev));
        assert(blockchain@.chain =~= seq![blockchain@.chain[0]]);
        blockchain
    }

    /// Creates a block from the mempool and appends it, clearing the mempool
    /// in the same step: position one past the current length, the given
    /// proof, and the given previous-block digest (when none is given, the
    /// digest of the chain's last block, computed before the append).
    pub fn new_block(&mut self, proof: u64, previous_hash: Option<String>) -> (r: Block)
        requires
            old(self).chain@.len() < u64::MAX,
            previous_hash is None ==> old(self).chain@.len() >= 1,
        ensures
            r@.index == old(self)@.chain.len() + 1,
            r@.transactions == old(self)@.current_transactions,
            r@.proof == proof,
            r@.previous_hash == (match previous_hash {
                Some(h) => h@,
                None => block_hash(old(self)@.chain.last()),
            }),
            final(self)@.chain == old(self)@.chain.push(r@),
            final(self)@.current_transactions == Seq::<TransactionView>::empty(),
            final(self)@.nodes == old(self)@.nodes,
    {
        let prev: String = match previous_hash {
            Some(h) => h,
            None => {
                let last = &self.chain[self.chain.len() - 1];
                Blockchain::hash(last)
            },
        };
        let mut transactions: Vec<Transaction> = Vec::new();
        core::mem::swap(&mut transactions, &mut self.current_transactions);
        let index = self.chain.len() as u64 + 1;
        let block = Block {
            index,
            timestamp: now_ns(),
            transactions,
            proof,
            previous_hash: prev,
        };
        let r = block.clone();
        self.chain.push(block);
        proof {
            assert(final(self)@.chain =~= old(self)@.chain.push(r@));
            assert(final(self)@.current_transactions =~= Seq::<TransactionView>::empty());
            assert(final(self)@.nodes =~= old(self)@.nodes);
            assert(r@.transactions =~= old(self)@.current_transactions);
        }
        r
    }

    /// Admits a transaction into the mempool and returns the position the
    /// next mined block will take, the position this transaction is expected
    /// to land in.
    pub fn new_transaction(&mut self, sender: String, recipient: String, amount: i64) -> (r: u64)
        requires
            old(self).chain@.len() >= 1,
            old(self)@.chain.last().index < u64::MAX,
        ensures
            final(self)@.current_transactions == old(self)@.current_transactions.push(
                TransactionView { sender: sender@, recipient: recipient@, amount },
            ),
            final(self)@.chain == old(self)@.chain,
            final(self)@.nodes == old(self)@.nodes,
            r == old(self)@.chain.last().index + 1,
            old(self).wf() ==> final(self).wf(),
    {
        let ghost expected = TransactionView { sender: sender@, recipient: recipient@, amount };
        self.current_transactions.push(Transaction { sender, recipient, amount });
        proof {
            assert(final(self)@.current_transactions =~= old(self)@.current_transactions.push(
                expected,
            ));
            assert(final(self)@.chain =~= old(self)@.chain);
            assert(final(self)@.nodes =~= old(self)@.nodes);
        }
        let last_index = self.chain[self.chain.len() - 1].index;
        last_index + 1
    }

    /// Mines a block: finds the smallest winning proof over the last block's
    /// proof, grants the miner the reward, and appends a block holding the
    /// pending transactions plus the reward, linked to the last block by its
    /// digest computed once, before the append. The mempool is cleared in the
    /// same step. Returns the mined block, or `None` in the practically
    /// unreachable case that no scalar wins over the last proof.
    pub fn mine_block(&mut self, identifier: String) -> (r: Option<Block>)
        requires
            old(self).chain@.len() >= 1,
            old(self).chain@.len() < u64::MAX,
            old(self)@.chain.last().index < u64::MAX,
        ensures
            match r {
                Some(b) => {
                    &&& final(self)@.chain == old(self)@.chain.push(b@)
                    &&& b@.index == old(self)@.chain.len() + 1
                    &&& linked(old(self)@.chain.last(), b@)
                    &&& forall|q: u64|
                        q < b@.proof ==> !pow_valid(old(self)@.chain.last().proof, q)
                    &&& b@.transactions == old(self)@.current_transactions.push(
                        reward_tx(identifier@),
                    )
                    &&& final(self)@.current_transactions == Seq::<TransactionView>::empty()
                    &&& final(self)@.nodes == old(self)@.nodes
                    &&& links_ok(old(self)@.chain) ==> links_ok(final(self)@.chain)
                    &&& indexed(old(self)@.chain) ==> indexed(final(self)@.chain)
                },
                None => {
                    &&& final(self)@ == old(self)@
                    &&& forall|q: u64| !pow_valid(old(self)@.chain.last().proof, q)
                },
            },
            old(self).wf() ==> final(self).wf(),
    {
        let last = self.chain[self.chain.len() - 1].clone();
        let last_proof = last.proof;
        match Blockchain::search_proof(last_proof) {
            None => {
                assert(final(self)@.chain =~= old(self)@.chain);
                assert(final(self)@.current_transactions =~= old(self)@.current_transactions);
                assert(final(self)@.nodes =~= old(self)@.nodes);
                None
            },
            Some(found) => {
                // The scan witnesses that a winning proof exists, which the
                // unbounded search asks for before it runs.
                assert(pow_valid(last_proof, found));
                let proof = self.proof_of_work(last_proof);
                let previous_hash = Blockchain::hash(&last);
                let sentinel = String::from_str("0");
                proof {
                    reveal_strlit("0");
                    assert(sentinel@ =~= mint_sender());
                }
                self.new_transaction(sentinel, identifier, 1);
                let b = self.new_block(proof, Some(previous_hash));
                proof {
                    if links_ok(old(self)@.chain) {
                        lemma_links_ok_push(old(self)@.chain, b@);
                    }
                    if indexed(old(self)@.chain) {
                        let c = final(self)@.chain;
                        assert forall|i: int|
                            0 <= i < c.len() implies (#[trigger] c[i]).index == i + 1 by {
                            if i < old(self)@.chain.len() {
                                assert(c[i] == old(self)@.chain[i]);
                            }
                        }
                    }
                }
                Some(b)
            },
        }
    }

    /// Judges a candidate chain: true exactly when every consecutive pair of
    /// blocks is hash-linked with a winning proof. Chains shorter than two
    /// blocks are vacuously valid. Pure; the ledger is not touched.
    pub fn valid_chain(chain: &Vec<Block>) -> (r: bool)
        ensures
            r == links_ok(view_blocks(chain@)),
    {
        let mut i: usize = 1;
        while i < chain.len()
            invariant
                1 <= i,
                chain@.len() > 0 ==> i <= chain@.len(),
                forall|j: int| 1 <= j < i && j < chain@.len() ==> linked(
                    view_blocks(chain@)[j - 1],
                    #[trigger] view_blocks(chain@)[j],
                ),
            decreases chain@.len() - i,
        {
            let expected = Blockchain::hash(&chain[i - 1]);
            if chain[i].previous_hash != expected {
                assert(view_blocks(chain@)[i as int].previous_hash != block_hash(
                    view_blocks(chain@)[i as int - 1],
                ));
                assert(!links_ok(view_blocks(chain@)));
                return false;
            }
            if !Blockchain::valid_proof(chain[i - 1].proof, chain[i].proof) {
                assert(!linked(view_blocks(chain@)[i as int - 1], view_blocks(chain@)[i as int]));
                assert(!links_ok(view_blocks(chain@)));
                return false;
            }
            i = i + 1;
        }
        true
    }

    /// Registers a peer address; registering one a second time is a no-op.
    /// Returns whether the address was new.
    pub fn register_node(&mut self, address: String) -> (added: bool)
        ensures
            final(self)@.chain == old(self)@.chain,
            final(self)@.current_transactions == old(self)@.current_transactions,
            added == !old(self)@.nodes.contains(address@),
            added ==> final(self)@.nodes == old(self)@.nodes.push(address@),
            !added ==> final(self)@.nodes == old(self)@.nodes,
            nodes_unique(old(self)@.nodes) ==> nodes_unique(final(self)@.nodes),
    {
        let mut i: usize = 0;
        while i < self.nodes.len()
            invariant
                i <= self.nodes@.len(),
                forall|j: int| 0 <= j < i ==> self@.nodes[j] != address@,
                self == old(self),
            decreases self.nodes@.len() - i,
        {
            if self.nodes[i] == address {
                assert(old(self)@.nodes.contains(address@)) by {
                    assert(old(self)@.nodes[i as int] == address@);
                }
                return false;
            }
            i = i + 1;
        }
        assert(!old(self)@.nodes.contains(address@));
        let ghost addr_view = address@;
        self.nodes.push(address);
        proof {
            assert(final(self)@.nodes =~= old(self)@.nodes.push(addr_view));
            assert(final(self)@.chain =~= old(self)@.chain);
            assert(final(self)@.current_transactions =~= old(self)@.current_transactions);
        }
        true
    }
}

} // verus!
