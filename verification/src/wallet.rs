//! A wallet: a handful of derived addresses and their balances, computed by
//! replaying the chain's confirmed transactions. The ledger itself is
//! balance-agnostic; balances exist only here.

use vstd::prelude::*;
use crate::ledger::{Block, BlockView, Blockchain, TransactionView, view_blocks};

verus! {

/// What one transaction does to one address's balance: credits the
/// recipient, debits the sender, and leaves every other address alone.
pub open spec fn tx_delta(addr: Seq<char>, t: TransactionView) -> int {
    if t.recipient == addr {
        t.amount as int
    } else if t.sender == addr {
        -(t.amount as int)
    } else {
        0
    }
}

/// The magnitude of a transaction's amount.
pub open spec fn tx_abs(t: TransactionView) -> int {
    if t.amount >= 0 {
        t.amount as int
    } else {
        -(t.amount as int)
    }
}

/// What a transaction list does to one address's balance, in order.
pub open spec fn txs_delta(addr: Seq<char>, ts: Seq<TransactionView>) -> int
    decreases ts.len(),
{
    if ts.len() == 0 {
        0
    } else {
        txs_delta(addr, ts.drop_last()) + tx_delta(addr, ts.last())
    }
}

/// The sum of a transaction list's magnitudes.
pub open spec fn txs_abs(ts: Seq<TransactionView>) -> int
    decreases ts.len(),
{
    if ts.len() == 0 {
        0
    } else {
        txs_abs(ts.drop_last()) + tx_abs(ts.last())
    }
}

/// What the blocks at positions `lo` up to `hi` do to one address's balance.
pub open spec fn blocks_delta(addr: Seq<char>, chain: Seq<BlockView>, lo: int, hi: int) -> int
    decreases hi - lo,
{
    if lo >= hi {
        0
    } else {
        blocks_delta(addr, chain, lo, hi - 1) + txs_delta(addr, chain[hi - 1].transactions)
    }
}

/// The sum of magnitudes over the blocks at positions `lo` up to `hi`.
pub open spec fn blocks_abs(chain: Seq<BlockView>, lo: int, hi: int) -> int
    decreases hi - lo,
{
    if lo >= hi {
        0
    } else {
        blocks_abs(chain, lo, hi - 1) + txs_abs(chain[hi - 1].transactions)
    }
}

/// A transaction list moves a balance by no more than the sum of its
/// magnitudes, in either direction.
pub proof fn lemma_txs_bounds(addr: Seq<char>, ts: Seq<TransactionView>)
    ensures
        txs_abs(ts) >= 0,
        -txs_abs(ts) <= txs_delta(addr, ts) <= txs_abs(ts),
    decreases ts.len(),
{
    if ts.len() > 0 {
        lemma_txs_bounds(addr, ts.drop_last());
    }
}

/// A prefix of a transaction list has no greater sum of magnitudes.
pub proof fn lemma_txs_abs_take(ts: Seq<TransactionView>, k: int)
    requires
        0 <= k <= ts.len(),
    ensures
        txs_abs(ts.take(k)) <= txs_abs(ts),
    decreases ts.len() - k,
{
    if k == ts.len() {
        assert(ts.take(k) =~= ts);
    } else {
        lemma_txs_abs_take(ts, k + 1);
        assert(ts.take(k + 1).drop_last() =~= ts.take(k));
        assert(ts.take(k + 1).last() == ts[k]);
    }
}

/// A block range moves a balance by no more than the sum of its magnitudes.
pub proof fn lemma_blocks_bounds(addr: Seq<char>, chain: Seq<BlockView>, lo: int, hi: int)
    ensures
        blocks_abs(chain, lo, hi) >= 0,
        -blocks_abs(chain, lo, hi) <= blocks_delta(addr, chain, lo, hi) <= blocks_abs(chain, lo, hi),
    decreases hi - lo,
{
    if lo < hi {
        lemma_blocks_bounds(addr, chain, lo, hi - 1);
        lemma_txs_bounds(addr, chain[hi - 1].transactions);
    }
}

/// Magnitude sums over block ranges add up across a split point.
pub proof fn lemma_blocks_abs_split(chain: Seq<BlockView>, lo: int, mid: int, hi: int)
    requires
        lo <= mid <= hi,
    ensures
        blocks_abs(chain, lo, hi) == blocks_abs(chain, lo, mid) + blocks_abs(chain, mid, hi),
    decreases hi - mid,
{
    if mid < hi {
        lemma_blocks_abs_split(chain, lo, mid, hi - 1);
    }
}

/// A wallet: derived addresses, one balance per address, and the chain
/// position up to which the balances have been replayed.
pub struct Wallet {
    pub addresses: Vec<String>,
    pub balances: Vec<i64>,
    pub last_block_checked: usize,
}

impl Wallet {
    /// Builds a wallet of five freshly derived addresses, all balances zero,
    /// nothing replayed yet.
    pub fn new() -> (r: Wallet)
        ensures
            r.addresses@.len() == 5,
            r.balances@.len() == 5,
            forall|n: int| 0 <= n < 5 ==> r.balances@[n] == 0i64,
            r.last_block_checked == 1,
    {
        let mut wallet = Wallet { addresses: Vec::new(), balances: Vec::new(), last_block_checked: 1 };
        let mut k: usize = 0;
        while k < 5
            invariant
                k <= 5,
                wallet.addresses@.len() == k,
                wallet.balances@.len() == k,
                forall|n: int| 0 <= n < k ==> wallet.balances@[n] == 0i64,
                wallet.last_block_checked == 1,
            decreases 5 - k,
        {
            let identifier = Blockchain::new_identifier();
            let bin_addr = Blockchain::generate_address_bin(&identifier);
            wallet.addresses.push(Blockchain::generate_address(&bin_addr));
            wallet.balances.push(0);
            k = k + 1;
        }
        wallet
    }

    /// Replays the blocks between the last position checked and the chain's
    /// last position, moving each address's balance by what those blocks'
    /// transactions do to it; then remembers the new position. A chain no
    /// longer than what was already checked changes nothing. The balance
    /// moves are asked to fit the balance word at every step.
    pub fn calculate_balances(&mut self, chain: &Vec<Block>)
        requires
            chain@.len() >= 1,
            chain@.last()@.index <= chain@.len(),
            old(self).balances@.len() == old(self).addresses@.len(),
            forall|n: int|
                0 <= n < old(self).balances@.len() ==> old(self).balances@[n] + blocks_abs(
                    view_blocks(chain@),
                    old(self).last_block_checked as int,
                    chain@.last()@.index as int,
                ) <= i64::MAX && old(self).balances@[n] - blocks_abs(
                    view_blocks(chain@),
                    old(self).last_block_checked as int,
                    chain@.last()@.index as int,
                ) >= i64::MIN,
        ensures
            final(self).addresses == old(self).addresses,
            final(self).balances@.len() == old(self).balances@.len(),
            chain@.last()@.index as int > old(self).last_block_checked as int ==> {
                &&& final(self).last_block_checked == chain@.last()@.index as usize
                &&& forall|n: int|
                    0 <= n < old(self).balances@.len() ==> final(self).balances@[n]
                        == old(self).balances@[n] + blocks_delta(
                        old(self).addresses@[n]@,
                        view_blocks(chain@),
                        old(self).last_block_checked as int,
                        chain@.last()@.index as int,
                    )
            },
            chain@.last()@.index as int <= old(self).last_block_checked as int ==> *final(self)
                == *old(self),
    {
        let ghost cv = view_blocks(chain@);
        let ghost lo = old(self).last_block_checked as int;
        let ghost hi = chain@.last()@.index as int;
        let last_chain_idx = chain[chain.len() - 1].index as usize;
        if last_chain_idx > self.last_block_checked {
            let mut i: usize = self.last_block_checked;
            while i < last_chain_idx
                invariant
                    lo <= i as int && i as int <= hi,
                    hi <= chain@.len(),
                    cv == view_blocks(chain@),
                    hi == last_chain_idx as int,
                    self.addresses == old(self).addresses,
                    self.last_block_checked == old(self).last_block_checked,
                    self.balances@.len() == old(self).balances@.len(),
                    old(self).balances@.len() == old(self).addresses@.len(),
                    forall|n: int|
                        0 <= n < old(self).balances@.len() ==> old(self).balances@[n] + blocks_abs(
                            cv,
                            lo,
                            hi,
                        ) <= i64::MAX && old(self).balances@[n] - blocks_abs(cv, lo, hi)
                            >= i64::MIN,
                    forall|n: int|
                        0 <= n < self.balances@.len() ==> self.balances@[n] == old(
                            self,
                        ).balances@[n] + blocks_delta(self.addresses@[n]@, cv, lo, i as int),
                decreases last_chain_idx - i,
            {
                let mut n: usize = 0;
                while n < self.addresses.len()
                    invariant
                        lo <= i as int && (i as int) < hi,
                        hi <= chain@.len(),
                        cv == view_blocks(chain@),
                        hi == last_chain_idx as int,
                        n <= self.addresses@.len(),
                        self.addresses == old(self).addresses,
                        self.last_block_checked == old(self).last_block_checked,
                        self.balances@.len() == old(self).balances@.len(),
                        old(self).balances@.len() == old(self).addresses@.len(),
                        forall|m: int|
                            0 <= m < old(self).balances@.len() ==> old(self).balances@[m]
                                + blocks_abs(cv, lo, hi) <= i64::MAX && old(self).balances@[m]
                                - blocks_abs(cv, lo, hi) >= i64::MIN,
                        forall|m: int|
                            0 <= m < n ==> self.balances@[m] == old(self).balances@[m]
                                + blocks_delta(self.addresses@[m]@, cv, lo, i as int + 1),
                        forall|m: int|
                            n <= m < self.balances@.len() ==> self.balances@[m] == old(
                                self,
                            ).balances@[m] + blocks_delta(self.addresses@[m]@, cv, lo, i as int),
                    decreases self.addresses@.len() - n,
                {
                    let ghost addr = self.addresses@[n as int]@;
                    let ghost txs = cv[i as int].transactions;
                    let mut t: usize = 0;
                    while t < chain[i].transactions.len()
                        invariant
                            lo <= i as int && (i as int) < hi,
                            hi <= chain@.len(),
                            cv == view_blocks(chain@),
                            hi == last_chain_idx as int,
                            n < self.addresses@.len(),
                            t <= txs.len(),
                            txs == cv[i as int].transactions,
                            addr == self.addresses@[n as int]@,
                            self.addresses == old(self).addresses,
                            self.last_block_checked == old(self).last_block_checked,
                            self.balances@.len() == old(self).balances@.len(),
                            old(self).balances@.len() == old(self).addresses@.len(),
                            forall|m: int|
                                0 <= m < old(self).balances@.len() ==> old(self).balances@[m]
                                    + blocks_abs(cv, lo, hi) <= i64::MAX && old(self).balances@[m]
                                    - blocks_abs(cv, lo, hi) >= i64::MIN,
                            forall|m: int|
                                0 <= m < n ==> self.balances@[m] == old(self).balances@[m]
                                    + blocks_delta(self.addresses@[m]@, cv, lo, i as int + 1),
                            forall|m: int|
                                n < m < self.balances@.len() ==> self.balances@[m] == old(
                                    self,
                                ).balances@[m] + blocks_delta(self.addresses@[m]@, cv, lo, i as int),
                            self.balances@[n as int] == old(self).balances@[n as int]
                                + blocks_delta(addr, cv, lo, i as int) + txs_delta(
                                addr,
                                txs.take(t as int),
                            ),
                        decreases txs.len() - t,
                    {
                        let ghost base = old(self).balances@[n as int] + blocks_delta(
                            addr,
                            cv,
                            lo,
                            i as int,
                        ) + txs_delta(addr, txs.take(t as int + 1));
                        proof {
                            lemma_blocks_bounds(addr, cv, lo, i as int);
                            lemma_txs_bounds(addr, txs.take(t as int + 1));
                            lemma_txs_abs_take(txs, t as int + 1);
                            lemma_blocks_abs_split(cv, lo, i as int, hi);
                            lemma_blocks_abs_split(cv, i as int, i as int + 1, hi);
                            lemma_blocks_bounds(addr, cv, i as int + 1, hi);
                            assert(blocks_abs(cv, i as int, i as int) == 0);
                            assert(blocks_abs(cv, i as int, i as int + 1) == 0 + txs_abs(
                                cv[i as int].transactions,
                            ));
                            assert(blocks_abs(cv, lo, hi) >= blocks_abs(cv, lo, i as int)
                                + txs_abs(txs));
                            assert(txs.take(t as int + 1).drop_last() =~= txs.take(t as int));
                            assert(txs.take(t as int + 1).last() == txs[t as int]);
                            assert(i64::MIN <= base <= i64::MAX);
                        }
                        let tx = &chain[i].transactions[t];
                        assert(tx@ == txs[t as int]);
                        if tx.recipient == self.addresses[n] {
                            assert(tx_delta(addr, txs[t as int]) == tx.amount as int);
                            let cur = self.balances[n];
                            assert(cur + tx.amount == base);
                            self.balances[n] = cur + tx.amount;
                        } else if tx.sender == self.addresses[n] {
                            assert(tx_delta(addr, txs[t as int]) == -(tx.amount as int));
                            let cur = self.balances[n];
                            assert(cur - tx.amount == base);
                            self.balances[n] = cur - tx.amount;
                        } else {
                            assert(tx_delta(addr, txs[t as int]) == 0);
                        }
                        t = t + 1;
                    }
                    proof {
                        assert(txs.take(txs.len() as int) =~= txs);
                    }
                    n = n + 1;
                }
                i = i + 1;
            }
            self.last_block_checked = last_chain_idx;
        }
    }
}

} // verus!
