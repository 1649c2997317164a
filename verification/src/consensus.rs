//! Conflict resolution: the longest-valid-chain rule.
//!
//! The ledger owner gathers each registered peer's answer to a chain request
//! (fetching is the transport's concern; an unreachable peer contributes no
//! answer and never aborts resolution) and replaces the local chain with the
//! longest fetched chain that is strictly longer than the local one and
//! passes the validity check. Ties never replace the local chain.

use vstd::prelude::*;
use crate::ledger::{Block, BlockView, Blockchain, links_ok, view_blocks, nodes_unique};

verus! {

/// The values of a sequence of peer answers.
pub open spec fn view_responses(s: Seq<Option<Vec<Block>>>) -> Seq<Option<Seq<BlockView>>> {
    Seq::new(
        s.len(),
        |i: int|
            match s[i] {
                Some(c) => Some(view_blocks(c@)),
                None => None,
            },
    )
}

/// The scan underlying conflict resolution: walk the answers in order,
/// adopting a candidate exactly when it is valid and strictly longer than
/// the best length seen so far.
pub open spec fn scan_candidates(
    rs: Seq<Option<Seq<BlockView>>>,
    best_len: int,
    best: Option<Seq<BlockView>>,
) -> Option<Seq<BlockView>>
    decreases rs.len(),
{
    if rs.len() == 0 {
        best
    } else {
        match rs[0] {
            Some(c) => if c.len() > best_len && links_ok(c) {
                scan_candidates(rs.drop_first(), c.len() as int, Some(c))
            } else {
                scan_candidates(rs.drop_first(), best_len, best)
            },
            None => scan_candidates(rs.drop_first(), best_len, best),
        }
    }
}

/// The chain resolution adopts, given the answers and the local chain
/// length: among the valid answers strictly longer than the local chain, the
/// first one of the greatest length; nothing when there is none.
pub open spec fn best_chain(rs: Seq<Option<Seq<BlockView>>>, local_len: int) -> Option<
    Seq<BlockView>,
> {
    scan_candidates(rs, local_len, None)
}

/// What the scan guarantees: an adopted chain is valid, strictly longer than
/// every starting bound, at least as long as every valid answer, and is one
/// of the answers; nothing is adopted exactly when no answer beats the bound.
pub proof fn lemma_scan_props(rs: Seq<Option<Seq<BlockView>>>, best_len: int, best: Option<Seq<BlockView>>)
    requires
        best matches Some(b) ==> b.len() == best_len && links_ok(b),
    ensures
        match scan_candidates(rs, best_len, best) {
            Some(c) => {
                &&& links_ok(c)
                &&& c.len() >= best_len
                &&& (best == Some(c) || (c.len() > best_len && exists|i: int|
                    0 <= i < rs.len() && rs[i] == Some(c)))
                &&& forall|i: int, d: Seq<BlockView>|
                    0 <= i < rs.len() && rs[i] == Some(d) && links_ok(d) && d.len() > best_len
                        ==> d.len() <= c.len()
            },
            None => {
                &&& best is None
                &&& forall|i: int, d: Seq<BlockView>|
                    0 <= i < rs.len() && rs[i] == Some(d) && links_ok(d) ==> d.len() <= best_len
            },
        },
    decreases rs.len(),
{
    if rs.len() == 0 {
    } else {
        let rest = rs.drop_first();
        match rs[0] {
            Some(c) => {
                if c.len() > best_len && links_ok(c) {
                    lemma_scan_props(rest, c.len() as int, Some(c));
                } else {
                    lemma_scan_props(rest, best_len, best);
                }
            },
            None => {
                lemma_scan_props(rest, best_len, best);
            },
        }
        assert forall|i: int| 0 <= i < rs.len() && i >= 1 implies rs[i] == rest[i - 1] by {}
    }
}

impl Blockchain {
    /// Resolves conflicts against the peers' answers, one entry per asked
    /// peer, in the order the peers were asked; an unreachable peer's entry
    /// is `None`. Replaces the local chain by the best answer under the
    /// longest-valid-chain rule and reports whether it did. The mempool and
    /// the peer set are never touched.
    pub fn resolve_conflicts(&mut self, responses: Vec<Option<Vec<Block>>>) -> (replaced: bool)
        ensures
            final(self)@.current_transactions == old(self)@.current_transactions,
            final(self)@.nodes == old(self)@.nodes,
            ({
                let best = best_chain(view_responses(responses@), old(self)@.chain.len() as int);
                match best {
                    Some(c) => replaced && final(self)@.chain == c,
                    None => !replaced && final(self)@.chain == old(self)@.chain,
                }
            }),
            old(self).wf() ==> final(self).wf(),
    {
        let ghost all = view_responses(responses@);
        let ghost local_len = old(self)@.chain.len() as int;
        let mut remaining = responses;
        let mut best: Option<Vec<Block>> = None;
        let mut best_len: usize = self.chain.len();

        while remaining.len() > 0
            invariant
                self == old(self),
                best_len >= old(self)@.chain.len(),
                (match best {
                    Some(b) => view_blocks(b@).len() == best_len && links_ok(view_blocks(b@)),
                    None => best_len == old(self)@.chain.len(),
                }),
                best_chain(all, local_len) == scan_candidates(
                    view_responses(remaining@),
                    best_len as int,
                    (match best {
                        Some(b) => Some(view_blocks(b@)),
                        None => None::<Seq<BlockView>>,
                    }),
                ),
            decreases remaining@.len(),
        {
            let ghost before = view_responses(remaining@);
            let cur = remaining.remove(0);
            proof {
                assert(view_responses(remaining@) =~= before.drop_first());
            }
            match cur {
                Some(chain) => {
                    if chain.len() > best_len && Blockchain::valid_chain(&chain) {
                        best_len = chain.len();
                        best = Some(chain);
                    }
                },
                None => {},
            }
        }
        proof {
            assert(view_responses(remaining@) =~= Seq::<Option<Seq<BlockView>>>::empty());
        }
        match best {
            Some(c) => {
                self.chain = c;
                assert(final(self)@.current_transactions =~= old(self)@.current_transactions);
                assert(final(self)@.nodes =~= old(self)@.nodes);
                true
            },
            None => false,
        }
    }
}


/// The longest-valid-chain rule, spelled out: an adopted chain is valid,
/// strictly longer than the local chain, at least as long as every valid
/// answer, and is itself one of the answers; nothing is adopted exactly when
/// no valid answer is strictly longer than the local chain, so a tie never
/// replaces the local chain.
pub proof fn lemma_longest_valid_chain(rs: Seq<Option<Seq<BlockView>>>, local_len: int)
    ensures
        match best_chain(rs, local_len) {
            Some(c) => {
                &&& links_ok(c)
                &&& c.len() > local_len
                &&& exists|i: int| 0 <= i < rs.len() && rs[i] == Some(c)
                &&& forall|i: int, d: Seq<BlockView>|
                    0 <= i < rs.len() && rs[i] == Some(d) && links_ok(d) && d.len() > local_len
                        ==> d.len() <= c.len()
            },
            None => forall|i: int, d: Seq<BlockView>|
                0 <= i < rs.len() && rs[i] == Some(d) && links_ok(d) ==> d.len() <= local_len,
        },
{
    lemma_scan_props(rs, local_len, None);
}

} // verus!
