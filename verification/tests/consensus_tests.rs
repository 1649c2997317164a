use blockchain::ledger::{Block, Blockchain};

fn chain_of_length(n: usize) -> Vec<Block> {
    let mut ledger = Blockchain::new();
    while ledger.chain.len() < n {
        let _ = ledger.mine_block(String::from("peer-miner"));
    }
    ledger.chain
}

#[test]
fn consensus_adopts_longest_valid_chain() {
    let mut local = Blockchain::new();
    let _ = local.mine_block(String::from("local-miner"));
    local.new_transaction(String::from("a"), String::from("b"), 1);
    assert_eq!(local.chain.len(), 2);

    let peer_a = chain_of_length(5);
    let mut peer_c = chain_of_length(6);
    peer_c[2].previous_hash = String::from("forged");
    assert!(!Blockchain::valid_chain(&peer_c));

    let replaced = local.resolve_conflicts(vec![Some(peer_a.clone()), None, Some(peer_c)]);
    assert!(replaced);
    assert_eq!(local.chain.len(), 5);
    for i in 0..5 {
        assert_eq!(local.chain[i].previous_hash, peer_a[i].previous_hash);
        assert_eq!(local.chain[i].proof, peer_a[i].proof);
    }
    // The mempool survives resolution untouched.
    assert_eq!(local.current_transactions.len(), 1);
}

#[test]
fn consensus_keeps_local_chain_on_tie() {
    let mut local = Blockchain::new();
    let _ = local.mine_block(String::from("m"));
    let _ = local.mine_block(String::from("m"));
    assert_eq!(local.chain.len(), 3);
    let before_proofs: Vec<u64> = local.chain.iter().map(|b| b.proof).collect();

    let tie = chain_of_length(3);
    let shorter = chain_of_length(2);
    let replaced = local.resolve_conflicts(vec![Some(tie), Some(shorter), None]);
    assert!(!replaced);
    assert_eq!(local.chain.len(), 3);
    let after_proofs: Vec<u64> = local.chain.iter().map(|b| b.proof).collect();
    assert_eq!(before_proofs, after_proofs);
}

#[test]
fn invalid_chain_rejected() {
    let mut chain = chain_of_length(3);
    assert!(Blockchain::valid_chain(&chain));
    chain[1].previous_hash = String::from("not the digest of block 1");
    assert!(!Blockchain::valid_chain(&chain));
}

#[test]
fn chain_with_wrong_proof_rejected() {
    let mut chain = chain_of_length(2);
    assert!(Blockchain::valid_chain(&chain));
    // The mined proof is the smallest winning one, so one below it loses.
    assert!(chain[1].proof > 0);
    chain[1].proof = chain[1].proof - 1;
    let relinked = Blockchain::hash(&chain[0]);
    chain[1].previous_hash = relinked;
    assert!(!Blockchain::valid_chain(&chain));
}

#[test]
fn short_chains_are_vacuously_valid() {
    let empty: Vec<Block> = Vec::new();
    assert!(Blockchain::valid_chain(&empty));
    let single = chain_of_length(1);
    assert!(Blockchain::valid_chain(&single));
}
