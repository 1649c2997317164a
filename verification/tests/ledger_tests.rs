use blockchain::ledger::Blockchain;
use blockchain::wallet::Wallet;

fn mined(ledger: &mut Blockchain, miner: &str) {
    let block = ledger.mine_block(String::from(miner));
    assert!(block.is_some());
}

#[test]
fn proof_of_work() {
    let blockchain = Blockchain::new();
    println!(
        "First proof of work: {}",
        blockchain.proof_of_work(blockchain.chain.last().unwrap().proof)
    );
}

#[test]
fn genesis_invariant() {
    let ledger = Blockchain::new();
    assert_eq!(ledger.chain.len(), 1);
    assert_eq!(ledger.chain[0].index, 1);
    assert_eq!(ledger.chain[0].previous_hash, "1");
    assert_eq!(ledger.chain[0].proof, 100);
    assert!(ledger.chain[0].transactions.is_empty());
    assert!(ledger.current_transactions.is_empty());
    assert!(ledger.nodes.is_empty());
}

#[test]
fn link_invariant_after_operations() {
    let mut ledger = Blockchain::new();
    ledger.new_transaction(String::from("alice"), String::from("bob"), 4);
    mined(&mut ledger, "miner-one");
    ledger.new_transaction(String::from("bob"), String::from("carol"), 2);
    ledger.new_transaction(String::from("carol"), String::from("alice"), 1);
    mined(&mut ledger, "miner-two");
    assert_eq!(ledger.chain.len(), 3);
    assert!(Blockchain::valid_chain(&ledger.chain));
    for i in 1..ledger.chain.len() {
        assert_eq!(
            ledger.chain[i].previous_hash,
            Blockchain::hash(&ledger.chain[i - 1])
        );
        assert!(Blockchain::valid_proof(
            ledger.chain[i - 1].proof,
            ledger.chain[i].proof
        ));
    }
}

#[test]
fn mempool_cleared_by_mine() {
    let mut ledger = Blockchain::new();
    ledger.new_transaction(String::from("a"), String::from("b"), 1);
    ledger.new_transaction(String::from("b"), String::from("c"), 2);
    assert_eq!(ledger.current_transactions.len(), 2);
    mined(&mut ledger, "miner");
    assert!(ledger.current_transactions.is_empty());
}

#[test]
fn reward_appended_to_mined_block() {
    let mut ledger = Blockchain::new();
    ledger.new_transaction(String::from("a"), String::from("b"), 7);
    mined(&mut ledger, "lucky-miner");
    let block = ledger.chain.last().unwrap();
    assert_eq!(block.transactions.len(), 2);
    assert_eq!(block.transactions[0].sender, "a");
    assert_eq!(block.transactions[0].recipient, "b");
    assert_eq!(block.transactions[0].amount, 7);
    assert_eq!(block.transactions[1].sender, "0");
    assert_eq!(block.transactions[1].recipient, "lucky-miner");
    assert_eq!(block.transactions[1].amount, 1);
}

#[test]
fn pow_search_finds_winning_proof() {
    let found = Blockchain::search_proof(100).expect("a winning proof exists");
    assert!(Blockchain::valid_proof(100, found));
    for q in 0..found.min(200) {
        assert!(!Blockchain::valid_proof(100, q));
    }
    let ledger = Blockchain::new();
    assert_eq!(ledger.proof_of_work(100), found);
    // The digest of the concatenated decimal strings begins with "0000".
    let guess: Vec<char> = format!("100{}", found).chars().collect();
    let digest = blockchain::digest::sha256_hex(&guess);
    assert_eq!(digest.len(), 64);
    assert_eq!(&digest[0..4], &['0', '0', '0', '0']);
}

#[test]
fn expected_block_position_for_submission() {
    let mut ledger = Blockchain::new();
    let position = ledger.new_transaction(String::from("x"), String::from("y"), 3);
    assert_eq!(position, 2);
    mined(&mut ledger, "m");
    let position = ledger.new_transaction(String::from("y"), String::from("z"), 1);
    assert_eq!(position, 3);
}

#[test]
fn peer_registration_is_idempotent() {
    let mut ledger = Blockchain::new();
    assert!(ledger.register_node(String::from("http://127.0.0.1:3001")));
    assert!(ledger.register_node(String::from("http://127.0.0.1:3002")));
    assert!(!ledger.register_node(String::from("http://127.0.0.1:3001")));
    assert_eq!(ledger.nodes.len(), 2);
}

#[test]
fn wallet_gen() {
    // We generate a wallet and test it.
    let mut wallet = Wallet::new();
    println!("Generated wallet");

    // We create a blockchain
    let mut blockchain = Blockchain::new();

    // Mine seven blocks for first address
    for i in 0..7 {
        println!("Mining block #{}, rewarding $1 to address #1", i + 1);
        let _ = blockchain.mine_block(wallet.addresses[0].clone());
    }

    // First address is generous and will give 1 currency to other addresses
    for i in 1..wallet.addresses.len() {
        println!("Address #1 will send 1 currency to address #{}", i + 1);
        blockchain.new_transaction(wallet.addresses[0].clone(), wallet.addresses[i].clone(), 1);
    }

    // First address is specially fond of address #3 and will give it two more
    println!("Address #1 will send 1 currency to address #3");
    blockchain.new_transaction(wallet.addresses[0].clone(), wallet.addresses[2].clone(), 1);

    // Mine a new block to confirm changes
    println!("Mining new block for #1 to confirm previous transactions...");
    let _ = blockchain.mine_block(wallet.addresses[0].clone());

    // Checking balance...
    wallet.calculate_balances(&blockchain.chain);

    // We expect:
    // Address #1 mined eight rewards and sent five away, so it holds $3
    // (each mined block carries its own reward).
    // Address #3 will have $2
    // Everyone else gets $1
    assert_eq!(wallet.balances[0], 3);
    assert_eq!(wallet.balances[1], 1);
    assert_eq!(wallet.balances[2], 2);
    assert_eq!(wallet.balances[3], 1);
    assert_eq!(wallet.balances[4], 1);

    for i in 0..wallet.addresses.len() {
        println!(
            "Address #{}: {}, Balance: ${}",
            i + 1,
            wallet.addresses[i],
            wallet.balances[i]
        );
    }
    println!("Unconfirmed transactions:");
    for transaction in &blockchain.current_transactions {
        println!(
            "Sender: {}, Recipient: {}, Amount: ${}",
            transaction.sender, transaction.recipient, transaction.amount
        );
    }
}

#[test]
fn wallet_has_five_fresh_addresses() {
    let wallet = Wallet::new();
    assert_eq!(wallet.addresses.len(), 5);
    assert_eq!(wallet.balances, vec![0i64; 5]);
    assert_eq!(wallet.last_block_checked, 1);
    for a in 1..wallet.addresses.len() {
        assert_ne!(wallet.addresses[a - 1], wallet.addresses[a]);
    }
}

#[test]
fn balances_ignore_chains_already_checked() {
    let mut wallet = Wallet::new();
    let mut ledger = Blockchain::new();
    mined(&mut ledger, "someone-else");
    wallet.calculate_balances(&ledger.chain);
    assert_eq!(wallet.last_block_checked, 2);
    let before = wallet.balances.clone();
    wallet.calculate_balances(&ledger.chain);
    assert_eq!(wallet.balances, before);
    assert_eq!(wallet.last_block_checked, 2);
}
