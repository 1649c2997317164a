use blockchain::ledger::Blockchain;
use blockchain::text::chars_to_string;

fn snapshot(ledger: &Blockchain) -> String {
    chars_to_string(&ledger.serialize())
}

#[test]
fn serialize_deserialize() {
    // Create the blockchain, mine a few blocks, make some
    // transactions, save them by mining one more block
    let mut blockchain = Blockchain::new();
    let node = Blockchain::new_identifier();
    let friend = Blockchain::new_identifier();

    for _ in 0..3 {
        let _ = blockchain.mine_block(node.clone());
    }
    blockchain.new_transaction(node.clone(), friend.clone(), 1);
    blockchain.new_transaction(node.clone(), friend.clone(), 2);
    blockchain.new_transaction(friend.clone(), node.clone(), 1);
    let _ = blockchain.mine_block(node.clone());

    // Serialize to string, then reverse it, then serialize
    // the deserialized
    let serialized = snapshot(&blockchain);
    let deserialized: Blockchain = Blockchain::from_str(&serialized);
    let reserialized = snapshot(&deserialized);

    // Test passes if serialization is equal for both
    assert_eq!(serialized, reserialized);
}

#[test]
fn snapshot_shape_of_fresh_ledger() {
    let ledger = Blockchain::new();
    let text = snapshot(&ledger);
    let expected = format!(
        "{{\"chain\":[{{\"index\":1,\"timestamp\":{},\"transactions\":[],\"proof\":100,\"previous_hash\":\"1\"}}],\"current_transactions\":[],\"nodes\":[]}}",
        ledger.chain[0].timestamp
    );
    assert_eq!(text, expected);
}

#[test]
fn snapshot_round_trip_with_pending_state() {
    let mut ledger = Blockchain::new();
    ledger.new_transaction(String::from("alice"), String::from("bob"), -42);
    ledger.new_transaction(String::from("bob"), String::from("alice"), i64::MAX);
    ledger.new_transaction(String::from("x"), String::from("y"), i64::MIN);
    let _ = ledger.register_node(String::from("http://127.0.0.1:3001"));
    let _ = ledger.register_node(String::from("http://127.0.0.1:3002"));
    let text = snapshot(&ledger);
    let reloaded = Blockchain::from_str(&text);
    assert_eq!(text, snapshot(&reloaded));
    assert_eq!(reloaded.current_transactions.len(), 3);
    assert_eq!(reloaded.current_transactions[0].amount, -42);
    assert_eq!(reloaded.current_transactions[1].amount, i64::MAX);
    assert_eq!(reloaded.current_transactions[2].amount, i64::MIN);
    assert_eq!(reloaded.nodes.len(), 2);
}

#[test]
fn snapshot_round_trip_escapes_strings() {
    let mut ledger = Blockchain::new();
    ledger.new_transaction(
        String::from("quote\" backslash\\ newline\n tab\t backspace\u{8} feed\u{c} return\r"),
        String::from("control\u{1} bell\u{7} delete\u{7f} unicode\u{e9}\u{1f600}"),
        5,
    );
    let text = snapshot(&ledger);
    let reloaded = Blockchain::from_str(&text);
    assert_eq!(text, snapshot(&reloaded));
    assert_eq!(
        reloaded.current_transactions[0].sender,
        "quote\" backslash\\ newline\n tab\t backspace\u{8} feed\u{c} return\r"
    );
    assert_eq!(
        reloaded.current_transactions[0].recipient,
        "control\u{1} bell\u{7} delete\u{7f} unicode\u{e9}\u{1f600}"
    );
}

#[test]
fn reload_preserves_the_ledger() {
    let mut ledger = Blockchain::new();
    ledger.new_transaction(String::from("a"), String::from("b"), 9);
    let _ = ledger.mine_block(String::from("miner"));
    let reloaded = ledger.reload();
    assert_eq!(snapshot(&ledger), snapshot(&reloaded));
}

#[test]
fn malformed_snapshot_yields_fresh_ledger() {
    let garbage = String::from("{\"chain\":[oops");
    let ledger = Blockchain::from_str(&garbage);
    assert_eq!(ledger.chain.len(), 1);
    assert_eq!(ledger.chain[0].index, 1);
    assert_eq!(ledger.chain[0].previous_hash, "1");
    assert!(ledger.current_transactions.is_empty());
    assert!(ledger.nodes.is_empty());

    let trailing = format!("{}x", snapshot(&Blockchain::new()));
    let ledger = Blockchain::from_str(&trailing);
    assert_eq!(ledger.chain.len(), 1);

    // A numeric field too large for its word is rejected as a whole: the
    // registered peer of the damaged snapshot does not survive into the
    // fresh ledger.
    let mut rich = Blockchain::new();
    let _ = rich.register_node(String::from("http://127.0.0.1:3009"));
    let overflowing =
        snapshot(&rich).replace("\"proof\":100", "\"proof\":18446744073709551616");
    let ledger = Blockchain::from_str(&overflowing);
    assert!(ledger.nodes.is_empty());
}

#[test]
fn chain_response_round_trip() {
    let mut ledger = Blockchain::new();
    let _ = ledger.mine_block(String::from("m"));
    let text = chars_to_string(&ledger.serialize_chain());
    let parsed = Blockchain::parse_chain(&text).expect("a serialized chain parses");
    assert_eq!(parsed.len(), 2);
    assert_eq!(parsed[0].index, 1);
    assert_eq!(parsed[1].index, 2);
    assert_eq!(parsed[1].previous_hash, Blockchain::hash(&parsed[0]));
    assert!(Blockchain::parse_chain(&String::from("not a chain")).is_none());
}

#[test]
fn block_digest_is_deterministic_hex() {
    let mut ledger = Blockchain::new();
    let _ = ledger.mine_block(String::from("m"));
    let block = &ledger.chain[1];
    let first = Blockchain::hash(block);
    let second = Blockchain::hash(block);
    assert_eq!(first, second);
    assert_eq!(first.len(), 64);
    assert!(first.chars().all(|c| c.is_ascii_hexdigit() && !c.is_ascii_uppercase()));
    let other = Blockchain::hash(&ledger.chain[0]);
    assert_ne!(first, other);
}

#[test]
fn decimal_rendering_exact_values() {
    assert_eq!(chars_to_string(&blockchain::digits::dec_u64(0)), "0");
    assert_eq!(chars_to_string(&blockchain::digits::dec_u64(12345)), "12345");
    assert_eq!(
        chars_to_string(&blockchain::digits::dec_u64(u64::MAX)),
        "18446744073709551615"
    );
    assert_eq!(chars_to_string(&blockchain::digits::dec_i64(-7)), "-7");
    assert_eq!(
        chars_to_string(&blockchain::digits::dec_i64(i64::MIN)),
        "-9223372036854775808"
    );
}

#[test]
fn hex_rendering_exact_values() {
    let bytes: Vec<u8> = vec![0x00, 0x0f, 0xa5, 0xff];
    let hex = blockchain::hex::bytes_to_hex(&bytes);
    assert_eq!(chars_to_string(&hex), "000fa5ff");
    let back = blockchain::hex::hex_to_bytes(&hex);
    assert_eq!(back, bytes);
}
