use blockchain::ledger::Blockchain;
use blockchain::address::address_round_trip;

#[test]
fn address_gen() {
    // Let's pretend we're creating a public key.
    let pubkey = Blockchain::new_identifier();
    println!("Pubkey: {}", pubkey);

    // Generate a 25-byte binary address.
    let binaddr = Blockchain::generate_address_bin(&pubkey);
    println!("Binary address #1: {}", binaddr);

    // Now generate an address for a fictional wallet.
    let address = Blockchain::generate_address(&binaddr);
    println!("Address: {}", address);

    // Return generated address to 25-byte address so we
    // verify the algorithm's integrity
    let binaddr2 = Blockchain::generate_binaddr_from(&address);
    println!("Binary address #2: {}", binaddr2);

    assert_eq!(binaddr, binaddr2);
}

#[test]
fn derived_binary_address_shape() {
    let binaddr = Blockchain::generate_address_bin(&String::from("some identifier"));
    assert_eq!(binaddr.len(), 50);
    assert!(binaddr.starts_with("00"));
    assert!(binaddr
        .chars()
        .all(|c| c.is_ascii_hexdigit() && !c.is_ascii_uppercase()));
    // Deterministic: the same identifier derives the same address.
    let again = Blockchain::generate_address_bin(&String::from("some identifier"));
    assert_eq!(binaddr, again);
    // A different identifier derives a different address.
    let other = Blockchain::generate_address_bin(&String::from("another identifier"));
    assert_ne!(binaddr, other);
}

#[test]
fn encoded_address_is_base58_not_hex() {
    let binaddr = Blockchain::generate_address_bin(&String::from("whoever"));
    let address = Blockchain::generate_address(&binaddr);
    // The version byte is zero, so the base-58 text leads with '1', and the
    // 25 bytes pack well below the 50 hexadecimal characters they came from.
    assert!(address.starts_with('1'));
    assert!(address.len() < 40);
    assert!(!address.contains('0'));
    assert!(!address.contains('O'));
    assert!(!address.contains('I'));
    assert!(!address.contains('l'));
}

#[test]
fn binary_address_round_trip() {
    let binaddr = Blockchain::generate_address_bin(&String::from("round tripper"));
    let back = address_round_trip(&binaddr);
    assert_eq!(back, binaddr);
}

#[test]
fn decoding_rejects_foreign_text() {
    assert!(Blockchain::try_binaddr_from(&String::from("0O0O0O")).is_none());
    assert!(Blockchain::try_binaddr_from(&String::from("not base58!")).is_none());
    let binaddr = Blockchain::generate_address_bin(&String::from("id"));
    let address = Blockchain::generate_address(&binaddr);
    let decoded = Blockchain::try_binaddr_from(&address).expect("an encoded address decodes");
    assert_eq!(decoded, binaddr);
}

#[test]
fn identifiers_are_fresh_and_short() {
    let a = Blockchain::new_identifier();
    let b = Blockchain::new_identifier();
    assert_eq!(a.len(), 32);
    assert_eq!(b.len(), 32);
    assert_ne!(a, b);
}
