use pow_ledger::block::digest_hex;
use pow_ledger::block::seal;
use pow_ledger::Block;
use pow_ledger::LedgerError;
use pow_ledger::DIFFICULTY;

#[test]
fn default_difficulty_is_two() {
    assert_eq!(DIFFICULTY, 2);
}

#[test]
fn seal_finds_the_known_nonce() {
    let found = seal(1, 1700000000, "payload", "0", 2, None);
    assert_eq!(
        found,
        Ok((String::from("004572434f210e8249e01c4fca717c79957d76490fd9d7190c798000400f5344"), 335))
    );
}

#[test]
fn seal_at_difficulty_three() {
    let found = seal(7, 99, "x", "abc", 3, None);
    assert_eq!(
        found,
        Ok((String::from("0007a4ec4cd0af97993e9397053aad5fa23758d85c3bdb7588075a98d81ac2e5"), 5200))
    );
}

#[test]
fn seal_at_difficulty_zero_takes_nonce_zero() {
    let found = seal(1, 1700000000, "payload", "0", 0, None);
    assert_eq!(
        found,
        Ok((String::from("e9a82f77bed4b708e4dcc2292c0cb7ac610a7602b404ba3dbb27d7a7f1435236"), 0))
    );
}

#[test]
fn seal_returns_the_first_nonce_that_fits() {
    let (hash, nonce) = seal(5, 1700000005, "first", "00", 2, None).unwrap();
    assert!(hash.starts_with("00"));
    assert_eq!(hash, digest_hex(5, 1700000005, "first", "00", nonce));
    for earlier in 0..nonce {
        assert!(!digest_hex(5, 1700000005, "first", "00", earlier).starts_with("00"));
    }
}

#[test]
fn seal_gives_up_after_max_attempts() {
    // The first nonce that seals these fields is 335.
    assert_eq!(seal(1, 1700000000, "payload", "0", 2, Some(0)), Err(LedgerError::SealingExhausted));
    assert_eq!(seal(1, 1700000000, "payload", "0", 2, Some(335)), Err(LedgerError::SealingExhausted));
}

#[test]
fn seal_succeeds_when_max_attempts_reaches_the_nonce() {
    let found = seal(1, 1700000000, "payload", "0", 2, Some(336));
    assert_eq!(found.map(|(_, nonce)| nonce), Ok(335));
}

#[test]
fn seal_with_no_attempts_fails_even_at_difficulty_zero() {
    assert_eq!(seal(1, 2, "a", "b", 0, Some(0)), Err(LedgerError::SealingExhausted));
}

#[test]
fn new_block_keeps_its_fields() {
    let block = Block::new(3, 1700000003, String::from("reading"), String::from("0abc")).unwrap();
    assert_eq!(block.index, 3);
    assert_eq!(block.timestamp, 1700000003);
    assert_eq!(block.data, "reading");
    assert_eq!(block.previous_hash, "0abc");
}

#[test]
fn new_block_is_sealed_at_difficulty_two() {
    let block = Block::new(1, 1700000000, String::from("payload"), String::from("0")).unwrap();
    assert_eq!(block.nonce, 335);
    assert_eq!(block.hash, "004572434f210e8249e01c4fca717c79957d76490fd9d7190c798000400f5344");
    assert!(block.is_sealed(2));
    assert!(block.is_sealed(1));
    assert!(!block.is_sealed(3));
}

#[test]
fn genesis_fields_seal_to_the_known_block() {
    let block =
        Block::new(0, 1700000000, String::from("Genesis Block"), String::from("0")).unwrap();
    assert_eq!(block.nonce, 247);
    assert_eq!(block.hash, "0042a53c6c7853beb8959da656bec0252e22628985f7ce6277f88426fba74070");
}

#[test]
fn with_difficulty_uses_the_given_difficulty() {
    let block =
        Block::with_difficulty(0, 1700000000, String::from("Genesis Block"), String::from("0"), 1)
            .unwrap();
    assert_eq!(block.nonce, 37);
    assert_eq!(block.hash, "0ff079d99c6941e7d2b54bd90b6d6c413003a2218c7cc875d0e5a2055e185169");
    assert!(block.is_sealed(1));
    assert!(!block.is_sealed(2));
}

#[test]
fn is_sealed_rejects_a_changed_field() {
    let mut block = Block::new(1, 1700000000, String::from("payload"), String::from("0")).unwrap();
    block.data = String::from("Payload");
    assert!(!block.is_sealed(2));
    assert!(!block.is_sealed(0));
}

#[test]
fn is_sealed_rejects_a_digest_without_the_zeros() {
    let mut block = Block::new(1, 1700000000, String::from("payload"), String::from("0")).unwrap();
    block.nonce = 0;
    block.hash = block.calculate_hash();
    assert!(block.is_sealed(0));
    assert!(!block.is_sealed(2));
}

#[test]
fn clone_keeps_every_field() {
    let block = Block::new(2, 1700000002, String::from("copy me"), String::from("00aa")).unwrap();
    let copy = block.clone();
    assert_eq!(copy.index, block.index);
    assert_eq!(copy.timestamp, block.timestamp);
    assert_eq!(copy.data, block.data);
    assert_eq!(copy.previous_hash, block.previous_hash);
    assert_eq!(copy.hash, block.hash);
    assert_eq!(copy.nonce, block.nonce);
}

#[test]
fn describe_shows_index_digest_start_and_payload() {
    let block = Block::new(1, 1700000000, String::from("payload"), String::from("0")).unwrap();
    assert!(block.can_describe());
    assert_eq!(block.describe(), "Block #1 [Hash: 004572434f...] - Data: payload");
}

#[test]
fn describe_cuts_a_long_payload_after_fifty_bytes() {
    let fifty = "12345678901234567890123456789012345678901234567890";
    let mut block = Block {
        index: 120,
        timestamp: 0,
        data: String::from(fifty),
        previous_hash: String::new(),
        hash: String::from("0123456789abcdef"),
        nonce: 0,
    };
    assert!(block.can_describe());
    assert_eq!(block.describe(), format!("Block #120 [Hash: 0123456789...] - Data: {}", fifty));
    block.data.push('X');
    assert!(block.can_describe());
    assert_eq!(block.describe(), format!("Block #120 [Hash: 0123456789...] - Data: {}...", fifty));
}

#[test]
fn describe_needs_ten_bytes_of_digest() {
    let block = Block {
        index: 0,
        timestamp: 0,
        data: String::new(),
        previous_hash: String::new(),
        hash: String::from("012345678"),
        nonce: 0,
    };
    assert!(!block.can_describe());
}

#[test]
fn describe_does_not_split_a_character() {
    let mut data = String::from("1234567890123456789012345678901234567890123456789");
    data.push('\u{e9}');
    let mut block = Block {
        index: 0,
        timestamp: 0,
        data,
        previous_hash: String::new(),
        hash: String::from("0123456789"),
        nonce: 0,
    };
    // 51 bytes, and byte 50 lies inside the last character.
    assert!(!block.can_describe());
    block.data = String::from("caf\u{e9}");
    assert!(block.can_describe());
    assert_eq!(block.describe(), "Block #0 [Hash: 0123456789...] - Data: caf\u{e9}");
}
