use pow_ledger::block::digest_hex;
use pow_ledger::block::hash_input_bytes;
use pow_ledger::hex::starts_with_zeros;
use pow_ledger::hex::to_hex;
use pow_ledger::Block;
use sha2::Digest;
use sha2::Sha256;

fn reference_digest(index: usize, timestamp: u64, data: &str, previous_hash: &str, nonce: u64) -> String {
    let text = format!("{}{}{}{}{}", index, timestamp, data, previous_hash, nonce);
    let mut hasher = Sha256::new();
    hasher.update(text.as_bytes());
    format!("{:x}", hasher.finalize())
}

#[test]
fn hash_input_is_the_fields_in_order() {
    let bytes = hash_input_bytes(1, 1700000000, "A", "0", 42);
    assert_eq!(bytes, b"11700000000A042".to_vec());
}

#[test]
fn hash_input_writes_zero_as_one_digit() {
    let bytes = hash_input_bytes(0, 0, "", "", 0);
    assert_eq!(bytes, b"000".to_vec());
}

#[test]
fn hash_input_writes_the_largest_numbers_in_full() {
    let bytes = hash_input_bytes(10, u64::MAX, "", "", u64::MAX);
    assert_eq!(bytes, b"101844674407370955161518446744073709551615".to_vec());
}

#[test]
fn hash_input_holds_the_payload_in_utf8() {
    let bytes = hash_input_bytes(3, 5, "h\u{e9}llo \u{2713}", "0", 7);
    let mut expected: Vec<u8> = Vec::new();
    expected.extend_from_slice(b"35h");
    expected.extend_from_slice(&[0xc3, 0xa9]);
    expected.extend_from_slice(b"llo ");
    expected.extend_from_slice(&[0xe2, 0x9c, 0x93]);
    expected.extend_from_slice(b"07");
    assert_eq!(bytes, expected);
}

#[test]
fn hash_input_has_no_separators_between_fields() {
    // Index 12 before timestamp 3 reads like index 1 before timestamp 23.
    assert_eq!(hash_input_bytes(12, 3, "p", "q", 4), hash_input_bytes(1, 23, "p", "q", 4));
}

#[test]
fn to_hex_writes_two_lower_case_digits_per_byte() {
    assert_eq!(to_hex(&[0x00, 0x0a, 0xab, 0xff, 0x10, 0x9f]), "000aabff109f");
    assert_eq!(to_hex(&[]), "");
}

#[test]
fn to_hex_covers_every_byte() {
    for b in 0u16..256 {
        let byte = b as u8;
        assert_eq!(to_hex(&[byte]), format!("{:02x}", byte));
    }
}

#[test]
fn starts_with_zeros_counts_leading_zero_digits() {
    assert!(starts_with_zeros("00ab", 0));
    assert!(starts_with_zeros("00ab", 1));
    assert!(starts_with_zeros("00ab", 2));
    assert!(!starts_with_zeros("00ab", 3));
    assert!(!starts_with_zeros("0a0b", 2));
    assert!(!starts_with_zeros("a000", 1));
}

#[test]
fn starts_with_zeros_needs_enough_text() {
    assert!(starts_with_zeros("", 0));
    assert!(!starts_with_zeros("", 1));
    assert!(!starts_with_zeros("0", 2));
    assert!(starts_with_zeros("000", 3));
    assert!(!starts_with_zeros("000", 4));
}

#[test]
fn digest_of_known_fields() {
    assert_eq!(
        digest_hex(1, 1700000000, "A", "0", 42),
        "347940182c762092c288ea0efabea5ba041e6e7079ede209ede0a73e6999037a"
    );
}

#[test]
fn digest_of_a_payload_outside_ascii() {
    assert_eq!(
        digest_hex(3, 5, "h\u{e9}llo \u{2713}", "0", 7),
        "dd70db01e6d1fba297145cd88071bd3dac780ff6fbe6a0ac80454808080a5e56"
    );
}

#[test]
fn digest_is_sixty_four_hex_digits() {
    let hash = digest_hex(9, 8, "seven", "six", 5);
    assert_eq!(hash.len(), 64);
    assert!(hash.chars().all(|c| c.is_ascii_digit() || ('a'..='f').contains(&c)));
}

#[test]
fn digest_matches_sha2_over_the_formatted_fields() {
    let cases: Vec<(usize, u64, &str, &str, u64)> = vec![
        (0, 0, "", "", 0),
        (1, 1700000000, "A", "0", 42),
        (12, 3, "{\"device_id\":\"device_001\",\"temperature\":21.5}", "00ab", 255),
        (7, u64::MAX, "line\nbreak", "0", u64::MAX),
        (3, 5, "h\u{e9}llo \u{2713}", "0", 7),
    ];
    for (index, timestamp, data, previous_hash, nonce) in cases {
        assert_eq!(
            digest_hex(index, timestamp, data, previous_hash, nonce),
            reference_digest(index, timestamp, data, previous_hash, nonce)
        );
    }
}

#[test]
fn digest_depends_on_every_field() {
    let base = digest_hex(1, 2, "c", "d", 5);
    assert_ne!(base, digest_hex(9, 2, "c", "d", 5));
    assert_ne!(base, digest_hex(1, 9, "c", "d", 5));
    assert_ne!(base, digest_hex(1, 2, "x", "d", 5));
    assert_ne!(base, digest_hex(1, 2, "c", "x", 5));
    assert_ne!(base, digest_hex(1, 2, "c", "d", 9));
}

#[test]
fn calculate_hash_reads_the_stored_fields() {
    let block = Block {
        index: 1,
        timestamp: 1700000000,
        data: String::from("A"),
        previous_hash: String::from("0"),
        hash: String::from("whatever is stored"),
        nonce: 42,
    };
    assert_eq!(
        block.calculate_hash(),
        "347940182c762092c288ea0efabea5ba041e6e7079ede209ede0a73e6999037a"
    );
}

#[test]
fn calculate_hash_is_repeatable() {
    let block = Block::new(4, 1700000004, String::from("reading"), String::from("00ff")).unwrap();
    assert_eq!(block.calculate_hash(), block.calculate_hash());
    assert_eq!(block.calculate_hash(), block.hash);
}
