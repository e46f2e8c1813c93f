use pow_ledger::Blockchain;
use pow_ledger::ChainFault;
use pow_ledger::FaultKind;

fn sample_ledger() -> Blockchain {
    let mut ledger = Blockchain::with_genesis(1700000000, 1).unwrap();
    ledger.add_block_at(String::from("A"), 1700000001).unwrap();
    ledger.add_block_at(String::from("B"), 1700000002).unwrap();
    ledger.add_block_at(String::from("C"), 1700000003).unwrap();
    ledger.add_block_at(String::from("D"), 1700000004).unwrap();
    ledger
}

#[test]
fn corrupting_a_payload_in_place_is_found() {
    let mut ledger = sample_ledger();
    assert!(ledger.is_valid());
    ledger.chain[2].data = String::from("X");
    assert!(!ledger.is_valid());
    assert_eq!(ledger.verify(), Err(ChainFault { index: 2, kind: FaultKind::DigestMismatch }));
}

#[test]
fn changing_one_byte_of_the_payload_is_found_at_every_position() {
    for position in 1..5 {
        let mut ledger = sample_ledger();
        let mut bytes = ledger.chain[position].data.clone().into_bytes();
        bytes[0] ^= 0x01;
        ledger.chain[position].data = String::from_utf8(bytes).unwrap();
        assert!(!ledger.is_valid());
        assert_eq!(
            ledger.verify(),
            Err(ChainFault { index: position, kind: FaultKind::DigestMismatch })
        );
    }
}

#[test]
fn changing_the_timestamp_is_found() {
    for position in 1..5 {
        let mut ledger = sample_ledger();
        ledger.chain[position].timestamp ^= 0x0100;
        assert!(!ledger.is_valid());
        assert_eq!(
            ledger.verify(),
            Err(ChainFault { index: position, kind: FaultKind::DigestMismatch })
        );
    }
}

#[test]
fn changing_the_nonce_is_found() {
    for position in 1..5 {
        let mut ledger = sample_ledger();
        ledger.chain[position].nonce ^= 0x01;
        assert!(!ledger.is_valid());
        assert_eq!(
            ledger.verify(),
            Err(ChainFault { index: position, kind: FaultKind::DigestMismatch })
        );
    }
}

#[test]
fn changing_the_previous_digest_is_found() {
    for position in 1..5 {
        let mut ledger = sample_ledger();
        let mut bytes = ledger.chain[position].previous_hash.clone().into_bytes();
        bytes[5] ^= 0x01;
        ledger.chain[position].previous_hash = String::from_utf8(bytes).unwrap();
        assert!(!ledger.is_valid());
        assert_eq!(ledger.verify().map_err(|fault| fault.index), Err(position));
    }
}

#[test]
fn changing_the_index_is_found() {
    let mut ledger = sample_ledger();
    ledger.chain[3].index = 30;
    assert_eq!(ledger.verify(), Err(ChainFault { index: 3, kind: FaultKind::DigestMismatch }));
}

#[test]
fn a_forged_digest_is_found() {
    let mut ledger = sample_ledger();
    ledger.chain[2].hash = String::from("0000000000000000000000000000000000000000000000000000000000000000");
    assert_eq!(ledger.verify(), Err(ChainFault { index: 2, kind: FaultKind::DigestMismatch }));
}

#[test]
fn a_rewritten_block_breaks_the_link_after_it() {
    let mut ledger = sample_ledger();
    ledger.chain[2].data = String::from("X");
    ledger.chain[2].hash = ledger.chain[2].calculate_hash();
    assert_eq!(ledger.verify(), Err(ChainFault { index: 3, kind: FaultKind::LinkMismatch }));
}

#[test]
fn a_rewritten_last_block_passes_verification_but_may_lose_its_seal() {
    let mut ledger = sample_ledger();
    ledger.chain[4].data = String::from("X");
    ledger.chain[4].nonce = 0;
    ledger.chain[4].hash = ledger.chain[4].calculate_hash();
    assert!(ledger.is_valid());
    assert_eq!(ledger.is_well_formed(), ledger.chain[4].hash.starts_with("0"));
}

#[test]
fn the_first_of_several_faults_is_reported() {
    let mut ledger = sample_ledger();
    ledger.chain[3].data = String::from("X");
    ledger.chain[1].nonce += 1;
    assert_eq!(ledger.verify(), Err(ChainFault { index: 1, kind: FaultKind::DigestMismatch }));
}

#[test]
fn swapping_two_blocks_is_found_at_the_earlier_position() {
    let mut ledger = sample_ledger();
    ledger.chain.swap(1, 3);
    assert!(!ledger.is_valid());
    assert_eq!(ledger.verify(), Err(ChainFault { index: 1, kind: FaultKind::LinkMismatch }));
}

#[test]
fn swapping_neighbours_is_found_at_the_earlier_position() {
    let mut ledger = sample_ledger();
    ledger.chain.swap(2, 3);
    assert_eq!(ledger.verify(), Err(ChainFault { index: 2, kind: FaultKind::LinkMismatch }));
}

#[test]
fn removing_a_block_breaks_the_link_at_its_position() {
    let mut ledger = sample_ledger();
    ledger.chain.remove(2);
    assert_eq!(ledger.verify(), Err(ChainFault { index: 2, kind: FaultKind::LinkMismatch }));
    assert!(!ledger.is_well_formed());
}

#[test]
fn the_genesis_block_is_not_verified() {
    let mut ledger = sample_ledger();
    ledger.chain[0].data = String::from("Another beginning");
    assert!(ledger.is_valid());
    assert_eq!(ledger.verify(), Ok(()));
    assert!(!ledger.is_well_formed());
}

#[test]
fn well_formedness_checks_the_genesis_sentinel_and_the_indices() {
    let mut ledger = sample_ledger();
    ledger.chain[0].previous_hash = String::from("1");
    assert!(!ledger.is_well_formed());

    let mut ledger = sample_ledger();
    ledger.difficulty = 5;
    assert!(ledger.is_valid());
    assert!(!ledger.is_well_formed());
}

#[test]
fn appending_to_a_tampered_ledger_does_not_repair_it() {
    let mut ledger = sample_ledger();
    ledger.chain[2].data = String::from("X");
    ledger.add_block_at(String::from("E"), 1700000005).unwrap();
    assert_eq!(ledger.get_chain_length(), 6);
    assert_eq!(ledger.verify(), Err(ChainFault { index: 2, kind: FaultKind::DigestMismatch }));
}
