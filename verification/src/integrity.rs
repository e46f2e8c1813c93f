//! What the ledger guarantees: a ledger grown by appending is valid, and a
//! valid ledger gives away a record that was changed or moved.
//!
//! SHA-256 maps infinitely many inputs to finitely many digests, so two
//! different hash inputs can share a digest. The theorems on tampering hold
//! where the change at hand is not such a collision, and say so.

use crate::chain::appended;
use crate::chain::chain_valid;
use crate::chain::fault_at;
use crate::chain::first_fault;
use crate::chain::genesis_chain;
use crate::chain::genesis_draft;
use crate::chain::lemma_appended;
use crate::chain::lemma_first_fault;
use crate::chain::lemma_first_fault_is;
use crate::chain::lemma_genesis_chain;
use crate::chain::next_draft;
use crate::chain::no_previous_hash;
use crate::chain::well_formed;
use crate::chain::FaultKind;
use crate::decimal::decimal;
use crate::decimal::lemma_decimal_injective;
use crate::hex::has_zero_prefix;
use crate::hex::lemma_lower_hex_injective;
use crate::record::nonce_space;
use crate::record::Record;
use crate::sha256::sha256;
use vstd::prelude::*;
use vstd::utf8::decode_utf8;
use vstd::utf8::encode_utf8;
use vstd::utf8::encode_utf8_decode_utf8;

verus! {

/// The ledger after a genesis record made at `genesis_time` and one append
/// for each payload, in order, the `i`-th made at `times[i]`.
pub open spec fn grown(
    genesis_time: nat,
    difficulty: nat,
    payloads: Seq<Seq<char>>,
    times: Seq<nat>,
) -> Seq<Record>
    recommends
        payloads.len() == times.len(),
    decreases payloads.len(),
{
    if payloads.len() == 0 {
        genesis_chain(genesis_time, difficulty)
    } else {
        appended(
            grown(genesis_time, difficulty, payloads.drop_last(), times.drop_last()),
            payloads.last(),
            times.last(),
            difficulty,
        )
    }
}

/// Whether the search for a seal succeeds for the genesis record and for
/// every record appended after it.
pub open spec fn every_seal_found(
    genesis_time: nat,
    difficulty: nat,
    payloads: Seq<Seq<char>>,
    times: Seq<nat>,
) -> bool
    recommends
        payloads.len() == times.len(),
    decreases payloads.len(),
{
    if payloads.len() == 0 {
        genesis_draft(genesis_time).sealable(difficulty, nonce_space())
    } else {
        &&& every_seal_found(genesis_time, difficulty, payloads.drop_last(), times.drop_last())
        &&& next_draft(
            grown(genesis_time, difficulty, payloads.drop_last(), times.drop_last()),
            payloads.last(),
            times.last(),
        ).sealable(difficulty, nonce_space())
    }
}

/// A ledger to which `n` payloads were appended, each append having found
/// its seal, holds `n + 1` records, carries the payloads in order after the
/// genesis record, is well-formed, and passes verification.
pub proof fn lemma_grown_ledger_is_valid(
    genesis_time: nat,
    difficulty: nat,
    payloads: Seq<Seq<char>>,
    times: Seq<nat>,
)
    requires
        payloads.len() == times.len(),
        every_seal_found(genesis_time, difficulty, payloads, times),
    ensures
        grown(genesis_time, difficulty, payloads, times).len() == payloads.len() + 1,
        forall|i: int|
            0 <= i < payloads.len() ==> grown(genesis_time, difficulty, payloads, times)[i
                + 1].data == #[trigger] payloads[i],
        well_formed(grown(genesis_time, difficulty, payloads, times), difficulty),
        chain_valid(grown(genesis_time, difficulty, payloads, times)),
        first_fault(grown(genesis_time, difficulty, payloads, times)) is None,
    decreases payloads.len(),
{
    let ledger = grown(genesis_time, difficulty, payloads, times);
    if payloads.len() == 0 {
        lemma_genesis_chain(genesis_time, difficulty);
    } else {
        let before = grown(genesis_time, difficulty, payloads.drop_last(), times.drop_last());
        lemma_grown_ledger_is_valid(
            genesis_time,
            difficulty,
            payloads.drop_last(),
            times.drop_last(),
        );
        lemma_appended(before, payloads.last(), times.last(), difficulty);
        assert forall|i: int| 0 <= i < payloads.len() implies ledger[i + 1].data
            == #[trigger] payloads[i] by {
            if i < payloads.len() - 1 {
                assert(ledger[i + 1] == ledger.drop_last()[i + 1]);
                assert(payloads.drop_last()[i] == payloads[i]);
            }
        }
    }
    lemma_first_fault(ledger);
}

/// In a well-formed ledger every record is sealed: recomputing the digest
/// from the stored fields gives the stored digest, and that digest starts
/// with as many zero digits as the difficulty asks for.
pub proof fn lemma_every_record_is_sealed(chain: Seq<Record>, difficulty: nat, i: int)
    requires
        well_formed(chain, difficulty),
        0 <= i < chain.len(),
    ensures
        chain[i].digest() == chain[i].hash,
        has_zero_prefix(chain[i].hash, difficulty),
        chain[i].index == i,
        i == 0 ==> chain[i].previous_hash == no_previous_hash(),
        i >= 1 ==> chain[i].previous_hash == chain[i - 1].hash,
{
    assert(chain[i].is_sealed(difficulty));
}

/// A well-formed ledger passes verification.
pub proof fn lemma_well_formed_is_valid(chain: Seq<Record>, difficulty: nat)
    requires
        well_formed(chain, difficulty),
    ensures
        chain_valid(chain),
        first_fault(chain) is None,
{
    assert forall|i: int| 1 <= i < chain.len() implies fault_at(chain, i) is None by {
        assert(chain[i].is_sealed(difficulty));
        assert(chain[i].previous_hash == chain[i - 1].hash);
    }
    lemma_first_fault(chain);
}

/// In how many of the five hashed fields two records differ.
pub open spec fn changed_fields(a: Record, b: Record) -> nat {
    let index: nat = if a.index != b.index { 1 } else { 0 };
    let timestamp: nat = if a.timestamp != b.timestamp { 1 } else { 0 };
    let data: nat = if a.data != b.data { 1 } else { 0 };
    let previous_hash: nat = if a.previous_hash != b.previous_hash { 1 } else { 0 };
    let nonce: nat = if a.nonce != b.nonce { 1 } else { 0 };
    index + timestamp + data + previous_hash + nonce
}

/// Whether SHA-256 tells the two inputs apart, if they differ at all.
pub open spec fn no_collision(a: Seq<u8>, b: Seq<u8>) -> bool {
    a != b ==> sha256(a) != sha256(b)
}

proof fn lemma_middle_differs(before: Seq<u8>, x: Seq<u8>, y: Seq<u8>, after: Seq<u8>)
    requires
        x != y,
    ensures
        before + x + after != before + y + after,
{
    let left = before + x + after;
    let right = before + y + after;
    if left == right {
        assert(x.len() == y.len()) by {
            assert(left.len() == before.len() + x.len() + after.len());
            assert(right.len() == before.len() + y.len() + after.len());
        }
        assert forall|i: int| 0 <= i < x.len() implies x[i] == y[i] by {
            assert(left[before.len() + i] == x[i]);
            assert(right[before.len() + i] == y[i]);
        }
        assert(x =~= y);
    }
}

/// Two records that differ in exactly one hashed field have different hash
/// inputs.
pub proof fn lemma_one_change_alters_hash_input(a: Record, b: Record)
    requires
        changed_fields(a, b) == 1,
    ensures
        a.hash_input() != b.hash_input(),
{
    let index = decimal(a.index);
    let timestamp = decimal(a.timestamp);
    let data = encode_utf8(a.data);
    let previous_hash = encode_utf8(a.previous_hash);
    let nonce = decimal(a.nonce);
    let empty = Seq::<u8>::empty();
    if a.index != b.index {
        let other = decimal(b.index);
        if index == other {
            lemma_decimal_injective(a.index, b.index);
        }
        let after = timestamp + data + previous_hash + nonce;
        lemma_middle_differs(empty, index, other, after);
        assert(a.hash_input() =~= empty + index + after);
        assert(b.hash_input() =~= empty + other + after);
    } else if a.timestamp != b.timestamp {
        let other = decimal(b.timestamp);
        if timestamp == other {
            lemma_decimal_injective(a.timestamp, b.timestamp);
        }
        let after = data + previous_hash + nonce;
        lemma_middle_differs(index, timestamp, other, after);
        assert(a.hash_input() =~= index + timestamp + after);
        assert(b.hash_input() =~= index + other + after);
    } else if a.data != b.data {
        let other = encode_utf8(b.data);
        if data == other {
            encode_utf8_decode_utf8(a.data);
            encode_utf8_decode_utf8(b.data);
            assert(decode_utf8(data) == decode_utf8(other));
        }
        let before = index + timestamp;
        let after = previous_hash + nonce;
        lemma_middle_differs(before, data, other, after);
        assert(a.hash_input() =~= before + data + after);
        assert(b.hash_input() =~= before + other + after);
    } else if a.previous_hash != b.previous_hash {
        let other = encode_utf8(b.previous_hash);
        if previous_hash == other {
            encode_utf8_decode_utf8(a.previous_hash);
            encode_utf8_decode_utf8(b.previous_hash);
            assert(decode_utf8(previous_hash) == decode_utf8(other));
        }
        let before = index + timestamp + data;
        lemma_middle_differs(before, previous_hash, other, nonce);
        assert(a.hash_input() =~= before + previous_hash + nonce);
        assert(b.hash_input() =~= before + other + nonce);
    } else {
        let other = decimal(b.nonce);
        if nonce == other {
            lemma_decimal_injective(a.nonce, b.nonce);
        }
        let before = index + timestamp + data + previous_hash;
        lemma_middle_differs(before, nonce, other, empty);
        assert(a.hash_input() =~= before + nonce + empty);
        assert(b.hash_input() =~= before + other + empty);
    }
}

/// Changing one hashed field of a record changes its digest, unless the old
/// and the new hash input collide under SHA-256.
pub proof fn lemma_one_change_alters_digest(a: Record, b: Record)
    requires
        changed_fields(a, b) == 1,
        no_collision(a.hash_input(), b.hash_input()),
    ensures
        a.digest() != b.digest(),
{
    lemma_one_change_alters_hash_input(a, b);
    if a.digest() == b.digest() {
        lemma_lower_hex_injective(sha256(a.hash_input()), sha256(b.hash_input()));
    }
}

/// Tampering is found where it happened. Take a ledger that passes
/// verification and change one hashed field of one record after the genesis
/// record, leaving its stored digest as it was. Verification then fails at
/// that record's position, and at no earlier one.
///
/// Where the previous digest was changed this always holds. Where another
/// field was changed it holds unless the changed record's hash input has the
/// same SHA-256 digest as the unchanged record's. The genesis record is never
/// checked, so a change to it is not found.
pub proof fn lemma_tampering_is_found(chain: Seq<Record>, at: int, forged: Record)
    requires
        chain_valid(chain),
        1 <= at < chain.len(),
        forged.hash == chain[at].hash,
        changed_fields(chain[at], forged) == 1,
        forged.previous_hash == chain[at].previous_hash ==> no_collision(
            chain[at].hash_input(),
            forged.hash_input(),
        ),
    ensures
        first_fault(chain.update(at, forged)) matches Some((found, kind)) && found == at && (
        forged.previous_hash == chain[at].previous_hash ==> kind == FaultKind::DigestMismatch),
{
    let tampered = chain.update(at, forged);
    assert(fault_at(chain, at) is None);
    assert forall|i: int| 1 <= i < at implies fault_at(tampered, i) is None by {
        assert(fault_at(chain, i) is None);
    }
    if forged.previous_hash == chain[at].previous_hash {
        lemma_one_change_alters_digest(chain[at], forged);
        lemma_first_fault_is(tampered, at, FaultKind::DigestMismatch);
    } else {
        let kind = fault_at(tampered, at)->Some_0;
        assert(fault_at(tampered, at) is Some);
        lemma_first_fault_is(tampered, at, kind);
    }
}

/// `chain` with the records at positions `i` and `j` exchanged.
pub open spec fn swapped(chain: Seq<Record>, i: int, j: int) -> Seq<Record>
    recommends
        0 <= i < chain.len(),
        0 <= j < chain.len(),
{
    chain.update(i, chain[j]).update(j, chain[i])
}

/// Reordering is found where it starts. Take a ledger that passes
/// verification and exchange two records after the genesis record.
/// Verification then fails at the earlier of the two positions, on the link
/// to the record before it.
///
/// This holds where the records before the two positions store different
/// digests; where they store the same one, the moved record still fits the
/// record before it.
pub proof fn lemma_swap_is_found(chain: Seq<Record>, i: int, j: int)
    requires
        chain_valid(chain),
        1 <= i < j < chain.len(),
        chain[i - 1].hash != chain[j - 1].hash,
    ensures
        first_fault(swapped(chain, i, j)) == Some((i, FaultKind::LinkMismatch)),
{
    let moved = swapped(chain, i, j);
    assert(fault_at(chain, j) is None);
    assert forall|k: int| 1 <= k < i implies fault_at(moved, k) is None by {
        assert(fault_at(chain, k) is None);
    }
    assert(moved[i] == chain[j]);
    assert(moved[i - 1] == chain[i - 1]);
    lemma_first_fault_is(moved, i, FaultKind::LinkMismatch);
}

} // verus!
