//! The ledger as a sequence of records: what its checks find, what a
//! well-formed ledger is, and how one grows.

use crate::record::lemma_sealable_has_first;
use crate::record::lemma_sealed_is_first_seal;
use crate::record::nonce_space;
use crate::record::Record;
use vstd::prelude::*;

verus! {

/// The two checks that a record of the ledger can fail.
#[derive(Clone, Copy, Debug, PartialEq, Eq, Structural)]
pub enum FaultKind {
    /// The stored digest is not the digest of the stored fields.
    DigestMismatch,
    /// The stored previous digest is not the digest stored in the record
    /// before.
    LinkMismatch,
}

/// The first failure that checking a ledger ran into.
#[derive(Clone, Copy, Debug, PartialEq, Eq, Structural)]
pub struct ChainFault {
    /// The position in the ledger of the record that failed.
    pub index: usize,
    /// The check that it failed.
    pub kind: FaultKind,
}

/// The payload of every genesis record.
pub open spec fn genesis_data() -> Seq<char> {
    "Genesis Block"@
}

/// What a genesis record holds in place of a previous digest.
pub open spec fn no_previous_hash() -> Seq<char> {
    "0"@
}

/// The check that the record at position `i` fails, if it fails one. The
/// digest is checked before the link to the record at `i - 1`.
pub open spec fn fault_at(chain: Seq<Record>, i: int) -> Option<FaultKind>
    recommends
        1 <= i < chain.len(),
{
    if chain[i].hash != chain[i].digest() {
        Some(FaultKind::DigestMismatch)
    } else if chain[i].previous_hash != chain[i - 1].hash {
        Some(FaultKind::LinkMismatch)
    } else {
        None
    }
}

/// The first failure at or after position `from`, if there is one.
pub open spec fn first_fault_from(chain: Seq<Record>, from: int) -> Option<(int, FaultKind)>
    decreases chain.len() - from,
{
    if from >= chain.len() {
        None
    } else {
        match fault_at(chain, from) {
            Some(kind) => Some((from, kind)),
            None => first_fault_from(chain, from + 1),
        }
    }
}

/// What checking the whole ledger finds: the position and the kind of the
/// first failure among the records after the genesis record, if there is one.
/// The genesis record itself is not checked.
pub open spec fn first_fault(chain: Seq<Record>) -> Option<(int, FaultKind)> {
    first_fault_from(chain, 1)
}

/// Whether every record after the genesis record stores the digest of its
/// own fields and the digest of the record before it.
pub open spec fn chain_valid(chain: Seq<Record>) -> bool {
    forall|i: int| 1 <= i < chain.len() ==> fault_at(chain, i) is None
}

/// The invariants of a ledger that was made and grown by this library, at
/// proof-of-work difficulty `difficulty`: there is a genesis record, every
/// record's index is its position, every record is sealed, and every record
/// after the first stores the digest of the one before.
pub open spec fn well_formed(chain: Seq<Record>, difficulty: nat) -> bool {
    &&& chain.len() >= 1
    &&& chain[0].previous_hash == no_previous_hash()
    &&& forall|i: int| 0 <= i < chain.len() ==> (#[trigger] chain[i]).index == i
    &&& forall|i: int| 0 <= i < chain.len() ==> (#[trigger] chain[i]).is_sealed(difficulty)
    &&& forall|i: int| 1 <= i < chain.len() ==> (#[trigger] chain[i]).previous_hash == chain[i - 1].hash
}

/// The genesis record made at `timestamp`, before it is sealed.
pub open spec fn genesis_draft(timestamp: nat) -> Record {
    Record::unsealed(0, timestamp, genesis_data(), no_previous_hash())
}

/// The record that comes after the last of `chain` with payload `data`, made
/// at `timestamp`, before it is sealed.
pub open spec fn next_draft(chain: Seq<Record>, data: Seq<char>, timestamp: nat) -> Record
    recommends
        chain.len() >= 1,
{
    Record::unsealed(chain.last().index + 1, timestamp, data, chain.last().hash)
}

/// The ledger that holds a genesis record and nothing else.
pub open spec fn genesis_chain(timestamp: nat, difficulty: nat) -> Seq<Record> {
    seq![genesis_draft(timestamp).sealed(difficulty)]
}

/// `chain` with one more record at its end.
pub open spec fn appended(
    chain: Seq<Record>,
    data: Seq<char>,
    timestamp: nat,
    difficulty: nat,
) -> Seq<Record>
    recommends
        chain.len() >= 1,
{
    chain.push(next_draft(chain, data, timestamp).sealed(difficulty))
}

/// Sealing a draft leaves its index, timestamp, payload and previous digest
/// as they are, and gives it a digest that is its own and meets the
/// difficulty.
pub proof fn lemma_sealed_draft(draft: Record, difficulty: nat)
    requires
        draft.sealable(difficulty, nonce_space()),
    ensures
        draft.sealed(difficulty).index == draft.index,
        draft.sealed(difficulty).timestamp == draft.timestamp,
        draft.sealed(difficulty).data == draft.data,
        draft.sealed(difficulty).previous_hash == draft.previous_hash,
        draft.sealed(difficulty).nonce < nonce_space(),
        draft.sealed(difficulty).is_sealed(difficulty),
{
    lemma_sealable_has_first(draft, difficulty, nonce_space());
    lemma_sealed_is_first_seal(draft, draft.seal_nonce(difficulty), difficulty);
}

/// A ledger that has just been made holds its genesis record and is
/// well-formed and valid.
pub proof fn lemma_genesis_chain(timestamp: nat, difficulty: nat)
    requires
        genesis_draft(timestamp).sealable(difficulty, nonce_space()),
    ensures
        genesis_chain(timestamp, difficulty).len() == 1,
        genesis_chain(timestamp, difficulty)[0].index == 0,
        genesis_chain(timestamp, difficulty)[0].data == genesis_data(),
        genesis_chain(timestamp, difficulty)[0].previous_hash == no_previous_hash(),
        well_formed(genesis_chain(timestamp, difficulty), difficulty),
        chain_valid(genesis_chain(timestamp, difficulty)),
{
    lemma_sealed_draft(genesis_draft(timestamp), difficulty);
}

/// Appending a record makes the ledger one longer, leaves the records that
/// were there as they are, and keeps a valid ledger valid and a well-formed
/// ledger well-formed.
pub proof fn lemma_appended(chain: Seq<Record>, data: Seq<char>, timestamp: nat, difficulty: nat)
    requires
        chain.len() >= 1,
        next_draft(chain, data, timestamp).sealable(difficulty, nonce_space()),
    ensures
        appended(chain, data, timestamp, difficulty).len() == chain.len() + 1,
        appended(chain, data, timestamp, difficulty).drop_last() == chain,
        appended(chain, data, timestamp, difficulty).last().data == data,
        appended(chain, data, timestamp, difficulty).last().timestamp == timestamp,
        appended(chain, data, timestamp, difficulty).last().index == chain.last().index + 1,
        appended(chain, data, timestamp, difficulty).last().previous_hash == chain.last().hash,
        appended(chain, data, timestamp, difficulty).last().is_sealed(difficulty),
        chain_valid(chain) ==> chain_valid(appended(chain, data, timestamp, difficulty)),
        well_formed(chain, difficulty) ==> well_formed(
            appended(chain, data, timestamp, difficulty),
            difficulty,
        ),
{
    let longer = appended(chain, data, timestamp, difficulty);
    lemma_sealed_draft(next_draft(chain, data, timestamp), difficulty);
    assert(longer.drop_last() =~= chain);
    if chain_valid(chain) {
        assert forall|i: int| 1 <= i < longer.len() implies fault_at(longer, i) is None by {
            if i < chain.len() {
                assert(fault_at(chain, i) is None);
            }
        }
    }
    if well_formed(chain, difficulty) {
        assert forall|i: int| 0 <= i < longer.len() implies (#[trigger] longer[i]).index == i by {
            if i < chain.len() {
                assert(chain[i].index == i);
            }
        }
        assert forall|i: int| 0 <= i < longer.len() implies (#[trigger] longer[i]).is_sealed(
            difficulty,
        ) by {
            if i < chain.len() {
                assert(chain[i].is_sealed(difficulty));
            }
        }
        assert forall|i: int| 1 <= i < longer.len() implies (#[trigger] longer[i]).previous_hash
            == longer[i - 1].hash by {
            if i < chain.len() {
                assert(chain[i].previous_hash == chain[i - 1].hash);
            }
        }
    }
}

/// Where no record from `from` on fails a check, no failure is found from
/// there; and a failure that is found is the first one.
pub proof fn lemma_first_fault_from(chain: Seq<Record>, from: int)
    requires
        1 <= from,
    ensures
        match first_fault_from(chain, from) {
            None => forall|i: int| from <= i < chain.len() ==> fault_at(chain, i) is None,
            Some((at, kind)) => {
                &&& from <= at < chain.len()
                &&& fault_at(chain, at) == Some(kind)
                &&& forall|i: int| from <= i < at ==> fault_at(chain, i) is None
            },
        },
    decreases chain.len() - from,
{
    if from < chain.len() && fault_at(chain, from) is None {
        lemma_first_fault_from(chain, from + 1);
    }
}

/// Checking finds no failure exactly in a valid ledger, and otherwise finds
/// the first record that fails with the first check that it fails.
pub proof fn lemma_first_fault(chain: Seq<Record>)
    ensures
        first_fault(chain) is None <==> chain_valid(chain),
        first_fault(chain) matches Some((at, kind)) ==> {
            &&& 1 <= at < chain.len()
            &&& fault_at(chain, at) == Some(kind)
            &&& forall|i: int| 1 <= i < at ==> fault_at(chain, i) is None
        },
{
    lemma_first_fault_from(chain, 1);
}

/// A failure at position `at` with none before it is what checking finds.
pub proof fn lemma_first_fault_is(chain: Seq<Record>, at: int, kind: FaultKind)
    requires
        1 <= at < chain.len(),
        fault_at(chain, at) == Some(kind),
        forall|i: int| 1 <= i < at ==> fault_at(chain, i) is None,
    ensures
        first_fault(chain) == Some((at, kind)),
{
    lemma_first_fault_from_is(chain, 1, at, kind);
}

proof fn lemma_first_fault_from_is(chain: Seq<Record>, from: int, at: int, kind: FaultKind)
    requires
        1 <= from <= at < chain.len(),
        fault_at(chain, at) == Some(kind),
        forall|i: int| from <= i < at ==> fault_at(chain, i) is None,
    ensures
        first_fault_from(chain, from) == Some((at, kind)),
    decreases at - from,
{
    if from < at {
        lemma_first_fault_from_is(chain, from + 1, at, kind);
    }
}

} // verus!
