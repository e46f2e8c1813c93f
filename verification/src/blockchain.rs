//! The ledger: an append-only chain of sealed blocks.

use crate::block::Block;
use crate::block::DIFFICULTY;
use crate::chain::appended;
use crate::chain::chain_valid;
use crate::chain::first_fault;
use crate::chain::first_fault_from;
use crate::chain::genesis_chain;
use crate::chain::genesis_draft;
use crate::chain::lemma_appended;
use crate::chain::lemma_first_fault;
use crate::chain::lemma_genesis_chain;
use crate::chain::next_draft;
use crate::chain::no_previous_hash;
use crate::chain::well_formed;
use crate::chain::ChainFault;
use crate::chain::FaultKind;
use crate::clock::unix_seconds;
use crate::error::LedgerError;
use crate::record::nonce_space;
use crate::record::Record;
use vstd::prelude::*;

verus! {

/// An ordered chain of blocks, the genesis block first. Blocks are only ever
/// added at the end.
#[derive(Debug)]
pub struct Blockchain {
    /// The blocks, in the order in which they were added.
    pub chain: Vec<Block>,
    /// The number of zero hex digits that the digest of every block of this
    /// ledger starts with.
    pub difficulty: usize,
}

impl View for Blockchain {
    type V = Seq<Record>;

    open spec fn view(&self) -> Seq<Record> {
        Seq::new(self.chain@.len(), |i: int| self.chain@[i]@)
    }
}

impl Blockchain {
    /// Makes a ledger at [`DIFFICULTY`] whose genesis block carries the
    /// current time.
    ///
    /// Whatever the clock reads, a ledger that comes back holds exactly the
    /// genesis block for the timestamp it carries. It fails where the clock
    /// reads a time before the Unix epoch, or where no nonce seals the genesis
    /// block for the time that was read.
    pub fn new() -> (made: Result<Blockchain, LedgerError>)
        ensures
            match made {
                Ok(ledger) => {
                    &&& ledger.difficulty == DIFFICULTY
                    &&& ledger@ == genesis_chain(ledger@[0].timestamp, DIFFICULTY as nat)
                    &&& ledger@.len() == 1
                    &&& well_formed(ledger@, DIFFICULTY as nat)
                    &&& chain_valid(ledger@)
                },
                Err(e) => {
                    ||| e == LedgerError::ClockBeforeEpoch
                    ||| e == LedgerError::SealingExhausted && exists|time: nat|
                        time <= u64::MAX && !(#[trigger] genesis_draft(time)).sealable(
                            DIFFICULTY as nat,
                            nonce_space(),
                        )
                },
            },
    {
        match unix_seconds() {
            Some(now) => {
                let made = Blockchain::with_genesis(now, DIFFICULTY);
                proof {
                    if made is Err {
                        assert(!genesis_draft(now as nat).sealable(
                            DIFFICULTY as nat,
                            nonce_space(),
                        ));
                    }
                }
                made
            },
            None => Err(LedgerError::ClockBeforeEpoch),
        }
    }

    /// Makes a ledger at `difficulty` whose genesis block carries
    /// `timestamp`: index zero, the payload `Genesis Block`, and `0` in place
    /// of a previous digest.
    pub fn with_genesis(timestamp: u64, difficulty: usize) -> (made: Result<Blockchain, LedgerError>)
        ensures
            match made {
                Ok(ledger) => {
                    &&& genesis_draft(timestamp as nat).sealable(difficulty as nat, nonce_space())
                    &&& ledger.difficulty == difficulty
                    &&& ledger@ == genesis_chain(timestamp as nat, difficulty as nat)
                    &&& ledger@.len() == 1
                    &&& well_formed(ledger@, difficulty as nat)
                    &&& chain_valid(ledger@)
                },
                Err(e) => {
                    &&& e == LedgerError::SealingExhausted
                    &&& !genesis_draft(timestamp as nat).sealable(difficulty as nat, nonce_space())
                },
            },
    {
        let made = Block::with_difficulty(
            0,
            timestamp,
            "Genesis Block".to_owned(),
            "0".to_owned(),
            difficulty,
        );
        match made {
            Ok(genesis) => {
                let mut chain: Vec<Block> = Vec::new();
                chain.push(genesis);
                let ledger = Blockchain { chain, difficulty };
                proof {
                    lemma_genesis_chain(timestamp as nat, difficulty as nat);
                    assert(ledger@ =~= genesis_chain(timestamp as nat, difficulty as nat));
                }
                Ok(ledger)
            },
            Err(e) => Err(e),
        }
    }

    /// Seals a block that carries `data` and the current time, adds it at the
    /// end of the ledger, and returns it.
    ///
    /// Whatever the clock reads, on success the ledger is the old one with
    /// the one block added that `data` and the block's timestamp determine.
    /// It fails, and leaves the ledger as it was, where the clock reads a
    /// time before the Unix epoch, or where no nonce seals the block for the
    /// time that was read.
    pub fn add_block(&mut self, data: String) -> (added: Result<&Block, LedgerError>)
        requires
            old(self).chain@.len() >= 1,
            old(self).chain@.last().index < usize::MAX,
        ensures
            final(self).difficulty == old(self).difficulty,
            match added {
                Ok(block) => {
                    let difficulty = old(self).difficulty as nat;
                    &&& final(self)@ == appended(old(self)@, data@, block@.timestamp, difficulty)
                    &&& final(self)@.len() == old(self)@.len() + 1
                    &&& block@ == final(self)@.last()
                    &&& chain_valid(old(self)@) ==> chain_valid(final(self)@)
                    &&& well_formed(old(self)@, difficulty) ==> well_formed(
                        final(self)@,
                        difficulty,
                    )
                },
                Err(e) => {
                    &&& final(self)@ == old(self)@
                    &&& {
                        ||| e == LedgerError::ClockBeforeEpoch
                        ||| e == LedgerError::SealingExhausted && exists|time: nat|
                            time <= u64::MAX && !(#[trigger] next_draft(
                                old(self)@,
                                data@,
                                time,
                            )).sealable(old(self).difficulty as nat, nonce_space())
                    }
                },
            },
    {
        match unix_seconds() {
            Some(now) => {
                let added = self.add_block_at(data, now);
                proof {
                    if added is Err {
                        assert(!next_draft(old(self)@, data@, now as nat).sealable(
                            old(self).difficulty as nat,
                            nonce_space(),
                        ));
                    }
                }
                added
            },
            None => Err(LedgerError::ClockBeforeEpoch),
        }
    }

    /// Seals a block that carries `data` and `timestamp`, adds it at the end
    /// of the ledger, and returns it.
    ///
    /// The new block's index is one more than the last block's, and its
    /// previous digest is the last block's digest. It fails, and leaves the
    /// ledger as it was, only where no nonce seals the block.
    pub fn add_block_at(&mut self, data: String, timestamp: u64) -> (added: Result<
        &Block,
        LedgerError,
    >)
        requires
            old(self).chain@.len() >= 1,
            old(self).chain@.last().index < usize::MAX,
        ensures
            final(self).difficulty == old(self).difficulty,
            ({
                let difficulty = old(self).difficulty as nat;
                let draft = next_draft(old(self)@, data@, timestamp as nat);
                match added {
                    Ok(block) => {
                        &&& draft.sealable(difficulty, nonce_space())
                        &&& final(self)@ == appended(
                            old(self)@,
                            data@,
                            timestamp as nat,
                            difficulty,
                        )
                        &&& final(self)@.len() == old(self)@.len() + 1
                        &&& block@ == final(self)@.last()
                        &&& chain_valid(old(self)@) ==> chain_valid(final(self)@)
                        &&& well_formed(old(self)@, difficulty) ==> well_formed(
                            final(self)@,
                            difficulty,
                        )
                    },
                    Err(e) => {
                        &&& e == LedgerError::SealingExhausted
                        &&& !draft.sealable(difficulty, nonce_space())
                        &&& final(self)@ == old(self)@
                    },
                }
            }),
    {
        let last = &self.chain[self.chain.len() - 1];
        assert(last@ == self@.last());
        let made = Block::with_difficulty(
            last.index + 1,
            timestamp,
            data,
            last.hash.clone(),
            self.difficulty,
        );
        match made {
            Ok(block) => {
                proof {
                    lemma_appended(self@, data@, timestamp as nat, self.difficulty as nat);
                }
                self.chain.push(block);
                assert(self@ =~= appended(
                    old(self)@,
                    data@,
                    timestamp as nat,
                    self.difficulty as nat,
                ));
                let at = self.chain.len() - 1;
                Ok(&self.chain[at])
            },
            Err(e) => {
                assert(self@ =~= old(self)@);
                Err(e)
            },
        }
    }

    /// Checks every block after the genesis block, in order: first that its
    /// stored digest is the digest of its fields, then that its previous
    /// digest is the digest stored in the block before. Stops at the first
    /// block that fails and reports its position and the check that failed.
    pub fn verify(&self) -> (verdict: Result<(), ChainFault>)
        ensures
            match verdict {
                Ok(()) => first_fault(self@) is None,
                Err(fault) => first_fault(self@) == Some((fault.index as int, fault.kind)),
            },
    {
        let mut i: usize = 1;
        while i < self.chain.len()
            invariant
                1 <= i,
                first_fault(self@) == first_fault_from(self@, i as int),
            decreases self.chain@.len() - i,
        {
            let current = &self.chain[i];
            let previous = &self.chain[i - 1];
            assert(current@ == self@[i as int]);
            assert(previous@ == self@[i - 1]);
            let hash = current.calculate_hash();
            if current.hash != hash {
                return Err(ChainFault { index: i, kind: FaultKind::DigestMismatch });
            }
            if current.previous_hash != previous.hash {
                return Err(ChainFault { index: i, kind: FaultKind::LinkMismatch });
            }
            i += 1;
        }
        Ok(())
    }

    /// Tests whether every block after the genesis block stores the digest of
    /// its own fields and the digest of the block before it. The answer
    /// depends on the blocks alone: on an unchanged ledger it is the same
    /// every time.
    pub fn is_valid(&self) -> (valid: bool)
        ensures
            valid == chain_valid(self@),
            valid == (first_fault(self@) is None),
    {
        proof {
            lemma_first_fault(self@);
        }
        match self.verify() {
            Ok(()) => true,
            Err(_) => false,
        }
    }

    /// Tests the invariants of a ledger that only this library has touched:
    /// there is a genesis block that holds `0` as its previous digest, every
    /// block's index is its position, every block is sealed at the ledger's
    /// difficulty, and every block after the first holds the digest of the
    /// one before.
    pub fn is_well_formed(&self) -> (ok: bool)
        ensures
            ok == well_formed(self@, self.difficulty as nat),
    {
        if self.chain.len() == 0 {
            return false;
        }
        let sentinel = "0".to_owned();
        assert(self.chain@[0]@ == self@[0]);
        if self.chain[0].previous_hash != sentinel {
            return false;
        }
        let mut i: usize = 0;
        while i < self.chain.len()
            invariant
                i <= self.chain@.len(),
                self.chain@.len() >= 1,
                self@[0].previous_hash == no_previous_hash(),
                forall|k: int| 0 <= k < i ==> (#[trigger] self@[k]).index == k,
                forall|k: int| 0 <= k < i ==> (#[trigger] self@[k]).is_sealed(self.difficulty as nat),
                forall|k: int| 1 <= k < i ==> (#[trigger] self@[k]).previous_hash == self@[k - 1].hash,
            decreases self.chain@.len() - i,
        {
            let block = &self.chain[i];
            assert(block@ == self@[i as int]);
            if block.index != i {
                return false;
            }
            if !block.is_sealed(self.difficulty) {
                return false;
            }
            if i >= 1 {
                let previous = &self.chain[i - 1];
                assert(previous@ == self@[i - 1]);
                if block.previous_hash != previous.hash {
                    return false;
                }
            }
            i += 1;
        }
        true
    }

    /// The blocks of the ledger, in order.
    pub fn get_all_blocks(&self) -> (blocks: Vec<&Block>)
        ensures
            blocks@.len() == self.chain@.len(),
            forall|i: int| 0 <= i < blocks@.len() ==> *blocks@[i] == self.chain@[i],
    {
        let mut blocks: Vec<&Block> = Vec::new();
        let mut i: usize = 0;
        while i < self.chain.len()
            invariant
                i <= self.chain@.len(),
                blocks@.len() == i,
                forall|k: int| 0 <= k < i ==> *blocks@[k] == self.chain@[k],
            decreases self.chain@.len() - i,
        {
            blocks.push(&self.chain[i]);
            i += 1;
        }
        blocks
    }

    /// The payloads of the blocks of the ledger, in order.
    pub fn get_blockchain_data(&self) -> (payloads: Vec<String>)
        ensures
            payloads@.len() == self@.len(),
            forall|i: int| 0 <= i < payloads@.len() ==> payloads@[i]@ == self@[i].data,
    {
        let mut payloads: Vec<String> = Vec::new();
        let mut i: usize = 0;
        while i < self.chain.len()
            invariant
                i <= self.chain@.len(),
                payloads@.len() == i,
                forall|k: int| 0 <= k < i ==> payloads@[k]@ == self@[k].data,
            decreases self.chain@.len() - i,
        {
            payloads.push(self.chain[i].data.clone());
            i += 1;
        }
        payloads
    }

    /// The number of blocks in the ledger, the genesis block included.
    pub fn get_chain_length(&self) -> (length: usize)
        ensures
            length == self@.len(),
    {
        self.chain.len()
    }
}

} // verus!
