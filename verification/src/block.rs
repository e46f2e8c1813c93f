//! A block: one sealed unit of the ledger.

use crate::decimal::push_decimal;
use crate::decimal::push_decimal_text;
use crate::error::LedgerError;
use crate::hex::starts_with_zeros;
use crate::hex::to_hex;
use crate::record::attempt_limit;
use crate::record::byte_prefix;
use crate::record::digest_of;
use crate::record::hash_input_of;
use crate::record::lemma_seal_ignores_stored;
use crate::record::lemma_sealed_is_first_seal;
use crate::record::nonce_space;
use crate::record::Record;
use crate::sha256::sha256_bytes;
use vstd::prelude::*;
use vstd::string::StringExecFns;
use vstd::string::StringSliceAdditionalSpecFns;
use vstd::utf8::encode_utf8;
use vstd::utf8::encode_utf8_decode_utf8;

verus! {

/// The number of zero hex digits that a block's digest starts with unless a
/// ledger is made with another difficulty.
pub const DIFFICULTY: usize = 2;

/// One unit of the ledger. `hash` is the digest of the other fields, and
/// `nonce` is what the proof-of-work search settled on.
#[derive(Debug)]
pub struct Block {
    pub index: usize,
    pub timestamp: u64,
    pub data: String,
    pub previous_hash: String,
    pub hash: String,
    pub nonce: u64,
}

impl View for Block {
    type V = Record;

    open spec fn view(&self) -> Record {
        Record {
            index: self.index as nat,
            timestamp: self.timestamp as nat,
            data: self.data@,
            previous_hash: self.previous_hash@,
            hash: self.hash@,
            nonce: self.nonce as nat,
        }
    }
}

impl Clone for Block {
    fn clone(&self) -> (copy: Block)
        ensures
            copy@ == self@,
    {
        Block {
            index: self.index,
            timestamp: self.timestamp,
            data: self.data.clone(),
            previous_hash: self.previous_hash.clone(),
            hash: self.hash.clone(),
            nonce: self.nonce,
        }
    }
}

fn push_bytes(out: &mut Vec<u8>, bytes: &[u8])
    ensures
        final(out)@ == old(out)@ + bytes@,
{
    let mut i: usize = 0;
    while i < bytes.len()
        invariant
            i <= bytes@.len(),
            out@ == old(out)@ + bytes@.take(i as int),
        decreases bytes@.len() - i,
    {
        out.push(bytes[i]);
        assert(bytes@.take(i + 1) == bytes@.take(i as int).push(bytes@[i as int]));
        i += 1;
    }
    assert(bytes@.take(i as int) == bytes@);
}

/// Lays out the bytes that are hashed for a block with these fields: index,
/// timestamp, payload, previous digest and nonce, one after the other.
pub fn hash_input_bytes(
    index: usize,
    timestamp: u64,
    data: &str,
    previous_hash: &str,
    nonce: u64,
) -> (bytes: Vec<u8>)
    ensures
        bytes@ == hash_input_of(
            index as nat,
            timestamp as nat,
            data@,
            previous_hash@,
            nonce as nat,
        ),
{
    let mut bytes: Vec<u8> = Vec::new();
    push_decimal(&mut bytes, index as u64);
    push_decimal(&mut bytes, timestamp);
    push_bytes(&mut bytes, data.as_bytes());
    push_bytes(&mut bytes, previous_hash.as_bytes());
    push_decimal(&mut bytes, nonce);
    bytes
}

/// Computes the digest of a block with these fields, as 64 hex digits.
pub fn digest_hex(index: usize, timestamp: u64, data: &str, previous_hash: &str, nonce: u64) -> (hash:
    String)
    ensures
        hash@ == digest_of(index as nat, timestamp as nat, data@, previous_hash@, nonce as nat),
        hash@.len() == 64,
{
    let input = hash_input_bytes(index, timestamp, data, previous_hash, nonce);
    let digest = sha256_bytes(input.as_slice());
    to_hex(digest.as_slice())
}

/// Searches for the first nonce, counting up from zero, that gives a block
/// with these fields a digest starting with `difficulty` zero digits, and
/// returns that digest with the nonce.
///
/// With `max_attempts` the search tries the nonces below it and no others;
/// without, it tries every nonce. It fails when none of them seals.
pub fn seal(
    index: usize,
    timestamp: u64,
    data: &str,
    previous_hash: &str,
    difficulty: usize,
    max_attempts: Option<u64>,
) -> (found: Result<(String, u64), LedgerError>)
    ensures
        ({
            let r = Record::unsealed(index as nat, timestamp as nat, data@, previous_hash@);
            match found {
                Ok((hash, nonce)) => {
                    &&& r.first_seal(nonce as nat, difficulty as nat)
                    &&& nonce < attempt_limit(max_attempts)
                    &&& hash@ == r.digest_with(nonce as nat)
                    &&& hash@.len() == 64
                },
                Err(e) => {
                    &&& e == LedgerError::SealingExhausted
                    &&& !r.sealable(difficulty as nat, attempt_limit(max_attempts))
                },
            }
        }),
{
    let ghost r = Record::unsealed(index as nat, timestamp as nat, data@, previous_hash@);
    let mut nonce: u64 = 0;
    loop
        invariant
            r == Record::unsealed(index as nat, timestamp as nat, data@, previous_hash@),
            forall|k: nat| k < nonce ==> !r.sealed_by(k, difficulty as nat),
        decreases u64::MAX - nonce,
    {
        if let Some(m) = max_attempts {
            if nonce >= m {
                return Err(LedgerError::SealingExhausted);
            }
        }
        let hash = digest_hex(index, timestamp, data, previous_hash, nonce);
        if starts_with_zeros(hash.as_str(), difficulty) {
            assert(r.sealed_by(nonce as nat, difficulty as nat));
            return Ok((hash, nonce));
        }
        assert(!r.sealed_by(nonce as nat, difficulty as nat));
        if nonce == u64::MAX {
            return Err(LedgerError::SealingExhausted);
        }
        nonce += 1;
    }
}

impl Block {
    /// Makes the block with these fields and seals it at [`DIFFICULTY`].
    ///
    /// The block comes back with the first nonce whose digest meets the
    /// difficulty, and with that digest. It fails only when no nonce that a
    /// block can hold seals it.
    pub fn new(index: usize, timestamp: u64, data: String, previous_hash: String) -> (made: Result<
        Block,
        LedgerError,
    >)
        ensures
            ({
                let r = Record::unsealed(index as nat, timestamp as nat, data@, previous_hash@);
                match made {
                    Ok(block) => {
                        &&& r.sealable(DIFFICULTY as nat, nonce_space())
                        &&& block@ == r.sealed(DIFFICULTY as nat)
                        &&& block@.is_sealed(DIFFICULTY as nat)
                        &&& block@.hash.len() == 64
                    },
                    Err(e) => {
                        &&& e == LedgerError::SealingExhausted
                        &&& !r.sealable(DIFFICULTY as nat, nonce_space())
                    },
                }
            }),
    {
        Block::with_difficulty(index, timestamp, data, previous_hash, DIFFICULTY)
    }

    /// Makes the block with these fields and seals it at `difficulty`.
    pub fn with_difficulty(
        index: usize,
        timestamp: u64,
        data: String,
        previous_hash: String,
        difficulty: usize,
    ) -> (made: Result<Block, LedgerError>)
        ensures
            ({
                let r = Record::unsealed(index as nat, timestamp as nat, data@, previous_hash@);
                match made {
                    Ok(block) => {
                        &&& r.sealable(difficulty as nat, nonce_space())
                        &&& block@ == r.sealed(difficulty as nat)
                        &&& block@.is_sealed(difficulty as nat)
                        &&& block@.hash.len() == 64
                    },
                    Err(e) => {
                        &&& e == LedgerError::SealingExhausted
                        &&& !r.sealable(difficulty as nat, nonce_space())
                    },
                }
            }),
    {
        let mut block = Block { index, timestamp, data, previous_hash, hash: String::new(), nonce: 0 };
        match block.mine(difficulty) {
            Ok(()) => Ok(block),
            Err(e) => Err(e),
        }
    }

    /// Recomputes the digest from the stored fields, nonce included. The
    /// stored digest plays no part in it.
    pub fn calculate_hash(&self) -> (hash: String)
        ensures
            hash@ == self@.digest(),
            hash@.len() == 64,
    {
        digest_hex(
            self.index,
            self.timestamp,
            self.data.as_str(),
            self.previous_hash.as_str(),
            self.nonce,
        )
    }

    /// Tests whether the stored digest is the digest of the stored fields and
    /// starts with `difficulty` zero digits.
    pub fn is_sealed(&self, difficulty: usize) -> (yes: bool)
        ensures
            yes == self@.is_sealed(difficulty as nat),
    {
        let hash = self.calculate_hash();
        hash == self.hash && starts_with_zeros(self.hash.as_str(), difficulty)
    }

    /// Tests whether [`Block::describe`] can be called: whether the digest can
    /// be cut after 10 bytes, and a payload of more than 50 bytes after 50,
    /// without splitting a character.
    pub fn can_describe(&self) -> (yes: bool)
        ensures
            yes == self@.describable(),
    {
        self.hash.as_str().is_char_boundary(10) && (self.data.as_str().as_bytes().len() <= 50
            || self.data.as_str().is_char_boundary(50))
    }

    /// Describes the block on one line, for a reader: `Block #`, the index,
    /// ` [Hash: `, the first 10 bytes of the digest, `...] - Data: `, and the
    /// payload, of which only the first 50 bytes and three dots are shown
    /// where it is longer than that.
    pub fn describe(&self) -> (text: String)
        requires
            self@.describable(),
        ensures
            text@ == self@.description(),
    {
        let mut text = "Block #".to_owned();
        push_decimal_text(&mut text, self.index as u64);
        text.append(" [Hash: ");
        let (head, _) = self.hash.as_str().split_at(10);
        proof {
            encode_utf8_decode_utf8(head@);
            assert(encode_utf8(head@) == encode_utf8(self.hash@).subrange(0, 10));
            assert(head@ == byte_prefix(self.hash@, 10));
        }
        text.append(head);
        text.append("...] - Data: ");
        if self.data.as_str().as_bytes().len() > 50 {
            let (shown, _) = self.data.as_str().split_at(50);
            proof {
                encode_utf8_decode_utf8(shown@);
                assert(encode_utf8(shown@) == encode_utf8(self.data@).subrange(0, 50));
                assert(shown@ == byte_prefix(self.data@, 50));
            }
            text.append(shown);
            text.append("...");
        } else {
            text.append(self.data.as_str());
        }
        assert(text@ =~= self@.description());
        text
    }

    /// Seals the block: sets `nonce` to the first nonce, counting up from
    /// zero, whose digest starts with `difficulty` zero digits, and `hash` to
    /// that digest. Where no nonce seals the block it is left as it was.
    fn mine(&mut self, difficulty: usize) -> (done: Result<(), LedgerError>)
        ensures
            match done {
                Ok(()) => {
                    &&& old(self)@.sealable(difficulty as nat, nonce_space())
                    &&& final(self)@ == old(self)@.sealed(difficulty as nat)
                    &&& final(self)@.is_sealed(difficulty as nat)
                    &&& final(self)@.hash.len() == 64
                },
                Err(e) => {
                    &&& e == LedgerError::SealingExhausted
                    &&& !old(self)@.sealable(difficulty as nat, nonce_space())
                    &&& final(self)@ == old(self)@
                },
            },
    {
        let found = seal(
            self.index,
            self.timestamp,
            self.data.as_str(),
            self.previous_hash.as_str(),
            difficulty,
            None,
        );
        proof {
            let fresh = Record::unsealed(
                self.index as nat,
                self.timestamp as nat,
                self.data@,
                self.previous_hash@,
            );
            lemma_seal_ignores_stored(fresh, self@, difficulty as nat);
        }
        match found {
            Ok((hash, nonce)) => {
                proof {
                    lemma_sealed_is_first_seal(self@, nonce as nat, difficulty as nat);
                }
                self.hash = hash;
                self.nonce = nonce;
                Ok(())
            },
            Err(e) => Err(e),
        }
    }
}

} // verus!
