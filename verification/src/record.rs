//! The mathematical content of a block, its digest, and what it means for a
//! nonce to seal it.
//!
//! A block's digest is the lower-case hex text of the SHA-256 digest of its
//! hash input. The hash input is, in this order and with nothing in between:
//! the index in decimal, the timestamp in decimal, the payload in UTF-8, the
//! previous block's digest in UTF-8, and the nonce in decimal.

use crate::decimal::decimal;
use crate::decimal::decimal_text;
use crate::hex::has_zero_prefix;
use crate::hex::lower_hex;
use crate::sha256::sha256;
use vstd::prelude::*;
use vstd::utf8::decode_utf8;
use vstd::utf8::encode_utf8;
use vstd::utf8::is_char_boundary;

verus! {

/// What a block holds, as plain mathematics.
#[verifier::ext_equal]
pub struct Record {
    /// Position in the ledger; the genesis block has index zero.
    pub index: nat,
    /// Seconds since the Unix epoch at which the block was made.
    pub timestamp: nat,
    /// The payload; the ledger does not look inside it.
    pub data: Seq<char>,
    /// The digest of the block before this one.
    pub previous_hash: Seq<char>,
    /// The digest stored with the block.
    pub hash: Seq<char>,
    /// The counter that sealing settled on.
    pub nonce: nat,
}

/// One more than the largest nonce a block can hold.
pub open spec fn nonce_space() -> nat {
    0x1_0000_0000_0000_0000
}

/// How many nonces a search tries: `max_attempts` where it is given, else
/// every nonce there is.
pub open spec fn attempt_limit(max_attempts: Option<u64>) -> nat {
    match max_attempts {
        Some(m) => m as nat,
        None => nonce_space(),
    }
}

/// The text that the first `count` bytes of the UTF-8 form of `text` hold.
pub open spec fn byte_prefix(text: Seq<char>, count: int) -> Seq<char> {
    decode_utf8(encode_utf8(text).subrange(0, count))
}

/// The bytes that are hashed for a block with these fields.
pub open spec fn hash_input_of(
    index: nat,
    timestamp: nat,
    data: Seq<char>,
    previous_hash: Seq<char>,
    nonce: nat,
) -> Seq<u8> {
    decimal(index) + decimal(timestamp) + encode_utf8(data) + encode_utf8(previous_hash) + decimal(
        nonce,
    )
}

/// The digest of a block with these fields.
pub open spec fn digest_of(
    index: nat,
    timestamp: nat,
    data: Seq<char>,
    previous_hash: Seq<char>,
    nonce: nat,
) -> Seq<char> {
    lower_hex(sha256(hash_input_of(index, timestamp, data, previous_hash, nonce)))
}

impl Record {
    /// A record with the given fields that no search has sealed yet: nonce
    /// zero and no digest.
    pub open spec fn unsealed(
        index: nat,
        timestamp: nat,
        data: Seq<char>,
        previous_hash: Seq<char>,
    ) -> Record {
        Record { index, timestamp, data, previous_hash, hash: Seq::empty(), nonce: 0 }
    }

    /// The bytes that are hashed for this record.
    pub open spec fn hash_input(self) -> Seq<u8> {
        hash_input_of(self.index, self.timestamp, self.data, self.previous_hash, self.nonce)
    }

    /// The digest that this record's fields give, whatever digest it stores.
    pub open spec fn digest(self) -> Seq<char> {
        digest_of(self.index, self.timestamp, self.data, self.previous_hash, self.nonce)
    }

    /// The digest that this record's fields give with `nonce` in place of
    /// its own.
    pub open spec fn digest_with(self, nonce: nat) -> Seq<char> {
        digest_of(self.index, self.timestamp, self.data, self.previous_hash, nonce)
    }

    /// Whether `nonce` gives this record a digest that starts with
    /// `difficulty` zero digits.
    pub open spec fn sealed_by(self, nonce: nat, difficulty: nat) -> bool {
        has_zero_prefix(self.digest_with(nonce), difficulty)
    }

    /// Whether `nonce` is the first one that seals this record.
    pub open spec fn first_seal(self, nonce: nat, difficulty: nat) -> bool {
        &&& self.sealed_by(nonce, difficulty)
        &&& forall|k: nat| k < nonce ==> !self.sealed_by(k, difficulty)
    }

    /// Whether some nonce below `limit` seals this record.
    pub open spec fn sealable(self, difficulty: nat, limit: nat) -> bool {
        exists|n: nat| n < limit && self.sealed_by(n, difficulty)
    }

    /// The first nonce that seals this record, where there is one.
    pub open spec fn seal_nonce(self, difficulty: nat) -> nat {
        choose|n: nat| self.first_seal(n, difficulty)
    }

    /// This record as the search for a seal leaves it: with the first nonce
    /// that seals it, and with the digest that this nonce gives.
    pub open spec fn sealed(self, difficulty: nat) -> Record {
        let nonce = self.seal_nonce(difficulty);
        Record { nonce, hash: self.digest_with(nonce), ..self }
    }

    /// Whether the stored digest is the digest of the fields and starts with
    /// `difficulty` zero digits.
    pub open spec fn is_sealed(self, difficulty: nat) -> bool {
        &&& self.hash == self.digest()
        &&& has_zero_prefix(self.hash, difficulty)
    }

    /// Whether the record can be described on one line: the digest can be cut
    /// after 10 bytes, and a payload of more than 50 bytes after 50, without
    /// splitting a character.
    pub open spec fn describable(self) -> bool {
        &&& is_char_boundary(encode_utf8(self.hash), 10)
        &&& encode_utf8(self.data).len() > 50 ==> is_char_boundary(encode_utf8(self.data), 50)
    }

    /// The payload as a description shows it: whole where it takes up to 50
    /// bytes, else its first 50 bytes and three dots.
    pub open spec fn shown_data(self) -> Seq<char> {
        if encode_utf8(self.data).len() > 50 {
            byte_prefix(self.data, 50) + "..."@
        } else {
            self.data
        }
    }

    /// The one-line description of the record: its index, the first 10 bytes
    /// of its digest, and its payload, cut short where it is long.
    pub open spec fn description(self) -> Seq<char> {
        "Block #"@ + decimal_text(self.index) + " [Hash: "@ + byte_prefix(self.hash, 10)
            + "...] - Data: "@ + self.shown_data()
    }
}

/// Which nonces seal a record depends on its index, timestamp, payload and
/// previous digest, and not on the nonce and digest that it stores.
pub proof fn lemma_seal_ignores_stored(a: Record, b: Record, difficulty: nat)
    requires
        a.index == b.index,
        a.timestamp == b.timestamp,
        a.data == b.data,
        a.previous_hash == b.previous_hash,
    ensures
        forall|n: nat| a.sealed_by(n, difficulty) == b.sealed_by(n, difficulty),
        forall|n: nat| a.first_seal(n, difficulty) == b.first_seal(n, difficulty),
        forall|limit: nat| a.sealable(difficulty, limit) == b.sealable(difficulty, limit),
{
    assert forall|n: nat| a.sealed_by(n, difficulty) == b.sealed_by(n, difficulty) by {
        assert(a.digest_with(n) == b.digest_with(n));
    }
    assert forall|n: nat| a.first_seal(n, difficulty) == b.first_seal(n, difficulty) by {
        if a.first_seal(n, difficulty) {
            assert forall|k: nat| k < n implies !b.sealed_by(k, difficulty) by {
                assert(!a.sealed_by(k, difficulty));
            }
        }
        if b.first_seal(n, difficulty) {
            assert forall|k: nat| k < n implies !a.sealed_by(k, difficulty) by {
                assert(!b.sealed_by(k, difficulty));
            }
        }
    }
    assert forall|limit: nat| a.sealable(difficulty, limit) == b.sealable(difficulty, limit) by {
        if a.sealable(difficulty, limit) {
            let n = choose|n: nat| n < limit && a.sealed_by(n, difficulty);
            assert(b.sealed_by(n, difficulty));
        }
        if b.sealable(difficulty, limit) {
            let n = choose|n: nat| n < limit && b.sealed_by(n, difficulty);
            assert(a.sealed_by(n, difficulty));
        }
    }
}

/// At most one nonce is the first that seals a record.
pub proof fn lemma_first_seal_unique(r: Record, a: nat, b: nat, difficulty: nat)
    requires
        r.first_seal(a, difficulty),
        r.first_seal(b, difficulty),
    ensures
        a == b,
{
    if a < b {
        assert(!r.sealed_by(a, difficulty));
    } else if b < a {
        assert(!r.sealed_by(b, difficulty));
    }
}

/// A record that the nonce `nonce` seals first is, once sealed, exactly that
/// record with `nonce` and its digest.
pub proof fn lemma_sealed_is_first_seal(r: Record, nonce: nat, difficulty: nat)
    requires
        r.first_seal(nonce, difficulty),
    ensures
        r.seal_nonce(difficulty) == nonce,
        r.sealed(difficulty) == (Record { nonce, hash: r.digest_with(nonce), ..r }),
        r.sealed(difficulty).is_sealed(difficulty),
{
    lemma_first_seal_unique(r, r.seal_nonce(difficulty), nonce, difficulty);
}

/// Among the nonces that seal a record there is a first one.
pub proof fn lemma_sealable_has_first(r: Record, difficulty: nat, limit: nat)
    requires
        r.sealable(difficulty, limit),
    ensures
        r.first_seal(r.seal_nonce(difficulty), difficulty),
        r.seal_nonce(difficulty) < limit,
{
    let n = choose|n: nat| n < limit && r.sealed_by(n, difficulty);
    lemma_first_below(r, difficulty, n);
    let m = choose|m: nat| m <= n && r.first_seal(m, difficulty);
    lemma_first_seal_unique(r, r.seal_nonce(difficulty), m, difficulty);
}

/// Below or at a sealing nonce lies a first sealing nonce.
proof fn lemma_first_below(r: Record, difficulty: nat, n: nat)
    requires
        r.sealed_by(n, difficulty),
    ensures
        exists|m: nat| m <= n && r.first_seal(m, difficulty),
    decreases n,
{
    if forall|k: nat| k < n ==> !r.sealed_by(k, difficulty) {
        assert(r.first_seal(n, difficulty));
    } else {
        let k = choose|k: nat| k < n && r.sealed_by(k, difficulty);
        lemma_first_below(r, difficulty, k);
        let m = choose|m: nat| m <= k && r.first_seal(m, difficulty);
        assert(m <= n && r.first_seal(m, difficulty));
    }
}

} // verus!
