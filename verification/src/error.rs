//! Why a ledger operation can fail.

use vstd::prelude::*;

verus! {

/// The ways in which making a block can fail.
#[derive(Clone, Copy, Debug, PartialEq, Eq, Structural)]
pub enum LedgerError {
    /// No nonce among those that were tried gives a digest that meets the
    /// difficulty.
    SealingExhausted,
    /// The system clock reads a time before the Unix epoch, so there is no
    /// timestamp to put on the block.
    ClockBeforeEpoch,
}

} // verus!
