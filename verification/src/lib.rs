//! An append-only, tamper-evident ledger of proof-of-work sealed blocks.
//!
//! Every block commits to its predecessor by carrying that block's SHA-256
//! digest, and is sealed by searching for the first nonce whose digest starts
//! with a required number of zero hex digits.
//!
//! [`Blockchain`] is the ledger and [`Block`] its unit. Their contracts are
//! stated over [`record::Record`], the mathematical content of a block, and
//! over sequences of records; [`integrity`] holds what follows from them.

pub mod block;
pub mod blockchain;
pub mod chain;
pub mod clock;
pub mod decimal;
pub mod error;
pub mod hex;
pub mod integrity;
pub mod record;
pub mod sha256;
pub mod strings;

pub use block::Block;
pub use block::DIFFICULTY;
pub use blockchain::Blockchain;
pub use chain::ChainFault;
pub use chain::FaultKind;
pub use error::LedgerError;
