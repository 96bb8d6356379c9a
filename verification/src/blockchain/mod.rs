//! The chain of blocks and the set of unspent outputs that it determines.
pub mod blockchain;
pub mod messages;
pub mod utxo_set;

pub use self::blockchain::{Blockchain, ChainError};
pub use self::utxo_set::UtxoSet;
