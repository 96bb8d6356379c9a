//! Core of a small UTXO blockchain: Ed25519-signed transactions and blocks,
//! SHA3-256 identifiers, and a chain that validates blocks and keeps the set
//! of unspent outputs.
pub mod block;
pub mod blockchain;
pub mod bytes;
pub mod config;
pub mod crypto;
pub mod transaction;

pub use crate::crypto::traits::{
    BlockchainHasher, BlockchainSigner, CryptoEncoding, TaggedBlockchainHasher,
};

pub use crate::transaction::transaction::{
    OutPoint, Sighash, Transaction, TxCodec, TxInput, TxOutput, UtxoView,
};

pub use crate::block::Block;

pub use crate::blockchain::{Blockchain, UtxoSet};

pub use crate::config::{
    DefaultHasher, DefaultSigner, HashOutput, PrivateKey, PublicKey, Signature, HASHER, SIGNER,
};
