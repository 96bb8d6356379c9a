//! Transactions: inputs, outputs, serialisation and signature hashes.
pub mod traits;
pub mod transaction;
pub mod utxo;

pub use self::traits::{TransactionInputModel, TransactionModel, TransactionOutputModel};
pub use self::transaction::{
    OutPoint, Sighash, StandardSighash, Transaction, TxCodec, TxInput, TxOutput, UtxoView,
};
