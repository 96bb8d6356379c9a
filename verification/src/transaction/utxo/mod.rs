//! Outputs owned by a full 32-byte public key.
pub mod output;

pub use self::output::{create_output, is_output_owned_by, output_to_bytes, UtxoOutput};
