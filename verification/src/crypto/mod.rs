//! Cryptographic primitives: Ed25519 signatures, SHA3-256 hashing, the
//! incremental `Hasher`, hexadecimal text, and the traits that abstract them.
pub mod ed25519;
pub mod hash;
pub mod hexcodec;
pub mod sha3;
pub mod traits;

pub use self::ed25519::{
    generate_keypair, get_public_key, sign_message, verify_signature, CryptoError, Ed25519Signer,
};
pub use self::hash::{Hashable, Hasher, U256};
pub use self::hexcodec::HexError;
pub use self::sha3::{
    hash_message, hash_message_hex, hash_string, hash_string_hex, hash_to_hex, hex_to_bytes,
    Sha3Hasher,
};
pub use self::traits::{BlockchainHasher, BlockchainSigner, CryptoEncoding, TaggedBlockchainHasher};
