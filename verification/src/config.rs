//! The algorithms the chain is configured with, and the key, signature and
//! digest types that follow from them.
use vstd::prelude::*;

use crate::crypto::ed25519::{Ed25519Signer, SigningKey, VerifyingKey};
use crate::crypto::sha3::Sha3Hasher;

verus! {

pub type DefaultSigner = Ed25519Signer;

pub type DefaultHasher = Sha3Hasher;

pub type PrivateKey = SigningKey;

pub type PublicKey = VerifyingKey;

pub type Signature = crate::crypto::ed25519::Signature;

/// A 32-byte digest.
pub type HashOutput = [u8; 32];

/// The signer that the chain uses.
pub const SIGNER: DefaultSigner = Ed25519Signer;

/// The hasher that the chain uses.
pub const HASHER: DefaultHasher = Sha3Hasher;

} // verus!
