//! Algorithm-agnostic interfaces for the signature scheme and the hash
//! function that the chain is built on.
use vstd::prelude::*;

use crate::crypto::hexcodec::hex_lower;

verus! {

/// A digital signature scheme. Keys and signatures are viewed as byte strings;
/// `public_key_of`, `signature_of` and `accepts` describe the scheme.
pub trait BlockchainSigner {
    type PrivateKey: View<V = Seq<u8>>;
    type PublicKey: View<V = Seq<u8>>;
    type Signature: View<V = Seq<u8>>;
    type Error;

    /// The public key that belongs to a private key.
    spec fn public_key_of(&self, private_key: Seq<u8>) -> Seq<u8>;

    /// The signature that a private key makes on a message.
    spec fn signature_of(&self, private_key: Seq<u8>, message: Seq<u8>) -> Seq<u8>;

    /// Whether a signature on a message is valid under a public key.
    spec fn accepts(&self, public_key: Seq<u8>, message: Seq<u8>, signature: Seq<u8>) -> bool;

    fn generate(&self) -> Self::PrivateKey;

    fn get_public_key(&self, private_key: &Self::PrivateKey) -> (pk: Self::PublicKey)
        ensures
            pk@ == self.public_key_of(private_key@),
    ;

    /// A signature made with a private key is accepted under its public key.
    fn sign(&self, private_key: &Self::PrivateKey, message: &[u8]) -> (r: Result<
        Self::Signature,
        Self::Error,
    >)
        ensures
            r matches Ok(sig) ==> {
                &&& sig@ == self.signature_of(private_key@, message@)
                &&& self.accepts(self.public_key_of(private_key@), message@, sig@)
            },
    ;

    fn verify(&self, public_key: &Self::PublicKey, message: &[u8], sign: &Self::Signature) -> (ok:
        bool)
        ensures
            ok == self.accepts(public_key@, message@, sign@),
    ;
}

/// A hash function with a byte-string digest `digest_of`.
pub trait BlockchainHasher {
    type Output: View<V = Seq<u8>>;

    spec fn digest_of(&self, message: Seq<u8>) -> Seq<u8>;

    fn hash(&self, message: &[u8]) -> (out: Self::Output)
        ensures
            out@ == self.digest_of(message@),
    ;

    /// The digest as lowercase hexadecimal text.
    fn hash_hex(&self, message: &[u8]) -> (s: String)
        ensures
            s@ == hex_lower(self.digest_of(message@)),
    ;
}

/// Tagged hashing (BIP-340/341 style): `H(H(tag) || H(tag) || msg)`.
pub trait TaggedBlockchainHasher: BlockchainHasher {
    fn hash_tagged(&self, tag: &'static [u8], msg: &[u8]) -> (out: Self::Output)
        ensures
            out@ == self.digest_of(self.digest_of(tag@) + self.digest_of(tag@) + msg@),
    ;
}

/// Conversion of keys and signatures to and from bytes, so that the
/// transaction layer can stay at the byte level.
pub trait CryptoEncoding {
    type PublicKey;
    type Signature;
    type Error;

    fn pk_to_bytes(&self, pk: &Self::PublicKey) -> Vec<u8>;

    fn pk_from_bytes(&self, b: &[u8]) -> Result<Self::PublicKey, Self::Error>;

    fn sig_to_bytes(&self, sig: Self::Signature) -> Vec<u8>;

    fn sig_from_bytes(&self, b: &[u8]) -> Result<Self::Signature, Self::Error>;
}

} // verus!
