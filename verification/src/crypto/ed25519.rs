//! Ed25519 signatures through the `ed25519-dalek` crate. Keys and signatures
//! are held as their byte encodings: a 32-byte secret key, a 32-byte
//! compressed public key and a 64-byte signature.
use vstd::prelude::*;

use crate::bytes::bytes_to_vec;
use crate::crypto::traits::{BlockchainSigner, CryptoEncoding};

verus! {

/// The compressed public key that `ed25519-dalek` derives from a secret key.
pub uninterp spec fn ed25519_public_key_of(secret: Seq<u8>) -> Seq<u8>;

/// The signature that `ed25519-dalek` makes with a secret key on a message.
pub uninterp spec fn ed25519_signature_of(secret: Seq<u8>, message: Seq<u8>) -> Seq<u8>;

/// Whether `ed25519-dalek` accepts a signature on a message under a public key.
pub uninterp spec fn ed25519_accepts(public_key: Seq<u8>, message: Seq<u8>, signature: Seq<u8>) -> bool;

/// Whether 32 bytes decompress to a curve point (a usable public key).
pub uninterp spec fn ed25519_key_decodes(public_key: Seq<u8>) -> bool;

/// `SigningKey::generate` with the operating system's random source: 32
/// fresh random secret bytes. Nothing is promised of them.
#[verifier::external_body]
fn random_secret_key() -> [u8; 32] {
    ::ed25519_dalek::SigningKey::generate(&mut ::rand_core::OsRng).to_bytes()
}

/// `SigningKey::verifying_key`: the compressed public key of a secret key,
/// named `ed25519_public_key_of`; such a key always decompresses.
#[verifier::external_body]
fn derive_public_key(secret: &[u8; 32]) -> (pk: [u8; 32])
    ensures
        pk@ == ed25519_public_key_of(secret@),
        ed25519_key_decodes(pk@),
{
    ::ed25519_dalek::SigningKey::from_bytes(secret).verifying_key().to_bytes()
}

/// `Signer::sign` of `SigningKey`: the deterministic RFC 8032 signature,
/// named `ed25519_signature_of`; it verifies under the key's own public key.
#[verifier::external_body]
fn ed25519_sign(secret: &[u8; 32], message: &[u8]) -> (sig: [u8; 64])
    ensures
        sig@ == ed25519_signature_of(secret@, message@),
        ed25519_accepts(ed25519_public_key_of(secret@), message@, sig@),
{
    ::ed25519_dalek::Signer::sign(&::ed25519_dalek::SigningKey::from_bytes(secret), message).to_bytes()
}

/// `VerifyingKey::from_bytes` followed by `Verifier::verify`: named
/// `ed25519_accepts`; bytes that do not decompress to a point never verify.
#[verifier::external_body]
fn ed25519_verify(public_key: &[u8; 32], message: &[u8], signature: &[u8; 64]) -> (ok: bool)
    ensures
        ok == ed25519_accepts(public_key@, message@, signature@),
        !ed25519_key_decodes(public_key@) ==> !ok,
{
    match ::ed25519_dalek::VerifyingKey::from_bytes(public_key) {
        Ok(k) => ::ed25519_dalek::Verifier::verify(
            &k,
            message,
            &::ed25519_dalek::Signature::from_bytes(signature),
        ).is_ok(),
        Err(_) => false,
    }
}

/// `VerifyingKey::from_bytes`: whether 32 bytes decompress to a curve point.
#[verifier::external_body]
fn ed25519_decodes(public_key: &[u8; 32]) -> (ok: bool)
    ensures
        ok == ed25519_key_decodes(public_key@),
{
    ::ed25519_dalek::VerifyingKey::from_bytes(public_key).is_ok()
}

/// An Ed25519 secret key (32 bytes).
#[derive(Clone)]
pub struct SigningKey {
    bytes: [u8; 32],
}

/// An Ed25519 public key (32-byte compressed point).
#[derive(Debug, Clone, Copy, PartialEq, Eq)]
pub struct VerifyingKey {
    bytes: [u8; 32],
}

/// An Ed25519 signature (64 bytes).
#[derive(Debug, Clone, Copy, PartialEq, Eq)]
pub struct Signature {
    bytes: [u8; 64],
}

impl View for SigningKey {
    type V = Seq<u8>;

    closed spec fn view(&self) -> Seq<u8> {
        self.bytes@
    }
}

impl View for VerifyingKey {
    type V = Seq<u8>;

    closed spec fn view(&self) -> Seq<u8> {
        self.bytes@
    }
}

impl View for Signature {
    type V = Seq<u8>;

    closed spec fn view(&self) -> Seq<u8> {
        self.bytes@
    }
}

impl SigningKey {
    /// The secret key's 32 bytes.
    pub fn to_bytes(&self) -> (b: [u8; 32])
        ensures
            b@ == self@,
    {
        self.bytes
    }

    /// A secret key from its 32 bytes.
    pub fn from_bytes(bytes: &[u8; 32]) -> (k: SigningKey)
        ensures
            k@ == bytes@,
    {
        SigningKey { bytes: *bytes }
    }
}

impl VerifyingKey {
    /// The compressed point's 32 bytes.
    pub fn to_bytes(&self) -> (b: [u8; 32])
        ensures
            b@ == self@,
    {
        self.bytes
    }

    pub proof fn lemma_len(&self)
        ensures
            self@.len() == 32,
    {
    }
}

impl Signature {
    /// The signature's 64 bytes.
    pub fn to_bytes(&self) -> (b: [u8; 64])
        ensures
            b@ == self@,
    {
        self.bytes
    }

    /// A signature from its 64 bytes.
    pub fn from_bytes(bytes: &[u8; 64]) -> (s: Signature)
        ensures
            s@ == bytes@,
    {
        Signature { bytes: *bytes }
    }

    pub proof fn lemma_len(&self)
        ensures
            self@.len() == 64,
    {
    }
}

/// A fresh random secret key.
pub fn generate_keypair() -> SigningKey {
    SigningKey { bytes: random_secret_key() }
}

/// The public key of a secret key.
pub fn get_public_key(signing_key: &SigningKey) -> (pk: VerifyingKey)
    ensures
        pk@ == ed25519_public_key_of(signing_key@),
{
    VerifyingKey { bytes: derive_public_key(&signing_key.bytes) }
}

/// Signs a message; the signature verifies under the key's public key.
pub fn sign_message(signing_key: &SigningKey, message: &[u8]) -> (sig: Signature)
    ensures
        sig@ == ed25519_signature_of(signing_key@, message@),
        ed25519_accepts(ed25519_public_key_of(signing_key@), message@, sig@),
{
    Signature { bytes: ed25519_sign(&signing_key.bytes, message) }
}

/// Whether a signature on a message is valid under a public key.
pub fn verify_signature(signature: &Signature, pub_key: &VerifyingKey, message: &[u8]) -> (ok: bool)
    ensures
        ok == ed25519_accepts(pub_key@, message@, signature@),
{
    ed25519_verify(&pub_key.bytes, message, &signature.bytes)
}

/// Why bytes do not encode a key or a signature.
#[derive(Debug, Clone, Copy, PartialEq, Eq)]
pub enum CryptoError {
    /// The byte string does not have the encoding's length.
    InvalidLength,
    /// The 32 bytes do not decompress to a curve point.
    InvalidPublicKey,
}

/// The Ed25519 signature scheme.
pub struct Ed25519Signer;

impl BlockchainSigner for Ed25519Signer {
    type PrivateKey = SigningKey;
    type PublicKey = VerifyingKey;
    type Signature = Signature;
    type Error = CryptoError;

    open spec fn public_key_of(&self, private_key: Seq<u8>) -> Seq<u8> {
        ed25519_public_key_of(private_key)
    }

    open spec fn signature_of(&self, private_key: Seq<u8>, message: Seq<u8>) -> Seq<u8> {
        ed25519_signature_of(private_key, message)
    }

    open spec fn accepts(&self, public_key: Seq<u8>, message: Seq<u8>, signature: Seq<u8>) -> bool {
        ed25519_accepts(public_key, message, signature)
    }

    fn generate(&self) -> SigningKey {
        generate_keypair()
    }

    fn get_public_key(&self, private_key: &SigningKey) -> (pk: VerifyingKey) {
        get_public_key(private_key)
    }

    fn sign(&self, private_key: &SigningKey, message: &[u8]) -> (r: Result<Signature, CryptoError>)
        ensures
            r is Ok,
    {
        Ok(sign_message(private_key, message))
    }

    fn verify(&self, public_key: &VerifyingKey, message: &[u8], sign: &Signature) -> (ok: bool) {
        verify_signature(sign, public_key, message)
    }
}

impl CryptoEncoding for Ed25519Signer {
    type PublicKey = VerifyingKey;
    type Signature = Signature;
    type Error = CryptoError;

    fn pk_to_bytes(&self, pk: &VerifyingKey) -> (b: Vec<u8>)
        ensures
            b@ == pk@,
    {
        bytes_to_vec(&pk.bytes)
    }

    fn pk_from_bytes(&self, b: &[u8]) -> (r: Result<VerifyingKey, CryptoError>)
        ensures
            b@.len() != 32 ==> r == Err::<VerifyingKey, CryptoError>(CryptoError::InvalidLength),
            b@.len() == 32 && !ed25519_key_decodes(b@) ==> r == Err::<VerifyingKey, CryptoError>(
                CryptoError::InvalidPublicKey,
            ),
            b@.len() == 32 && ed25519_key_decodes(b@) ==> (r matches Ok(pk) && pk@ == b@),
    {
        if b.len() != 32 {
            return Err(CryptoError::InvalidLength);
        }
        let mut bytes = [0u8; 32];
        let mut i: usize = 0;
        while i < 32
            invariant
                b@.len() == 32,
                i <= 32,
                forall|j: int| 0 <= j < i ==> bytes@[j] == b@[j],
            decreases 32 - i,
        {
            bytes[i] = b[i];
            i = i + 1;
        }
        assert(bytes@ =~= b@);
        if ed25519_decodes(&bytes) {
            Ok(VerifyingKey { bytes })
        } else {
            Err(CryptoError::InvalidPublicKey)
        }
    }

    fn sig_to_bytes(&self, sig: Signature) -> (b: Vec<u8>)
        ensures
            b@ == sig@,
    {
        bytes_to_vec(&sig.bytes)
    }

    fn sig_from_bytes(&self, b: &[u8]) -> (r: Result<Signature, CryptoError>)
        ensures
            b@.len() != 64 ==> r == Err::<Signature, CryptoError>(CryptoError::InvalidLength),
            b@.len() == 64 ==> (r matches Ok(sig) && sig@ == b@),
    {
        if b.len() != 64 {
            return Err(CryptoError::InvalidLength);
        }
        let mut bytes = [0u8; 64];
        let mut i: usize = 0;
        while i < 64
            invariant
                b@.len() == 64,
                i <= 64,
                forall|j: int| 0 <= j < i ==> bytes@[j] == b@[j],
            decreases 64 - i,
        {
            bytes[i] = b[i];
            i = i + 1;
        }
        assert(bytes@ =~= b@);
        Ok(Signature { bytes })
    }
}

} // verus!
