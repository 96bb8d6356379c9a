//! SHA3-256 hashing (through the `sha3` crate) and its hexadecimal renderings.
use vstd::prelude::*;

use crate::bytes::{append_bytes, bytes_to_vec};
use vstd::string::StringSliceAdditionalSpecFns;
use crate::crypto::hexcodec::{hex_decode, hex_decode_bytes, hex_encode, hex_lower, HexError};
use crate::crypto::traits::{BlockchainHasher, TaggedBlockchainHasher};

verus! {

/// The SHA3-256 digest of a byte string, as computed by the `sha3` crate.
pub uninterp spec fn sha3_256_of(data: Seq<u8>) -> Seq<u8>;

/// `sha3::Sha3_256::digest`: the 32-byte SHA3-256 digest of `data`, named
/// `sha3_256_of`; the algorithm itself is not restated here.
#[verifier::external_body]
pub(crate) fn sha3_256(data: &[u8]) -> (out: [u8; 32])
    ensures
        out@ == sha3_256_of(data@),
{
    <::sha3::Sha3_256 as ::sha3::Digest>::digest(data).into()
}

/// SHA3-256 digest of a message, as a vector of 32 bytes.
pub fn hash_message(m: &[u8]) -> (h: Vec<u8>)
    ensures
        h@ == sha3_256_of(m@),
        h@.len() == 32,
{
    let d = sha3_256(m);
    bytes_to_vec(&d)
}

/// SHA3-256 digest of the UTF-8 bytes of a text.
pub fn hash_string(text: &str) -> (h: Vec<u8>)
    ensures
        h@ == sha3_256_of(text.spec_bytes()),
        h@.len() == 32,
{
    hash_message(text.as_bytes())
}

/// Lowercase hexadecimal text of a byte string.
pub fn hash_to_hex(hash: &[u8]) -> (s: String)
    ensures
        s@ == hex_lower(hash@),
{
    hex_encode(hash)
}

/// Hexadecimal text of the SHA3-256 digest of a message.
pub fn hash_message_hex(message: &[u8]) -> (s: String)
    ensures
        s@ == hex_lower(sha3_256_of(message@)),
{
    let h = hash_message(message);
    hash_to_hex(h.as_slice())
}

/// Hexadecimal text of the SHA3-256 digest of the UTF-8 bytes of a text.
pub fn hash_string_hex(text: &str) -> (s: String)
    ensures
        s@ == hex_lower(sha3_256_of(text.spec_bytes())),
{
    hash_message_hex(text.as_bytes())
}

/// Decodes hexadecimal text (either case) into bytes.
pub fn hex_to_bytes(hex_str: &str) -> (r: Result<Vec<u8>, HexError>)
    ensures
        match r {
            Ok(v) => hex_decode_bytes(hex_str.spec_bytes()) == Ok::<Seq<u8>, HexError>(v@),
            Err(e) => hex_decode_bytes(hex_str.spec_bytes()) == Err::<Seq<u8>, HexError>(e),
        },
{
    hex_decode(hex_str.as_bytes())
}

/// The SHA3-256 hasher.
pub struct Sha3Hasher;

impl BlockchainHasher for Sha3Hasher {
    type Output = [u8; 32];

    open spec fn digest_of(&self, message: Seq<u8>) -> Seq<u8> {
        sha3_256_of(message)
    }

    fn hash(&self, message: &[u8]) -> (out: [u8; 32]) {
        sha3_256(message)
    }

    fn hash_hex(&self, message: &[u8]) -> (s: String) {
        let h = self.hash(message);
        hex_encode(&h)
    }
}

impl TaggedBlockchainHasher for Sha3Hasher {
    fn hash_tagged(&self, tag: &'static [u8], msg: &[u8]) -> (out: [u8; 32]) {
        let t = self.hash(tag);
        let mut buf: Vec<u8> = Vec::new();
        append_bytes(&mut buf, &t);
        append_bytes(&mut buf, &t);
        append_bytes(&mut buf, msg);
        self.hash(buf.as_slice())
    }
}

} // verus!
