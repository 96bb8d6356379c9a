//! Blocks: an index, a link to the previous block, a timestamp, the
//! transactions, and the author's signature over all of it.
use vstd::prelude::*;

use crate::bytes::{append_bytes, push_le, u128_le, u32_le, zeros};
use crate::config::{HashOutput, PrivateKey, PublicKey, Signature, HASHER, SIGNER};
use crate::crypto::ed25519::{ed25519_accepts, ed25519_public_key_of, ed25519_signature_of};
use crate::crypto::sha3::sha3_256_of;
use crate::crypto::hash::{le_value, lemma_le_value_of_le_bytes, pow256};
use crate::crypto::traits::{BlockchainHasher, BlockchainSigner, CryptoEncoding};
use crate::transaction::transaction::Transaction;

verus! {

broadcast use vstd::array::group_array_axioms;

/// Milliseconds since the Unix epoch by the system clock, or `None` when
/// the clock reads earlier than the epoch (`SystemTime::now` and
/// `duration_since`). Nothing is promised of the value.
#[verifier::external_body]
fn unix_time_millis() -> Option<u128> {
    match std::time::SystemTime::now().duration_since(std::time::UNIX_EPOCH) {
        Ok(d) => Some(d.as_millis()),
        Err(_) => None,
    }
}

#[derive(Debug, Clone)]
pub struct Block {
    pub hash: HashOutput,
    pub index: u32,
    pub prev_block_hash: HashOutput,
    pub timestamp: u128,
    pub transactions: Vec<Transaction>,
    pub author: PublicKey,
    pub signature: Option<Signature>,
}

/// The TXIDs of a list of transactions, one after the other.
pub open spec fn txids_concat(txs: Seq<Transaction>) -> Seq<u8>
    decreases txs.len(),
{
    if txs.len() == 0 {
        Seq::empty()
    } else {
        txids_concat(txs.drop_last()) + txs.last().spec_txid()
    }
}

impl Block {
    pub open spec fn spec_is_genesis(&self) -> bool {
        self.index == 0 && self.prev_block_hash@ == zeros(32)
    }

    /// What the author signs: index, previous hash, timestamp, the number of
    /// transactions, their TXIDs and the author's public key.
    pub open spec fn signing_bytes(&self) -> Seq<u8> {
        u32_le(self.index) + self.prev_block_hash@ + u128_le(self.timestamp) + u32_le(
            self.transactions@.len() as u32,
        ) + txids_concat(self.transactions@) + self.author@
    }

    /// What the block hash covers: the signed bytes, then the signature (with
    /// its length) when there is one.
    pub open spec fn hashing_bytes(&self) -> Seq<u8> {
        self.signing_bytes() + match self.signature {
            None => Seq::empty(),
            Some(sig) => u32_le(64) + sig@,
        }
    }

    /// The hash that a block with these contents should carry.
    pub open spec fn spec_hash(&self) -> Seq<u8> {
        sha3_256_of(self.hashing_bytes())
    }

    /// Whether the block carries a signature that its author's key accepts.
    pub open spec fn signature_valid(&self) -> bool {
        match self.signature {
            None => false,
            Some(sig) => ed25519_accepts(self.author@, self.signing_bytes(), sig@),
        }
    }

    /// An unsigned block with the given timestamp (milliseconds since the
    /// Unix epoch); its hash is all zeros until it is signed.
    pub fn with_timestamp(
        index: u32,
        prev_block_hash: HashOutput,
        timestamp: u128,
        transactions: Vec<Transaction>,
        author: PublicKey,
    ) -> (b: Self)
        ensures
            b.hash@ == zeros(32),
            b.index == index,
            b.prev_block_hash == prev_block_hash,
            b.timestamp == timestamp,
            b.transactions@ == transactions@,
            b.author == author,
            b.signature is None,
    {
        let b = Self {
            hash: [0u8; 32],
            index,
            prev_block_hash,
            timestamp,
            transactions,
            author,
            signature: None,
        };
        assert(b.hash@ =~= zeros(32));
        b
    }

    /// An unsigned block stamped with a clock reading: the reading in
    /// milliseconds since the Unix epoch, or 0 where the clock read earlier
    /// than the epoch (`None`).
    pub fn from_clock_reading(
        index: u32,
        prev_block_hash: HashOutput,
        transactions: Vec<Transaction>,
        author: PublicKey,
        reading: Option<u128>,
    ) -> (b: Self)
        ensures
            b.hash@ == zeros(32),
            b.index == index,
            b.prev_block_hash == prev_block_hash,
            b.timestamp == match reading {
                Some(t) => t,
                None => 0,
            },
            b.transactions@ == transactions@,
            b.author == author,
            b.signature is None,
    {
        let timestamp: u128 = match reading {
            Some(t) => t,
            None => 0,
        };
        Self::with_timestamp(index, prev_block_hash, timestamp, transactions, author)
    }

    /// An unsigned block stamped with the current time; its hash is all
    /// zeros until it is signed. A clock that reads earlier than the Unix
    /// epoch gives timestamp 0.
    pub fn new(
        index: u32,
        prev_block_hash: HashOutput,
        transactions: Vec<Transaction>,
        author: PublicKey,
    ) -> (b: Self)
        ensures
            b.hash@ == zeros(32),
            b.index == index,
            b.prev_block_hash == prev_block_hash,
            b.transactions@ == transactions@,
            b.author == author,
            b.signature is None,
    {
        Self::from_clock_reading(index, prev_block_hash, transactions, author, unix_time_millis())
    }

    /// The unsigned genesis block of an author: index 0, no previous block,
    /// no transactions.
    pub fn genesis(author: PublicKey) -> (b: Self)
        ensures
            b.hash@ == zeros(32),
            b.index == 0,
            b.prev_block_hash@ == zeros(32),
            b.transactions@ == Seq::<Transaction>::empty(),
            b.author == author,
            b.signature is None,
            b.spec_is_genesis(),
    {
        let b = Self::new(0, [0u8; 32], Vec::new(), author);
        assert(b.prev_block_hash@ =~= zeros(32));
        b
    }

    /// The number of transactions in the block.
    pub fn transaction_count(&self) -> (n: usize)
        ensures
            n == self.transactions@.len(),
    {
        self.transactions.len()
    }

    /// Whether this is a genesis block: index 0 and an all-zero previous hash.
    pub fn is_genesis(&self) -> (r: bool)
        ensures
            r == self.spec_is_genesis(),
    {
        let zero: [u8; 32] = [0u8; 32];
        assert(zero@ =~= zeros(32));
        self.index == 0 && crate::bytes::bytes_eq(self.prev_block_hash.as_slice(), zero.as_slice())
    }

    /// The bytes that the author signs.
    pub fn to_bytes_for_signing(&self) -> (bytes: Vec<u8>)
        ensures
            bytes@ == self.signing_bytes(),
            bytes@.len() == 88 + 32 * self.transactions@.len(),
    {
        let mut bytes: Vec<u8> = Vec::new();
        push_le(&mut bytes, self.index as u128, 4);
        append_bytes(&mut bytes, self.prev_block_hash.as_slice());
        push_le(&mut bytes, self.timestamp, 16);
        let count: u32 = self.transactions.len() as u32;
        push_le(&mut bytes, count as u128, 4);
        let ghost head = bytes@;
        proof {
            crate::bytes::lemma_le_bytes_len(self.index as nat, 4);
            crate::bytes::lemma_le_bytes_len(self.timestamp as nat, 16);
            crate::bytes::lemma_le_bytes_len(count as nat, 4);
        }
        let mut i: usize = 0;
        while i < self.transactions.len()
            invariant
                i <= self.transactions@.len(),
                bytes@ == head + txids_concat(self.transactions@.subrange(0, i as int)),
                head.len() == 56,
                bytes@.len() == 56 + 32 * i,
            decreases self.transactions@.len() - i,
        {
            let id = self.transactions[i].txid();
            append_bytes(&mut bytes, id.as_slice());
            assert(self.transactions@.subrange(0, i + 1).drop_last() =~= self.transactions@.subrange(
                0,
                i as int,
            ));
            assert(bytes@ =~= head + txids_concat(self.transactions@.subrange(0, i + 1)));
            i = i + 1;
        }
        assert(self.transactions@.subrange(0, i as int) =~= self.transactions@);
        let author = self.author.to_bytes();
        append_bytes(&mut bytes, author.as_slice());
        assert(bytes@ =~= self.signing_bytes());
        bytes
    }

    /// The bytes that the block hash covers.
    fn to_bytes_for_hashing(&self) -> (bytes: Vec<u8>)
        ensures
            bytes@ == self.hashing_bytes(),
    {
        let mut bytes = self.to_bytes_for_signing();
        if let Some(sig) = self.signature {
            let sig_bytes = SIGNER.sig_to_bytes(sig);
            proof {
                sig.lemma_len();
            }
            let n: u32 = sig_bytes.len() as u32;
            push_le(&mut bytes, n as u128, 4);
            append_bytes(&mut bytes, sig_bytes.as_slice());
            assert(bytes@ =~= self.hashing_bytes());
        } else {
            assert(bytes@ =~= self.hashing_bytes());
        }
        bytes
    }

    /// The block hash: SHA3-256 of the signed bytes and the signature.
    pub fn calculate_hash(&self) -> (h: HashOutput)
        ensures
            h@ == self.spec_hash(),
    {
        let data = self.to_bytes_for_hashing();
        HASHER.hash(data.as_slice())
    }

    /// Signs the block with `private_key`, then sets its hash, which covers
    /// the signature. Signed with the author's own key, the block's
    /// signature is then valid.
    pub fn sign_and_finalize(&mut self, private_key: &PrivateKey) -> (r: Result<(), &'static str>)
        ensures
            r is Ok,
            final(self).index == old(self).index,
            final(self).prev_block_hash == old(self).prev_block_hash,
            final(self).timestamp == old(self).timestamp,
            final(self).transactions == old(self).transactions,
            final(self).author == old(self).author,
            final(self).signing_bytes() == old(self).signing_bytes(),
            final(self).signature matches Some(sig) && sig@ == ed25519_signature_of(
                private_key@,
                old(self).signing_bytes(),
            ),
            final(self).hash@ == final(self).spec_hash(),
            final(self).author@ == ed25519_public_key_of(private_key@)
                ==> final(self).signature_valid(),
    {
        let data = self.to_bytes_for_signing();
        let signature = match SIGNER.sign(private_key, data.as_slice()) {
            Ok(s) => s,
            Err(_) => {
                return Err("Failed to sign block");
            },
        };
        self.signature = Some(signature);
        self.hash = self.calculate_hash();
        Ok(())
    }

    /// Whether the block is signed and its author's key accepts the signature.
    pub fn verify_signature(&self) -> (ok: bool)
        ensures
            ok == self.signature_valid(),
    {
        match &self.signature {
            None => false,
            Some(sig) => {
                let data = self.to_bytes_for_signing();
                SIGNER.verify(&self.author, data.as_slice(), sig)
            },
        }
    }
}

/// Where the fixed fields lie in the bytes a block's author signs: the
/// index in the first 4 bytes, then the previous hash (32 bytes), the
/// timestamp (16 bytes) and the number of transactions (4 bytes), the
/// numbers little-endian; the author's public key is the last 32 bytes.
pub proof fn lemma_signing_layout(b: Block)
    requires
        b.transactions@.len() <= u32::MAX,
    ensures
        le_value(b.signing_bytes().subrange(0, 4)) == b.index,
        b.signing_bytes().subrange(4, 36) == b.prev_block_hash@,
        le_value(b.signing_bytes().subrange(36, 52)) == b.timestamp,
        le_value(b.signing_bytes().subrange(52, 56)) == b.transactions@.len(),
        b.signing_bytes().len() >= 88,
        b.signing_bytes().subrange(
            b.signing_bytes().len() - 32,
            b.signing_bytes().len() as int,
        ) == b.author@,
{
    let n = b.transactions@.len();
    let i = u32_le(b.index);
    let t = u128_le(b.timestamp);
    let c = u32_le(n as u32);
    let all = b.signing_bytes();
    let mid = txids_concat(b.transactions@);
    assert(all == i + b.prev_block_hash@ + t + c + mid + b.author@);
    reveal_with_fuel(pow256, 17);
    assert(pow256(16) == 0x1_0000_0000_0000_0000_0000_0000_0000_0000);
    lemma_le_value_of_le_bytes(b.index as nat, 4);
    lemma_le_value_of_le_bytes(b.timestamp as nat, 16);
    lemma_le_value_of_le_bytes(n as nat, 4);
    b.author.lemma_len();
    assert(all.subrange(0, 4) =~= i);
    assert(all.subrange(4, 36) =~= b.prev_block_hash@);
    assert(all.subrange(36, 52) =~= t);
    assert(all.subrange(52, 56) =~= c);
    assert(all.subrange(all.len() - 32, all.len() as int) =~= b.author@);
}

} // verus!
