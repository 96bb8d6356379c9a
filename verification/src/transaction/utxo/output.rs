//! An output that pays a value to the owner of a 32-byte Ed25519 public key.
use vstd::prelude::*;

use crate::bytes::{append_bytes, bytes_eq, push_le, u64_le};
use crate::transaction::traits::TransactionOutputModel;

verus! {

/// A value and the public key of its recipient.
#[derive(Debug, Clone, Copy, PartialEq, Eq, Hash)]
pub struct UtxoOutput {
    value: u64,
    recipient_pubkey: [u8; 32],
}

impl View for UtxoOutput {
    /// The value and the recipient's key bytes.
    type V = (u64, Seq<u8>);

    closed spec fn view(&self) -> (u64, Seq<u8>) {
        (self.value, self.recipient_pubkey@)
    }
}

impl UtxoOutput {
    pub fn new(value: u64, recipient_pubkey: &[u8; 32]) -> (o: Self)
        ensures
            o@ == (value, recipient_pubkey@),
    {
        Self { value: value, recipient_pubkey: *recipient_pubkey }
    }

    /// The output's value.
    pub fn value(&self) -> (v: u64)
        ensures
            v == self@.0,
    {
        self.value
    }

    /// The recipient's public key.
    pub fn recipient_pubkey(&self) -> (k: &[u8; 32])
        ensures
            k@ == self@.1,
    {
        &self.recipient_pubkey
    }

    /// The recipient's key is always 32 bytes long.
    pub proof fn lemma_key_len(&self)
        ensures
            self@.1.len() == 32,
    {
    }
}

impl TransactionOutputModel for UtxoOutput {
    /// Owned by exactly the 32-byte key it pays to.
    fn is_owned_by(&self, owner: &[u8]) -> (r: bool)
        ensures
            r == (owner@ == self@.1),
    {
        if owner.len() != 32 {
            return false;
        }
        bytes_eq(self.recipient_pubkey.as_slice(), owner)
    }

    fn value(&self) -> (v: u64)
        ensures
            v == self@.0,
    {
        self.value
    }

    /// 40 bytes: the value (8 bytes, little-endian), then the key (32 bytes).
    fn to_bytes(&self) -> (bytes: Vec<u8>)
        ensures
            bytes@ == u64_le(self@.0) + self@.1,
    {
        let mut bytes: Vec<u8> = Vec::new();
        push_le(&mut bytes, self.value as u128, 8);
        append_bytes(&mut bytes, self.recipient_pubkey.as_slice());
        assert(bytes@ =~= u64_le(self@.0) + self@.1);
        bytes
    }
}

/// An output of `value` to the holder of `recipient_pubkey`.
pub fn create_output(value: u64, recipient_pubkey: &[u8; 32]) -> (o: UtxoOutput)
    ensures
        o@ == (value, recipient_pubkey@),
{
    UtxoOutput::new(value, recipient_pubkey)
}

/// Whether the output pays to `owner_pubkey`.
pub fn is_output_owned_by(output: &UtxoOutput, owner_pubkey: &[u8; 32]) -> (r: bool)
    ensures
        r == (owner_pubkey@ == output@.1),
{
    output.is_owned_by(owner_pubkey.as_slice())
}

/// The output's 40-byte serialisation.
pub fn output_to_bytes(output: &UtxoOutput) -> (bytes: Vec<u8>)
    ensures
        bytes@ == u64_le(output@.0) + output@.1,
{
    output.to_bytes()
}

/// The serialisation of an output is always 40 bytes long.
pub proof fn lemma_output_bytes_len(output: UtxoOutput)
    ensures
        (u64_le(output@.0) + output@.1).len() == 40,
{
    crate::bytes::lemma_le_bytes_len(output@.0 as nat, 8);
    output.lemma_key_len();
}

} // verus!
