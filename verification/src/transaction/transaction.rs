//! Transactions of the UTXO model: inputs that spend earlier outputs, new
//! outputs, their byte serialisations, identifiers and signature hashes.
use vstd::prelude::*;

use crate::bytes::{append_bytes, push_le, u32_le, u64_le};
use crate::config::{HashOutput, HASHER, SIGNER};
use crate::crypto::ed25519::{Signature, VerifyingKey};
use crate::crypto::hash::le_value;
use crate::crypto::sha3::sha3_256_of;
use crate::crypto::traits::{BlockchainHasher, CryptoEncoding};

verus! {

broadcast use vstd::array::group_array_axioms;

/// A reference to one output of an earlier transaction.
#[derive(Debug, Clone, Copy, PartialEq, Eq, Hash)]
pub struct OutPoint {
    pub txid: HashOutput,
    pub index: u32,
}

/// An input: the output it spends, the signature that authorises it and the
/// public key to check the signature with.
#[derive(Debug, Clone, Copy)]
pub struct TxInput {
    pub previous_tx_id: HashOutput,
    pub output_index: u32,
    pub signature: Signature,
    pub public_key: VerifyingKey,
}

/// An output: an amount and the 20-byte address of its recipient.
#[derive(Debug, Clone, Copy, PartialEq, Eq)]
pub struct TxOutput {
    pub amount: u64,
    pub recipient: [u8; 20],
}

/// A transaction; one without inputs is a coinbase.
#[derive(Debug, Clone)]
pub struct Transaction {
    pub inputs: Vec<TxInput>,
    pub outputs: Vec<TxOutput>,
}

impl OutPoint {
    /// Whether two outpoints name the same output.
    pub fn same_as(&self, other: &OutPoint) -> (r: bool)
        ensures
            r == (*self == *other),
    {
        if self.index != other.index {
            return false;
        }
        let eq = crate::bytes::bytes_eq(self.txid.as_slice(), other.txid.as_slice());
        if eq {
            assert(self.txid =~= other.txid);
        }
        eq
    }
}

impl TxInput {
    /// The output that this input spends.
    pub open spec fn spec_outpoint(&self) -> OutPoint {
        OutPoint { txid: self.previous_tx_id, index: self.output_index }
    }

    pub fn outpoint(&self) -> (op: OutPoint)
        ensures
            op == self.spec_outpoint(),
    {
        OutPoint { txid: self.previous_tx_id, index: self.output_index }
    }
}

/// The part of an input that every serialisation starts with.
pub open spec fn input_core_bytes(input: TxInput) -> Seq<u8> {
    input.previous_tx_id@ + u32_le(input.output_index)
}

/// Serialised inputs without signatures: outpoint and public key.
pub open spec fn inputs_no_witness(inputs: Seq<TxInput>) -> Seq<u8>
    decreases inputs.len(),
{
    if inputs.len() == 0 {
        Seq::empty()
    } else {
        inputs_no_witness(inputs.drop_last()) + input_core_bytes(inputs.last())
            + inputs.last().public_key@
    }
}

/// Serialised inputs with signatures: outpoint, signature length, signature, public key.
pub open spec fn inputs_with_witness(inputs: Seq<TxInput>) -> Seq<u8>
    decreases inputs.len(),
{
    if inputs.len() == 0 {
        Seq::empty()
    } else {
        inputs_with_witness(inputs.drop_last()) + input_core_bytes(inputs.last()) + u32_le(64)
            + inputs.last().signature@ + inputs.last().public_key@
    }
}

/// Serialised inputs for signing input `signer`: outpoints only, plus the
/// public key of the input being signed.
pub open spec fn inputs_for_signing(inputs: Seq<TxInput>, signer: int) -> Seq<u8>
    decreases inputs.len(),
{
    if inputs.len() == 0 {
        Seq::empty()
    } else {
        inputs_for_signing(inputs.drop_last(), signer) + input_core_bytes(inputs.last()) + (
        if inputs.len() - 1 == signer {
            inputs.last().public_key@
        } else {
            Seq::empty()
        })
    }
}

/// Serialised outputs: amount and recipient of each.
pub open spec fn outputs_bytes(outputs: Seq<TxOutput>) -> Seq<u8>
    decreases outputs.len(),
{
    if outputs.len() == 0 {
        Seq::empty()
    } else {
        outputs_bytes(outputs.drop_last()) + u64_le(outputs.last().amount) + outputs.last().recipient@
    }
}

/// Sum of the amounts of a list of outputs.
pub open spec fn sum_amounts(outputs: Seq<TxOutput>) -> nat
    decreases outputs.len(),
{
    if outputs.len() == 0 {
        0
    } else {
        sum_amounts(outputs.drop_last()) + outputs.last().amount as nat
    }
}

pub proof fn lemma_sum_amounts_prefix(outputs: Seq<TxOutput>, i: int)
    requires
        0 <= i <= outputs.len(),
    ensures
        sum_amounts(outputs.subrange(0, i)) <= sum_amounts(outputs),
    decreases outputs.len(),
{
    if i < outputs.len() {
        assert(outputs.drop_last().subrange(0, i) =~= outputs.subrange(0, i));
        lemma_sum_amounts_prefix(outputs.drop_last(), i);
    } else {
        assert(outputs.subrange(0, i) =~= outputs);
    }
}

/// Serialised input length without witness: 32 + 4 + 32 bytes per input.
pub proof fn lemma_inputs_lengths(inputs: Seq<TxInput>)
    ensures
        inputs_no_witness(inputs).len() == 68 * inputs.len(),
        inputs_with_witness(inputs).len() == 136 * inputs.len(),
    decreases inputs.len(),
{
    if inputs.len() > 0 {
        lemma_inputs_lengths(inputs.drop_last());
        crate::bytes::lemma_le_bytes_len(inputs.last().output_index as nat, 4);
        crate::bytes::lemma_le_bytes_len(64, 4);
        inputs.last().public_key.lemma_len();
        inputs.last().signature.lemma_len();
    }
}

impl Transaction {
    /// Serialisation without signatures, from which the TXID is computed.
    pub open spec fn no_witness_bytes(&self) -> Seq<u8> {
        u32_le(self.inputs@.len() as u32) + inputs_no_witness(self.inputs@) + u32_le(
            self.outputs@.len() as u32,
        ) + outputs_bytes(self.outputs@)
    }

    /// Full serialisation, signatures included.
    pub open spec fn with_witness_bytes(&self) -> Seq<u8> {
        u32_le(self.inputs@.len() as u32) + inputs_with_witness(self.inputs@) + u32_le(
            self.outputs@.len() as u32,
        ) + outputs_bytes(self.outputs@)
    }

    /// What the owner of input `input_index` signs.
    pub open spec fn signing_bytes(&self, input_index: int) -> Seq<u8> {
        u32_le(self.inputs@.len() as u32) + inputs_for_signing(self.inputs@, input_index) + u32_le(
            self.outputs@.len() as u32,
        ) + outputs_bytes(self.outputs@)
    }

    /// The transaction identifier: SHA3-256 of the serialisation without signatures.
    pub open spec fn spec_txid(&self) -> Seq<u8> {
        sha3_256_of(self.no_witness_bytes())
    }

    /// The signature hash of input `input_index`.
    pub open spec fn spec_sighash(&self, input_index: int) -> Seq<u8> {
        sha3_256_of(self.signing_bytes(input_index))
    }

    pub open spec fn spec_is_coinbase(&self) -> bool {
        self.inputs@.len() == 0
    }

    /// The first structural rule that the transaction breaks, if any.
    pub open spec fn structure_fault(&self) -> Option<&'static str> {
        if self.outputs@.len() == 0 {
            Some("Transaction must have at least one output")
        } else if exists|i: int| 0 <= i < self.outputs@.len() && #[trigger] self.outputs@[i].amount == 0 {
            Some("Output amount must be greater than zero")
        } else if sum_amounts(self.outputs@) > u64::MAX {
            Some("Output amounts overflow")
        } else {
            None
        }
    }

    pub fn new() -> (tx: Self)
        ensures
            tx.inputs@ == Seq::<TxInput>::empty(),
            tx.outputs@ == Seq::<TxOutput>::empty(),
    {
        Self { inputs: Vec::new(), outputs: Vec::new() }
    }

    /// Sum of the output amounts.
    pub fn total_output_value(&self) -> (total: u64)
        requires
            sum_amounts(self.outputs@) <= u64::MAX,
        ensures
            total == sum_amounts(self.outputs@),
    {
        let mut total: u64 = 0;
        let mut i: usize = 0;
        while i < self.outputs.len()
            invariant
                i <= self.outputs@.len(),
                sum_amounts(self.outputs@) <= u64::MAX,
                total == sum_amounts(self.outputs@.subrange(0, i as int)),
            decreases self.outputs@.len() - i,
        {
            assert(self.outputs@.subrange(0, i + 1).drop_last() =~= self.outputs@.subrange(
                0,
                i as int,
            ));
            proof {
                lemma_sum_amounts_prefix(self.outputs@, i + 1);
            }
            total = total + self.outputs[i].amount;
            i = i + 1;
        }
        assert(self.outputs@.subrange(0, i as int) =~= self.outputs@);
        total
    }

    /// Whether this is a coinbase transaction (no inputs).
    pub fn is_coinbase(&self) -> (r: bool)
        ensures
            r == self.spec_is_coinbase(),
    {
        self.inputs.len() == 0
    }

    /// Checks the structural rules: at least one output, every amount
    /// positive, and a total that fits in a `u64`.
    pub fn validate_structure(&self) -> (r: Result<(), &'static str>)
        ensures
            match self.structure_fault() {
                None => r is Ok,
                Some(msg) => r == Err::<(), &'static str>(msg),
            },
    {
        if self.outputs.len() == 0 {
            return Err("Transaction must have at least one output");
        }
        if !self.is_coinbase() && self.inputs.len() == 0 {
            return Err("Non-coinbase transaction must have at least one input");
        }
        let mut i: usize = 0;
        while i < self.outputs.len()
            invariant
                i <= self.outputs@.len(),
                forall|j: int| 0 <= j < i ==> #[trigger] self.outputs@[j].amount != 0,
            decreases self.outputs@.len() - i,
        {
            if self.outputs[i].amount == 0 {
                return Err("Output amount must be greater than zero");
            }
            i = i + 1;
        }
        let mut total: u64 = 0;
        let mut k: usize = 0;
        while k < self.outputs.len()
            invariant
                k <= self.outputs@.len(),
                forall|j: int| 0 <= j < self.outputs@.len() ==> #[trigger] self.outputs@[j].amount
                    != 0,
                total == sum_amounts(self.outputs@.subrange(0, k as int)),
            decreases self.outputs@.len() - k,
        {
            assert(self.outputs@.subrange(0, k + 1).drop_last() =~= self.outputs@.subrange(
                0,
                k as int,
            ));
            match total.checked_add(self.outputs[k].amount) {
                Some(t) => {
                    total = t;
                },
                None => {
                    proof {
                        lemma_sum_amounts_prefix(self.outputs@, k + 1);
                    }
                    return Err("Output amounts overflow");
                },
            }
            k = k + 1;
        }
        assert(self.outputs@.subrange(0, k as int) =~= self.outputs@);
        Ok(())
    }

    /// The transaction identifier: SHA3-256 of the serialisation without signatures.
    pub fn txid(&self) -> (id: HashOutput)
        ensures
            id@ == self.spec_txid(),
    {
        StandardSighash::txid(&HASHER, self)
    }

    /// The hash that the owner of input `input_index` signs.
    pub fn sighash_for_input(&self, input_index: usize) -> (h: HashOutput)
        ensures
            h@ == self.spec_sighash(input_index as int),
    {
        let no_script: [u8; 0] = [];
        StandardSighash::for_input(&HASHER, self, input_index, 0, no_script.as_slice(), ())
    }
}

/// Appends the outpoint part of an input.
fn push_input_core(out: &mut Vec<u8>, input: &TxInput)
    ensures
        final(out)@ == old(out)@ + input_core_bytes(*input),
{
    append_bytes(out, input.previous_tx_id.as_slice());
    push_le(out, input.output_index as u128, 4);
    assert(final(out)@ =~= old(out)@ + input_core_bytes(*input)) by {
        assert(u32_le(input.output_index) == crate::bytes::le_bytes(input.output_index as nat, 4));
    }
}

/// Appends the little-endian count of a list as a `u32`.
fn push_count(out: &mut Vec<u8>, n: usize)
    ensures
        final(out)@ == old(out)@ + u32_le(n as u32),
{
    let c: u32 = n as u32;
    push_le(out, c as u128, 4);
}

/// Appends the serialised outputs.
fn push_outputs(out: &mut Vec<u8>, outputs: &Vec<TxOutput>)
    ensures
        final(out)@ == old(out)@ + outputs_bytes(outputs@),
{
    let ghost start = out@;
    let mut i: usize = 0;
    while i < outputs.len()
        invariant
            i <= outputs@.len(),
            out@ == start + outputs_bytes(outputs@.subrange(0, i as int)),
        decreases outputs@.len() - i,
    {
        let o = outputs[i];
        let ghost before = out@;
        push_le(out, o.amount as u128, 8);
        append_bytes(out, o.recipient.as_slice());
        assert(outputs@.subrange(0, i + 1).drop_last() =~= outputs@.subrange(0, i as int));
        assert(out@ =~= start + outputs_bytes(outputs@.subrange(0, i + 1)));
        i = i + 1;
    }
    assert(outputs@.subrange(0, i as int) =~= outputs@);
}

/// Byte serialisations of a transaction.
pub trait TxCodec {
    fn ser_no_witness(&self) -> Vec<u8>;

    fn ser_with_witness(&self) -> Vec<u8>;
}

impl TxCodec for Transaction {
    /// Serialisation without signatures (for the TXID).
    fn ser_no_witness(&self) -> (bytes: Vec<u8>)
        ensures
            bytes@ == self.no_witness_bytes(),
    {
        let mut bytes: Vec<u8> = Vec::new();
        push_count(&mut bytes, self.inputs.len());
        let mut i: usize = 0;
        while i < self.inputs.len()
            invariant
                i <= self.inputs@.len(),
                bytes@ == u32_le(self.inputs@.len() as u32) + inputs_no_witness(
                    self.inputs@.subrange(0, i as int),
                ),
            decreases self.inputs@.len() - i,
        {
            let input = &self.inputs[i];
            push_input_core(&mut bytes, input);
            let pk = SIGNER.pk_to_bytes(&input.public_key);
            append_bytes(&mut bytes, pk.as_slice());
            assert(self.inputs@.subrange(0, i + 1).drop_last() =~= self.inputs@.subrange(
                0,
                i as int,
            ));
            assert(bytes@ =~= u32_le(self.inputs@.len() as u32) + inputs_no_witness(
                self.inputs@.subrange(0, i + 1),
            ));
            i = i + 1;
        }
        assert(self.inputs@.subrange(0, i as int) =~= self.inputs@);
        push_count(&mut bytes, self.outputs.len());
        push_outputs(&mut bytes, &self.outputs);
        assert(bytes@ =~= self.no_witness_bytes());
        bytes
    }

    /// Full serialisation with signatures (for transmission).
    fn ser_with_witness(&self) -> (bytes: Vec<u8>)
        ensures
            bytes@ == self.with_witness_bytes(),
    {
        let mut bytes: Vec<u8> = Vec::new();
        push_count(&mut bytes, self.inputs.len());
        let mut i: usize = 0;
        while i < self.inputs.len()
            invariant
                i <= self.inputs@.len(),
                bytes@ == u32_le(self.inputs@.len() as u32) + inputs_with_witness(
                    self.inputs@.subrange(0, i as int),
                ),
            decreases self.inputs@.len() - i,
        {
            let input = &self.inputs[i];
            push_input_core(&mut bytes, input);
            let sig_bytes = SIGNER.sig_to_bytes(input.signature);
            proof {
                input.signature.lemma_len();
            }
            push_count(&mut bytes, sig_bytes.len());
            append_bytes(&mut bytes, sig_bytes.as_slice());
            let pk = SIGNER.pk_to_bytes(&input.public_key);
            append_bytes(&mut bytes, pk.as_slice());
            assert(self.inputs@.subrange(0, i + 1).drop_last() =~= self.inputs@.subrange(
                0,
                i as int,
            ));
            assert(bytes@ =~= u32_le(self.inputs@.len() as u32) + inputs_with_witness(
                self.inputs@.subrange(0, i + 1),
            ));
            i = i + 1;
        }
        assert(self.inputs@.subrange(0, i as int) =~= self.inputs@);
        push_count(&mut bytes, self.outputs.len());
        push_outputs(&mut bytes, &self.outputs);
        assert(bytes@ =~= self.with_witness_bytes());
        bytes
    }
}

/// How transaction identifiers and signature hashes are computed with a hasher.
pub trait Sighash<H: BlockchainHasher> {
    type Flags;

    fn txid(hasher: &H, tx: &Transaction) -> H::Output;

    fn wtxid(hasher: &H, tx: &Transaction) -> H::Output;

    fn for_input(
        hasher: &H,
        tx: &Transaction,
        input_index: usize,
        prev_value: u64,
        prev_script_pubkey: &[u8],
        flags: Self::Flags,
    ) -> H::Output;
}

/// The standard scheme: TXID over the serialisation without signatures,
/// WTXID over the full one, and a signature hash that commits to every
/// outpoint and output and to the public key of the input being signed.
pub struct StandardSighash;

impl<H: BlockchainHasher> Sighash<H> for StandardSighash {
    type Flags = ();

    fn txid(hasher: &H, tx: &Transaction) -> (out: H::Output)
        ensures
            out@ == hasher.digest_of(tx.no_witness_bytes()),
    {
        let data = tx.ser_no_witness();
        hasher.hash(data.as_slice())
    }

    fn wtxid(hasher: &H, tx: &Transaction) -> (out: H::Output)
        ensures
            out@ == hasher.digest_of(tx.with_witness_bytes()),
    {
        let data = tx.ser_with_witness();
        hasher.hash(data.as_slice())
    }

    /// The previous value, script and flags are not committed to by this scheme.
    fn for_input(
        hasher: &H,
        tx: &Transaction,
        input_index: usize,
        prev_value: u64,
        prev_script_pubkey: &[u8],
        flags: (),
    ) -> (out: H::Output)
        ensures
            out@ == hasher.digest_of(tx.signing_bytes(input_index as int)),
    {
        let mut bytes: Vec<u8> = Vec::new();
        push_count(&mut bytes, tx.inputs.len());
        let mut i: usize = 0;
        while i < tx.inputs.len()
            invariant
                i <= tx.inputs@.len(),
                bytes@ == u32_le(tx.inputs@.len() as u32) + inputs_for_signing(
                    tx.inputs@.subrange(0, i as int),
                    input_index as int,
                ),
            decreases tx.inputs@.len() - i,
        {
            let input = &tx.inputs[i];
            let ghost before = bytes@;
            push_input_core(&mut bytes, input);
            if i == input_index {
                let pk = SIGNER.pk_to_bytes(&input.public_key);
                append_bytes(&mut bytes, pk.as_slice());
            }
            assert(tx.inputs@.subrange(0, i + 1).drop_last() =~= tx.inputs@.subrange(0, i as int));
            assert(bytes@ =~= u32_le(tx.inputs@.len() as u32) + inputs_for_signing(
                tx.inputs@.subrange(0, i + 1),
                input_index as int,
            ));
            i = i + 1;
        }
        assert(tx.inputs@.subrange(0, i as int) =~= tx.inputs@);
        push_count(&mut bytes, tx.outputs.len());
        push_outputs(&mut bytes, &tx.outputs);
        assert(bytes@ =~= tx.signing_bytes(input_index as int));
        hasher.hash(bytes.as_slice())
    }
}

/// Read access to a set of unspent outputs.
pub trait UtxoView {
    type TxOutRef;

    fn lookup(&self, outpoint: &OutPoint) -> Option<Self::TxOutRef>;
}

/// The serialisation with signatures is 68 bytes longer per input than the
/// one without: each input adds a 4-byte length and a 64-byte signature.
pub proof fn lemma_witness_adds_signatures(tx: Transaction)
    ensures
        tx.with_witness_bytes().len() == tx.no_witness_bytes().len() + 68 * tx.inputs@.len(),
{
    lemma_inputs_lengths(tx.inputs@);
}

/// A transaction's structure is accepted exactly when it has an output,
/// every output (at every position) carries a positive amount, and the
/// amounts add up to at most `u64::MAX`; an output of amount zero anywhere
/// among its outputs is refused with that reason.
pub proof fn lemma_structure_rules(tx: Transaction)
    ensures
        tx.structure_fault() is None <==> {
            &&& tx.outputs@.len() > 0
            &&& forall|i: int| 0 <= i < tx.outputs@.len() ==> (#[trigger] tx.outputs@[i]).amount > 0
            &&& sum_amounts(tx.outputs@) <= u64::MAX
        },
        forall|i: int|
            0 <= i < tx.outputs@.len() && (#[trigger] tx.outputs@[i]).amount == 0 ==> tx.structure_fault()
                == Some("Output amount must be greater than zero"),
        tx.outputs@.len() == 0 ==> tx.structure_fault() == Some(
            "Transaction must have at least one output",
        ),
{
    assert forall|i: int|
        0 <= i < tx.outputs@.len() && (#[trigger] tx.outputs@[i]).amount == 0 implies tx.structure_fault()
            == Some("Output amount must be greater than zero") by {
        assert(tx.outputs@.len() > 0);
    }
}

proof fn lemma_inputs_no_witness_at(inputs: Seq<TxInput>, k: int)
    requires
        0 <= k < inputs.len(),
    ensures
        inputs_no_witness(inputs).len() == 68 * inputs.len(),
        inputs_no_witness(inputs).subrange(68 * k, 68 * k + 32) == inputs[k].previous_tx_id@,
        inputs_no_witness(inputs).subrange(68 * k + 32, 68 * k + 36) == u32_le(inputs[k].output_index),
        inputs_no_witness(inputs).subrange(68 * k + 36, 68 * k + 68) == inputs[k].public_key@,
    decreases inputs.len(),
{
    lemma_inputs_lengths(inputs);
    let init = inputs.drop_last();
    let last = inputs.last();
    lemma_inputs_lengths(init);
    crate::bytes::lemma_le_bytes_len(last.output_index as nat, 4);
    last.public_key.lemma_len();
    let whole = inputs_no_witness(inputs);
    let head = inputs_no_witness(init);
    let tail = input_core_bytes(last) + last.public_key@;
    assert(whole == head + tail);
    if k < inputs.len() - 1 {
        lemma_inputs_no_witness_at(init, k);
        assert(whole.subrange(68 * k, 68 * k + 32) =~= head.subrange(68 * k, 68 * k + 32));
        assert(whole.subrange(68 * k + 32, 68 * k + 36) =~= head.subrange(68 * k + 32, 68 * k + 36));
        assert(whole.subrange(68 * k + 36, 68 * k + 68) =~= head.subrange(68 * k + 36, 68 * k + 68));
    } else {
        assert(inputs[k] == last);
        assert(whole.subrange(68 * k, 68 * k + 32) =~= last.previous_tx_id@);
        assert(whole.subrange(68 * k + 32, 68 * k + 36) =~= u32_le(last.output_index));
        assert(whole.subrange(68 * k + 36, 68 * k + 68) =~= last.public_key@);
    }
}

proof fn lemma_outputs_bytes_at(outputs: Seq<TxOutput>, k: int)
    requires
        0 <= k < outputs.len(),
    ensures
        outputs_bytes(outputs).len() == 28 * outputs.len(),
        outputs_bytes(outputs).subrange(28 * k, 28 * k + 8) == u64_le(outputs[k].amount),
        outputs_bytes(outputs).subrange(28 * k + 8, 28 * k + 28) == outputs[k].recipient@,
    decreases outputs.len(),
{
    lemma_outputs_len(outputs);
    let init = outputs.drop_last();
    let last = outputs.last();
    lemma_outputs_len(init);
    crate::bytes::lemma_le_bytes_len(last.amount as nat, 8);
    let whole = outputs_bytes(outputs);
    let head = outputs_bytes(init);
    assert(whole == head + (u64_le(last.amount) + last.recipient@));
    if k < outputs.len() - 1 {
        lemma_outputs_bytes_at(init, k);
        assert(whole.subrange(28 * k, 28 * k + 8) =~= head.subrange(28 * k, 28 * k + 8));
        assert(whole.subrange(28 * k + 8, 28 * k + 28) =~= head.subrange(28 * k + 8, 28 * k + 28));
    } else {
        assert(outputs[k] == last);
        assert(whole.subrange(28 * k, 28 * k + 8) =~= u64_le(last.amount));
        assert(whole.subrange(28 * k + 8, 28 * k + 28) =~= last.recipient@);
    }
}

proof fn lemma_outputs_len(outputs: Seq<TxOutput>)
    ensures
        outputs_bytes(outputs).len() == 28 * outputs.len(),
    decreases outputs.len(),
{
    if outputs.len() > 0 {
        lemma_outputs_len(outputs.drop_last());
        crate::bytes::lemma_le_bytes_len(outputs.last().amount as nat, 8);
    }
}

/// Where everything lies in the serialisation without signatures, for a
/// transaction with `n` inputs and `m` outputs (each count below `2^32`):
/// the input count in the first 4 bytes (little-endian); input `k` in the
/// 68 bytes from `4 + 68k` (previous transaction id, output index
/// little-endian, public key); the output count at `4 + 68n`; output `j` in
/// the 28 bytes from `8 + 68n + 28j` (amount little-endian, recipient). The
/// whole is `8 + 68n + 28m` bytes long.
pub proof fn lemma_no_witness_layout(tx: Transaction)
    requires
        tx.inputs@.len() <= u32::MAX,
        tx.outputs@.len() <= u32::MAX,
    ensures
        tx.no_witness_bytes().len() == 8 + 68 * tx.inputs@.len() + 28 * tx.outputs@.len(),
        le_value(tx.no_witness_bytes().subrange(0, 4)) == tx.inputs@.len(),
        forall|k: int|
            0 <= k < tx.inputs@.len() ==> {
                &&& tx.no_witness_bytes().subrange(4 + 68 * k, 36 + 68 * k)
                    == (#[trigger] tx.inputs@[k]).previous_tx_id@
                &&& le_value(tx.no_witness_bytes().subrange(36 + 68 * k, 40 + 68 * k))
                    == tx.inputs@[k].output_index
                &&& tx.no_witness_bytes().subrange(40 + 68 * k, 72 + 68 * k)
                    == tx.inputs@[k].public_key@
            },
        le_value(
            tx.no_witness_bytes().subrange(
                4 + 68 * tx.inputs@.len() as int,
                8 + 68 * tx.inputs@.len() as int,
            ),
        ) == tx.outputs@.len(),
        forall|j: int|
            0 <= j < tx.outputs@.len() ==> {
                &&& le_value(
                    tx.no_witness_bytes().subrange(
                        8 + 68 * tx.inputs@.len() + 28 * j,
                        16 + 68 * tx.inputs@.len() + 28 * j,
                    ),
                ) == (#[trigger] tx.outputs@[j]).amount
                &&& tx.no_witness_bytes().subrange(
                    16 + 68 * tx.inputs@.len() + 28 * j,
                    36 + 68 * tx.inputs@.len() + 28 * j,
                ) == tx.outputs@[j].recipient@
            },
{
    let n = tx.inputs@.len() as int;
    let m = tx.outputs@.len() as int;
    let a = u32_le(n as u32);
    let b = inputs_no_witness(tx.inputs@);
    let c = u32_le(m as u32);
    let d = outputs_bytes(tx.outputs@);
    let all = tx.no_witness_bytes();
    assert(all == a + b + c + d);
    reveal_with_fuel(crate::crypto::hash::pow256, 9);
    assert(crate::crypto::hash::pow256(8) == 0x1_0000_0000_0000_0000);
    crate::crypto::hash::lemma_le_value_of_le_bytes(n as nat, 4);
    crate::crypto::hash::lemma_le_value_of_le_bytes(m as nat, 4);
    lemma_inputs_lengths(tx.inputs@);
    lemma_outputs_len(tx.outputs@);
    assert(all.subrange(0, 4) =~= a);
    assert(all.subrange(4 + 68 * n, 8 + 68 * n) =~= c);
    assert forall|k: int| 0 <= k < n implies {
        &&& all.subrange(4 + 68 * k, 36 + 68 * k) == (#[trigger] tx.inputs@[k]).previous_tx_id@
        &&& le_value(all.subrange(36 + 68 * k, 40 + 68 * k)) == tx.inputs@[k].output_index
        &&& all.subrange(40 + 68 * k, 72 + 68 * k) == tx.inputs@[k].public_key@
    } by {
        lemma_inputs_no_witness_at(tx.inputs@, k);
        crate::crypto::hash::lemma_le_value_of_le_bytes(tx.inputs@[k].output_index as nat, 4);
        assert(all.subrange(4 + 68 * k, 36 + 68 * k) =~= b.subrange(68 * k, 68 * k + 32));
        assert(all.subrange(36 + 68 * k, 40 + 68 * k) =~= b.subrange(68 * k + 32, 68 * k + 36));
        assert(all.subrange(40 + 68 * k, 72 + 68 * k) =~= b.subrange(68 * k + 36, 68 * k + 68));
    }
    assert forall|j: int| 0 <= j < m implies {
        &&& le_value(all.subrange(8 + 68 * n + 28 * j, 16 + 68 * n + 28 * j))
            == (#[trigger] tx.outputs@[j]).amount
        &&& all.subrange(16 + 68 * n + 28 * j, 36 + 68 * n + 28 * j) == tx.outputs@[j].recipient@
    } by {
        lemma_outputs_bytes_at(tx.outputs@, j);
        crate::crypto::hash::lemma_le_value_of_le_bytes(tx.outputs@[j].amount as nat, 8);
        assert(all.subrange(8 + 68 * n + 28 * j, 16 + 68 * n + 28 * j) =~= d.subrange(
            28 * j,
            28 * j + 8,
        ));
        assert(all.subrange(16 + 68 * n + 28 * j, 36 + 68 * n + 28 * j) =~= d.subrange(
            28 * j + 8,
            28 * j + 28,
        ));
    }
}

} // verus!
