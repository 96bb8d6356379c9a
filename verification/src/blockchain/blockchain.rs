//! The blockchain: the accepted blocks in order, and the unspent outputs
//! that applying their transactions leaves.
use vstd::prelude::*;

use crate::block::Block;
use crate::blockchain::utxo_set::UtxoSet;
use crate::bytes::bytes_eq;
use crate::config::{HashOutput, HASHER, SIGNER};
use crate::crypto::ed25519::ed25519_accepts;
use crate::crypto::sha3::sha3_256_of;
use crate::crypto::traits::{BlockchainHasher, BlockchainSigner, CryptoEncoding};
use crate::transaction::transaction::{sum_amounts, OutPoint, Transaction, TxInput, TxOutput};

verus! {

broadcast use vstd::array::group_array_axioms;

/// Why a block or a transaction was refused.
#[derive(Debug, Clone, Copy, PartialEq, Eq)]
pub enum ChainError {
    /// A genesis block offered to a chain that already has blocks.
    GenesisNotFirst,
    /// A non-genesis block offered to an empty chain.
    EmptyChain,
    /// The block does not point at the hash of the last block.
    InvalidPrevHash { expected: HashOutput, got: HashOutput },
    /// The block's index does not follow the last block's.
    InvalidIndex { expected_index: u64, got_index: u32 },
    /// The block carries no signature.
    Unsigned,
    /// The block's signature is not valid under its author's key.
    InvalidSignature,
    /// The block's hash is not the hash of its contents.
    HashMismatch,
    /// The block has no transactions.
    NoTransactions,
    /// A transaction breaks a structural rule (the message says which).
    InvalidStructure(&'static str),
    /// A transaction spends the same outpoint twice.
    DuplicateInput(OutPoint),
    /// An input spends an outpoint that is not unspent.
    UtxoNotFound(OutPoint),
    /// The input's public key does not hash to the spent output's recipient.
    RecipientMismatch(usize),
    /// The input's signature is not valid.
    InvalidInputSignature(usize),
    /// The inputs are worth less than the outputs.
    InsufficientInputs { inputs: u128, outputs: u64 },
}

/// The 20-byte address of a public key: the first 20 bytes of its SHA3-256 digest.
pub open spec fn address_of(public_key: Seq<u8>) -> Seq<u8> {
    sha3_256_of(public_key).subrange(0, 20)
}

/// The first problem with a block, checked against the blocks already in the
/// chain (and not yet against the unspent outputs).
pub open spec fn block_fault(chain: Seq<Block>, b: Block) -> Option<ChainError> {
    if b.spec_is_genesis() && chain.len() > 0 {
        Some(ChainError::GenesisNotFirst)
    } else if !b.spec_is_genesis() && chain.len() == 0 {
        Some(ChainError::EmptyChain)
    } else if !b.spec_is_genesis() && b.prev_block_hash@ != chain.last().hash@ {
        Some(ChainError::InvalidPrevHash { expected: chain.last().hash, got: b.prev_block_hash })
    } else if !b.spec_is_genesis() && b.index as int != chain.last().index as int + 1 {
        Some(ChainError::InvalidIndex { expected_index: (chain.last().index + 1) as u64, got_index: b.index })
    } else if b.signature is None {
        Some(ChainError::Unsigned)
    } else if !b.signature_valid() {
        Some(ChainError::InvalidSignature)
    } else if b.hash@ != b.spec_hash() {
        Some(ChainError::HashMismatch)
    } else if b.transactions@.len() == 0 {
        Some(ChainError::NoTransactions)
    } else {
        None
    }
}

/// The first input (among the first `n`) that spends an outpoint that an
/// earlier input already spends.
pub open spec fn first_duplicate(inputs: Seq<TxInput>, n: nat) -> Option<OutPoint>
    decreases n,
{
    if n == 0 {
        None
    } else {
        match first_duplicate(inputs, (n - 1) as nat) {
            Some(op) => Some(op),
            None => if exists|k: int|
                0 <= k < n - 1 && (#[trigger] inputs[k]).spec_outpoint()
                    == inputs[n - 1].spec_outpoint() {
                Some(inputs[n - 1].spec_outpoint())
            } else {
                None
            },
        }
    }
}

/// The problem with input `i` of a transaction against the unspent outputs, if any.
pub open spec fn input_fault(utxos: Map<OutPoint, TxOutput>, tx: Transaction, i: int) -> Option<
    ChainError,
> {
    let input = tx.inputs@[i];
    let op = input.spec_outpoint();
    if !utxos.contains_key(op) {
        Some(ChainError::UtxoNotFound(op))
    } else if address_of(input.public_key@) != utxos[op].recipient@ {
        Some(ChainError::RecipientMismatch(i as usize))
    } else if !ed25519_accepts(input.public_key@, tx.spec_sighash(i), input.signature@) {
        Some(ChainError::InvalidInputSignature(i as usize))
    } else {
        None
    }
}

/// The first problem among the first `n` inputs.
pub open spec fn first_input_fault(utxos: Map<OutPoint, TxOutput>, tx: Transaction, n: nat) -> Option<
    ChainError,
>
    decreases n,
{
    if n == 0 {
        None
    } else {
        match first_input_fault(utxos, tx, (n - 1) as nat) {
            Some(e) => Some(e),
            None => input_fault(utxos, tx, n - 1),
        }
    }
}

/// The first problem with a transaction against the unspent outputs: its
/// structure, then (unless it is a coinbase) a repeated outpoint, then each
/// input in order.
pub open spec fn tx_fault(utxos: Map<OutPoint, TxOutput>, tx: Transaction) -> Option<ChainError> {
    match tx.structure_fault() {
        Some(msg) => Some(ChainError::InvalidStructure(msg)),
        None => if tx.spec_is_coinbase() {
            None
        } else {
            match first_duplicate(tx.inputs@, tx.inputs@.len()) {
                Some(op) => Some(ChainError::DuplicateInput(op)),
                None => first_input_fault(utxos, tx, tx.inputs@.len()),
            }
        },
    }
}

/// The first problem among the first `n` transactions, each checked against
/// the same unspent outputs.
pub open spec fn first_tx_fault(utxos: Map<OutPoint, TxOutput>, txs: Seq<Transaction>, n: nat) -> Option<
    ChainError,
>
    decreases n,
{
    if n == 0 {
        None
    } else {
        match first_tx_fault(utxos, txs, (n - 1) as nat) {
            Some(e) => Some(e),
            None => tx_fault(utxos, txs[n - 1]),
        }
    }
}

/// Spending the first `n` inputs in order: the outputs left, the total
/// value spent, and the first outpoint that was not there to spend.
pub open spec fn spend_inputs(utxos: Map<OutPoint, TxOutput>, inputs: Seq<TxInput>, n: nat) -> (
    Map<OutPoint, TxOutput>,
    nat,
    Option<OutPoint>,
)
    decreases n,
{
    if n == 0 {
        (utxos, 0, None)
    } else {
        let (m, spent, missing) = spend_inputs(utxos, inputs, (n - 1) as nat);
        if missing is Some {
            (m, spent, missing)
        } else {
            let op = inputs[n - 1].spec_outpoint();
            if m.contains_key(op) {
                (m.remove(op), spent + m[op].amount as nat, None)
            } else {
                (m, spent, Some(op))
            }
        }
    }
}

/// Recording the first `n` outputs under outpoints `(txid, 0)`, `(txid, 1)`, ...
pub open spec fn add_outputs(
    utxos: Map<OutPoint, TxOutput>,
    txid: HashOutput,
    outputs: Seq<TxOutput>,
    n: nat,
) -> Map<OutPoint, TxOutput>
    decreases n,
{
    if n == 0 {
        utxos
    } else {
        add_outputs(utxos, txid, outputs, (n - 1) as nat).insert(
            OutPoint { txid, index: (n - 1) as u32 },
            outputs[n - 1],
        )
    }
}

/// Applying one transaction whose outputs are recorded under `txid`: the
/// outputs left and the error, if any. A failure leaves what was done so far.
pub open spec fn apply_tx(utxos: Map<OutPoint, TxOutput>, tx: Transaction, txid: HashOutput) -> (
    Map<OutPoint, TxOutput>,
    Option<ChainError>,
) {
    if tx.spec_is_coinbase() {
        (add_outputs(utxos, txid, tx.outputs@, tx.outputs@.len()), None)
    } else {
        let (m, spent, missing) = spend_inputs(utxos, tx.inputs@, tx.inputs@.len());
        match missing {
            Some(op) => (m, Some(ChainError::UtxoNotFound(op))),
            None => {
                let m2 = add_outputs(m, txid, tx.outputs@, tx.outputs@.len());
                if spent < sum_amounts(tx.outputs@) {
                    (
                        m2,
                        Some(
                            ChainError::InsufficientInputs {
                                inputs: spent as u128,
                                outputs: sum_amounts(tx.outputs@) as u64,
                            },
                        ),
                    )
                } else {
                    (m2, None)
                }
            },
        }
    }
}

/// A transaction's identifier as a 32-byte array: the array whose bytes are
/// its TXID. The outputs of a transaction are recorded under it.
pub open spec fn txid_of(tx: Transaction) -> HashOutput {
    choose|id: HashOutput| id@ == tx.spec_txid()
}

/// The identifier that `Transaction::txid` returns is `txid_of`.
pub proof fn lemma_txid_of(tx: Transaction, id: HashOutput)
    requires
        id@ == tx.spec_txid(),
    ensures
        txid_of(tx) == id,
{
    let c = txid_of(tx);
    assert(c@ == id@);
    assert(c =~= id);
}

/// Applying the first `n` transactions in order, each one's outputs
/// recorded under its own identifier, stopping at the first error.
pub open spec fn apply_txs(
    utxos: Map<OutPoint, TxOutput>,
    txs: Seq<Transaction>,
    n: nat,
) -> (Map<OutPoint, TxOutput>, Option<ChainError>)
    decreases n,
{
    if n == 0 {
        (utxos, None)
    } else {
        let (m, err) = apply_txs(utxos, txs, (n - 1) as nat);
        if err is Some {
            (m, err)
        } else {
            apply_tx(m, txs[n - 1], txid_of(txs[n - 1]))
        }
    }
}

/// The outputs of the first `n` transactions of a genesis block, each one's
/// recorded under its own identifier.
pub open spec fn genesis_outputs(
    utxos: Map<OutPoint, TxOutput>,
    txs: Seq<Transaction>,
    n: nat,
) -> Map<OutPoint, TxOutput>
    decreases n,
{
    if n == 0 {
        utxos
    } else {
        add_outputs(
            genesis_outputs(utxos, txs, (n - 1) as nat),
            txid_of(txs[n - 1]),
            txs[n - 1].outputs@,
            txs[n - 1].outputs@.len(),
        )
    }
}

/// What offering a block does: the blocks and unspent outputs afterwards,
/// and the answer. An accepted block is appended and its transactions are
/// applied; a refused block, at whatever step, changes nothing.
pub open spec fn add_block_outcome(chain: Seq<Block>, utxos: Map<OutPoint, TxOutput>, b: Block) -> (
    Seq<Block>,
    Map<OutPoint, TxOutput>,
    Result<(), ChainError>,
) {
    match block_fault(chain, b) {
        Some(e) => (chain, utxos, Err(e)),
        None => match first_tx_fault(utxos, b.transactions@, b.transactions@.len()) {
            Some(e) => (chain, utxos, Err(e)),
            None => {
                let (m, err) = apply_txs(utxos, b.transactions@, b.transactions@.len());
                match err {
                    Some(e) => (chain, utxos, Err(e)),
                    None => (chain.push(b), m, Ok(())),
                }
            },
        },
    }
}

/// Every block after the first extends the one before it: it is no genesis
/// block, points at its hash, has the next index, is validly signed by its
/// author, carries the hash of its contents and has transactions.
pub open spec fn chain_linked(chain: Seq<Block>) -> bool {
    forall|i: int|
        #![trigger chain[i]]
        0 < i < chain.len() ==> {
            &&& !chain[i].spec_is_genesis()
            &&& chain[i].prev_block_hash@ == chain[i - 1].hash@
            &&& chain[i].index as int == chain[i - 1].index as int + 1
            &&& chain[i].signature_valid()
            &&& chain[i].hash@ == chain[i].spec_hash()
            &&& chain[i].transactions@.len() > 0
        }
}

/// Offering a block to a linked chain leaves it linked, whatever the answer.
pub proof fn lemma_add_block_keeps_chain_linked(
    chain: Seq<Block>,
    utxos: Map<OutPoint, TxOutput>,
    b: Block,
)
    requires
        chain_linked(chain),
    ensures
        chain_linked(add_block_outcome(chain, utxos, b).0),
{
    let after = add_block_outcome(chain, utxos, b).0;
    if after != chain {
        assert(after == chain.push(b));
        assert(block_fault(chain, b) is None);
        assert forall|i: int| #![trigger after[i]] 0 < i < after.len() implies {
            &&& !after[i].spec_is_genesis()
            &&& after[i].prev_block_hash@ == after[i - 1].hash@
            &&& after[i].index as int == after[i - 1].index as int + 1
            &&& after[i].signature_valid()
            &&& after[i].hash@ == after[i].spec_hash()
            &&& after[i].transactions@.len() > 0
        } by {
            if i < chain.len() {
                assert(after[i] == chain[i]);
                assert(after[i - 1] == chain[i - 1]);
            } else {
                assert(after[i] == b);
                assert(after[i - 1] == chain.last());
            }
        }
    }
}

/// A refused block leaves the chain of blocks unchanged; an accepted one is
/// appended, and the chain grows by exactly one block.
pub proof fn lemma_add_block_height(chain: Seq<Block>, utxos: Map<OutPoint, TxOutput>, b: Block)
    ensures
        add_block_outcome(chain, utxos, b).2 is Ok ==> add_block_outcome(chain, utxos, b).0
            == chain.push(b),
        add_block_outcome(chain, utxos, b).2 is Err ==> add_block_outcome(chain, utxos, b).0
            == chain,
{
}

/// A refused block, whatever the step at which it is refused, changes
/// neither the blocks nor the unspent outputs.
pub proof fn lemma_rejected_block_changes_nothing(
    chain: Seq<Block>,
    utxos: Map<OutPoint, TxOutput>,
    b: Block,
)
    requires
        add_block_outcome(chain, utxos, b).2 is Err,
    ensures
        add_block_outcome(chain, utxos, b).0 == chain,
        add_block_outcome(chain, utxos, b).1 == utxos,
{
}

/// Recording outputs under another identifier leaves an outpoint as it was.
proof fn lemma_add_outputs_other(
    m: Map<OutPoint, TxOutput>,
    id: HashOutput,
    outs: Seq<TxOutput>,
    n: nat,
    op: OutPoint,
)
    requires
        op.txid != id,
    ensures
        add_outputs(m, id, outs, n).contains_key(op) == m.contains_key(op),
        m.contains_key(op) ==> add_outputs(m, id, outs, n)[op] == m[op],
    decreases n,
{
    if n > 0 {
        lemma_add_outputs_other(m, id, outs, (n - 1) as nat, op);
    }
}

/// After recording the first `n` outputs under `id`, output `i` is at `(id, i)`.
proof fn lemma_add_outputs_own(
    m: Map<OutPoint, TxOutput>,
    id: HashOutput,
    outs: Seq<TxOutput>,
    n: nat,
    i: int,
)
    requires
        0 <= i < n,
        n <= 0x1_0000_0000,
    ensures
        add_outputs(m, id, outs, n).contains_key(OutPoint { txid: id, index: i as u32 }),
        add_outputs(m, id, outs, n)[OutPoint { txid: id, index: i as u32 }] == outs[i],
    decreases n,
{
    if i < n - 1 {
        lemma_add_outputs_own(m, id, outs, (n - 1) as nat, i);
        assert(((n - 1) as u32) != (i as u32));
    }
}

/// Spending inputs none of which names `op` leaves `op` as it was.
proof fn lemma_spend_inputs_other(
    m: Map<OutPoint, TxOutput>,
    inputs: Seq<TxInput>,
    n: nat,
    op: OutPoint,
)
    requires
        n <= inputs.len(),
        forall|k: int| 0 <= k < n ==> (#[trigger] inputs[k]).previous_tx_id != op.txid,
    ensures
        spend_inputs(m, inputs, n).0.contains_key(op) == m.contains_key(op),
        m.contains_key(op) ==> spend_inputs(m, inputs, n).0[op] == m[op],
    decreases n,
{
    if n > 0 {
        lemma_spend_inputs_other(m, inputs, (n - 1) as nat, op);
        assert(inputs[n - 1].previous_tx_id != op.txid);
    }
}

/// The genesis outputs: where no two transactions share an identifier,
/// output `i` of transaction `t` is unspent at `(txid_of(t), i)`.
pub proof fn lemma_genesis_records_outputs(txs: Seq<Transaction>, n: nat, t: int, i: int)
    requires
        n <= txs.len(),
        0 <= t < n,
        0 <= i < txs[t].outputs@.len() <= 0x1_0000_0000,
        forall|a: int, c: int|
            0 <= a < c < n ==> txid_of(#[trigger] txs[a]) != txid_of(#[trigger] txs[c]),
    ensures
        genesis_outputs(Map::empty(), txs, n).contains_key(
            OutPoint { txid: txid_of(txs[t]), index: i as u32 },
        ),
        genesis_outputs(Map::empty(), txs, n)[OutPoint { txid: txid_of(txs[t]), index: i as u32 }]
            == txs[t].outputs@[i],
    decreases n,
{
    let op = OutPoint { txid: txid_of(txs[t]), index: i as u32 };
    let prev = genesis_outputs(Map::empty(), txs, (n - 1) as nat);
    let last = txs[n - 1];
    if t == n - 1 {
        lemma_add_outputs_own(prev, txid_of(last), last.outputs@, last.outputs@.len(), i);
    } else {
        lemma_genesis_records_outputs(txs, (n - 1) as nat, t, i);
        assert(txid_of(txs[t]) != txid_of(txs[n - 1]));
        lemma_add_outputs_other(prev, txid_of(last), last.outputs@, last.outputs@.len(), op);
    }
}

/// Applying transactions: where no two share an identifier and none spends
/// an output of an earlier one among them, each output `i` of transaction
/// `t` is unspent at `(txid_of(t), i)` once all have been applied.
proof fn lemma_apply_txs_records_outputs(
    utxos: Map<OutPoint, TxOutput>,
    txs: Seq<Transaction>,
    n: nat,
    t: int,
    i: int,
)
    requires
        n <= txs.len(),
        apply_txs(utxos, txs, n).1 is None,
        0 <= t < n,
        0 <= i < txs[t].outputs@.len() <= 0x1_0000_0000,
        forall|a: int, c: int|
            0 <= a < c < n ==> txid_of(#[trigger] txs[a]) != txid_of(#[trigger] txs[c]),
        forall|a: int, c: int, k: int|
            0 <= a < c < n && 0 <= k < txs[c].inputs@.len() ==> (#[trigger] txs[c].inputs@[k]).previous_tx_id
                != txid_of(#[trigger] txs[a]),
    ensures
        apply_txs(utxos, txs, n).0.contains_key(OutPoint { txid: txid_of(txs[t]), index: i as u32 }),
        apply_txs(utxos, txs, n).0[OutPoint { txid: txid_of(txs[t]), index: i as u32 }]
            == txs[t].outputs@[i],
    decreases n,
{
    let op = OutPoint { txid: txid_of(txs[t]), index: i as u32 };
    let prev = apply_txs(utxos, txs, (n - 1) as nat);
    let last = txs[n - 1];
    let id = txid_of(last);
    assert(prev.1 is None);
    if last.spec_is_coinbase() {
        if t == n - 1 {
            lemma_add_outputs_own(prev.0, id, last.outputs@, last.outputs@.len(), i);
        } else {
            lemma_apply_txs_records_outputs(utxos, txs, (n - 1) as nat, t, i);
            assert(txid_of(txs[t]) != txid_of(txs[n - 1]));
            lemma_add_outputs_other(prev.0, id, last.outputs@, last.outputs@.len(), op);
        }
    } else {
        let sp = spend_inputs(prev.0, last.inputs@, last.inputs@.len());
        if t == n - 1 {
            lemma_add_outputs_own(sp.0, id, last.outputs@, last.outputs@.len(), i);
        } else {
            lemma_apply_txs_records_outputs(utxos, txs, (n - 1) as nat, t, i);
            assert(txid_of(txs[t]) != txid_of(txs[n - 1]));
            assert forall|k: int| 0 <= k < last.inputs@.len() implies (#[trigger] last.inputs@[k]).previous_tx_id
                != op.txid by {
                assert(txs[n - 1].inputs@[k].previous_tx_id != txid_of(txs[t]));
            }
            lemma_spend_inputs_other(prev.0, last.inputs@, last.inputs@.len(), op);
            lemma_add_outputs_other(sp.0, id, last.outputs@, last.outputs@.len(), op);
        }
    }
}

/// An accepted block records each output of each of its transactions under
/// that transaction's identifier and the output's position, where no two of
/// its transactions share an identifier and none spends an output of an
/// earlier one in the same block.
pub proof fn lemma_accepted_block_records_outputs(
    chain: Seq<Block>,
    utxos: Map<OutPoint, TxOutput>,
    b: Block,
    t: int,
    i: int,
)
    requires
        add_block_outcome(chain, utxos, b).2 is Ok,
        0 <= t < b.transactions@.len(),
        0 <= i < b.transactions@[t].outputs@.len() <= 0x1_0000_0000,
        forall|a: int, c: int|
            0 <= a < c < b.transactions@.len() ==> txid_of(#[trigger] b.transactions@[a]) != txid_of(
                #[trigger] b.transactions@[c],
            ),
        forall|a: int, c: int, k: int|
            0 <= a < c < b.transactions@.len() && 0 <= k < b.transactions@[c].inputs@.len()
                ==> (#[trigger] b.transactions@[c].inputs@[k]).previous_tx_id != txid_of(
                #[trigger] b.transactions@[a],
            ),
    ensures
        add_block_outcome(chain, utxos, b).1.contains_key(
            OutPoint { txid: txid_of(b.transactions@[t]), index: i as u32 },
        ),
        add_block_outcome(chain, utxos, b).1[OutPoint {
            txid: txid_of(b.transactions@[t]),
            index: i as u32,
        }] == b.transactions@[t].outputs@[i],
{
    lemma_apply_txs_records_outputs(utxos, b.transactions@, b.transactions@.len(), t, i);
}

proof fn lemma_first_tx_fault_none(utxos: Map<OutPoint, TxOutput>, txs: Seq<Transaction>, n: nat, i: int)
    requires
        first_tx_fault(utxos, txs, n) is None,
        0 <= i < n,
    ensures
        tx_fault(utxos, txs[i]) is None,
    decreases n,
{
    if i < n - 1 {
        lemma_first_tx_fault_none(utxos, txs, (n - 1) as nat, i);
    }
}

proof fn lemma_spent_bound(utxos: Map<OutPoint, TxOutput>, inputs: Seq<TxInput>, n: nat)
    ensures
        spend_inputs(utxos, inputs, n).1 <= n * (u64::MAX as nat),
    decreases n,
{
    if n > 0 {
        lemma_spent_bound(utxos, inputs, (n - 1) as nat);
        assert((n - 1) * (u64::MAX as nat) + u64::MAX as nat == n * (u64::MAX as nat)) by (
        nonlinear_arith);
    }
}

/// The chain of blocks and the unspent outputs.
#[derive(Debug)]
pub struct Blockchain {
    blocks: Vec<Block>,
    pub utxo_set: UtxoSet,
}

impl Blockchain {
    /// The blocks, oldest first.
    pub closed spec fn chain(&self) -> Seq<Block> {
        self.blocks@
    }

    /// The unspent outputs.
    pub closed spec fn utxos(&self) -> Map<OutPoint, TxOutput> {
        self.utxo_set@
    }

    /// An empty chain with no unspent outputs.
    pub fn new() -> (bc: Self)
        ensures
            bc.chain() == Seq::<Block>::empty(),
            bc.utxos() == Map::<OutPoint, TxOutput>::empty(),
            chain_linked(bc.chain()),
    {
        Self { blocks: Vec::new(), utxo_set: UtxoSet::new() }
    }

    /// A chain that starts with `genesis_block`, taken as it is; the outputs
    /// of each of its transactions become unspent under that transaction's
    /// identifier and their position in it.
    pub fn with_genesis(genesis_block: Block) -> (bc: Self)
        ensures
            bc.chain() == seq![genesis_block],
            bc.utxos() == genesis_outputs(
                Map::empty(),
                genesis_block.transactions@,
                genesis_block.transactions@.len(),
            ),
            chain_linked(bc.chain()),
    {
        let mut blockchain = Self::new();
        let mut t: usize = 0;
        while t < genesis_block.transactions.len()
            invariant
                t <= genesis_block.transactions@.len(),
                blockchain.blocks@ == Seq::<Block>::empty(),
                blockchain.utxo_set@ == genesis_outputs(
                    Map::empty(),
                    genesis_block.transactions@,
                    t as nat,
                ),
            decreases genesis_block.transactions@.len() - t,
        {
            let tx = &genesis_block.transactions[t];
            let id = tx.txid();
            proof {
                lemma_txid_of(*tx, id);
            }
            let ghost base = blockchain.utxo_set@;
            let mut index: usize = 0;
            while index < tx.outputs.len()
                invariant
                    index <= tx.outputs@.len(),
                    t < genesis_block.transactions@.len(),
                    *tx == genesis_block.transactions@[t as int],
                    id == txid_of(*tx),
                    blockchain.blocks@ == Seq::<Block>::empty(),
                    base == genesis_outputs(
                        Map::empty(),
                        genesis_block.transactions@,
                        t as nat,
                    ),
                    blockchain.utxo_set@ == add_outputs(
                        base,
                        id,
                        tx.outputs@,
                        index as nat,
                    ),
                decreases tx.outputs@.len() - index,
            {
                let outpoint = OutPoint { txid: id, index: index as u32 };
                blockchain.utxo_set.add(outpoint, tx.outputs[index]);
                index = index + 1;
            }
            t = t + 1;
        }
        blockchain.blocks.push(genesis_block);
        assert(blockchain.blocks@ =~= seq![genesis_block]);
        blockchain
    }

    /// Offers a block: it is checked against the chain, each transaction is
    /// checked against the unspent outputs, then the transactions are
    /// applied in order and the block is appended. A refused block leaves
    /// both the blocks and the unspent outputs as they were.
    pub fn add_block(&mut self, block: Block) -> (r: Result<(), ChainError>)
        ensures
            r is Err ==> final(self).chain() == old(self).chain() && final(self).utxos() == old(
                self,
            ).utxos(),
            (final(self).chain(), final(self).utxos(), r) == add_block_outcome(
                old(self).chain(),
                old(self).utxos(),
                block,
            ),
            chain_linked(old(self).chain()) ==> chain_linked(final(self).chain()),
    {
        proof {
            if chain_linked(self.blocks@) {
                lemma_add_block_keeps_chain_linked(self.blocks@, self.utxo_set@, block);
            }
        }
        match self.validate_block(&block) {
            Err(e) => {
                return Err(e);
            },
            Ok(()) => {},
        }
        let n = block.transactions.len();
        let mut i: usize = 0;
        while i < n
            invariant
                n == block.transactions@.len(),
                i <= n,
                self.blocks@ == old(self).blocks@,
                self.utxo_set@ == old(self).utxo_set@,
                block_fault(old(self).blocks@, block) is None,
                first_tx_fault(self.utxo_set@, block.transactions@, i as nat) is None,
            decreases n - i,
        {
            match self.validate_transaction(&block.transactions[i]) {
                Err(e) => {
                    proof {
                        lemma_first_tx_fault_stays(
                            self.utxo_set@,
                            block.transactions@,
                            (i + 1) as nat,
                            n as nat,
                        );
                    }
                    return Err(e);
                },
                Ok(()) => {},
            }
            i = i + 1;
        }
        let ghost start = self.utxo_set@;
        let saved = self.utxo_set.duplicate();
        let mut j: usize = 0;
        while j < n
            invariant
                n == block.transactions@.len(),
                j <= n,
                self.blocks@ == old(self).blocks@,
                start == old(self).utxo_set@,
                saved@ == start,
                block_fault(old(self).blocks@, block) is None,
                first_tx_fault(start, block.transactions@, n as nat) is None,
                apply_txs(start, block.transactions@, j as nat) == (
                    self.utxo_set@,
                    None::<ChainError>,
                ),
            decreases n - j,
        {
            proof {
                lemma_first_tx_fault_none(start, block.transactions@, n as nat, j as int);
            }
            let id = block.transactions[j].txid();
            proof {
                lemma_txid_of(block.transactions@[j as int], id);
            }
            match self.apply_transaction(&block.transactions[j], id) {
                Err(e) => {
                    proof {
                        lemma_apply_txs_stays(start, block.transactions@, (j + 1) as nat, n as nat);
                    }
                    self.utxo_set = saved;
                    return Err(e);
                },
                Ok(()) => {},
            }
            j = j + 1;
        }
        self.blocks.push(block);
        Ok(())
    }

    /// Checks a block against the chain: that it is placed correctly (a
    /// genesis block only first; otherwise the previous hash and the next
    /// index), that it is signed by its author, that its hash is the hash of
    /// its contents, and that it has transactions. The timestamp is not
    /// checked.
    fn validate_block(&self, block: &Block) -> (r: Result<(), ChainError>)
        ensures
            r == match block_fault(self.blocks@, *block) {
                None => Ok(()),
                Some(e) => Err::<(), ChainError>(e),
            },
    {
        let genesis = block.is_genesis();
        if genesis && self.blocks.len() != 0 {
            return Err(ChainError::GenesisNotFirst);
        }
        if !genesis {
            if self.blocks.len() == 0 {
                return Err(ChainError::EmptyChain);
            }
            let last_block = &self.blocks[self.blocks.len() - 1];
            if !bytes_eq(block.prev_block_hash.as_slice(), last_block.hash.as_slice()) {
                return Err(
                    ChainError::InvalidPrevHash {
                        expected: last_block.hash,
                        got: block.prev_block_hash,
                    },
                );
            }
            let expected: u64 = last_block.index as u64 + 1;
            if block.index as u64 != expected {
                return Err(ChainError::InvalidIndex { expected_index: expected, got_index: block.index });
            }
        }
        if block.signature.is_none() {
            return Err(ChainError::Unsigned);
        }
        if !block.verify_signature() {
            return Err(ChainError::InvalidSignature);
        }
        let calculated_hash = block.calculate_hash();
        if !bytes_eq(block.hash.as_slice(), calculated_hash.as_slice()) {
            return Err(ChainError::HashMismatch);
        }
        if block.transactions.len() == 0 {
            return Err(ChainError::NoTransactions);
        }
        Ok(())
    }

    /// Checks a transaction against the unspent outputs: its structure, then
    /// (unless it is a coinbase) that no outpoint is spent twice, and for each
    /// input in order that its outpoint is unspent, that its public key hashes
    /// to the output's recipient and that its signature is valid.
    pub fn validate_transaction(&self, tx: &Transaction) -> (r: Result<(), ChainError>)
        ensures
            r == match tx_fault(self.utxos(), *tx) {
                None => Ok(()),
                Some(e) => Err::<(), ChainError>(e),
            },
    {
        match tx.validate_structure() {
            Err(e) => {
                return Err(ChainError::InvalidStructure(e));
            },
            Ok(()) => {},
        }
        if tx.is_coinbase() {
            return Ok(());
        }
        let n = tx.inputs.len();
        let mut seen: Vec<OutPoint> = Vec::new();
        let mut i: usize = 0;
        while i < n
            invariant
                n == tx.inputs@.len(),
                i <= n,
                seen@.len() == i,
                tx.structure_fault() is None,
                !tx.spec_is_coinbase(),
                forall|k: int| 0 <= k < i ==> seen@[k] == (#[trigger] tx.inputs@[k]).spec_outpoint(),
                first_duplicate(tx.inputs@, i as nat) is None,
            decreases n - i,
        {
            let outpoint = tx.inputs[i].outpoint();
            let mut k: usize = 0;
            while k < i
                invariant
                    n == tx.inputs@.len(),
                    i < n,
                    k <= i,
                    seen@.len() == i,
                    outpoint == tx.inputs@[i as int].spec_outpoint(),
                    tx.structure_fault() is None,
                    !tx.spec_is_coinbase(),
                    first_duplicate(tx.inputs@, i as nat) is None,
                    forall|m: int| 0 <= m < i ==> seen@[m] == (#[trigger] tx.inputs@[m]).spec_outpoint(),
                    forall|m: int| 0 <= m < k ==> (#[trigger] tx.inputs@[m]).spec_outpoint() != outpoint,
                decreases i - k,
            {
                if seen[k].same_as(&outpoint) {
                    assert(tx.inputs@[k as int].spec_outpoint() == outpoint);
                    assert(first_duplicate(tx.inputs@, (i + 1) as nat) == Some(outpoint));
                    proof {
                        lemma_first_duplicate_stays(tx.inputs@, (i + 1) as nat, n as nat);
                    }
                    return Err(ChainError::DuplicateInput(outpoint));
                }
                k = k + 1;
            }
            seen.push(outpoint);
            i = i + 1;
        }
        let mut i: usize = 0;
        while i < n
            invariant
                n == tx.inputs@.len(),
                i <= n,
                tx.structure_fault() is None,
                !tx.spec_is_coinbase(),
                first_duplicate(tx.inputs@, n as nat) is None,
                first_input_fault(self.utxo_set@, *tx, i as nat) is None,
            decreases n - i,
        {
            let input = &tx.inputs[i];
            let outpoint = input.outpoint();
            let utxo = match self.utxo_set.get(&outpoint) {
                Some(u) => u,
                None => {
                    proof {
                        lemma_first_input_fault_stays(self.utxo_set@, *tx, (i + 1) as nat, n as nat);
                    }
                    return Err(ChainError::UtxoNotFound(outpoint));
                },
            };
            let pk_bytes = SIGNER.pk_to_bytes(&input.public_key);
            let pk_hash = HASHER.hash(pk_bytes.as_slice());
            let address = address_bytes(&pk_hash);
            if !bytes_eq(address.as_slice(), utxo.recipient.as_slice()) {
                proof {
                    lemma_first_input_fault_stays(self.utxo_set@, *tx, (i + 1) as nat, n as nat);
                }
                return Err(ChainError::RecipientMismatch(i));
            }
            let sighash = tx.sighash_for_input(i);
            if !SIGNER.verify(&input.public_key, sighash.as_slice(), &input.signature) {
                proof {
                    lemma_first_input_fault_stays(self.utxo_set@, *tx, (i + 1) as nat, n as nat);
                }
                return Err(ChainError::InvalidInputSignature(i));
            }
            i = i + 1;
        }
        Ok(())
    }

    /// Applies a transaction: spends its inputs (unless it is a coinbase),
    /// records its outputs under `txid`, then checks that the inputs are
    /// worth at least the outputs. A failure keeps what was done before it.
    fn apply_transaction(&mut self, tx: &Transaction, txid: HashOutput) -> (r: Result<
        (),
        ChainError,
    >)
        requires
            sum_amounts(tx.outputs@) <= u64::MAX,
        ensures
            final(self).blocks@ == old(self).blocks@,
            (final(self).utxo_set@, r) == match apply_tx(old(self).utxo_set@, *tx, txid) {
                (m, None) => (m, Ok::<(), ChainError>(())),
                (m, Some(e)) => (m, Err::<(), ChainError>(e)),
            },
    {
        let ghost start = self.utxo_set@;
        let mut input_sum: u128 = 0;
        let coinbase = tx.is_coinbase();
        if !coinbase {
            let n = tx.inputs.len();
            let mut i: usize = 0;
            while i < n
                invariant
                    n == tx.inputs@.len(),
                    i <= n,
                    !tx.spec_is_coinbase(),
                    start == old(self).utxo_set@,
                    self.blocks@ == old(self).blocks@,
                    spend_inputs(start, tx.inputs@, i as nat) == (
                        self.utxo_set@,
                        input_sum as nat,
                        None::<OutPoint>,
                    ),
                decreases n - i,
            {
                let outpoint = tx.inputs[i].outpoint();
                let ghost before = self.utxo_set@;
                proof {
                    lemma_spent_bound(start, tx.inputs@, i as nat);
                    assert(i * (u64::MAX as nat) <= (usize::MAX as nat) * (u64::MAX as nat))
                        by (nonlinear_arith)
                        requires
                            i <= usize::MAX,
                    ;
                }
                match self.utxo_set.spend(&outpoint) {
                    Some(output) => {
                        input_sum = input_sum + output.amount as u128;
                    },
                    None => {
                        assert(self.utxo_set@ =~= before);
                        proof {
                            lemma_spend_inputs_stays(start, tx.inputs@, (i + 1) as nat, n as nat);
                        }
                        return Err(ChainError::UtxoNotFound(outpoint));
                    },
                }
                i = i + 1;
            }
        }
        let ghost spent_map = self.utxo_set@;
        let m = tx.outputs.len();
        let mut index: usize = 0;
        while index < m
            invariant
                m == tx.outputs@.len(),
                index <= m,
                self.blocks@ == old(self).blocks@,
                self.utxo_set@ == add_outputs(spent_map, txid, tx.outputs@, index as nat),
            decreases m - index,
        {
            let outpoint = OutPoint { txid, index: index as u32 };
            self.utxo_set.add(outpoint, tx.outputs[index]);
            index = index + 1;
        }
        if !coinbase {
            let output_sum = tx.total_output_value();
            if input_sum < output_sum as u128 {
                return Err(ChainError::InsufficientInputs { inputs: input_sum, outputs: output_sum });
            }
        }
        Ok(())
    }

    /// The unspent outputs.
    pub fn utxo_set(&self) -> (s: &UtxoSet)
        ensures
            s@ == self.utxos(),
    {
        &self.utxo_set
    }

    /// The number of blocks, as a `u32`.
    pub fn height(&self) -> (h: u32)
        ensures
            h == self.chain().len() as u32,
    {
        self.blocks.len() as u32
    }

    /// The block at position `index`, if there is one.
    pub fn get_block(&self, index: u32) -> (b: Option<&Block>)
        ensures
            match b {
                Some(blk) => index < self.chain().len() && *blk == self.chain()[index as int],
                None => index >= self.chain().len(),
            },
    {
        if (index as usize) < self.blocks.len() {
            Some(&self.blocks[index as usize])
        } else {
            None
        }
    }

    /// The most recent block, if any.
    pub fn last_block(&self) -> (b: Option<&Block>)
        ensures
            match b {
                Some(blk) => self.chain().len() > 0 && *blk == self.chain().last(),
                None => self.chain().len() == 0,
            },
    {
        if self.blocks.len() == 0 {
            None
        } else {
            Some(&self.blocks[self.blocks.len() - 1])
        }
    }

    /// The number of unspent outputs.
    pub fn utxo_count(&self) -> (n: usize)
        ensures
            n == self.utxos().len(),
    {
        self.utxo_set.len()
    }
}

/// The first 20 bytes of a digest.
fn address_bytes(digest: &[u8; 32]) -> (a: [u8; 20])
    ensures
        a@ == digest@.subrange(0, 20),
{
    let mut a = [0u8; 20];
    let mut i: usize = 0;
    while i < 20
        invariant
            i <= 20,
            forall|j: int| 0 <= j < i ==> a@[j] == digest@[j],
        decreases 20 - i,
    {
        a[i] = digest[i];
        i = i + 1;
    }
    assert(a@ =~= digest@.subrange(0, 20));
    a
}

proof fn lemma_first_duplicate_stays(inputs: Seq<TxInput>, i: nat, n: nat)
    requires
        i <= n,
        first_duplicate(inputs, i) is Some,
    ensures
        first_duplicate(inputs, n) == first_duplicate(inputs, i),
    decreases n - i,
{
    if i < n {
        lemma_first_duplicate_stays(inputs, i, (n - 1) as nat);
    }
}

proof fn lemma_spend_inputs_stays(
    utxos: Map<OutPoint, TxOutput>,
    inputs: Seq<TxInput>,
    i: nat,
    n: nat,
)
    requires
        i <= n,
        spend_inputs(utxos, inputs, i).2 is Some,
    ensures
        spend_inputs(utxos, inputs, n) == spend_inputs(utxos, inputs, i),
    decreases n - i,
{
    if i < n {
        lemma_spend_inputs_stays(utxos, inputs, i, (n - 1) as nat);
    }
}

proof fn lemma_first_tx_fault_stays(
    utxos: Map<OutPoint, TxOutput>,
    txs: Seq<Transaction>,
    i: nat,
    n: nat,
)
    requires
        i <= n,
        first_tx_fault(utxos, txs, i) is Some,
    ensures
        first_tx_fault(utxos, txs, n) == first_tx_fault(utxos, txs, i),
    decreases n - i,
{
    if i < n {
        lemma_first_tx_fault_stays(utxos, txs, i, (n - 1) as nat);
    }
}

proof fn lemma_apply_txs_stays(
    utxos: Map<OutPoint, TxOutput>,
    txs: Seq<Transaction>,
    i: nat,
    n: nat,
)
    requires
        i <= n,
        apply_txs(utxos, txs, i).1 is Some,
    ensures
        apply_txs(utxos, txs, n) == apply_txs(utxos, txs, i),
    decreases n - i,
{
    if i < n {
        lemma_apply_txs_stays(utxos, txs, i, (n - 1) as nat);
    }
}

proof fn lemma_first_input_fault_stays(
    utxos: Map<OutPoint, TxOutput>,
    tx: Transaction,
    i: nat,
    n: nat,
)
    requires
        i <= n,
        first_input_fault(utxos, tx, i) is Some,
    ensures
        first_input_fault(utxos, tx, n) == first_input_fault(utxos, tx, i),
    decreases n - i,
{
    if i < n {
        lemma_first_input_fault_stays(utxos, tx, i, (n - 1) as nat);
    }
}

/// Whether the first `n` inputs name pairwise different outpoints (an
/// outpoint is a transaction id together with an output index).
pub open spec fn outpoints_distinct(inputs: Seq<TxInput>, n: nat) -> bool {
    forall|k: int, j: int|
        0 <= k < j < n ==> (#[trigger] inputs[k]).spec_outpoint() != (#[trigger] inputs[j]).spec_outpoint()
}

/// Whether every one of the first `n` inputs names an unspent output.
pub open spec fn outpoints_present(utxos: Map<OutPoint, TxOutput>, inputs: Seq<TxInput>, n: nat) -> bool {
    forall|k: int| 0 <= k < n ==> utxos.contains_key((#[trigger] inputs[k]).spec_outpoint())
}

/// The total amount of the outputs that the first `n` inputs name, each read
/// in `utxos`.
pub open spec fn named_value(utxos: Map<OutPoint, TxOutput>, inputs: Seq<TxInput>, n: nat) -> nat
    decreases n,
{
    if n == 0 {
        0
    } else {
        named_value(utxos, inputs, (n - 1) as nat) + utxos[inputs[n - 1].spec_outpoint()].amount as nat
    }
}

/// The duplicate check finds a repeated outpoint exactly when two of the
/// inputs name the same outpoint (same transaction id and same output
/// index); the outpoint it reports is named by two of them.
pub proof fn lemma_duplicate_means_same_outpoint(inputs: Seq<TxInput>, n: nat)
    requires
        n <= inputs.len(),
    ensures
        first_duplicate(inputs, n) is None <==> outpoints_distinct(inputs, n),
        first_duplicate(inputs, n) matches Some(op) ==> exists|k: int, j: int|
            0 <= k < j < n && (#[trigger] inputs[k]).spec_outpoint() == op
                && (#[trigger] inputs[j]).spec_outpoint() == op,
    decreases n,
{
    if n > 0 {
        lemma_duplicate_means_same_outpoint(inputs, (n - 1) as nat);
        match first_duplicate(inputs, (n - 1) as nat) {
            Some(op) => {
                let (k, j) = choose|k: int, j: int|
                    0 <= k < j < n - 1 && (#[trigger] inputs[k]).spec_outpoint() == op
                        && (#[trigger] inputs[j]).spec_outpoint() == op;
                assert(!outpoints_distinct(inputs, n)) by {
                    assert(inputs[k].spec_outpoint() == inputs[j].spec_outpoint());
                }
            },
            None => {
                if exists|k: int|
                    0 <= k < n - 1 && (#[trigger] inputs[k]).spec_outpoint()
                        == inputs[n - 1].spec_outpoint() {
                    let k = choose|k: int|
                        0 <= k < n - 1 && (#[trigger] inputs[k]).spec_outpoint()
                            == inputs[n - 1].spec_outpoint();
                    assert(inputs[k].spec_outpoint() == inputs[n - 1].spec_outpoint());
                    assert(!outpoints_distinct(inputs, n));
                } else {
                    assert forall|k: int, j: int| 0 <= k < j < n implies (#[trigger] inputs[k]).spec_outpoint()
                        != (#[trigger] inputs[j]).spec_outpoint() by {
                        if j < n - 1 {
                            assert(outpoints_distinct(inputs, (n - 1) as nat));
                        }
                    }
                }
            },
        }
    }
}

/// Spending inputs that name distinct unspent outputs removes exactly those
/// outputs, misses none, and spends the sum of their amounts.
pub proof fn lemma_spending_sums_inputs(utxos: Map<OutPoint, TxOutput>, inputs: Seq<TxInput>, n: nat)
    requires
        n <= inputs.len(),
        outpoints_distinct(inputs, n),
        outpoints_present(utxos, inputs, n),
    ensures
        spend_inputs(utxos, inputs, n).2 is None,
        spend_inputs(utxos, inputs, n).1 == named_value(utxos, inputs, n),
        forall|op: OutPoint|
            #![trigger spend_inputs(utxos, inputs, n).0.contains_key(op)]
            spend_inputs(utxos, inputs, n).0.contains_key(op) <==> (utxos.contains_key(op) && forall|k: int|
                0 <= k < n ==> (#[trigger] inputs[k]).spec_outpoint() != op),
        forall|op: OutPoint|
            #![trigger spend_inputs(utxos, inputs, n).0[op]]
            spend_inputs(utxos, inputs, n).0.contains_key(op) ==> spend_inputs(utxos, inputs, n).0[op]
                == utxos[op],
    decreases n,
{
    if n > 0 {
        assert(outpoints_distinct(inputs, (n - 1) as nat));
        lemma_spending_sums_inputs(utxos, inputs, (n - 1) as nat);
        let m = spend_inputs(utxos, inputs, (n - 1) as nat).0;
        let op = inputs[n - 1].spec_outpoint();
        assert(utxos.contains_key(op));
        assert forall|k: int| 0 <= k < n - 1 implies (#[trigger] inputs[k]).spec_outpoint() != op by {
            assert(inputs[k].spec_outpoint() != inputs[n - 1].spec_outpoint());
        }
        assert(m.contains_key(op));
        assert(m[op] == utxos[op]);
        let after = spend_inputs(utxos, inputs, n).0;
        assert(after == m.remove(op));
        assert forall|o: OutPoint| #![trigger after.contains_key(o)]
            after.contains_key(o) <==> (utxos.contains_key(o) && forall|k: int|
                0 <= k < n ==> (#[trigger] inputs[k]).spec_outpoint() != o) by {
            if after.contains_key(o) {
                assert(m.contains_key(o) && o != op);
                assert forall|k: int| 0 <= k < n implies (#[trigger] inputs[k]).spec_outpoint() != o by {
                    if k < n - 1 {
                        assert(m.contains_key(o));
                    }
                }
            }
            if utxos.contains_key(o) && forall|k: int|
                0 <= k < n ==> (#[trigger] inputs[k]).spec_outpoint() != o {
                assert(inputs[n - 1].spec_outpoint() != o);
                assert forall|k: int| 0 <= k < n - 1 implies (#[trigger] inputs[k]).spec_outpoint() != o by {
                    assert(inputs[k].spec_outpoint() != o);
                }
                assert(m.contains_key(o));
            }
        }
    }
}

/// A transaction that spends distinct unspent outputs is applied without
/// error exactly when those outputs are together worth at least its
/// outputs; otherwise it is refused with both totals.
pub proof fn lemma_balance_decides(utxos: Map<OutPoint, TxOutput>, tx: Transaction, txid: HashOutput)
    requires
        !tx.spec_is_coinbase(),
        outpoints_distinct(tx.inputs@, tx.inputs@.len()),
        outpoints_present(utxos, tx.inputs@, tx.inputs@.len()),
    ensures
        named_value(utxos, tx.inputs@, tx.inputs@.len()) >= sum_amounts(tx.outputs@) ==> apply_tx(
            utxos,
            tx,
            txid,
        ).1 is None,
        named_value(utxos, tx.inputs@, tx.inputs@.len()) < sum_amounts(tx.outputs@) ==> apply_tx(
            utxos,
            tx,
            txid,
        ).1 == Some(
            ChainError::InsufficientInputs {
                inputs: named_value(utxos, tx.inputs@, tx.inputs@.len()) as u128,
                outputs: sum_amounts(tx.outputs@) as u64,
            },
        ),
{
    lemma_spending_sums_inputs(utxos, tx.inputs@, tx.inputs@.len());
}

proof fn lemma_first_input_fault_none_iff(utxos: Map<OutPoint, TxOutput>, tx: Transaction, n: nat)
    ensures
        first_input_fault(utxos, tx, n) is None <==> forall|k: int|
            0 <= k < n ==> (#[trigger] input_fault(utxos, tx, k)) is None,
    decreases n,
{
    if n > 0 {
        lemma_first_input_fault_none_iff(utxos, tx, (n - 1) as nat);
        if first_input_fault(utxos, tx, (n - 1) as nat) is Some {
            let k = choose|k: int| 0 <= k < n - 1 && !(#[trigger] input_fault(utxos, tx, k) is None);
            assert(!(input_fault(utxos, tx, k) is None));
        }
    }
}

/// A transaction passes the checks against the unspent outputs exactly when
/// its structure is sound and, unless it is a coinbase, its inputs name
/// pairwise different outpoints, each of them unspent, each input's public
/// key hashes to the address that output pays, and each input's signature
/// over its own signature hash is valid under that key.
pub proof fn lemma_transaction_acceptance(utxos: Map<OutPoint, TxOutput>, tx: Transaction)
    ensures
        tx_fault(utxos, tx) is None <==> {
            &&& tx.structure_fault() is None
            &&& (tx.spec_is_coinbase() || {
                &&& outpoints_distinct(tx.inputs@, tx.inputs@.len())
                &&& forall|k: int|
                    0 <= k < tx.inputs@.len() ==> {
                        let input = #[trigger] tx.inputs@[k];
                        &&& utxos.contains_key(input.spec_outpoint())
                        &&& address_of(input.public_key@) == utxos[input.spec_outpoint()].recipient@
                        &&& ed25519_accepts(input.public_key@, tx.spec_sighash(k), input.signature@)
                    }
            })
        },
{
    lemma_duplicate_means_same_outpoint(tx.inputs@, tx.inputs@.len());
    lemma_first_input_fault_none_iff(utxos, tx, tx.inputs@.len());
    if tx.structure_fault() is None && !tx.spec_is_coinbase() {
        let n = tx.inputs@.len();
        if forall|k: int| 0 <= k < n ==> (#[trigger] input_fault(utxos, tx, k)) is None {
            assert forall|k: int| 0 <= k < n implies {
                let input = #[trigger] tx.inputs@[k];
                &&& utxos.contains_key(input.spec_outpoint())
                &&& address_of(input.public_key@) == utxos[input.spec_outpoint()].recipient@
                &&& ed25519_accepts(input.public_key@, tx.spec_sighash(k), input.signature@)
            } by {
                assert(input_fault(utxos, tx, k) is None);
            }
        } else {
            let k = choose|k: int| 0 <= k < n && !(#[trigger] input_fault(utxos, tx, k) is None);
            assert(!(input_fault(utxos, tx, k) is None));
            let input = tx.inputs@[k];
            assert(!{
                &&& utxos.contains_key(input.spec_outpoint())
                &&& address_of(input.public_key@) == utxos[input.spec_outpoint()].recipient@
                &&& ed25519_accepts(input.public_key@, tx.spec_sighash(k), input.signature@)
            });
        }
    }
}

} // verus!
