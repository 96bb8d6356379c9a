use chaincore::blockchain::ChainError;
use chaincore::{
    Block, Blockchain, BlockchainHasher, BlockchainSigner, CryptoEncoding, OutPoint, Transaction,
    TxInput, TxOutput, HASHER, SIGNER,
};

fn address_of(public_key: &chaincore::PublicKey) -> [u8; 20] {
    let pk_bytes = SIGNER.pk_to_bytes(public_key);
    let hash = HASHER.hash(&pk_bytes);
    hash[0..20].try_into().unwrap()
}

#[test]
fn test_blockchain_creation() {
    let blockchain = Blockchain::new();
    assert_eq!(blockchain.height(), 0);
    assert_eq!(blockchain.utxo_count(), 0);
}

#[test]
fn blockchain_test_genesis_block() {
    let private_key = SIGNER.generate();
    let public_key = SIGNER.get_public_key(&private_key);

    let genesis = Block::genesis(public_key);
    let blockchain = Blockchain::with_genesis(genesis);

    assert_eq!(blockchain.height(), 1);
    assert!(blockchain.last_block().is_some());
    assert!(blockchain.last_block().unwrap().is_genesis());
}

#[test]
fn blockchain_test_transaction_validation() {
    let priv_alice = SIGNER.generate();
    let pub_alice = SIGNER.get_public_key(&priv_alice);

    let mut blockchain = Blockchain::new();

    let utxo_output = TxOutput {
        amount: 100,
        recipient: {
            let pk_bytes = SIGNER.pk_to_bytes(&pub_alice);
            let hash = HASHER.hash(&pk_bytes);
            hash[0..20].try_into().unwrap()
        },
    };

    let outpoint = OutPoint {
        txid: [1u8; 32],
        index: 0,
    };

    blockchain.utxo_set.add(outpoint.clone(), utxo_output);

    let mut tx = Transaction::new();

    tx.inputs.push(TxInput {
        previous_tx_id: outpoint.txid,
        output_index: outpoint.index,
        signature: SIGNER.sign(&priv_alice, &[0u8]).unwrap(),
        public_key: pub_alice,
    });

    tx.outputs.push(TxOutput {
        amount: 50,
        recipient: [2u8; 20],
    });

    let sighash = tx.sighash_for_input(0);
    let signature = SIGNER.sign(&priv_alice, &sighash).unwrap();

    tx.inputs[0].signature = signature;

    assert!(blockchain.validate_transaction(&tx).is_ok());
}

#[test]
fn test_block_validation_and_addition() {
    let priv_key = SIGNER.generate();
    let pub_key = SIGNER.get_public_key(&priv_key);

    let mut genesis = Block::genesis(pub_key);
    genesis.sign_and_finalize(&priv_key).unwrap();

    let mut blockchain = Blockchain::with_genesis(genesis.clone());

    let mut coinbase = Transaction::new();
    coinbase.outputs.push(TxOutput {
        amount: 50,
        recipient: {
            let pk_bytes = SIGNER.pk_to_bytes(&pub_key);
            let hash = HASHER.hash(&pk_bytes);
            hash[0..20].try_into().unwrap()
        },
    });

    let mut block2 = Block::new(1, genesis.hash, vec![coinbase], pub_key);

    assert!(blockchain.add_block(block2.clone()).is_err());

    block2.sign_and_finalize(&priv_key).unwrap();

    assert!(blockchain.add_block(block2).is_ok());
    assert_eq!(blockchain.height(), 2);
}

fn chain_with_coinbase() -> (Blockchain, chaincore::PrivateKey, Block) {
    let key = SIGNER.generate();
    let author = SIGNER.get_public_key(&key);
    let mut genesis = Block::genesis(author);
    genesis.sign_and_finalize(&key).unwrap();
    let mut chain = Blockchain::with_genesis(genesis.clone());
    let mut coinbase = Transaction::new();
    coinbase.outputs.push(TxOutput { amount: 100, recipient: address_of(&author) });
    let mut block = Block::new(1, genesis.hash, vec![coinbase], author);
    block.sign_and_finalize(&key).unwrap();
    assert_eq!(chain.add_block(block.clone()), Ok(()));
    (chain, key, block)
}

#[test]
fn accepted_block_records_its_outputs() {
    let (chain, _key, block) = chain_with_coinbase();
    assert_eq!(chain.height(), 2);
    assert_eq!(chain.utxo_count(), 1);
    let op = OutPoint { txid: block.transactions[0].txid(), index: 0 };
    assert_eq!(chain.utxo_set().get(&op).map(|o| o.amount), Some(100));
    assert!(chain.utxo_set().get(&OutPoint { txid: block.hash, index: 0 }).is_none());
    assert_eq!(chain.get_block(1).unwrap().hash, block.hash);
    assert!(chain.get_block(2).is_none());
}

#[test]
fn spending_moves_value_and_rejects_double_spend() {
    let (mut chain, key, block) = chain_with_coinbase();
    let author = SIGNER.get_public_key(&key);
    let bob = SIGNER.get_public_key(&SIGNER.generate());

    let funding = OutPoint { txid: block.transactions[0].txid(), index: 0 };
    let mut tx = Transaction::new();
    tx.inputs.push(TxInput {
        previous_tx_id: funding.txid,
        output_index: 0,
        signature: SIGNER.sign(&key, &[0u8]).unwrap(),
        public_key: author,
    });
    tx.outputs.push(TxOutput { amount: 60, recipient: address_of(&bob) });
    tx.outputs.push(TxOutput { amount: 40, recipient: address_of(&author) });
    let sighash = tx.sighash_for_input(0);
    tx.inputs[0].signature = SIGNER.sign(&key, &sighash).unwrap();

    let mut next = Block::new(2, block.hash, vec![tx.clone()], author);
    next.sign_and_finalize(&key).unwrap();
    assert_eq!(chain.add_block(next.clone()), Ok(()));
    assert_eq!(chain.height(), 3);
    assert_eq!(chain.utxo_count(), 2);
    assert!(chain.utxo_set().get(&funding).is_none());
    let paid = tx.txid();
    assert_eq!(chain.utxo_set().get(&OutPoint { txid: paid, index: 0 }).map(|o| o.amount), Some(60));
    assert_eq!(chain.utxo_set().get(&OutPoint { txid: paid, index: 1 }).map(|o| o.amount), Some(40));

    // The same input again: the outpoint is gone.
    let mut again = Block::new(3, next.hash, vec![tx], author);
    again.sign_and_finalize(&key).unwrap();
    assert_eq!(
        chain.add_block(again),
        Err(ChainError::UtxoNotFound(funding))
    );
    assert_eq!(chain.height(), 3);
}

#[test]
fn block_checks_report_each_fault() {
    let (mut chain, key, block) = chain_with_coinbase();
    let author = SIGNER.get_public_key(&key);
    let mut coinbase = Transaction::new();
    coinbase.outputs.push(TxOutput { amount: 5, recipient: [9u8; 20] });

    // Genesis on a non-empty chain.
    let mut genesis = Block::genesis(author);
    genesis.transactions.push(coinbase.clone());
    genesis.sign_and_finalize(&key).unwrap();
    assert_eq!(chain.add_block(genesis), Err(ChainError::GenesisNotFirst));

    // Wrong previous hash.
    let mut wrong_prev = Block::new(2, [7u8; 32], vec![coinbase.clone()], author);
    wrong_prev.sign_and_finalize(&key).unwrap();
    assert_eq!(
        chain.add_block(wrong_prev),
        Err(ChainError::InvalidPrevHash { expected: block.hash, got: [7u8; 32] })
    );

    // Wrong index.
    let mut wrong_index = Block::new(5, block.hash, vec![coinbase.clone()], author);
    wrong_index.sign_and_finalize(&key).unwrap();
    let refused = chain.add_block(wrong_index);
    assert_eq!(refused, Err(ChainError::InvalidIndex { expected_index: 2, got_index: 5 }));
    assert_eq!(refused.unwrap_err().message(), "Invalid block index: expected 2, got 5");

    // Unsigned.
    let unsigned = Block::new(2, block.hash, vec![coinbase.clone()], author);
    assert_eq!(chain.add_block(unsigned), Err(ChainError::Unsigned));

    // Signed by someone else.
    let other = SIGNER.generate();
    let mut forged = Block::new(2, block.hash, vec![coinbase.clone()], author);
    forged.sign_and_finalize(&other).unwrap();
    assert_eq!(chain.add_block(forged), Err(ChainError::InvalidSignature));

    // Hash tampered with.
    let mut tampered = Block::new(2, block.hash, vec![coinbase.clone()], author);
    tampered.sign_and_finalize(&key).unwrap();
    tampered.hash[0] ^= 1;
    assert_eq!(chain.add_block(tampered), Err(ChainError::HashMismatch));

    // No transactions.
    let mut empty = Block::new(2, block.hash, Vec::new(), author);
    empty.sign_and_finalize(&key).unwrap();
    assert_eq!(chain.add_block(empty), Err(ChainError::NoTransactions));

    // A transaction with a zero amount.
    let mut zero = Transaction::new();
    zero.outputs.push(TxOutput { amount: 0, recipient: [1u8; 20] });
    let mut bad_tx = Block::new(2, block.hash, vec![zero], author);
    bad_tx.sign_and_finalize(&key).unwrap();
    assert_eq!(
        chain.add_block(bad_tx),
        Err(ChainError::InvalidStructure("Output amount must be greater than zero"))
    );

    assert_eq!(chain.height(), 2);
    assert_eq!(chain.utxo_count(), 1);
}

#[test]
fn non_genesis_block_on_empty_chain() {
    let key = SIGNER.generate();
    let author = SIGNER.get_public_key(&key);
    let mut chain = Blockchain::new();
    let mut coinbase = Transaction::new();
    coinbase.outputs.push(TxOutput { amount: 5, recipient: [9u8; 20] });
    let mut block = Block::new(1, [1u8; 32], vec![coinbase.clone()], author);
    block.sign_and_finalize(&key).unwrap();
    assert_eq!(chain.add_block(block), Err(ChainError::EmptyChain));

    // A signed genesis block with a transaction is accepted by an empty chain.
    let mut genesis = Block::genesis(author);
    genesis.transactions.push(coinbase);
    genesis.sign_and_finalize(&key).unwrap();
    assert_eq!(chain.add_block(genesis), Ok(()));
    assert_eq!(chain.height(), 1);
    assert_eq!(chain.utxo_count(), 1);
}

fn funded_chain() -> (Blockchain, chaincore::PrivateKey, OutPoint) {
    let key = SIGNER.generate();
    let author = SIGNER.get_public_key(&key);
    let mut chain = Blockchain::new();
    let op = OutPoint { txid: [4u8; 32], index: 1 };
    chain.utxo_set.add(op, TxOutput { amount: 30, recipient: address_of(&author) });
    (chain, key, op)
}

fn spend(key: &chaincore::PrivateKey, op: OutPoint, amount: u64) -> Transaction {
    let author = SIGNER.get_public_key(key);
    let mut tx = Transaction::new();
    tx.inputs.push(TxInput {
        previous_tx_id: op.txid,
        output_index: op.index,
        signature: SIGNER.sign(key, &[0u8]).unwrap(),
        public_key: author,
    });
    tx.outputs.push(TxOutput { amount, recipient: [5u8; 20] });
    let sighash = tx.sighash_for_input(0);
    tx.inputs[0].signature = SIGNER.sign(key, &sighash).unwrap();
    tx
}

#[test]
fn transaction_checks_report_each_fault() {
    let (chain, key, op) = funded_chain();

    // Valid.
    assert_eq!(chain.validate_transaction(&spend(&key, op, 30)), Ok(()));

    // Missing outpoint.
    let missing = OutPoint { txid: [4u8; 32], index: 2 };
    assert_eq!(
        chain.validate_transaction(&spend(&key, missing, 30)),
        Err(ChainError::UtxoNotFound(missing))
    );

    // Duplicate input.
    let mut dup = spend(&key, op, 30);
    let first = dup.inputs[0];
    dup.inputs.push(first);
    assert_eq!(chain.validate_transaction(&dup), Err(ChainError::DuplicateInput(op)));

    // Key that does not match the recipient.
    let stranger = SIGNER.generate();
    assert_eq!(
        chain.validate_transaction(&spend(&stranger, op, 30)),
        Err(ChainError::RecipientMismatch(0))
    );

    // Signature over something else.
    let mut bad_sig = spend(&key, op, 30);
    bad_sig.inputs[0].signature = SIGNER.sign(&key, &[1u8]).unwrap();
    assert_eq!(
        chain.validate_transaction(&bad_sig),
        Err(ChainError::InvalidInputSignature(0))
    );

    // Structure: no outputs.
    let mut no_outputs = spend(&key, op, 30);
    no_outputs.outputs.clear();
    assert_eq!(
        chain.validate_transaction(&no_outputs),
        Err(ChainError::InvalidStructure("Transaction must have at least one output"))
    );

    // Coinbase transactions are not checked against the unspent outputs.
    let mut coinbase = Transaction::new();
    coinbase.outputs.push(TxOutput { amount: 1, recipient: [0u8; 20] });
    assert_eq!(chain.validate_transaction(&coinbase), Ok(()));
}

#[test]
fn overspending_block_changes_nothing() {
    let (mut chain, key, op) = funded_chain();
    let author = SIGNER.get_public_key(&key);
    let mut genesis = Block::genesis(author);
    let overspend = spend(&key, op, 31);
    genesis.transactions.push(overspend.clone());
    genesis.sign_and_finalize(&key).unwrap();
    assert_eq!(
        chain.add_block(genesis.clone()),
        Err(ChainError::InsufficientInputs { inputs: 30, outputs: 31 })
    );
    // Neither the blocks nor the unspent outputs change.
    assert_eq!(chain.height(), 0);
    assert_eq!(chain.utxo_count(), 1);
    assert_eq!(chain.utxo_set().get(&op).map(|o| o.amount), Some(30));
    assert!(chain.utxo_set().get(&OutPoint { txid: overspend.txid(), index: 0 }).is_none());
    assert!(chain.utxo_set().get(&OutPoint { txid: genesis.hash, index: 0 }).is_none());
}

#[test]
fn genesis_outputs_are_keyed_by_their_transaction() {
    let key = SIGNER.generate();
    let author = SIGNER.get_public_key(&key);
    let mut genesis = Block::genesis(author);
    let mut first = Transaction::new();
    first.outputs.push(TxOutput { amount: 10, recipient: [1u8; 20] });
    let mut second = Transaction::new();
    second.outputs.push(TxOutput { amount: 20, recipient: [2u8; 20] });
    second.outputs.push(TxOutput { amount: 25, recipient: [3u8; 20] });
    genesis.transactions.push(first.clone());
    genesis.transactions.push(second.clone());
    genesis.sign_and_finalize(&key).unwrap();
    let chain = Blockchain::with_genesis(genesis);
    assert_eq!(chain.utxo_count(), 3);
    let at = |txid, index| chain.utxo_set().get(&OutPoint { txid, index }).map(|o| o.amount);
    assert_eq!(at(first.txid(), 0), Some(10));
    assert_eq!(at(second.txid(), 0), Some(20));
    assert_eq!(at(second.txid(), 1), Some(25));
}

#[test]
fn error_messages_match_their_descriptions() {
    assert_eq!(ChainError::GenesisNotFirst.message(), "Cannot add genesis block to non-empty chain");
    assert_eq!(ChainError::EmptyChain.message(), "Cannot add block to empty chain");
    let expected = [3u8; 32];
    let mut got = [0u8; 32];
    got[0] = 255;
    got[31] = 10;
    assert_eq!(
        ChainError::InvalidPrevHash { expected, got }.message(),
        format!("Invalid prev_block_hash: expected {:?}, got {:?}", expected, got)
    );
    assert_eq!(
        ChainError::InvalidIndex { expected_index: 2, got_index: 5 }.message(),
        "Invalid block index: expected 2, got 5"
    );
    assert_eq!(ChainError::Unsigned.message(), "Block must be signed");
    assert_eq!(ChainError::InvalidSignature.message(), "Invalid block signature");
    assert_eq!(ChainError::HashMismatch.message(), "Block hash mismatch");
    assert_eq!(
        ChainError::NoTransactions.message(),
        "Block must contain at least one transaction"
    );
    assert_eq!(
        ChainError::InvalidStructure("Output amounts overflow").message(),
        "Output amounts overflow"
    );
    let op = OutPoint { txid: [1u8; 32], index: 1234 };
    assert_eq!(ChainError::DuplicateInput(op).message(), format!("Duplicate input: {:?}", op));
    assert_eq!(ChainError::UtxoNotFound(op).message(), format!("UTXO not found: {:?}", op));
    assert_eq!(
        ChainError::RecipientMismatch(0).message(),
        "Public key does not match UTXO recipient for input 0"
    );
    assert_eq!(ChainError::InvalidInputSignature(17).message(), "Invalid signature for input 17");
    assert_eq!(
        ChainError::InsufficientInputs { inputs: 30, outputs: 18446744073709551615 }.message(),
        "Invalid transaction: inputs (30) < outputs (18446744073709551615)"
    );
}
