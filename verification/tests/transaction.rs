use chaincore::transaction::transaction::StandardSighash;
use chaincore::{
    BlockchainHasher, BlockchainSigner, Sighash, Transaction, TxCodec, TxInput, TxOutput, HASHER,
    SIGNER,
};

#[test]
fn transaction_test_transaction_validation() {
    let mut tx = Transaction::new();

    assert!(tx.validate_structure().is_err());

    tx.outputs.push(TxOutput {
        amount: 100,
        recipient: [1u8; 20],
    });

    assert!(tx.validate_structure().is_ok());

    let priv_key = SIGNER.generate();
    let pub_key = SIGNER.get_public_key(&priv_key);

    tx.inputs.push(TxInput {
        previous_tx_id: [0u8; 32],
        output_index: 0,
        signature: SIGNER.sign(&priv_key, &[0u8]).unwrap(),
        public_key: pub_key,
    });

    assert!(tx.validate_structure().is_ok());
}

#[test]
fn test_txid_calculation() {
    let priv_key = SIGNER.generate();
    let pub_key = SIGNER.get_public_key(&priv_key);

    let mut tx = Transaction::new();
    tx.outputs.push(TxOutput {
        amount: 50,
        recipient: [2u8; 20],
    });

    tx.inputs.push(TxInput {
        previous_tx_id: [1u8; 32],
        output_index: 0,
        signature: SIGNER.sign(&priv_key, &[0u8]).unwrap(),
        public_key: pub_key,
    });

    let txid1 = tx.txid();
    let txid2 = tx.txid();

    assert_eq!(txid1, txid2);

    assert_ne!(txid1, [0u8; 32]);
}

#[test]
fn test_serialization_deterministic() {
    let priv_key = SIGNER.generate();
    let pub_key = SIGNER.get_public_key(&priv_key);

    let mut tx = Transaction::new();
    tx.outputs.push(TxOutput {
        amount: 100,
        recipient: [3u8; 20],
    });

    tx.inputs.push(TxInput {
        previous_tx_id: [2u8; 32],
        output_index: 1,
        signature: SIGNER.sign(&priv_key, &[0u8]).unwrap(),
        public_key: pub_key,
    });

    let ser1 = tx.ser_no_witness();
    let ser2 = tx.ser_no_witness();
    assert_eq!(ser1, ser2);

    let ser_w1 = tx.ser_with_witness();
    let ser_w2 = tx.ser_with_witness();
    assert_eq!(ser_w1, ser_w2);

    assert!(ser_w1.len() > ser1.len());
}

fn sample() -> Transaction {
    let key = SIGNER.generate();
    let pk = SIGNER.get_public_key(&key);
    let mut tx = Transaction::new();
    for i in 0..2u8 {
        tx.inputs.push(TxInput {
            previous_tx_id: [i; 32],
            output_index: i as u32,
            signature: SIGNER.sign(&key, &[i]).unwrap(),
            public_key: pk,
        });
    }
    tx.outputs.push(TxOutput { amount: 0x0102, recipient: [9u8; 20] });
    tx
}

#[test]
fn serialisation_layout() {
    let tx = sample();
    let bytes = tx.ser_no_witness();
    // count + 2 * (32 + 4 + 32) + count + (8 + 20)
    assert_eq!(bytes.len(), 4 + 2 * 68 + 4 + 28);
    assert_eq!(&bytes[0..4], &[2, 0, 0, 0]);
    assert_eq!(&bytes[4..36], &[0u8; 32]);
    assert_eq!(&bytes[72..104], &[1u8; 32]);
    assert_eq!(&bytes[104..108], &[1, 0, 0, 0]);
    assert_eq!(&bytes[144..146], &[0x02, 0x01]);
    let with = tx.ser_with_witness();
    assert_eq!(with.len(), bytes.len() + 2 * 68);
    assert_eq!(&with[40..44], &[64, 0, 0, 0]);
}

#[test]
fn identifiers_use_the_configured_hasher() {
    let tx = sample();
    assert_eq!(tx.txid(), HASHER.hash(&tx.ser_no_witness()));
    assert_eq!(StandardSighash::txid(&HASHER, &tx), tx.txid());
    assert_eq!(StandardSighash::wtxid(&HASHER, &tx), HASHER.hash(&tx.ser_with_witness()));
    // Each input's signature hash commits to its own public key only.
    assert_ne!(tx.sighash_for_input(0), tx.sighash_for_input(1));
    assert_ne!(tx.sighash_for_input(0), tx.txid());
    assert_eq!(
        tx.sighash_for_input(5),
        StandardSighash::for_input(&HASHER, &tx, 5, 77, b"ignored", ())
    );
}

#[test]
fn structure_faults() {
    let mut tx = Transaction::new();
    assert_eq!(tx.validate_structure(), Err("Transaction must have at least one output"));
    tx.outputs.push(TxOutput { amount: u64::MAX, recipient: [0u8; 20] });
    assert_eq!(tx.validate_structure(), Ok(()));
    assert_eq!(tx.total_output_value(), u64::MAX);
    tx.outputs.push(TxOutput { amount: 1, recipient: [0u8; 20] });
    assert_eq!(tx.validate_structure(), Err("Output amounts overflow"));
    tx.outputs.push(TxOutput { amount: 0, recipient: [0u8; 20] });
    assert_eq!(tx.validate_structure(), Err("Output amount must be greater than zero"));
    assert!(tx.is_coinbase());
}

#[test]
fn outpoint_of_input() {
    let tx = sample();
    let op = tx.inputs[1].outpoint();
    assert_eq!(op.txid, [1u8; 32]);
    assert_eq!(op.index, 1);
    assert!(op.same_as(&tx.inputs[1].outpoint()));
    assert!(!op.same_as(&tx.inputs[0].outpoint()));
    assert!(!sample().is_coinbase());
}
