use chaincore::transaction::traits::TransactionOutputModel;
use chaincore::transaction::utxo::{create_output, is_output_owned_by, output_to_bytes, UtxoOutput};

#[test]
fn test_create_output() {
    let pubkey = [1u8; 32];
    let output = UtxoOutput::new(100, &pubkey);

    assert_eq!(output.value(), 100);
    assert_eq!(output.recipient_pubkey(), &pubkey);
}

#[test]
fn test_is_owned_by() {
    let alice_pubkey = [1u8; 32];
    let bob_pubkey = [2u8; 32];

    let output = UtxoOutput::new(50, &alice_pubkey);

    assert!(output.is_owned_by(&alice_pubkey));

    assert!(!output.is_owned_by(&bob_pubkey));
}

#[test]
fn test_is_owned_by_wrong_length() {
    let pubkey = [1u8; 32];
    let output = UtxoOutput::new(50, &pubkey);

    let wrong_key = [1u8; 16];
    assert!(!output.is_owned_by(&wrong_key));
}

#[test]
fn test_to_bytes() {
    let pubkey = [42u8; 32];
    let output = UtxoOutput::new(100, &pubkey);
    let bytes = output.to_bytes();

    assert_eq!(bytes.len(), 40);

    let value_bytes = &bytes[0..8];
    assert_eq!(u64::from_le_bytes(value_bytes.try_into().unwrap()), 100);

    let pubkey_bytes = &bytes[8..40];
    assert_eq!(pubkey_bytes, &pubkey);
}

#[test]
fn test_helper_functions() {
    let pubkey = [1u8; 32];

    let output = create_output(100, &pubkey);
    assert_eq!(output.value(), 100);

    assert!(is_output_owned_by(&output, &pubkey));

    let bytes = output_to_bytes(&output);
    assert_eq!(bytes.len(), 40);
}

#[test]
fn test_deterministic_serialization() {
    let pubkey = [7u8; 32];
    let output1 = UtxoOutput::new(100, &pubkey);
    let output2 = UtxoOutput::new(100, &pubkey);

    assert_eq!(output1.to_bytes(), output2.to_bytes());
}

#[test]
fn trait_value_and_longer_key() {
    let pubkey = [3u8; 32];
    let output = UtxoOutput::new(7, &pubkey);
    assert_eq!(TransactionOutputModel::value(&output), 7);
    assert!(!output.is_owned_by(&[3u8; 33]));
    assert!(!is_output_owned_by(&output, &[4u8; 32]));
}
