use chaincore::{OutPoint, TxOutput, UtxoSet, UtxoView};

#[test]
fn add_get_spend() {
    let mut set = UtxoSet::new();
    assert!(set.is_empty());
    let a = OutPoint { txid: [1u8; 32], index: 0 };
    let b = OutPoint { txid: [1u8; 32], index: 1 };
    set.add(a, TxOutput { amount: 10, recipient: [0u8; 20] });
    set.add(b, TxOutput { amount: 20, recipient: [0u8; 20] });
    assert_eq!(set.len(), 2);
    // Adding at an existing outpoint replaces the output.
    set.add(a, TxOutput { amount: 11, recipient: [0u8; 20] });
    assert_eq!(set.len(), 2);
    assert_eq!(set.get(&a).map(|o| o.amount), Some(11));
    assert_eq!(set.lookup(&b).map(|o| o.amount), Some(20));
    assert_eq!(set.spend(&a).map(|o| o.amount), Some(11));
    assert_eq!(set.spend(&a), None);
    assert!(set.get(&a).is_none());
    assert_eq!(set.len(), 1);
    assert!(!set.is_empty());
}
