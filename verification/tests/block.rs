use chaincore::{Block, BlockchainSigner, SIGNER};

#[test]
fn block_test_genesis_block() {
    let private_key = SIGNER.generate();
    let author = SIGNER.get_public_key(&private_key);
    let genesis = Block::genesis(author);

    assert_eq!(genesis.index, 0);
    assert_eq!(genesis.prev_block_hash, [0u8; 32]);
    assert_eq!(genesis.transaction_count(), 0);
    assert!(genesis.is_genesis());
}

#[test]
fn test_block_creation() {
    let private_key = SIGNER.generate();
    let author = SIGNER.get_public_key(&private_key);
    let prev_hash = [1u8; 32];
    let block = Block::new(1, prev_hash, Vec::new(), author);

    assert_eq!(block.index, 1);
    assert_eq!(block.prev_block_hash, prev_hash);
    assert!(!block.is_genesis());
}

#[test]
fn test_block_signing() {
    let private_key = SIGNER.generate();
    let author = SIGNER.get_public_key(&private_key);

    let mut block = Block::genesis(author);

    assert!(block.signature.is_none());
    assert!(!block.verify_signature());

    assert!(block.sign_and_finalize(&private_key).is_ok());

    assert!(block.signature.is_some());
    assert!(block.verify_signature());

    assert_ne!(block.hash, [0u8; 32]);
}

#[test]
fn test_block_hash_deterministic() {
    let private_key = SIGNER.generate();
    let author = SIGNER.get_public_key(&private_key);

    let mut block1 = Block::new(1, [1u8; 32], Vec::new(), author);
    let mut block2 = Block::new(1, [1u8; 32], Vec::new(), author);

    let hash1_before = block1.calculate_hash();
    let hash2_before = block2.calculate_hash();
    assert_eq!(hash1_before, hash2_before);

    block1.sign_and_finalize(&private_key).unwrap();
    block2.sign_and_finalize(&private_key).unwrap();

    assert_eq!(block1.hash, block2.hash);
}

#[test]
fn test_hash_includes_signature() {
    let private_key = SIGNER.generate();
    let author = SIGNER.get_public_key(&private_key);

    let mut block = Block::genesis(author);

    let hash_unsigned = block.calculate_hash();

    block.sign_and_finalize(&private_key).unwrap();

    let hash_signed = block.hash;

    assert_ne!(
        hash_unsigned, hash_signed,
        "Block hash must change after signing - signature must be included in hash"
    );

    let hash_recalculated = block.calculate_hash();
    assert_eq!(hash_signed, hash_recalculated);
}

#[test]
fn signing_with_another_key_does_not_verify() {
    let author_key = SIGNER.generate();
    let other_key = SIGNER.generate();
    let author = SIGNER.get_public_key(&author_key);
    let mut block = Block::genesis(author);
    block.sign_and_finalize(&other_key).unwrap();
    assert!(block.signature.is_some());
    assert!(!block.verify_signature());
}

#[test]
fn signing_bytes_layout() {
    let private_key = SIGNER.generate();
    let author = SIGNER.get_public_key(&private_key);
    let mut block = Block::new(7, [3u8; 32], Vec::new(), author);
    block.timestamp = 0x0102;
    let bytes = block.to_bytes_for_signing();
    // index (4) + previous hash (32) + timestamp (16) + count (4) + author (32)
    assert_eq!(bytes.len(), 88);
    assert_eq!(&bytes[0..4], &[7, 0, 0, 0]);
    assert_eq!(&bytes[4..36], &[3u8; 32]);
    assert_eq!(&bytes[36..38], &[0x02, 0x01]);
    assert_eq!(&bytes[52..56], &[0, 0, 0, 0]);
    assert_eq!(&bytes[56..88], &author.to_bytes());
}

#[test]
fn block_with_given_timestamp() {
    let key = SIGNER.generate();
    let author = SIGNER.get_public_key(&key);
    let block = Block::with_timestamp(3, [4u8; 32], 1_700_000_000_000, Vec::new(), author);
    assert_eq!(block.index, 3);
    assert_eq!(block.prev_block_hash, [4u8; 32]);
    assert_eq!(block.timestamp, 1_700_000_000_000);
    assert_eq!(block.hash, [0u8; 32]);
    assert!(block.signature.is_none());
    let bytes = block.to_bytes_for_signing();
    assert_eq!(bytes.len(), 88);
    assert_eq!(&bytes[36..52], &1_700_000_000_000u128.to_le_bytes());
}
