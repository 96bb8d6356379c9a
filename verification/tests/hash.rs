use chaincore::crypto::hash;
use chaincore::crypto::{hash_message, Hasher, U256};

#[test]
fn test_hasher_basic() {
    let mut hasher = Hasher::new();
    hasher.input(b"Hello, ");
    hasher.input(b"World!");
    let hash1 = hasher.finalize();

    let hash2 = hash::Hash::hash(b"Hello, World!");

    assert_eq!(hash1, hash2);
}

#[test]
fn test_hasher_with_builder() {
    let hash1 = hash::Hash::compute(|mut hasher: Hasher| {
        hasher.input(b"test");
        hasher.input(42u32);
        hasher.input(1234567890u64);
        hasher
    });

    let hash2 = hash::Hash::compute(|mut hasher: Hasher| {
        hasher.input(b"test");
        hasher.input(42u32);
        hasher.input(1234567890u64);
        hasher
    });

    assert_eq!(hash1, hash2);
}

#[test]
fn test_hasher_multiple_data() {
    let data_parts: &[&[u8]] = &[b"part1", b"part2", b"part3"];
    let hash1 = hash::Hash::hash_parts(data_parts);

    let hash2 = hash::Hash::compute(|mut hasher: Hasher| {
        for part in data_parts {
            hasher.input(*part);
        }
        hasher
    });

    assert_eq!(hash1, hash2);
}

#[test]
fn test_hasher_number_methods() {
    let hash1 = hash::Hash::compute(|mut hasher: Hasher| {
        hasher.input(0xFFu8);
        hasher.input(0x12345678u32);
        hasher.input(0x123456789ABCDEF0u64);
        hasher
    });

    let mut data = Vec::new();
    data.push(0xFF);
    data.extend_from_slice(&0x12345678u32.to_le_bytes());
    data.extend_from_slice(&0x123456789ABCDEF0u64.to_le_bytes());
    let hash2 = hash::Hash::hash(&data);

    assert_eq!(hash1, hash2);
}

#[test]
fn test_hash_deterministic() {
    let data = b"deterministic test data";

    let hash1 = hash::Hash::hash(data);
    let hash2 = hash::Hash::hash(data);
    let hash3 = hash::Hash::compute(|mut hasher: Hasher| {
        hasher.input(data);
        hasher
    });

    assert_eq!(hash1, hash2);
    assert_eq!(hash1, hash3);
    assert_eq!(hash2, hash3);
}

#[test]
fn hasher_is_sha3_of_the_input() {
    let mut hasher = Hasher::new();
    hasher.input(b"ab").input(b"c");
    assert_eq!(hasher.finalize().as_bytes().to_vec(), hash_message(b"abc"));
}

#[test]
fn reset_forgets_input() {
    let mut hasher = Hasher::default();
    hasher.input(b"junk");
    hasher.reset();
    hasher.input(b"abc");
    assert_eq!(hasher.finalize(), hash::Hash::hash(b"abc"));
}

#[test]
fn wide_integers_and_vectors_encode_little_endian() {
    let mut a = Hasher::new();
    a.input(0x0102u128);
    a.input(3usize);
    a.input(vec![9u8, 8]);
    a.input([7u8; 2]);
    let h = hash::Hash::zero();
    a.input(h);
    let mut expected = Vec::new();
    expected.extend_from_slice(&0x0102u128.to_le_bytes());
    expected.extend_from_slice(&3u64.to_le_bytes());
    expected.extend_from_slice(&[9, 8, 7, 7]);
    expected.extend_from_slice(&[0u8; 32]);
    assert_eq!(a.finalize(), hash::Hash::hash(&expected));
}

#[test]
fn target_comparison_is_numeric() {
    let mut small = [0u8; 32];
    small[31] = 5;
    let mut big = [0u8; 32];
    big[0] = 1;
    let h = hash::Hash::from_bytes_array(small);
    assert!(h.matches_target(U256::from_be_bytes(big)));
    assert!(h.matches_target(U256::from_be_bytes(small)));
    assert!(!hash::Hash::from_bytes_array(big).matches_target(U256::from_be_bytes(small)));
    assert_eq!(h.as_u256(), U256::from_be_bytes(small));
    assert_eq!(hash::Hash::from_u256(U256::from_be_bytes(big)).as_bytes(), big);
    assert_eq!(hash::Hash::zero().as_bytes(), [0u8; 32]);
    assert_eq!(hash::Hash::from_bytes_array([0xab; 32]).to_hex(), "ab".repeat(32));
}
