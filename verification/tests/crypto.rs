use chaincore::crypto::ed25519::Ed25519Signer;
use chaincore::crypto::{
    generate_keypair, get_public_key, hash_message, hash_message_hex, hash_string,
    hash_string_hex, hash_to_hex, hex_to_bytes, sign_message, verify_signature, CryptoError,
    HexError, Sha3Hasher,
};
use chaincore::{
    BlockchainHasher, BlockchainSigner, CryptoEncoding, PrivateKey, PublicKey, Signature,
    TaggedBlockchainHasher, HASHER, SIGNER,
};

#[test]
fn test_config_usage() {
    let private_key: PrivateKey = SIGNER.generate();
    let public_key: PublicKey = SIGNER.get_public_key(&private_key);

    let message = b"test configurazione";
    let signature: Signature = SIGNER.sign(&private_key, message).unwrap();

    assert!(SIGNER.verify(&public_key, message, &signature));
}

#[test]
fn test_sign_message() {
    let m = "test di messaggio da firmare";
    let keys = generate_keypair();
    let pub_key = get_public_key(&keys);
    let signature = sign_message(&keys, m.as_bytes());
    let is_valid = verify_signature(&signature, &pub_key, m.as_bytes());
    assert!(is_valid);
}

#[test]
fn test_trait_implementation() {
    let signer = Ed25519Signer;
    let key = signer.generate();
    let pub_key = signer.get_public_key(&key);
    let m = b"test implementazione trait";
    let signature = signer.sign(&key, m).unwrap();
    let is_valid = signer.verify(&pub_key, m, &signature);

    assert!(is_valid);
}

#[test]
fn test_hex_conversion() {
    let m = b"test";
    let hash = hash_message(m);
    let hex_string = hash_to_hex(&hash);
    assert_eq!(hex_string.len(), 64);
    assert!(hex_string.chars().all(|c| c.is_ascii_hexdigit()));
    let decoded = hex_to_bytes(&hex_string).unwrap();
    assert_eq!(hash, decoded);
}

#[test]
fn signature_does_not_verify_other_message_or_key() {
    let key = generate_keypair();
    let other = get_public_key(&generate_keypair());
    let sig = sign_message(&key, b"one");
    assert!(!verify_signature(&sig, &get_public_key(&key), b"two"));
    assert!(!verify_signature(&sig, &other, b"one"));
}

#[test]
fn signing_is_deterministic() {
    let key = generate_keypair();
    assert_eq!(sign_message(&key, b"m"), sign_message(&key, b"m"));
}

#[test]
fn sha3_known_answers() {
    // SHA3-256 of the empty string and of "abc" (FIPS 202 test vectors).
    assert_eq!(
        hash_to_hex(&hash_message(b"")),
        "a7ffc6f8bf1ed76651c14756a061d662f580ff4de43b49fa82d80a4b80f8434a"
    );
    assert_eq!(
        hash_string_hex("abc"),
        "3a985da74fe225b2045c172d6bd390bd855f086e3e9d525b46bfe24511431532"
    );
    assert_eq!(hash_string("abc"), hash_message(b"abc"));
    assert_eq!(hash_message_hex(b"abc"), hash_string_hex("abc"));
    assert_eq!(HASHER.hash(b"abc").to_vec(), hash_message(b"abc"));
    assert_eq!(Sha3Hasher.hash_hex(b"abc"), hash_string_hex("abc"));
}

#[test]
fn tagged_hash_is_hash_of_doubled_tag_hash_and_message() {
    let t = HASHER.hash(b"tag");
    let mut buf = Vec::new();
    buf.extend_from_slice(&t);
    buf.extend_from_slice(&t);
    buf.extend_from_slice(b"msg");
    assert_eq!(HASHER.hash_tagged(b"tag", b"msg"), HASHER.hash(&buf));
}

#[test]
fn hex_encoding_and_errors() {
    assert_eq!(hash_to_hex(&[0x00, 0xab, 0x7f]), "00ab7f");
    assert_eq!(hex_to_bytes("00AB7f").unwrap(), vec![0x00, 0xab, 0x7f]);
    assert_eq!(hex_to_bytes("abc"), Err(HexError::OddLength));
    assert_eq!(
        hex_to_bytes("0g"),
        Err(HexError::InvalidHexCharacter { c: 'g', index: 1 })
    );
    assert_eq!(hex_to_bytes("").unwrap(), Vec::<u8>::new());
}

#[test]
fn key_and_signature_encodings() {
    let key = generate_keypair();
    let pk = get_public_key(&key);
    let sig = sign_message(&key, b"x");

    let pk_bytes = SIGNER.pk_to_bytes(&pk);
    assert_eq!(pk_bytes.len(), 32);
    assert_eq!(SIGNER.pk_from_bytes(&pk_bytes), Ok(pk));
    assert_eq!(SIGNER.pk_from_bytes(&pk_bytes[..31]), Err(CryptoError::InvalidLength));

    let sig_bytes = SIGNER.sig_to_bytes(sig);
    assert_eq!(sig_bytes.len(), 64);
    assert_eq!(SIGNER.sig_from_bytes(&sig_bytes), Ok(sig));
    assert_eq!(SIGNER.sig_from_bytes(&sig_bytes[..63]), Err(CryptoError::InvalidLength));
}

#[test]
fn ed25519_known_answer() {
    // First test vector of RFC 8032 (empty message).
    let secret = hex_to_bytes("9d61b19deffd5a60ba844af492ec2cc44449c5697b326919703bac031cae7f60").unwrap();
    let secret: [u8; 32] = secret.try_into().unwrap();
    let key = chaincore::crypto::ed25519::SigningKey::from_bytes(&secret);
    let pk = get_public_key(&key);
    assert_eq!(
        hash_to_hex(&pk.to_bytes()),
        "d75a980182b10ab7d54bfed3c964073a0ee172f3daa62325af021a68f707511a"
    );
    let sig = sign_message(&key, b"");
    assert_eq!(
        hash_to_hex(&sig.to_bytes()),
        "e5564300c360ac729086e2cc806e828a84877f1eb8e5d974d873e065224901555fb8821590a33bacc61e39701cf9b46bd25bf5f0595bbe24655141438e7a100b"
    );
    assert!(verify_signature(&sig, &pk, b""));
}
