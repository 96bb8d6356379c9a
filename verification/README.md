# chaincore

The core of a small UTXO blockchain, verified with Verus.

- `src/crypto/`: SHA3-256 hashing (`sha3`), Ed25519 keys and signatures
  (`ed25519`), lower-case hexadecimal text (`hexcodec`), the incremental
  `Hasher` and the 256-bit `Hash`/`U256` types (`hash`), and the traits that
  abstract a signature scheme and a hash function (`traits`).
- `src/transaction/`: inputs, outputs and transactions, their two byte
  encodings (without and with signatures), identifiers and signature hashes,
  and the structural rules a transaction must meet.
- `src/block.rs`: blocks, the bytes their author signs, and the block hash.
- `src/blockchain/`: the set of unspent outputs and the chain itself, which
  validates a block against the last one and each transaction against the
  unspent outputs before applying them.
- `app/main.rs`: a small demonstration program.

The outside crates (`sha3`, `ed25519-dalek`, `rand_core`, `hex`) are called
through a handful of wrappers whose contracts are trusted; everything else in
`src/` is proved against its contract. Results of SHA3-256 and Ed25519 are
named by uninterpreted spec functions, so contracts say exactly which bytes
are hashed or signed.
