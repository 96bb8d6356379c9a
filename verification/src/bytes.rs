//! Byte-level building blocks shared by the serialisers: little-endian
//! integer encodings, appending slices to a buffer and comparing byte strings.
use vstd::prelude::*;

verus! {

/// The `n` low-order bytes of `v`, least significant byte first.
pub open spec fn le_bytes(v: nat, n: nat) -> Seq<u8>
    decreases n,
{
    if n == 0 {
        Seq::empty()
    } else {
        seq![(v % 256) as u8] + le_bytes(v / 256, (n - 1) as nat)
    }
}

/// Little-endian encoding of a `u32` (4 bytes).
pub open spec fn u32_le(v: u32) -> Seq<u8> {
    le_bytes(v as nat, 4)
}

/// Little-endian encoding of a `u64` (8 bytes).
pub open spec fn u64_le(v: u64) -> Seq<u8> {
    le_bytes(v as nat, 8)
}

/// Little-endian encoding of a `u128` (16 bytes).
pub open spec fn u128_le(v: u128) -> Seq<u8> {
    le_bytes(v as nat, 16)
}

/// A sequence of `n` zero bytes.
pub open spec fn zeros(n: nat) -> Seq<u8> {
    Seq::new(n, |i: int| 0u8)
}

pub proof fn lemma_le_bytes_len(v: nat, n: nat)
    ensures
        le_bytes(v, n).len() == n,
    decreases n,
{
    if n > 0 {
        lemma_le_bytes_len(v / 256, (n - 1) as nat);
    }
}

/// Appends the `n` low-order bytes of `v` to `out`, least significant first.
pub fn push_le(out: &mut Vec<u8>, v: u128, n: usize)
    ensures
        final(out)@ == old(out)@ + le_bytes(v as nat, n as nat),
{
    let ghost start = out@;
    let mut x: u128 = v;
    let mut i: usize = 0;
    while i < n
        invariant
            i <= n,
            out@ + le_bytes(x as nat, (n - i) as nat) == start + le_bytes(v as nat, n as nat),
        decreases n - i,
    {
        let b: u8 = (x % 256) as u8;
        let ghost before = out@;
        assert(le_bytes(x as nat, (n - i) as nat) == seq![b] + le_bytes((x / 256) as nat, (n - i
            - 1) as nat));
        out.push(b);
        assert(out@ + le_bytes((x / 256) as nat, (n - i - 1) as nat) =~= before + (seq![b]
            + le_bytes((x / 256) as nat, (n - i - 1) as nat)));
        x = x / 256;
        i = i + 1;
    }
    assert(le_bytes(x as nat, 0) =~= Seq::<u8>::empty());
    assert(out@ =~= out@ + le_bytes(x as nat, 0));
}

/// Appends every byte of `src` to `out`.
pub fn append_bytes(out: &mut Vec<u8>, src: &[u8])
    ensures
        final(out)@ == old(out)@ + src@,
{
    let ghost start = out@;
    let mut i: usize = 0;
    while i < src.len()
        invariant
            i <= src@.len(),
            out@ == start + src@.subrange(0, i as int),
        decreases src@.len() - i,
    {
        out.push(src[i]);
        assert(src@.subrange(0, i + 1) =~= src@.subrange(0, i as int).push(src@[i as int]));
        i = i + 1;
    }
    assert(src@.subrange(0, src@.len() as int) =~= src@);
}

/// Copies a byte slice into a fresh vector.
pub fn bytes_to_vec(src: &[u8]) -> (v: Vec<u8>)
    ensures
        v@ == src@,
{
    let mut v: Vec<u8> = Vec::new();
    append_bytes(&mut v, src);
    assert(v@ =~= src@);
    v
}

/// Compares two byte strings.
pub fn bytes_eq(a: &[u8], b: &[u8]) -> (r: bool)
    ensures
        r == (a@ == b@),
{
    if a.len() != b.len() {
        return false;
    }
    let mut i: usize = 0;
    while i < a.len()
        invariant
            i <= a@.len(),
            a@.len() == b@.len(),
            forall|j: int| 0 <= j < i ==> a@[j] == b@[j],
        decreases a@.len() - i,
    {
        if a[i] != b[i] {
            return false;
        }
        i = i + 1;
    }
    assert(a@ =~= b@);
    true
}

} // verus!
