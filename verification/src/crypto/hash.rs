//! The `Hash` digest type, the incremental `Hasher` that feeds bytes to
//! SHA3-256, the `Hashable` encodings of common values, and the 256-bit
//! numbers used to compare a digest with a difficulty target.
use vstd::prelude::*;

use crate::bytes::{append_bytes, le_bytes, push_le};
use crate::crypto::sha3::{sha3_256, sha3_256_of};

verus! {

/// Big-endian value of a byte string: the first byte is the most significant.
pub open spec fn be_value(s: Seq<u8>) -> nat
    decreases s.len(),
{
    if s.len() == 0 {
        0
    } else {
        be_value(s.drop_last()) * 256 + s.last() as nat
    }
}

/// `256^n`.
pub open spec fn pow256(n: nat) -> nat
    decreases n,
{
    if n == 0 {
        1
    } else {
        256 * pow256((n - 1) as nat)
    }
}

pub proof fn lemma_be_value_bound(s: Seq<u8>)
    ensures
        be_value(s) < pow256(s.len()),
    decreases s.len(),
{
    if s.len() > 0 {
        lemma_be_value_bound(s.drop_last());
        let a = be_value(s.drop_last());
        let p = pow256((s.len() - 1) as nat);
        assert(a * 256 + (s.last() as nat) < 256 * p) by (nonlinear_arith)
            requires
                a < p,
                s.last() < 256,
        ;
    }
}

/// The value of `x + y` is the value of `x` shifted past `y`, plus the value of `y`.
pub proof fn lemma_be_value_append(x: Seq<u8>, y: Seq<u8>)
    ensures
        be_value(x + y) == be_value(x) * pow256(y.len()) + be_value(y),
    decreases y.len(),
{
    if y.len() == 0 {
        assert(x + y =~= x);
        assert(pow256(0) == 1);
        assert(be_value(y) == 0);
        assert(be_value(x) * 1 == be_value(x));
    } else {
        lemma_be_value_append(x, y.drop_last());
        assert((x + y).drop_last() =~= x + y.drop_last());
        let p = pow256((y.len() - 1) as nat);
        let bx = be_value(x);
        let by = be_value(y.drop_last());
        assert((x + y).last() == y.last());
        assert(be_value(x + y) == be_value(x + y.drop_last()) * 256 + y.last() as nat);
        assert(be_value(y) == by * 256 + y.last() as nat);
        assert(pow256(y.len()) == 256 * p);
        assert((bx * p + by) * 256 == bx * (256 * p) + by * 256) by (nonlinear_arith);
        assert(be_value(x + y) == bx * pow256(y.len()) + be_value(y));
    }
}

/// Comparing two byte strings of equal length from their first byte on
/// orders them as their big-endian values.
pub proof fn lemma_be_value_lex(a: Seq<u8>, b: Seq<u8>, k: int)
    requires
        a.len() == b.len(),
        0 <= k < a.len(),
        a.subrange(0, k) == b.subrange(0, k),
        a[k] < b[k],
    ensures
        be_value(a) < be_value(b),
{
    let n = a.len();
    let pa = a.subrange(0, k + 1);
    let pb = b.subrange(0, k + 1);
    let ra = a.subrange(k + 1, n as int);
    let rb = b.subrange(k + 1, n as int);
    assert(a =~= pa + ra);
    assert(b =~= pb + rb);
    assert(pa.drop_last() =~= a.subrange(0, k));
    assert(pb.drop_last() =~= b.subrange(0, k));
    lemma_be_value_append(pa, ra);
    lemma_be_value_append(pb, rb);
    lemma_be_value_bound(ra);
    let p = pow256(ra.len());
    assert(be_value(pa) + 1 <= be_value(pb));
    let va = be_value(pa);
    let vb = be_value(pb);
    assert(va * p + be_value(ra) < vb * p + be_value(rb)) by (nonlinear_arith)
        requires
            va + 1 <= vb,
            be_value(ra) < p,
    ;
}

/// An unsigned 256-bit number, held as 32 big-endian bytes.
#[derive(Debug, Clone, Copy, PartialEq, Eq)]
pub struct U256 {
    bytes: [u8; 32],
}

impl View for U256 {
    type V = nat;

    closed spec fn view(&self) -> nat {
        be_value(self.bytes@)
    }
}

impl U256 {
    /// The number whose big-endian encoding is `bytes`.
    pub fn from_be_bytes(bytes: [u8; 32]) -> (n: U256)
        ensures
            n@ == be_value(bytes@),
    {
        U256 { bytes }
    }

    /// The 32-byte big-endian encoding of the number.
    pub fn to_be_bytes(&self) -> (b: [u8; 32])
        ensures
            be_value(b@) == self@,
    {
        self.bytes
    }
}

/// A 32-byte digest.
#[derive(Debug, Clone, Copy, PartialEq, Eq)]
pub struct Hash {
    bytes: [u8; 32],
}

impl View for Hash {
    type V = Seq<u8>;

    closed spec fn view(&self) -> Seq<u8> {
        self.bytes@
    }
}

/// Values that can be fed to a `Hasher`, each through a fixed byte encoding.
pub trait Hashable {
    /// The bytes that this value adds to a hasher's input.
    spec fn encoding(&self) -> Seq<u8>;

    fn hash_update(&self, hasher: &mut Hasher)
        ensures
            final(hasher).buffered() == old(hasher).buffered() + self.encoding(),
    ;
}

impl<'a> Hashable for &'a [u8] {
    open spec fn encoding(&self) -> Seq<u8> {
        (*self)@
    }

    fn hash_update(&self, hasher: &mut Hasher) {
        hasher.absorb(*self);
    }
}

impl Hashable for u8 {
    open spec fn encoding(&self) -> Seq<u8> {
        seq![*self]
    }

    fn hash_update(&self, hasher: &mut Hasher) {
        proof {
            reveal_with_fuel(le_bytes, 2);
            assert(le_bytes(*self as nat, 1) =~= seq![*self]);
        }
        hasher.absorb_le(*self as u128, 1);
    }
}

impl Hashable for u32 {
    open spec fn encoding(&self) -> Seq<u8> {
        le_bytes(*self as nat, 4)
    }

    fn hash_update(&self, hasher: &mut Hasher) {
        hasher.absorb_le(*self as u128, 4);
    }
}

impl Hashable for u64 {
    open spec fn encoding(&self) -> Seq<u8> {
        le_bytes(*self as nat, 8)
    }

    fn hash_update(&self, hasher: &mut Hasher) {
        hasher.absorb_le(*self as u128, 8);
    }
}

impl Hashable for u128 {
    open spec fn encoding(&self) -> Seq<u8> {
        le_bytes(*self as nat, 16)
    }

    fn hash_update(&self, hasher: &mut Hasher) {
        hasher.absorb_le(*self, 16);
    }
}

impl Hashable for usize {
    /// A `usize` is encoded as the 8 little-endian bytes of its `u64` value.
    open spec fn encoding(&self) -> Seq<u8> {
        le_bytes(*self as nat, 8)
    }

    fn hash_update(&self, hasher: &mut Hasher) {
        let v: u64 = *self as u64;
        hasher.absorb_le(v as u128, 8);
    }
}

impl<const N: usize> Hashable for [u8; N] {
    open spec fn encoding(&self) -> Seq<u8> {
        self@
    }

    fn hash_update(&self, hasher: &mut Hasher) {
        hasher.absorb(self.as_slice());
    }
}

impl<'a, const N: usize> Hashable for &'a [u8; N] {
    open spec fn encoding(&self) -> Seq<u8> {
        (*self)@
    }

    fn hash_update(&self, hasher: &mut Hasher) {
        hasher.absorb((*self).as_slice());
    }
}

impl Hashable for Vec<u8> {
    open spec fn encoding(&self) -> Seq<u8> {
        self@
    }

    fn hash_update(&self, hasher: &mut Hasher) {
        hasher.absorb(self.as_slice());
    }
}

impl<'a> Hashable for &'a Vec<u8> {
    open spec fn encoding(&self) -> Seq<u8> {
        (*self)@
    }

    fn hash_update(&self, hasher: &mut Hasher) {
        hasher.absorb((*self).as_slice());
    }
}

impl Hashable for Hash {
    open spec fn encoding(&self) -> Seq<u8> {
        self@
    }

    fn hash_update(&self, hasher: &mut Hasher) {
        let b = self.as_bytes();
        hasher.absorb(b.as_slice());
    }
}

/// Incremental SHA3-256: collects input and digests it on `finalize`.
pub struct Hasher {
    data: Vec<u8>,
}

impl Hasher {
    /// Everything fed to the hasher since it was made or last reset.
    pub closed spec fn buffered(&self) -> Seq<u8> {
        self.data@
    }

    pub fn new() -> (h: Self)
        ensures
            h.buffered() == Seq::<u8>::empty(),
    {
        Hasher { data: Vec::new() }
    }

    fn absorb(&mut self, bytes: &[u8])
        ensures
            final(self).buffered() == old(self).buffered() + bytes@,
    {
        append_bytes(&mut self.data, bytes);
    }

    fn absorb_le(&mut self, v: u128, n: usize)
        ensures
            final(self).buffered() == old(self).buffered() + le_bytes(v as nat, n as nat),
    {
        push_le(&mut self.data, v, n);
    }

    /// Feeds the encoding of a value; returns the hasher for chaining.
    pub fn input<T: Hashable>(&mut self, data: T) -> (r: &mut Self)
        ensures
            r.buffered() == old(self).buffered() + data.encoding(),
            *final(self) == *final(r),
    {
        data.hash_update(self);
        self
    }

    /// The SHA3-256 digest of everything fed so far.
    pub fn finalize(self) -> (h: Hash)
        ensures
            h@ == sha3_256_of(self.buffered()),
    {
        Hash { bytes: sha3_256(self.data.as_slice()) }
    }

    /// Forgets everything fed so far.
    pub fn reset(&mut self)
        ensures
            final(self).buffered() == Seq::<u8>::empty(),
    {
        self.data.clear();
    }
}

impl Default for Hasher {
    fn default() -> (h: Self)
        ensures
            h.buffered() == Seq::<u8>::empty(),
    {
        Self::new()
    }
}

/// The concatenation of a list of byte strings.
pub open spec fn concat_parts(parts: Seq<&[u8]>) -> Seq<u8>
    decreases parts.len(),
{
    if parts.len() == 0 {
        Seq::empty()
    } else {
        concat_parts(parts.drop_last()) + parts.last()@
    }
}

impl Hash {
    /// The digest with the given 32 bytes.
    pub fn from_bytes_array(bytes: [u8; 32]) -> (h: Hash)
        ensures
            h@ == bytes@,
    {
        Hash { bytes }
    }

    /// The digest whose big-endian value is `value`.
    pub fn from_u256(value: U256) -> (h: Hash)
        ensures
            be_value(h@) == value@,
    {
        Hash { bytes: value.to_be_bytes() }
    }

    /// Whether the digest, read as a big-endian number, is at most `target`.
    pub fn matches_target(&self, target: U256) -> (ok: bool)
        ensures
            ok == (be_value(self@) <= target@),
    {
        let t = target.to_be_bytes();
        let mut i: usize = 0;
        while i < 32
            invariant
                i <= 32,
                self.bytes@.len() == 32,
                t@.len() == 32,
                be_value(t@) == target@,
                self.bytes@.subrange(0, i as int) == t@.subrange(0, i as int),
            decreases 32 - i,
        {
            if self.bytes[i] < t[i] {
                proof {
                    lemma_be_value_lex(self.bytes@, t@, i as int);
                }
                return true;
            }
            if self.bytes[i] > t[i] {
                proof {
                    lemma_be_value_lex(t@, self.bytes@, i as int);
                }
                return false;
            }
            assert(self.bytes@.subrange(0, i + 1) =~= self.bytes@.subrange(0, i as int).push(
                self.bytes@[i as int],
            ));
            assert(t@.subrange(0, i + 1) =~= t@.subrange(0, i as int).push(t@[i as int]));
            i = i + 1;
        }
        assert(self.bytes@ =~= self.bytes@.subrange(0, 32));
        assert(t@ =~= t@.subrange(0, 32));
        true
    }

    /// The all-zero digest.
    pub fn zero() -> (h: Hash)
        ensures
            h@ == Seq::new(32, |i: int| 0u8),
    {
        let h = Hash { bytes: [0u8; 32] };
        assert(h@ =~= Seq::new(32, |i: int| 0u8));
        h
    }

    /// The digest read as a big-endian number.
    pub fn as_u256(&self) -> (n: U256)
        ensures
            n@ == be_value(self@),
    {
        U256::from_be_bytes(self.bytes)
    }

    /// The digest's 32 bytes.
    pub fn as_bytes(&self) -> (b: [u8; 32])
        ensures
            b@ == self@,
    {
        self.bytes
    }

    /// SHA3-256 of a byte string.
    pub fn hash(data: &[u8]) -> (h: Hash)
        ensures
            h@ == sha3_256_of(data@),
    {
        let mut hasher = Hasher::new();
        hasher.input(data);
        assert(hasher.buffered() =~= data@);
        hasher.finalize()
    }

    /// SHA3-256 of whatever `builder` feeds to a fresh hasher.
    pub fn compute<F>(builder: F) -> (h: Hash)
        where
            F: FnOnce(Hasher) -> Hasher,
        requires
            forall|fresh: Hasher|
                fresh.buffered() == Seq::<u8>::empty() ==> call_requires(builder, (fresh,)),
        ensures
            exists|fresh: Hasher, fed: Hasher|
                {
                    &&& fresh.buffered() == Seq::<u8>::empty()
                    &&& call_ensures(builder, (fresh,), fed)
                    &&& h@ == sha3_256_of(fed.buffered())
                },
    {
        let hasher = Hasher::new();
        let fed = builder(hasher);
        fed.finalize()
    }

    /// SHA3-256 of the concatenation of several byte strings.
    pub fn hash_parts(data_parts: &[&[u8]]) -> (h: Hash)
        ensures
            h@ == sha3_256_of(concat_parts(data_parts@)),
    {
        let mut hasher = Hasher::new();
        let mut i: usize = 0;
        while i < data_parts.len()
            invariant
                i <= data_parts@.len(),
                hasher.buffered() == concat_parts(data_parts@.subrange(0, i as int)),
            decreases data_parts@.len() - i,
        {
            let part: &[u8] = data_parts[i];
            hasher.input(part);
            assert(data_parts@.subrange(0, i + 1).drop_last() =~= data_parts@.subrange(
                0,
                i as int,
            ));
            i = i + 1;
        }
        assert(data_parts@.subrange(0, data_parts@.len() as int) =~= data_parts@);
        hasher.finalize()
    }

    /// Lowercase hexadecimal text of the digest.
    pub fn to_hex(&self) -> (s: String)
        ensures
            s@ == crate::crypto::hexcodec::hex_lower(self@),
    {
        crate::crypto::hexcodec::hex_encode(&self.bytes)
    }
}

/// The number a byte string denotes when read least significant byte first.
pub open spec fn le_value(s: Seq<u8>) -> nat
    decreases s.len(),
{
    if s.len() == 0 {
        0
    } else {
        s[0] as nat + 256 * le_value(s.subrange(1, s.len() as int))
    }
}

/// Reading the `n` little-endian bytes of a value below `256^n` gives the value back.
pub proof fn lemma_le_value_of_le_bytes(v: nat, n: nat)
    requires
        v < pow256(n),
    ensures
        le_bytes(v, n).len() == n,
        le_value(le_bytes(v, n)) == v,
    decreases n,
{
    if n > 0 {
        let q = v / 256;
        let p = pow256((n - 1) as nat);
        assert(q < p) by (nonlinear_arith)
            requires
                v < 256 * p,
                q == v / 256,
        ;
        lemma_le_value_of_le_bytes(q, (n - 1) as nat);
        let s = le_bytes(v, n);
        assert(s.subrange(1, s.len() as int) =~= le_bytes(q, (n - 1) as nat));
        assert(v == v % 256 + 256 * q) by (nonlinear_arith)
            requires
                q == v / 256,
        ;
    }
}

/// What a hasher is fed: every byte container (a slice, an array or a
/// reference to one, a vector or a reference to one, a digest) is fed as
/// exactly its bytes.
pub proof fn lemma_containers_feed_their_bytes<const N: usize>(
    s: &[u8],
    a: [u8; N],
    ra: &[u8; N],
    v: Vec<u8>,
    rv: &Vec<u8>,
    h: Hash,
)
    ensures
        <&[u8] as Hashable>::encoding(&s) == s@,
        <[u8; N] as Hashable>::encoding(&a) == a@,
        <&[u8; N] as Hashable>::encoding(&ra) == ra@,
        <Vec<u8> as Hashable>::encoding(&v) == v@,
        <&Vec<u8> as Hashable>::encoding(&rv) == rv@,
        <Hash as Hashable>::encoding(&h) == h@,
{
}

/// What a hasher is fed: every integer is fed as the little-endian bytes of
/// its value, 1 byte for a `u8`, 4 for a `u32`, 8 for a `u64` or a `usize`
/// and 16 for a `u128`.
pub proof fn lemma_integers_feed_little_endian(a: u8, b: u32, c: u64, d: u128, e: usize)
    ensures
        <u8 as Hashable>::encoding(&a).len() == 1,
        le_value(<u8 as Hashable>::encoding(&a)) == a,
        <u32 as Hashable>::encoding(&b).len() == 4,
        le_value(<u32 as Hashable>::encoding(&b)) == b,
        <u64 as Hashable>::encoding(&c).len() == 8,
        le_value(<u64 as Hashable>::encoding(&c)) == c,
        <u128 as Hashable>::encoding(&d).len() == 16,
        le_value(<u128 as Hashable>::encoding(&d)) == d,
        <usize as Hashable>::encoding(&e).len() == 8,
        le_value(<usize as Hashable>::encoding(&e)) == e,
{
    reveal_with_fuel(pow256, 17);
    assert(pow256(4) == 0x1_0000_0000);
    assert(pow256(8) == 0x1_0000_0000_0000_0000);
    assert(pow256(16) == 0x1_0000_0000_0000_0000_0000_0000_0000_0000);
    lemma_le_value_of_le_bytes(b as nat, 4);
    lemma_le_value_of_le_bytes(c as nat, 8);
    lemma_le_value_of_le_bytes(d as nat, 16);
    lemma_le_value_of_le_bytes(e as nat, 8);
    let sa = <u8 as Hashable>::encoding(&a);
    assert(sa.subrange(1, 1) =~= Seq::<u8>::empty());
    assert(le_value(sa.subrange(1, 1)) == 0);
    assert(le_value(sa) == a);
}

} // verus!
