//! Perceptual image fingerprints: fixed-width bit vectors compared by
//! Hamming distance. Two fingerprints stand for the same image content
//! when their distance is strictly below a fixed threshold of 2.

use vstd::prelude::*;

verus! {

/// Number of bits set in a byte.
pub open spec fn popcount8(b: u8) -> nat
    decreases b,
{
    if b == 0 {
        0
    } else {
        ((b % 2) + popcount8(b / 2)) as nat
    }
}

/// A byte has at most as many set bits as its value.
pub proof fn lemma_popcount8_le_self(b: u8)
    ensures
        popcount8(b) <= b,
    decreases b,
{
    if b != 0 {
        lemma_popcount8_le_self(b / 2);
    }
}

/// Hamming distance over the first `n` byte positions of `a` and `b`.
pub open spec fn hamming_prefix(a: Seq<u8>, b: Seq<u8>, n: int) -> nat
    decreases n,
{
    if n <= 0 {
        0
    } else {
        hamming_prefix(a, b, n - 1) + popcount8(a[n - 1] ^ b[n - 1])
    }
}

/// Hamming distance between two equal-width bit vectors: the count of
/// differing bit positions.
pub open spec fn hamming(a: Seq<u8>, b: Seq<u8>) -> nat
    recommends
        a.len() == b.len(),
{
    hamming_prefix(a, b, a.len() as int)
}

/// Fingerprints within Hamming distance 0 or 1 are treated as the same
/// image content; distance 2 or more as distinct.
pub open spec fn near_match(a: Seq<u8>, b: Seq<u8>) -> bool {
    hamming(a, b) < 2
}

proof fn lemma_hamming_prefix_sym(a: Seq<u8>, b: Seq<u8>, n: int)
    requires
        n <= a.len(),
        n <= b.len(),
    ensures
        hamming_prefix(a, b, n) == hamming_prefix(b, a, n),
    decreases n,
{
    if n > 0 {
        lemma_hamming_prefix_sym(a, b, n - 1);
        let x = a[n - 1];
        let y = b[n - 1];
        assert((x ^ y) == (y ^ x)) by (bit_vector);
    }
}

/// Hamming distance is symmetric.
pub proof fn lemma_hamming_sym(a: Seq<u8>, b: Seq<u8>)
    requires
        a.len() == b.len(),
    ensures
        hamming(a, b) == hamming(b, a),
{
    lemma_hamming_prefix_sym(a, b, a.len() as int);
}

/// A bit vector is at distance 0 from itself.
pub proof fn lemma_hamming_self(a: Seq<u8>)
    ensures
        hamming(a, a) == 0,
{
    lemma_hamming_prefix_self(a, a.len() as int);
}

proof fn lemma_hamming_prefix_self(a: Seq<u8>, n: int)
    ensures
        hamming_prefix(a, a, n) == 0,
    decreases n,
{
    if n > 0 {
        lemma_hamming_prefix_self(a, n - 1);
        let x = a[n - 1];
        assert((x ^ x) == 0) by (bit_vector);
    }
}

/// Number of bits set in a byte.
pub fn popcount_byte(b: u8) -> (c: u32)
    ensures
        c == popcount8(b),
        c <= 255,
{
    let mut x: u8 = b;
    let mut c: u32 = 0;
    proof {
        lemma_popcount8_le_self(b);
    }
    while x != 0
        invariant
            c + popcount8(x) == popcount8(b),
            popcount8(b) <= 255,
            c <= 255,
            popcount8(x) <= x,
        decreases x,
    {
        c = c + (x % 2) as u32;
        x = x / 2;
        proof {
            lemma_popcount8_le_self(x);
        }
    }
    c
}

/// An opaque fixed-width perceptual fingerprint, as handed out by the
/// fingerprint provider. Equality is exact; similarity is Hamming distance.
#[derive(Clone, Copy, Debug)]
pub struct Fingerprint {
    bytes: [u8; 8],
}

impl View for Fingerprint {
    type V = Seq<u8>;

    closed spec fn view(&self) -> Seq<u8> {
        self.bytes@
    }
}

impl Fingerprint {
    /// A fingerprint is always exactly 8 bytes (64 bits) wide.
    pub proof fn lemma_width(self)
        ensures
            self@.len() == 8,
    {
    }

    pub fn new(bytes: [u8; 8]) -> (r: Fingerprint)
        ensures
            r@ == bytes@,
    {
        Fingerprint { bytes }
    }

    /// The Hamming distance to another fingerprint.
    pub fn distance(&self, other: &Fingerprint) -> (d: u32)
        ensures
            d == hamming(self@, other@),
    {
        let mut d: u32 = 0;
        let mut i: usize = 0;
        while i < 8
            invariant
                i <= 8,
                d == hamming_prefix(self@, other@, i as int),
                d <= i * 255,
            decreases 8 - i,
        {
            let p = popcount_byte(self.bytes[i] ^ other.bytes[i]);
            d = d + p;
            i = i + 1;
        }
        d
    }

    /// Whether this fingerprint counts as the same content as `other`
    /// (Hamming distance strictly below 2).
    pub fn is_near(&self, other: &Fingerprint) -> (r: bool)
        ensures
            r == near_match(self@, other@),
    {
        self.distance(other) < 2
    }

    /// Exact equality of the underlying bits.
    pub fn is_same(&self, other: &Fingerprint) -> (r: bool)
        ensures
            r == (self@ == other@),
    {
        let mut i: usize = 0;
        while i < 8
            invariant
                i <= 8,
                forall|j: int| 0 <= j < i ==> self@[j] == other@[j],
            decreases 8 - i,
        {
            if self.bytes[i] != other.bytes[i] {
                return false;
            }
            i = i + 1;
        }
        proof {
            assert(self@ =~= other@);
        }
        true
    }
}

} // verus!
