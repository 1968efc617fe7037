//! A genome is 64 bits. The low six bytes encode heritable traits; the
//! Hamming distance between two genomes measures how far they have diverged.
use rand_chacha::ChaCha8Rng;
use vstd::prelude::*;

use crate::rng::{coin, random_i32, random_u64};

verus! {

/// Whether bit `i` of `x` is set.
pub open spec fn bit_set(x: u64, i: u64) -> bool {
    (x >> i) & 1u64 == 1u64
}

/// Byte `k` of `x` (byte 0 is the least significant).
pub open spec fn byte_of(x: u64, k: u64) -> u8 {
    ((x >> (8 * k)) & 0xffu64) as u8
}

/// Number of set bits of `x` among positions `0..n`.
pub open spec fn low_bit_count(x: u64, n: nat) -> nat
    decreases n,
{
    if n == 0 {
        0
    } else {
        low_bit_count(x, (n - 1) as nat) + if bit_set(x, (n - 1) as u64) {
            1nat
        } else {
            0nat
        }
    }
}

/// Number of set bits of `x`.
pub open spec fn popcount(x: u64) -> nat {
    low_bit_count(x, 64)
}

/// Hamming distance between two bit strings.
pub open spec fn hamming(a: u64, b: u64) -> nat {
    popcount(a ^ b)
}

/// `child` takes bits `0..pos` from `a` and bits `pos..64` from `b`.
pub open spec fn is_crossover(a: u64, b: u64, pos: u64, child: u64) -> bool {
    forall|i: u64|
        #![trigger bit_set(child, i)]
        i < 64 ==> bit_set(child, i) == if i < pos {
            bit_set(a, i)
        } else {
            bit_set(b, i)
        }
}

/// The bit string whose bits `0..n` are set and the others clear.
pub open spec fn low_ones(n: u64) -> u64 {
    if n >= 64 {
        0xffff_ffff_ffff_ffffu64
    } else {
        ((1u64 << n) - 1u64) as u64
    }
}

/// No coin came up: nothing flips.
pub open spec fn no_flips(flips: Seq<bool>) -> bool {
    forall|k: int| 0 <= k < flips.len() ==> !#[trigger] flips[k]
}

/// Every coin came up: every bit flips.
pub open spec fn all_flips(flips: Seq<bool>) -> bool {
    forall|k: int| 0 <= k < flips.len() ==> #[trigger] flips[k]
}

/// `r` is `bits` with bit `i` flipped exactly where `flips[i]` holds.
pub open spec fn flipped(bits: u64, flips: Seq<bool>, r: u64) -> bool {
    forall|i: u64|
        #![trigger bit_set(r, i)]
        i < 64 ==> bit_set(r, i) == (bit_set(bits, i) != flips[i as int])
}

/// Flip bit `i` of `bits` wherever `flips[i]` holds.
pub fn apply_flips(bits: u64, flips: &Vec<bool>) -> (r: u64)
    requires
        flips.len() == 64,
    ensures
        flipped(bits, flips@, r),
{
    let mut acc = bits;
    let mut i: u64 = 0;
    while i < 64
        invariant
            i <= 64,
            flips.len() == 64,
            forall|j: u64|
                #![trigger bit_set(acc, j)]
                j < 64 ==> bit_set(acc, j) == (bit_set(bits, j) != (j < i && flips@[j as int])),
        decreases 64 - i,
    {
        if flips[i as usize] {
            let old_acc = acc;
            acc = acc ^ (1u64 << i);
            proof {
                assert forall|j: u64| j < 64 implies #[trigger] bit_set(acc, j) == (bit_set(bits, j)
                    != (j < i + 1 && flips@[j as int])) by {
                    assert(bit_set(old_acc, j) == (bit_set(bits, j) != (j < i && flips@[j as int])));
                    assert(i < 64 && j < 64 ==> ((((old_acc ^ (1u64 << i)) >> j) & 1u64 == 1u64)
                        == (((old_acc >> j) & 1u64 == 1u64) != (j == i)))) by (bit_vector);
                }
            }
        } else {
            proof {
                assert forall|j: u64| j < 64 implies #[trigger] bit_set(acc, j) == (bit_set(bits, j)
                    != (j < i + 1 && flips@[j as int])) by {
                    assert(bit_set(acc, j) == (bit_set(bits, j) != (j < i && flips@[j as int])));
                }
            }
        }
        i = i + 1;
    }
    acc
}

#[derive(Clone, Copy, Debug, PartialEq, Eq, Hash, Structural)]
pub struct Genome(pub u64);

impl Genome {
    /// Bits 0-7: metabolism rate. Higher = more resource consumption per tick.
    pub fn metabolism_rate(&self) -> (r: u8)
        ensures
            r == byte_of(self.0, 0),
    {
        proof {
            let x = self.0;
            assert(x >> 0u64 == x) by (bit_vector);
        }
        (self.0 & 0xFF) as u8
    }

    /// Bits 8-15: energy threshold needed to reproduce.
    pub fn repro_threshold(&self) -> (r: u8)
        ensures
            r == byte_of(self.0, 1),
    {
        ((self.0 >> 8) & 0xFF) as u8
    }

    /// Bits 16-23: mutation rate. Probability per bit = value/255.
    pub fn mutation_rate(&self) -> (r: u8)
        ensures
            r == byte_of(self.0, 2),
    {
        ((self.0 >> 16) & 0xFF) as u8
    }

    /// Bits 24-31: mobility. Higher = cheaper/more frequent migration.
    pub fn mobility(&self) -> (r: u8)
        ensures
            r == byte_of(self.0, 3),
    {
        ((self.0 >> 24) & 0xFF) as u8
    }

    /// Bits 32-39: heat tolerance. 0 = cold-adapted, 255 = heat-adapted.
    pub fn heat_tolerance(&self) -> (r: u8)
        ensures
            r == byte_of(self.0, 4),
    {
        ((self.0 >> 32) & 0xFF) as u8
    }

    /// Bits 40-47: moisture preference. 0 = xeric, 255 = hydric.
    pub fn moisture_preference(&self) -> (r: u8)
        ensures
            r == byte_of(self.0, 5),
    {
        ((self.0 >> 40) & 0xFF) as u8
    }

    /// Hamming distance between two genomes.
    pub fn distance(&self, other: &Genome) -> (d: u32)
        ensures
            d == hamming(self.0, other.0),
    {
        let x = self.0 ^ other.0;
        let mut count: u32 = 0;
        let mut i: u64 = 0;
        while i < 64
            invariant
                i <= 64,
                count <= i,
                count == low_bit_count(x, i as nat),
            decreases 64 - i,
        {
            if (x >> i) & 1 == 1 {
                count = count + 1;
            }
            i = i + 1;
        }
        count
    }

    /// Single-point crossover at `pos`: bits `0..pos` come from `self` and
    /// bits `pos..64` from `other`.
    pub fn crossover_at(&self, other: &Genome, pos: u32) -> (child: Genome)
        requires
            1 <= pos < 64,
        ensures
            is_crossover(self.0, other.0, pos as u64, child.0),
    {
        assert(1u64 << pos >= 1u64) by (bit_vector)
            requires
                pos < 64,
        ;
        let mask: u64 = (1u64 << pos) - 1;
        let c = (self.0 & mask) | (other.0 & !mask);
        proof {
            let a = self.0;
            let b = other.0;
            let p = pos as u64;
            assert(mask == ((1u64 << p) - 1u64) as u64) by (bit_vector)
                requires
                    mask == ((1u64 << pos) - 1u64) as u64,
                    p == pos as u64,
                    pos < 64,
            ;
            assert forall|i: u64| i < 64 implies #[trigger] bit_set(c, i) == if i < p {
                bit_set(a, i)
            } else {
                bit_set(b, i)
            } by {
                assert(((c >> i) & 1u64 == 1u64) == if i < p {
                    (a >> i) & 1u64 == 1u64
                } else {
                    (b >> i) & 1u64 == 1u64
                }) by (bit_vector)
                    requires
                        c == (a & mask) | (b & !mask),
                        mask == ((1u64 << p) - 1u64) as u64,
                        1 <= p < 64,
                        i < 64,
                ;
            }
        }
        Genome(c)
    }

    /// Single-point crossover. Pick a random bit position in `1..64`, take
    /// bits `0..pos` from `self` and bits `pos..64` from `other`.
    pub fn crossover(&self, other: &Genome, rng: &mut ChaCha8Rng) -> (child: Genome)
        ensures
            exists|pos: u64| 1 <= pos < 64 && is_crossover(self.0, other.0, pos, child.0),
    {
        let pos = random_i32(rng, 1, 64);
        let child = self.crossover_at(other, pos as u32);
        assert(is_crossover(self.0, other.0, pos as u64, child.0));
        child
    }

    /// Apply bit-flip mutation. Each of the 64 bits flips with probability
    /// mutation_rate/255: never when the rate is 0, always when it is 255.
    /// One coin is drawn per bit, bit 0 first.
    pub fn mutate(&self, rng: &mut ChaCha8Rng) -> (child: Genome)
        ensures
            exists|flips: Seq<bool>|
                flips.len() == 64 && (byte_of(self.0, 2) == 0 ==> no_flips(flips)) && (byte_of(
                    self.0,
                    2,
                ) == 255 ==> all_flips(flips)) && flipped(self.0, flips, child.0),
            byte_of(self.0, 2) == 0 ==> child == *self,
            byte_of(self.0, 2) == 255 ==> child.0 == !self.0,
    {
        let rate = self.mutation_rate();
        let mut flips: Vec<bool> = Vec::new();
        let mut i: u64 = 0;
        while i < 64
            invariant
                i <= 64,
                flips.len() == i,
                rate == byte_of(self.0, 2),
                rate == 0 ==> no_flips(flips@),
                rate == 255 ==> all_flips(flips@),
            decreases 64 - i,
        {
            let flip = coin(rng, rate as u32, 255);
            flips.push(flip);
            i = i + 1;
        }
        let bits = apply_flips(self.0, &flips);
        proof {
            let s = self.0;
            if rate == 0 {
                lemma_bits_determine(bits, s);
            }
            if rate == 255 {
                assert forall|k: u64| k < 64 implies #[trigger] bit_set(bits, k) == bit_set(!s, k) by {
                    assert(bit_set(bits, k) == (bit_set(s, k) != flips@[k as int]));
                    assert(k < 64 ==> (((!s) >> k) & 1u64 == 1u64 <==> !((s >> k) & 1u64 == 1u64)))
                        by (bit_vector);
                }
                lemma_bits_determine(bits, !s);
            }
        }
        Genome(bits)
    }

    /// Create a random genome.
    pub fn random(rng: &mut ChaCha8Rng) -> Genome {
        Genome(random_u64(rng))
    }
}

} // verus!

verus! {

proof fn lemma_low_bit_count_bounded(x: u64, n: nat)
    ensures
        low_bit_count(x, n) <= n,
    decreases n,
{
    if n > 0 {
        lemma_low_bit_count_bounded(x, (n - 1) as nat);
    }
}

proof fn lemma_clear_low_bits(z: u64, k: u64)
    requires
        k <= 63,
        forall|i: u64| i < 64 ==> !#[trigger] bit_set(z, i),
    ensures
        z & low_ones(k) == 0u64,
    decreases k,
{
    if k == 0 {
        assert(z & (((1u64 << 0u64) - 1u64) as u64) == 0u64) by (bit_vector);
    } else {
        let j = (k - 1) as u64;
        lemma_clear_low_bits(z, j);
        assert(!bit_set(z, j));
        assert((z & (((1u64 << j) - 1u64) as u64)) == 0u64 && (z >> j) & 1u64 != 1u64 && j < 63
            ==> z & (((1u64 << ((j + 1) as u64)) - 1u64) as u64) == 0u64) by (bit_vector);
    }
}

/// A bit string with none of its 64 bits set is zero.
proof fn lemma_no_bits_is_zero(z: u64)
    requires
        forall|i: u64| i < 64 ==> !#[trigger] bit_set(z, i),
    ensures
        z == 0,
{
    lemma_clear_low_bits(z, 63);
    assert(!bit_set(z, 63));
    assert((z & (((1u64 << 63u64) - 1u64) as u64)) == 0u64 && (z >> 63u64) & 1u64 != 1u64 ==> z
        == 0u64) by (bit_vector);
}

/// Two bit strings that agree on all 64 bits are equal.
proof fn lemma_bits_determine(x: u64, y: u64)
    requires
        forall|i: u64| i < 64 ==> #[trigger] bit_set(x, i) == bit_set(y, i),
    ensures
        x == y,
{
    let z = x ^ y;
    assert forall|i: u64| i < 64 implies !#[trigger] bit_set(z, i) by {
        assert(bit_set(x, i) == bit_set(y, i));
        assert(((x >> i) & 1u64 == 1u64) == ((y >> i) & 1u64 == 1u64) ==> ((x ^ y) >> i) & 1u64
            != 1u64) by (bit_vector);
    }
    lemma_no_bits_is_zero(z);
    assert(x ^ y == 0u64 ==> x == y) by (bit_vector);
}

proof fn lemma_low_bit_count_zero_clears(x: u64, n: nat)
    requires
        n <= 64,
        low_bit_count(x, n) == 0,
    ensures
        forall|i: u64| i < n ==> !#[trigger] bit_set(x, i),
    decreases n,
{
    if n > 0 {
        lemma_low_bit_count_zero_clears(x, (n - 1) as nat);
    }
}

proof fn lemma_low_bit_count_of_zero(n: nat)
    ensures
        low_bit_count(0, n) == 0,
    decreases n,
{
    if n > 0 {
        lemma_low_bit_count_of_zero((n - 1) as nat);
        let i = (n - 1) as u64;
        assert((0u64 >> i) & 1u64 != 1u64) by (bit_vector);
    }
}

proof fn lemma_low_bit_count_triangle(a: u64, b: u64, c: u64, n: nat)
    ensures
        low_bit_count(a ^ c, n) <= low_bit_count(a ^ b, n) + low_bit_count(b ^ c, n),
    decreases n,
{
    if n > 0 {
        lemma_low_bit_count_triangle(a, b, c, (n - 1) as nat);
        let i = (n - 1) as u64;
        assert(((a ^ c) >> i) & 1u64 == 1u64 ==> ((a ^ b) >> i) & 1u64 == 1u64 || ((b ^ c) >> i)
            & 1u64 == 1u64) by (bit_vector);
    }
}

proof fn lemma_low_bit_count_crossover(a: u64, b: u64, pos: u64, c: u64, n: nat)
    requires
        n <= 64,
        is_crossover(a, b, pos, c),
    ensures
        low_bit_count(c ^ a, n) + low_bit_count(c ^ b, n) == low_bit_count(a ^ b, n),
    decreases n,
{
    if n > 0 {
        lemma_low_bit_count_crossover(a, b, pos, c, (n - 1) as nat);
        let i = (n - 1) as u64;
        assert(bit_set(c, i) == if i < pos {
            bit_set(a, i)
        } else {
            bit_set(b, i)
        });
        assert((((c >> i) & 1u64 == 1u64) == ((a >> i) & 1u64 == 1u64) || ((c >> i) & 1u64
            == 1u64) == ((b >> i) & 1u64 == 1u64)) ==> (((c ^ a) >> i) & 1u64 == 1u64 && ((c ^ b)
            >> i) & 1u64 != 1u64 && ((a ^ b) >> i) & 1u64 == 1u64) || (((c ^ a) >> i) & 1u64
            != 1u64 && ((c ^ b) >> i) & 1u64 == 1u64 && ((a ^ b) >> i) & 1u64 == 1u64) || (((c
            ^ a) >> i) & 1u64 != 1u64 && ((c ^ b) >> i) & 1u64 != 1u64 && ((a ^ b) >> i) & 1u64
            != 1u64)) by (bit_vector);
    }
}

/// Genome distance is symmetric.
pub proof fn lemma_distance_symmetric(a: Genome, b: Genome)
    ensures
        hamming(a.0, b.0) == hamming(b.0, a.0),
{
    let x = a.0;
    let y = b.0;
    assert(x ^ y == y ^ x) by (bit_vector);
}

/// Genome distance is zero exactly between equal genomes, and never exceeds 64.
pub proof fn lemma_distance_zero_iff_equal(a: Genome, b: Genome)
    ensures
        hamming(a.0, b.0) == 0 <==> a == b,
        hamming(a.0, b.0) <= 64,
{
    let x = a.0;
    let y = b.0;
    lemma_low_bit_count_bounded(x ^ y, 64);
    if a == b {
        assert(x ^ x == 0u64) by (bit_vector);
        lemma_low_bit_count_of_zero(64);
    }
    if hamming(x, y) == 0 {
        lemma_low_bit_count_zero_clears(x ^ y, 64);
        lemma_no_bits_is_zero(x ^ y);
        assert(x ^ y == 0u64 ==> x == y) by (bit_vector);
    }
}

/// Genome distance obeys the triangle inequality.
pub proof fn lemma_distance_triangle(a: Genome, b: Genome, c: Genome)
    ensures
        hamming(a.0, c.0) <= hamming(a.0, b.0) + hamming(b.0, c.0),
{
    lemma_low_bit_count_triangle(a.0, b.0, c.0, 64);
}

/// A crossover child lies between its parents: its distances to the two
/// parents add up to the distance between the parents.
pub proof fn lemma_crossover_between_parents(a: Genome, b: Genome, pos: u64, child: Genome)
    requires
        is_crossover(a.0, b.0, pos, child.0),
    ensures
        hamming(child.0, a.0) + hamming(child.0, b.0) == hamming(a.0, b.0),
{
    lemma_low_bit_count_crossover(a.0, b.0, pos, child.0, 64);
}

/// Crossing a genome with itself gives that genome back, wherever the cut.
pub proof fn lemma_crossover_with_self(a: Genome, pos: u64, child: Genome)
    requires
        is_crossover(a.0, a.0, pos, child.0),
    ensures
        child == a,
{
    lemma_bits_determine(child.0, a.0);
}

} // verus!

verus! {

proof fn lemma_low_bit_count_single(i: u64, n: nat)
    requires
        i < 64,
        n <= 64,
    ensures
        low_bit_count(1u64 << i, n) == if i < n {
            1nat
        } else {
            0nat
        },
    decreases n,
{
    if n > 0 {
        lemma_low_bit_count_single(i, (n - 1) as nat);
        let j = (n - 1) as u64;
        assert(i < 64 && j < 64 ==> ((((1u64 << i) >> j) & 1u64 == 1u64) == (i == j)))
            by (bit_vector);
    }
}

proof fn lemma_low_bit_count_all(n: nat)
    requires
        n <= 64,
    ensures
        low_bit_count(0xffff_ffff_ffff_ffffu64, n) == n,
    decreases n,
{
    if n > 0 {
        lemma_low_bit_count_all((n - 1) as nat);
        let j = (n - 1) as u64;
        assert(j < 64 ==> (0xffff_ffff_ffff_ffffu64 >> j) & 1u64 == 1u64) by (bit_vector);
    }
}

proof fn lemma_low_bit_count_subset(x: u64, y: u64, n: nat)
    requires
        x & !y == 0,
        n <= 64,
    ensures
        low_bit_count(x, n) <= low_bit_count(y, n),
    decreases n,
{
    if n > 0 {
        lemma_low_bit_count_subset(x, y, (n - 1) as nat);
        let j = (n - 1) as u64;
        assert(x & !y == 0u64 && j < 64 ==> ((x >> j) & 1u64 == 1u64 ==> (y >> j) & 1u64 == 1u64))
            by (bit_vector);
    }
}

/// Changing any single bit of a genome, high or low, moves it exactly one
/// step away; its complement lies 64 steps away.
pub proof fn lemma_distance_counts_every_bit(g: Genome, i: u64)
    requires
        i < 64,
    ensures
        hamming(g.0, g.0 ^ (1u64 << i)) == 1,
        hamming(g.0, !g.0) == 64,
{
    let x = g.0;
    assert(x ^ (x ^ (1u64 << i)) == 1u64 << i) by (bit_vector);
    lemma_low_bit_count_single(i, 64);
    assert(x ^ !x == 0xffff_ffff_ffff_ffffu64) by (bit_vector);
    lemma_low_bit_count_all(64);
}

/// A genome that differs from `a` wherever `b` does (and possibly more) is
/// at least as far from `a` as `b` is.
pub proof fn lemma_distance_monotone(a: Genome, b: Genome, c: Genome)
    requires
        (a.0 ^ b.0) & !(a.0 ^ c.0) == 0,
    ensures
        hamming(a.0, b.0) <= hamming(a.0, c.0),
{
    lemma_low_bit_count_subset(a.0 ^ b.0, a.0 ^ c.0, 64);
}

} // verus!
