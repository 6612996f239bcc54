//! Sets of small numbers, kept as the bits of a word.

use vstd::prelude::*;

verus! {

/// Is `v` in the set?
pub open spec fn bit(bits: u64, v: int) -> bool {
    0 <= v < 64 && bits & (1u64 << (v as u64)) != 0
}

pub proof fn lemma_bit_none(v: int)
    ensures
        !bit(0, v),
{
    if 0 <= v < 64 {
        let w = v as u64;
        assert(0u64 & (1u64 << w) == 0) by (bit_vector);
    }
}

pub proof fn lemma_bit_union(a: u64, b: u64, v: int)
    ensures
        bit(a | b, v) == (bit(a, v) || bit(b, v)),
{
    if 0 <= v < 64 {
        let w = v as u64;
        assert((a | b) & (1u64 << w) != 0 <==> (a & (1u64 << w) != 0 || b & (1u64 << w) != 0))
            by (bit_vector);
    }
}

pub proof fn lemma_bit_one(k: u64, v: int)
    requires
        k < 64,
    ensures
        bit(1u64 << k, v) == (v == k),
{
    if 0 <= v < 64 {
        let w = v as u64;
        assert((1u64 << k) & (1u64 << w) != 0 <==> k == w) by (bit_vector)
            requires
                k < 64,
                w < 64,
        ;
    }
}

/// The bits below `k`.
proof fn lemma_low_bits(x: u64, k: u64)
    requires
        k <= 64,
        forall|v: int| 0 <= v < 64 ==> !#[trigger] bit(x, v),
    ensures
        k == 64 ==> x == 0,
        k < 64 ==> x & sub_one(k) == 0,
    decreases k,
{
    if k == 0 {
        assert(x & (((1u64 << 0u64) - 1) as u64) == 0) by (bit_vector);
    } else {
        let j: u64 = (k - 1) as u64;
        lemma_low_bits(x, j);
        assert(!bit(x, j as int));
        if k < 64 {
            assert(x & (((1u64 << k) - 1) as u64) == 0) by (bit_vector)
                requires
                    0 < k < 64,
                    j == k - 1,
                    x & (((1u64 << j) - 1) as u64) == 0,
                    x & (1u64 << j) == 0,
            ;
        } else {
            assert(x == 0) by (bit_vector)
                requires
                    x & (((1u64 << 63u64) - 1) as u64) == 0,
                    x & (1u64 << 63u64) == 0,
            ;
        }
    }
}

spec fn sub_one(k: u64) -> u64 {
    ((1u64 << k) - 1) as u64
}

/// Sets with the same members are kept as the same word.
pub proof fn lemma_same_bits(a: u64, b: u64)
    requires
        forall|v: int| #[trigger] bit(a, v) == bit(b, v),
    ensures
        a == b,
{
    let x = a ^ b;
    assert forall|v: int| 0 <= v < 64 implies !#[trigger] bit(x, v) by {
        let w = v as u64;
        assert(bit(a, v) == bit(b, v));
        assert((a & (1u64 << w) != 0) == (b & (1u64 << w) != 0) ==> (a ^ b) & (1u64 << w) == 0)
            by (bit_vector);
    }
    lemma_low_bits(x, 64);
    assert(a ^ b == 0 ==> a == b) by (bit_vector);
}

pub fn has_bit(bits: u64, v: u32) -> (r: bool)
    requires
        v < 64,
    ensures
        r == bit(bits, v as int),
{
    bits & (1u64 << (v as u64)) != 0
}

/// The set with `v` added.
pub fn with_bit(bits: u64, v: u32) -> (r: u64)
    requires
        v < 64,
    ensures
        forall|w: int| #[trigger] bit(r, w) == (bit(bits, w) || w == v),
{
    let one: u64 = 1u64 << (v as u64);
    let r: u64 = bits | one;
    proof {
        assert forall|w: int| #[trigger] bit(r, w) == (bit(bits, w) || w == v) by {
            lemma_bit_union(bits, one, w);
            lemma_bit_one(v as u64, w);
        }
    }
    r
}

} // verus!
