//! Bitboards: a `u64` whose bit `i` stands for the square with index `i`.
use vstd::prelude::*;
use vstd::std_specs::bits::{axiom_u64_leading_zeros, axiom_u64_trailing_zeros, u64_leading_zeros, u64_trailing_zeros};

verus! {

/// Bit `i` of `b` is set.
pub open spec fn bit(b: u64, i: int) -> bool {
    0 <= i < 64 && (b >> (i as u64)) & 1u64 == 1u64
}

pub broadcast proof fn lemma_bit_and(a: u64, b: u64, i: int)
    ensures
        #[trigger] bit(a & b, i) == (bit(a, i) && bit(b, i)),
{
    if 0 <= i < 64 {
        let k = i as u64;
        assert((((a & b) >> k) & 1u64 == 1u64) == (((a >> k) & 1u64 == 1u64) && ((b >> k) & 1u64
            == 1u64))) by (bit_vector)
            requires
                k < 64,
        ;
    }
}

pub broadcast proof fn lemma_bit_or(a: u64, b: u64, i: int)
    ensures
        #[trigger] bit(a | b, i) == (bit(a, i) || bit(b, i)),
{
    if 0 <= i < 64 {
        let k = i as u64;
        assert((((a | b) >> k) & 1u64 == 1u64) == (((a >> k) & 1u64 == 1u64) || ((b >> k) & 1u64
            == 1u64))) by (bit_vector)
            requires
                k < 64,
        ;
    }
}

pub broadcast proof fn lemma_bit_not(a: u64, i: int)
    ensures
        #[trigger] bit(!a, i) == (0 <= i < 64 && !bit(a, i)),
{
    if 0 <= i < 64 {
        let k = i as u64;
        assert((((!a) >> k) & 1u64 == 1u64) == !((a >> k) & 1u64 == 1u64)) by (bit_vector)
            requires
                k < 64,
        ;
    }
}

pub broadcast proof fn lemma_bit_single(j: u64, i: int)
    requires
        j < 64,
    ensures
        #[trigger] bit(1u64 << j, i) == (i == j),
{
    if 0 <= i < 64 {
        let k = i as u64;
        assert((((1u64 << j) >> k) & 1u64 == 1u64) == (k == j)) by (bit_vector)
            requires
                k < 64,
                j < 64,
        ;
    }
}

pub broadcast proof fn lemma_bit_zero(i: int)
    ensures
        !#[trigger] bit(0u64, i),
{
    if 0 <= i < 64 {
        let k = i as u64;
        assert(((0u64 >> k) & 1u64) == 0u64) by (bit_vector);
    }
}

pub broadcast group group_bits {
    lemma_bit_and,
    lemma_bit_or,
    lemma_bit_not,
    lemma_bit_single,
    lemma_bit_zero,
}

/// The lowest set bit of a non-zero bitboard is its trailing-zero count.
pub proof fn lemma_lowest_bit(b: u64)
    requires
        b != 0,
    ensures
        u64_trailing_zeros(b) < 64,
        bit(b, u64_trailing_zeros(b) as int),
        forall|j: int| 0 <= j < u64_trailing_zeros(b) ==> !#[trigger] bit(b, j),
{
    axiom_u64_trailing_zeros(b);
    assert forall|j: int| 0 <= j < u64_trailing_zeros(b) implies !#[trigger] bit(b, j) by {
        let k = j as u64;
        assert((b >> k) & 1u64 == 0u64);
    }
}

/// The highest set bit of a non-zero bitboard is `63 - leading_zeros`.
pub proof fn lemma_highest_bit(b: u64)
    requires
        b != 0,
    ensures
        u64_leading_zeros(b) < 64,
        bit(b, 63 - u64_leading_zeros(b)),
        forall|j: int| 63 - u64_leading_zeros(b) < j ==> !#[trigger] bit(b, j),
{
    axiom_u64_leading_zeros(b);
    let h = (63 - u64_leading_zeros(b)) as u64;
    assert((b >> h) & 1u64 != 0u64);
    assert(((b >> h) & 1u64 != 0u64) ==> ((b >> h) & 1u64 == 1u64)) by (bit_vector);
    assert forall|j: int| 63 - u64_leading_zeros(b) < j implies !#[trigger] bit(b, j) by {
        if j < 64 {
            let k = j as u64;
            assert((b >> k) & 1u64 == 0u64);
        }
    }
}

/// A bitboard is zero exactly when none of its bits is set.
pub proof fn lemma_zero_iff_empty(b: u64)
    ensures
        (b == 0) <==> (forall|i: int| !#[trigger] bit(b, i)),
{
    lemma_bit_zero(0);
    if b != 0 {
        lemma_lowest_bit(b);
    } else {
        assert forall|i: int| !#[trigger] bit(b, i) by {
            lemma_bit_zero(i);
        }
    }
}

/// `b & (b - 1)` clears the lowest set bit of `b` and keeps the others.
pub proof fn lemma_clear_lowest(b: u64)
    requires
        b != 0,
    ensures
        forall|i: int|
            #![trigger bit(b & ((b - 1) as u64), i)]
            bit(b & ((b - 1) as u64), i) == (bit(b, i) && i != u64_trailing_zeros(b)),
{
    axiom_u64_trailing_zeros(b);
    let t = u64_trailing_zeros(b) as u64;
    assert(b & ((b - 1) as u64) == b ^ (1u64 << t)) by (bit_vector)
        requires
            b != 0,
            t < 64,
            (b >> t) & 1u64 == 1u64,
            b << ((64 - t) as u64) == 0,
    ;
    assert forall|i: int| #![trigger bit(b & ((b - 1) as u64), i)]
        bit(b & ((b - 1) as u64), i) == (bit(b, i) && i != u64_trailing_zeros(b)) by {
        if 0 <= i < 64 {
            let k = i as u64;
            assert(((b ^ (1u64 << t)) >> k) & 1u64 == 1u64 <==> (((b >> k) & 1u64 == 1u64) && k
                != t)) by (bit_vector)
                requires
                    k < 64,
                    t < 64,
                    (b >> t) & 1u64 == 1u64,
            ;
        }
    }
}

/// Masking with a single bit tests that bit.
pub proof fn lemma_test_bit(b: u64, i: u64)
    requires
        i < 64,
    ensures
        ((b & (1u64 << i)) != 0) == bit(b, i as int),
{
    assert(((b & (1u64 << i)) != 0) == ((b >> i) & 1u64 == 1u64)) by (bit_vector)
        requires
            i < 64,
    ;
}

} // verus!
