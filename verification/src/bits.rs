//! Numbers as sequences of bits, least significant bit first.
//!
//! Everything the page formats say about bit widths and bit positions is
//! stated here over `nat`, with division by two as the only operation, so the
//! proofs that use it stay in linear arithmetic.

use vstd::prelude::*;

verus! {

/// Bit `j` of `v`, counting from the least significant bit.
pub open spec fn bit_of(v: nat, j: nat) -> bool
    decreases j,
{
    if j == 0 {
        v % 2 == 1
    } else {
        bit_of(v / 2, (j - 1) as nat)
    }
}

/// `v` can be written with `width` bits.
pub open spec fn fits(v: nat, width: nat) -> bool
    decreases width,
{
    if width == 0 {
        v == 0
    } else {
        fits(v / 2, (width - 1) as nat)
    }
}

/// The smallest number of bits that `v` can be written with; zero needs none.
pub open spec fn bit_width(v: nat) -> nat
    decreases v,
{
    if v == 0 {
        0
    } else {
        1 + bit_width(v / 2)
    }
}

/// One or zero, for a bit that is set or clear.
pub open spec fn bit_value(b: bool) -> nat {
    if b {
        1
    } else {
        0
    }
}

/// The number whose bit `j` is `f(lo + j)`, for `j` below `n`.
pub open spec fn bits_value(f: spec_fn(int) -> bool, lo: int, n: nat) -> nat
    decreases n,
{
    if n == 0 {
        0
    } else {
        bit_value(f(lo)) + 2 * bits_value(f, lo + 1, (n - 1) as nat)
    }
}

/// The byte whose bit `t` is `f(lo + t)`.
pub open spec fn byte_of_bits(f: spec_fn(int) -> bool, lo: int) -> nat {
    bits_value(f, lo, 8)
}

/// A number fits in its own bit width.
pub proof fn lemma_fits_bit_width(v: nat)
    ensures
        fits(v, bit_width(v)),
    decreases v,
{
    if v != 0 {
        lemma_fits_bit_width(v / 2);
    }
}

/// What fits in `width` bits also fits when it is smaller or the width larger.
pub proof fn lemma_fits_monotonic(u: nat, v: nat, narrow: nat, wide: nat)
    requires
        u <= v,
        narrow <= wide,
        fits(v, narrow),
    ensures
        fits(u, wide),
    decreases wide,
{
    if narrow == 0 {
        lemma_fits_zero(wide);
    } else {
        lemma_fits_monotonic(u / 2, v / 2, (narrow - 1) as nat, (wide - 1) as nat);
    }
}

/// Zero fits in any width.
pub proof fn lemma_fits_zero(width: nat)
    ensures
        fits(0, width),
    decreases width,
{
    if width != 0 {
        lemma_fits_zero((width - 1) as nat);
    }
}

/// The bit width is the least width a number fits in.
pub proof fn lemma_bit_width_least(v: nat, width: nat)
    requires
        fits(v, width),
    ensures
        bit_width(v) <= width,
    decreases width,
{
    if width != 0 && v != 0 {
        lemma_bit_width_least(v / 2, (width - 1) as nat);
    }
}

/// The bit width grows with the number.
pub proof fn lemma_bit_width_monotonic(u: nat, v: nat)
    requires
        u <= v,
    ensures
        bit_width(u) <= bit_width(v),
{
    lemma_fits_bit_width(v);
    lemma_fits_monotonic(u, v, bit_width(v), bit_width(v));
    lemma_bit_width_least(u, bit_width(v));
}

/// Every 64-bit number has a bit width of at most 64.
pub proof fn lemma_bit_width_u64(v: u64)
    ensures
        bit_width(v as nat) <= 64,
{
    vstd::arithmetic::power2::lemma2_to64_rest();
    lemma_fits_below_pow2(v as nat, 64);
    lemma_bit_width_least(v as nat, 64);
}

/// What is below two to the power of `width` fits in `width` bits.
pub proof fn lemma_fits_below_pow2(v: nat, width: nat)
    requires
        v < vstd::arithmetic::power2::pow2(width),
    ensures
        fits(v, width),
    decreases width,
{
    vstd::arithmetic::power2::lemma2_to64();
    if width != 0 {
        vstd::arithmetic::power2::lemma_pow2_unfold(width);
        lemma_fits_below_pow2(v / 2, (width - 1) as nat);
    }
}

/// Reading the bits of a number that fits gives the number back.
pub proof fn lemma_bits_value_of(f: spec_fn(int) -> bool, lo: int, n: nat, v: nat)
    requires
        fits(v, n),
        forall|j: nat| j < n ==> f(lo + j) == #[trigger] bit_of(v, j),
    ensures
        bits_value(f, lo, n) == v,
    decreases n,
{
    if n != 0 {
        assert forall|j: nat| j < n - 1 implies f(lo + 1 + j) == #[trigger] bit_of(v / 2, j) by {
            assert(f(lo + (j + 1)) == bit_of(v, j + 1));
        }
        lemma_bits_value_of(f, lo + 1, (n - 1) as nat, v / 2);
        assert(f(lo + 0) == bit_of(v, 0nat));
    }
}

/// A number put together from `n` bits fits in `n` bits and has exactly those bits.
pub proof fn lemma_bits_of_value(f: spec_fn(int) -> bool, lo: int, n: nat, t: nat)
    requires
        t < n,
    ensures
        fits(bits_value(f, lo, n), n),
        bit_of(bits_value(f, lo, n), t) == f(lo + t),
    decreases n,
{
    let rest = bits_value(f, lo + 1, (n - 1) as nat);
    let whole = bits_value(f, lo, n);
    if n == 1 {
    } else {
        if t == 0 {
            lemma_bits_of_value(f, lo + 1, (n - 1) as nat, 0);
        } else {
            lemma_bits_of_value(f, lo + 1, (n - 1) as nat, (t - 1) as nat);
        }
    }
    assert(fits(whole, n) == fits(rest, (n - 1) as nat));
}

/// A byte put together from eight bits is a byte, and has exactly those bits.
pub proof fn lemma_byte_of_bits(f: spec_fn(int) -> bool, lo: int, t: nat)
    requires
        t < 8,
    ensures
        byte_of_bits(f, lo) < 256,
        bit_of(byte_of_bits(f, lo), t) == f(lo + t),
{
    lemma_bits_of_value(f, lo, 8, t);
    reveal_with_fuel(bits_value, 9);
}

/// Bit `j` of `v`, read with a shift and a mask.
pub fn test_bit(v: u32, j: u32) -> (r: bool)
    requires
        j < 32,
    ensures
        r == bit_of(v as nat, j as nat),
{
    proof {
        lemma_shift_reads_bit(v, j);
    }
    (v >> j) & 1 == 1
}

proof fn lemma_shift_reads_bit(v: u32, j: u32)
    requires
        j < 32,
    ensures
        ((v >> j) & 1 == 1) == bit_of(v as nat, j as nat),
    decreases j,
{
    if j == 0 {
        assert((v >> 0u32) & 1 == v % 2) by (bit_vector);
    } else {
        let half: u32 = v / 2;
        let below: u32 = (j - 1) as u32;
        assert(v >> j == half >> below) by (bit_vector)
            requires
                0 < j < 32,
                half == v / 2,
                below == (j - 1) as u32,
        ;
        lemma_shift_reads_bit(half, below);
    }
}

/// The smallest number of bits that `max` can be written with.
pub fn get_bit_width(max: u64) -> (width: u32)
    ensures
        width == bit_width(max as nat),
        width <= 64,
{
    let mut rest: u64 = max;
    let mut width: u32 = 0;
    proof {
        lemma_bit_width_u64(max);
    }
    while rest > 0
        invariant
            width + bit_width(rest as nat) == bit_width(max as nat),
            bit_width(max as nat) <= 64,
        decreases rest,
    {
        rest = rest / 2;
        width = width + 1;
    }
    width
}

} // verus!
