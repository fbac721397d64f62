//! Width-specific bit primitives: periodic masks, fill-below-power-of-two
//! masks, high-half clearing and bit-width introspection.
//!
//! The rest of the crate states its contracts over the `bit_*` spec functions
//! defined here: `bit_u64(v, i)` says whether bit `i` of `v` is set.

use vstd::prelude::*;

verus! {

/// True when bit `i` of `v` is set (`i` counted from the least significant bit).
pub open spec fn bit_u8(v: u8, i: u8) -> bool {
    (v >> i) & 1u8 == 1u8
}

/// True when bit `i` of `v` is set.
pub open spec fn bit_u16(v: u16, i: u16) -> bool {
    (v >> i) & 1u16 == 1u16
}

/// True when bit `i` of `v` is set.
pub open spec fn bit_u32(v: u32, i: u32) -> bool {
    (v >> i) & 1u32 == 1u32
}

/// True when bit `i` of `v` is set.
pub open spec fn bit_u64(v: u64, i: u64) -> bool {
    (v >> i) & 1u64 == 1u64
}

/// True when bit `i` of `v` is set.
pub open spec fn bit_u128(v: u128, i: u128) -> bool {
    (v >> i) & 1u128 == 1u128
}

/// `x` together with every bit below its (single) set bit; zero stays zero.
pub open spec fn fill_below_u8(x: u8) -> u8 {
    x | (if x == 0 { 0u8 } else { (x - 1) as u8 })
}

/// `x` together with every bit below its (single) set bit; zero stays zero.
pub open spec fn fill_below_u16(x: u16) -> u16 {
    x | (if x == 0 { 0u16 } else { (x - 1) as u16 })
}

/// `x` together with every bit below its (single) set bit; zero stays zero.
pub open spec fn fill_below_u32(x: u32) -> u32 {
    x | (if x == 0 { 0u32 } else { (x - 1) as u32 })
}

/// `x` together with every bit below its (single) set bit; zero stays zero.
pub open spec fn fill_below_u64(x: u64) -> u64 {
    x | (if x == 0 { 0u64 } else { (x - 1) as u64 })
}

/// Periodic mask over 8 bits: `mask_half_len` zero bits followed by
/// `mask_half_len` one bits, repeated across the width.
pub fn mask_u8(mask_half_len: usize) -> (r: u8)
    requires
        mask_half_len == 1 || mask_half_len == 2 || mask_half_len == 4,
    ensures
        mask_half_len == 1 ==> r == 0x0055u8,
        mask_half_len == 2 ==> r == 0x0033u8,
        mask_half_len == 4 ==> r == 0x000Fu8,
{
    proof {
        assert((mask_half_len == 1 ==> (1u8 << mask_half_len) == 2) && (mask_half_len == 2 ==> (1u8 << mask_half_len) == 4) && (mask_half_len == 4 ==> (1u8 << mask_half_len) == 16)) by (bit_vector);
    }
    let d: u8 = (1u8 << mask_half_len) + 1;
    proof {
        assert((d == 3 ==> !0u8 / d == 0x0055u8) && (d == 5 ==> !0u8 / d == 0x0033u8) && (d == 17 ==> !0u8 / d == 0x000Fu8)) by (bit_vector);
    }
    (!0u8) / d
}

/// Periodic mask over 16 bits: `mask_half_len` zero bits followed by
/// `mask_half_len` one bits, repeated across the width.
pub fn mask_u16(mask_half_len: usize) -> (r: u16)
    requires
        mask_half_len == 1 || mask_half_len == 2 || mask_half_len == 4 || mask_half_len == 8,
    ensures
        mask_half_len == 1 ==> r == 0x5555u16,
        mask_half_len == 2 ==> r == 0x3333u16,
        mask_half_len == 4 ==> r == 0x0F0Fu16,
        mask_half_len == 8 ==> r == 0x00FFu16,
{
    proof {
        assert((mask_half_len == 1 ==> (1u16 << mask_half_len) == 2) && (mask_half_len == 2 ==> (1u16 << mask_half_len) == 4) && (mask_half_len == 4 ==> (1u16 << mask_half_len) == 16) && (mask_half_len == 8 ==> (1u16 << mask_half_len) == 256)) by (bit_vector);
    }
    let d: u16 = (1u16 << mask_half_len) + 1;
    proof {
        assert((d == 3 ==> !0u16 / d == 0x5555u16) && (d == 5 ==> !0u16 / d == 0x3333u16) && (d == 17 ==> !0u16 / d == 0x0F0Fu16) && (d == 257 ==> !0u16 / d == 0x00FFu16)) by (bit_vector);
    }
    (!0u16) / d
}

/// Periodic mask over 32 bits: `mask_half_len` zero bits followed by
/// `mask_half_len` one bits, repeated across the width.
pub fn mask_u32(mask_half_len: usize) -> (r: u32)
    requires
        mask_half_len == 1 || mask_half_len == 2 || mask_half_len == 4 || mask_half_len == 8 || mask_half_len == 16,
    ensures
        mask_half_len == 1 ==> r == 0x5555_5555u32,
        mask_half_len == 2 ==> r == 0x3333_3333u32,
        mask_half_len == 4 ==> r == 0x0F0F_0F0Fu32,
        mask_half_len == 8 ==> r == 0x00FF_00FFu32,
        mask_half_len == 16 ==> r == 0x0000_FFFFu32,
{
    proof {
        assert((mask_half_len == 1 ==> (1u32 << mask_half_len) == 2) && (mask_half_len == 2 ==> (1u32 << mask_half_len) == 4) && (mask_half_len == 4 ==> (1u32 << mask_half_len) == 16) && (mask_half_len == 8 ==> (1u32 << mask_half_len) == 256) && (mask_half_len == 16 ==> (1u32 << mask_half_len) == 65536)) by (bit_vector);
    }
    let d: u32 = (1u32 << mask_half_len) + 1;
    proof {
        assert((d == 3 ==> !0u32 / d == 0x5555_5555u32) && (d == 5 ==> !0u32 / d == 0x3333_3333u32) && (d == 17 ==> !0u32 / d == 0x0F0F_0F0Fu32) && (d == 257 ==> !0u32 / d == 0x00FF_00FFu32) && (d == 65537 ==> !0u32 / d == 0x0000_FFFFu32)) by (bit_vector);
    }
    (!0u32) / d
}

/// Periodic mask over 64 bits: `mask_half_len` zero bits followed by
/// `mask_half_len` one bits, repeated across the width.
pub fn mask_u64(mask_half_len: usize) -> (r: u64)
    requires
        mask_half_len == 1 || mask_half_len == 2 || mask_half_len == 4 || mask_half_len == 8 || mask_half_len == 16 || mask_half_len == 32,
    ensures
        mask_half_len == 1 ==> r == 0x5555_5555_5555_5555u64,
        mask_half_len == 2 ==> r == 0x3333_3333_3333_3333u64,
        mask_half_len == 4 ==> r == 0x0F0F_0F0F_0F0F_0F0Fu64,
        mask_half_len == 8 ==> r == 0x00FF_00FF_00FF_00FFu64,
        mask_half_len == 16 ==> r == 0x0000_FFFF_0000_FFFFu64,
        mask_half_len == 32 ==> r == 0x0000_0000_FFFF_FFFFu64,
{
    proof {
        assert((mask_half_len == 1 ==> (1u64 << mask_half_len) == 2) && (mask_half_len == 2 ==> (1u64 << mask_half_len) == 4) && (mask_half_len == 4 ==> (1u64 << mask_half_len) == 16) && (mask_half_len == 8 ==> (1u64 << mask_half_len) == 256) && (mask_half_len == 16 ==> (1u64 << mask_half_len) == 65536) && (mask_half_len == 32 ==> (1u64 << mask_half_len) == 4294967296)) by (bit_vector);
    }
    let d: u64 = (1u64 << mask_half_len) + 1;
    proof {
        assert((d == 3 ==> !0u64 / d == 0x5555_5555_5555_5555u64) && (d == 5 ==> !0u64 / d == 0x3333_3333_3333_3333u64) && (d == 17 ==> !0u64 / d == 0x0F0F_0F0F_0F0F_0F0Fu64) && (d == 257 ==> !0u64 / d == 0x00FF_00FF_00FF_00FFu64) && (d == 65537 ==> !0u64 / d == 0x0000_FFFF_0000_FFFFu64) && (d == 4294967297 ==> !0u64 / d == 0x0000_0000_FFFF_FFFFu64)) by (bit_vector);
    }
    (!0u64) / d
}

/// Periodic mask over 128 bits: `mask_half_len` zero bits followed by
/// `mask_half_len` one bits, repeated across the width.
pub fn mask_u128(mask_half_len: usize) -> (r: u128)
    requires
        mask_half_len == 1 || mask_half_len == 2 || mask_half_len == 4 || mask_half_len == 8 || mask_half_len == 16 || mask_half_len == 32 || mask_half_len == 64,
    ensures
        mask_half_len == 1 ==> r == 0x5555_5555_5555_5555_5555_5555_5555_5555u128,
        mask_half_len == 2 ==> r == 0x3333_3333_3333_3333_3333_3333_3333_3333u128,
        mask_half_len == 4 ==> r == 0x0F0F_0F0F_0F0F_0F0F_0F0F_0F0F_0F0F_0F0Fu128,
        mask_half_len == 8 ==> r == 0x00FF_00FF_00FF_00FF_00FF_00FF_00FF_00FFu128,
        mask_half_len == 16 ==> r == 0x0000_FFFF_0000_FFFF_0000_FFFF_0000_FFFFu128,
        mask_half_len == 32 ==> r == 0x0000_0000_FFFF_FFFF_0000_0000_FFFF_FFFFu128,
        mask_half_len == 64 ==> r == 0x0000_0000_0000_0000_FFFF_FFFF_FFFF_FFFFu128,
{
    proof {
        assert((mask_half_len == 1 ==> (1u128 << mask_half_len) == 2) && (mask_half_len == 2 ==> (1u128 << mask_half_len) == 4) && (mask_half_len == 4 ==> (1u128 << mask_half_len) == 16) && (mask_half_len == 8 ==> (1u128 << mask_half_len) == 256) && (mask_half_len == 16 ==> (1u128 << mask_half_len) == 65536) && (mask_half_len == 32 ==> (1u128 << mask_half_len) == 4294967296) && (mask_half_len == 64 ==> (1u128 << mask_half_len) == 18446744073709551616)) by (bit_vector);
    }
    let d: u128 = (1u128 << mask_half_len) + 1;
    proof {
        assert((d == 3 ==> !0u128 / d == 0x5555_5555_5555_5555_5555_5555_5555_5555u128) && (d == 5 ==> !0u128 / d == 0x3333_3333_3333_3333_3333_3333_3333_3333u128) && (d == 17 ==> !0u128 / d == 0x0F0F_0F0F_0F0F_0F0F_0F0F_0F0F_0F0F_0F0Fu128) && (d == 257 ==> !0u128 / d == 0x00FF_00FF_00FF_00FF_00FF_00FF_00FF_00FFu128) && (d == 65537 ==> !0u128 / d == 0x0000_FFFF_0000_FFFF_0000_FFFF_0000_FFFFu128) && (d == 4294967297 ==> !0u128 / d == 0x0000_0000_FFFF_FFFF_0000_0000_FFFF_FFFFu128) && (d == 18446744073709551617 ==> !0u128 / d == 0x0000_0000_0000_0000_FFFF_FFFF_FFFF_FFFFu128)) by (bit_vector);
    }
    (!0u128) / d
}

/// Sets every bit below the single set bit of `x` (`x` must be zero or a
/// power of two, as in the original `x | (x - 1)` trick with `x` clamped to
/// at least one before subtracting).
pub fn mask_pow2_and_under_u8(x: u8) -> (r: u8)
    requires
        x & ((x - 1) as u8) == 0,
    ensures
        r == fill_below_u8(x),
{
    let lower: u8 = if x == 0 {
        0
    } else {
        x - 1
    };
    x | lower
}

/// Sets every bit below the single set bit of `x` (`x` must be zero or a
/// power of two).
pub fn mask_pow2_and_under_u16(x: u16) -> (r: u16)
    requires
        x & ((x - 1) as u16) == 0,
    ensures
        r == fill_below_u16(x),
{
    let lower: u16 = if x == 0 {
        0
    } else {
        x - 1
    };
    x | lower
}

/// Sets every bit below the single set bit of `x` (`x` must be zero or a
/// power of two).
pub fn mask_pow2_and_under_u32(x: u32) -> (r: u32)
    requires
        x & ((x - 1) as u32) == 0,
    ensures
        r == fill_below_u32(x),
{
    let lower: u32 = if x == 0 {
        0
    } else {
        x - 1
    };
    x | lower
}

/// Sets every bit below the single set bit of `x` (`x` must be zero or a
/// power of two).
pub fn mask_pow2_and_under_u64(x: u64) -> (r: u64)
    requires
        x & ((x - 1) as u64) == 0,
    ensures
        r == fill_below_u64(x),
{
    let lower: u64 = if x == 0 {
        0
    } else {
        x - 1
    };
    x | lower
}

/// Facts about clearing the high half of each width: the shifted all-ones
/// constant and the bound on the masked value.
proof fn lemma_zero_high_bits_facts()
    by (bit_vector)
    ensures
        (!0u8) >> 4u8 == 0x0Fu8,
        (!0u16) >> 8u16 == 0x00FFu16,
        (!0u32) >> 16u32 == 0x0000_FFFFu32,
        (!0u64) >> 32u64 == 0x0000_0000_FFFF_FFFFu64,
        (!0u128) >> 64u128 == 0xFFFF_FFFF_FFFF_FFFFu128,
        forall|v: u8| #[trigger] (v & 0x0Fu8) <= 0x0Fu8,
        forall|v: u16| #[trigger] (v & 0x00FFu16) <= 0x00FFu16,
        forall|v: u32| #[trigger] (v & 0x0000_FFFFu32) <= 0x0000_FFFFu32,
        forall|v: u64| #[trigger] (v & 0x0000_0000_FFFF_FFFFu64) <= 0x0000_0000_FFFF_FFFFu64,
        forall|v: u128| #[trigger] (v & 0xFFFF_FFFF_FFFF_FFFFu128) <= 0xFFFF_FFFF_FFFF_FFFFu128,
{
}

/// Clears the upper 4 bits of a 8-bit value.
pub fn zero_high_bits_u8(value: u8) -> (r: u8)
    ensures
        r == value & 0x0Fu8,
        r <= 0x0Fu8,
{
    proof {
        lemma_zero_high_bits_facts();
    }
    value & ((!0u8) >> 4u8)
}

/// Clears the upper 8 bits of a 16-bit value.
pub fn zero_high_bits_u16(value: u16) -> (r: u16)
    ensures
        r == value & 0x00FFu16,
        r <= 0x00FFu16,
{
    proof {
        lemma_zero_high_bits_facts();
    }
    value & ((!0u16) >> 8u16)
}

/// Clears the upper 16 bits of a 32-bit value.
pub fn zero_high_bits_u32(value: u32) -> (r: u32)
    ensures
        r == value & 0x0000_FFFFu32,
        r <= 0x0000_FFFFu32,
{
    proof {
        lemma_zero_high_bits_facts();
    }
    value & ((!0u32) >> 16u32)
}

/// Clears the upper 32 bits of a 64-bit value.
pub fn zero_high_bits_u64(value: u64) -> (r: u64)
    ensures
        r == value & 0x0000_0000_FFFF_FFFFu64,
        r <= 0x0000_0000_FFFF_FFFFu64,
{
    proof {
        lemma_zero_high_bits_facts();
    }
    value & ((!0u64) >> 32u64)
}

/// Clears the upper 64 bits of a 128-bit value.
pub fn zero_high_bits_u128(value: u128) -> (r: u128)
    ensures
        r == value & 0xFFFF_FFFF_FFFF_FFFFu128,
        r <= 0xFFFF_FFFF_FFFF_FFFFu128,
{
    proof {
        lemma_zero_high_bits_facts();
    }
    value & ((!0u128) >> 64u128)
}

/// The width of `T`'s machine representation in bits.
pub fn bit_count<T>() -> (r: usize)
    requires
        vstd::layout::size_of::<T>() * 8 <= usize::MAX,
    ensures
        r == vstd::layout::size_of::<T>() * 8,
{
    core::mem::size_of::<T>() * 8
}

} // verus!
