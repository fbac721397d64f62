//! The interleave engine: combines two same-width values into one
//! double-width value by alternating their bits. Bit `i` of the right
//! operand lands in result bit `2 * i`, bit `i` of the left operand in
//! result bit `2 * i + 1`.
//!
//! The portable path spreads each zero-extended operand with the
//! logarithmic doubling technique: at each step the value is XOR-shifted
//! and masked with a periodic mask whose period halves, until single-bit
//! granularity is reached.

use vstd::prelude::*;

use crate::bit_util::bit_u128;
use crate::bit_util::bit_u16;
use crate::bit_util::bit_u32;
use crate::bit_util::bit_u64;
use crate::bit_util::bit_u8;
use crate::bit_util::mask_u128;
use crate::bit_util::mask_u16;
use crate::bit_util::mask_u32;
use crate::bit_util::mask_u64;
use crate::bit_util::zero_high_bits_u128;
use crate::bit_util::zero_high_bits_u16;
use crate::bit_util::zero_high_bits_u32;
use crate::bit_util::zero_high_bits_u64;

verus! {

/// Spreads the low 8 bits of `input` onto the even bit positions of a
/// 16-bit value; every odd position is left clear.
fn interleave_with_zero_u16(input: u16) -> (r: u16)
    requires
        input <= 0x00FFu16,
    ensures
        forall|k: u16|
            k < 16 ==> #[trigger] bit_u16(r, k) == (k % 2 == 0 && bit_u16(input, k / 2)),
{
    let a: u16 = (input ^ (input << 4u16)) & mask_u16(4);
    let b: u16 = (a ^ (a << 2u16)) & mask_u16(2);
    let c: u16 = (b ^ (b << 1u16)) & mask_u16(1);
    proof {
        assert forall|k: u16|
            k < 16 implies #[trigger] bit_u16(c, k) == (k % 2 == 0 && bit_u16(
            input,
            k / 2,
        )) by {
            assert(bit_u16(c, k) == (k % 2 == 0 && bit_u16(input, k / 2)))
                by (bit_vector)
                requires
                    input <= 0x00FFu16,
                k < 16,
                a == (input ^ (input << 4u16)) & 0x0F0Fu16,
                b == (a ^ (a << 2u16)) & 0x3333u16,
                c == (b ^ (b << 1u16)) & 0x5555u16,
            ;
        }
    }
    c
}

/// Spreads the low 16 bits of `input` onto the even bit positions of a
/// 32-bit value; every odd position is left clear.
fn interleave_with_zero_u32(input: u32) -> (r: u32)
    requires
        input <= 0x0000_FFFFu32,
    ensures
        forall|k: u32|
            k < 32 ==> #[trigger] bit_u32(r, k) == (k % 2 == 0 && bit_u32(input, k / 2)),
{
    let a: u32 = (input ^ (input << 8u32)) & mask_u32(8);
    let b: u32 = (a ^ (a << 4u32)) & mask_u32(4);
    let c: u32 = (b ^ (b << 2u32)) & mask_u32(2);
    let e: u32 = (c ^ (c << 1u32)) & mask_u32(1);
    proof {
        assert forall|k: u32|
            k < 32 implies #[trigger] bit_u32(e, k) == (k % 2 == 0 && bit_u32(
            input,
            k / 2,
        )) by {
            assert(bit_u32(e, k) == (k % 2 == 0 && bit_u32(input, k / 2)))
                by (bit_vector)
                requires
                    input <= 0x0000_FFFFu32,
                k < 32,
                a == (input ^ (input << 8u32)) & 0x00FF_00FFu32,
                b == (a ^ (a << 4u32)) & 0x0F0F_0F0Fu32,
                c == (b ^ (b << 2u32)) & 0x3333_3333u32,
                e == (c ^ (c << 1u32)) & 0x5555_5555u32,
            ;
        }
    }
    e
}

/// Spreads the low 32 bits of `input` onto the even bit positions of a
/// 64-bit value; every odd position is left clear.
fn interleave_with_zero_u64(input: u64) -> (r: u64)
    requires
        input <= 0x0000_0000_FFFF_FFFFu64,
    ensures
        forall|k: u64|
            k < 64 ==> #[trigger] bit_u64(r, k) == (k % 2 == 0 && bit_u64(input, k / 2)),
{
    let a: u64 = (input ^ (input << 16u64)) & mask_u64(16);
    let b: u64 = (a ^ (a << 8u64)) & mask_u64(8);
    let c: u64 = (b ^ (b << 4u64)) & mask_u64(4);
    let e: u64 = (c ^ (c << 2u64)) & mask_u64(2);
    let f: u64 = (e ^ (e << 1u64)) & mask_u64(1);
    proof {
        assert forall|k: u64|
            k < 64 implies #[trigger] bit_u64(f, k) == (k % 2 == 0 && bit_u64(
            input,
            k / 2,
        )) by {
            assert(bit_u64(f, k) == (k % 2 == 0 && bit_u64(input, k / 2)))
                by (bit_vector)
                requires
                    input <= 0x0000_0000_FFFF_FFFFu64,
                k < 64,
                a == (input ^ (input << 16u64)) & 0x0000_FFFF_0000_FFFFu64,
                b == (a ^ (a << 8u64)) & 0x00FF_00FF_00FF_00FFu64,
                c == (b ^ (b << 4u64)) & 0x0F0F_0F0F_0F0F_0F0Fu64,
                e == (c ^ (c << 2u64)) & 0x3333_3333_3333_3333u64,
                f == (e ^ (e << 1u64)) & 0x5555_5555_5555_5555u64,
            ;
        }
    }
    f
}

/// Spreads the low 64 bits of `input` onto the even bit positions of a
/// 128-bit value; every odd position is left clear.
fn interleave_with_zero_u128(input: u128) -> (r: u128)
    requires
        input <= 0x0000_0000_0000_0000_FFFF_FFFF_FFFF_FFFFu128,
    ensures
        forall|k: u128|
            k < 128 ==> #[trigger] bit_u128(r, k) == (k % 2 == 0 && bit_u128(input, k / 2)),
{
    let a: u128 = (input ^ (input << 32u128)) & mask_u128(32);
    let b: u128 = (a ^ (a << 16u128)) & mask_u128(16);
    let c: u128 = (b ^ (b << 8u128)) & mask_u128(8);
    let e: u128 = (c ^ (c << 4u128)) & mask_u128(4);
    let f: u128 = (e ^ (e << 2u128)) & mask_u128(2);
    let g: u128 = (f ^ (f << 1u128)) & mask_u128(1);
    proof {
        assert forall|k: u128|
            k < 128 implies #[trigger] bit_u128(g, k) == (k % 2 == 0 && bit_u128(
            input,
            k / 2,
        )) by {
            assert(bit_u128(g, k) == (k % 2 == 0 && bit_u128(input, k / 2)))
                by (bit_vector)
                requires
                    input <= 0x0000_0000_0000_0000_FFFF_FFFF_FFFF_FFFFu128,
                k < 128,
                a == (input ^ (input << 32u128)) & 0x0000_0000_FFFF_FFFF_0000_0000_FFFF_FFFFu128,
                b == (a ^ (a << 16u128)) & 0x0000_FFFF_0000_FFFF_0000_FFFF_0000_FFFFu128,
                c == (b ^ (b << 8u128)) & 0x00FF_00FF_00FF_00FF_00FF_00FF_00FF_00FFu128,
                e == (c ^ (c << 4u128)) & 0x0F0F_0F0F_0F0F_0F0F_0F0F_0F0F_0F0F_0F0Fu128,
                f == (e ^ (e << 2u128)) & 0x3333_3333_3333_3333_3333_3333_3333_3333u128,
                g == (f ^ (f << 1u128)) & 0x5555_5555_5555_5555_5555_5555_5555_5555u128,
            ;
        }
    }
    g
}

/// Interleaves two 8-bit values into one 16-bit value: bit `i` of
/// `rhs` becomes result bit `2 * i`, bit `i` of `lhs` becomes result bit
/// `2 * i + 1`.
pub fn interleave_bits_u8(lhs: u8, rhs: u8) -> (r: u16)
    ensures
        forall|k: u16|
            k < 16 ==> #[trigger] bit_u16(r, k) == (if k % 2 == 0 {
                bit_u8(rhs, (k / 2) as u8)
            } else {
                bit_u8(lhs, (k / 2) as u8)
            }),
{
    let zl: u16 = zero_high_bits_u16(lhs as u16);
    let zr: u16 = zero_high_bits_u16(rhs as u16);
    let sl: u16 = interleave_with_zero_u16(zl);
    let sr: u16 = interleave_with_zero_u16(zr);
    let r: u16 = (sl << 1u16) | sr;
    proof {
        assert forall|k: u16|
            k < 16 implies #[trigger] bit_u16(r, k) == (if k % 2 == 0 {
            bit_u8(rhs, (k / 2) as u8)
        } else {
            bit_u8(lhs, (k / 2) as u8)
        }) by {
            let km1: u16 = if k > 0 {
                (k - 1) as u16
            } else {
                0u16
            };
            assert(bit_u16(sr, k) == (k % 2 == 0 && bit_u16(zr, k / 2)));
            if k > 0 {
                assert(bit_u16(sl, km1) == (km1 % 2 == 0 && bit_u16(zl, km1 / 2)));
            }
            if k % 2 == 0 {
                assert(k % 2 == 0 ==> (bit_u16(r, k) == bit_u8(rhs, (k / 2) as u8)))
                    by (bit_vector)
                    requires
                        k < 16u16,
                        r == (sl << 1u16) | sr,
                        zr == (rhs as u16) & 0x00FFu16,
                        bit_u16(sr, k) == bit_u16(zr, k / 2),
                        k > 0 ==> km1 == (k - 1) as u16 && !bit_u16(sl, km1),
                ;
            } else {
                assert(k % 2 == 1 ==> (bit_u16(r, k) == bit_u8(lhs, (k / 2) as u8)))
                    by (bit_vector)
                    requires
                        k >= 1,
                        k < 16u16,
                        km1 == (k - 1) as u16,
                        r == (sl << 1u16) | sr,
                        zl == (lhs as u16) & 0x00FFu16,
                        bit_u16(sl, km1) == bit_u16(zl, km1 / 2),
                        !bit_u16(sr, k),
                ;
            }
        }
    }
    r
}

/// Interleaves two 16-bit values into one 32-bit value: bit `i` of
/// `rhs` becomes result bit `2 * i`, bit `i` of `lhs` becomes result bit
/// `2 * i + 1`.
pub fn interleave_bits_u16(lhs: u16, rhs: u16) -> (r: u32)
    ensures
        forall|k: u32|
            k < 32 ==> #[trigger] bit_u32(r, k) == (if k % 2 == 0 {
                bit_u16(rhs, (k / 2) as u16)
            } else {
                bit_u16(lhs, (k / 2) as u16)
            }),
{
    let zl: u32 = zero_high_bits_u32(lhs as u32);
    let zr: u32 = zero_high_bits_u32(rhs as u32);
    let sl: u32 = interleave_with_zero_u32(zl);
    let sr: u32 = interleave_with_zero_u32(zr);
    let r: u32 = (sl << 1u32) | sr;
    proof {
        assert forall|k: u32|
            k < 32 implies #[trigger] bit_u32(r, k) == (if k % 2 == 0 {
            bit_u16(rhs, (k / 2) as u16)
        } else {
            bit_u16(lhs, (k / 2) as u16)
        }) by {
            let km1: u32 = if k > 0 {
                (k - 1) as u32
            } else {
                0u32
            };
            assert(bit_u32(sr, k) == (k % 2 == 0 && bit_u32(zr, k / 2)));
            if k > 0 {
                assert(bit_u32(sl, km1) == (km1 % 2 == 0 && bit_u32(zl, km1 / 2)));
            }
            if k % 2 == 0 {
                assert(k % 2 == 0 ==> (bit_u32(r, k) == bit_u16(rhs, (k / 2) as u16)))
                    by (bit_vector)
                    requires
                        k < 32u32,
                        r == (sl << 1u32) | sr,
                        zr == (rhs as u32) & 0x0000_FFFFu32,
                        bit_u32(sr, k) == bit_u32(zr, k / 2),
                        k > 0 ==> km1 == (k - 1) as u32 && !bit_u32(sl, km1),
                ;
            } else {
                assert(k % 2 == 1 ==> (bit_u32(r, k) == bit_u16(lhs, (k / 2) as u16)))
                    by (bit_vector)
                    requires
                        k >= 1,
                        k < 32u32,
                        km1 == (k - 1) as u32,
                        r == (sl << 1u32) | sr,
                        zl == (lhs as u32) & 0x0000_FFFFu32,
                        bit_u32(sl, km1) == bit_u32(zl, km1 / 2),
                        !bit_u32(sr, k),
                ;
            }
        }
    }
    r
}

/// Interleaves two 32-bit values into one 64-bit value: bit `i` of
/// `rhs` becomes result bit `2 * i`, bit `i` of `lhs` becomes result bit
/// `2 * i + 1`.
pub fn interleave_bits_u32(lhs: u32, rhs: u32) -> (r: u64)
    ensures
        forall|k: u64|
            k < 64 ==> #[trigger] bit_u64(r, k) == (if k % 2 == 0 {
                bit_u32(rhs, (k / 2) as u32)
            } else {
                bit_u32(lhs, (k / 2) as u32)
            }),
{
    let zl: u64 = zero_high_bits_u64(lhs as u64);
    let zr: u64 = zero_high_bits_u64(rhs as u64);
    let sl: u64 = interleave_with_zero_u64(zl);
    let sr: u64 = interleave_with_zero_u64(zr);
    let r: u64 = (sl << 1u64) | sr;
    proof {
        assert forall|k: u64|
            k < 64 implies #[trigger] bit_u64(r, k) == (if k % 2 == 0 {
            bit_u32(rhs, (k / 2) as u32)
        } else {
            bit_u32(lhs, (k / 2) as u32)
        }) by {
            let km1: u64 = if k > 0 {
                (k - 1) as u64
            } else {
                0u64
            };
            assert(bit_u64(sr, k) == (k % 2 == 0 && bit_u64(zr, k / 2)));
            if k > 0 {
                assert(bit_u64(sl, km1) == (km1 % 2 == 0 && bit_u64(zl, km1 / 2)));
            }
            if k % 2 == 0 {
                assert(k % 2 == 0 ==> (bit_u64(r, k) == bit_u32(rhs, (k / 2) as u32)))
                    by (bit_vector)
                    requires
                        k < 64u64,
                        r == (sl << 1u64) | sr,
                        zr == (rhs as u64) & 0x0000_0000_FFFF_FFFFu64,
                        bit_u64(sr, k) == bit_u64(zr, k / 2),
                        k > 0 ==> km1 == (k - 1) as u64 && !bit_u64(sl, km1),
                ;
            } else {
                assert(k % 2 == 1 ==> (bit_u64(r, k) == bit_u32(lhs, (k / 2) as u32)))
                    by (bit_vector)
                    requires
                        k >= 1,
                        k < 64u64,
                        km1 == (k - 1) as u64,
                        r == (sl << 1u64) | sr,
                        zl == (lhs as u64) & 0x0000_0000_FFFF_FFFFu64,
                        bit_u64(sl, km1) == bit_u64(zl, km1 / 2),
                        !bit_u64(sr, k),
                ;
            }
        }
    }
    r
}

/// Interleaves two 64-bit values into one 128-bit value: bit `i` of
/// `rhs` becomes result bit `2 * i`, bit `i` of `lhs` becomes result bit
/// `2 * i + 1`.
pub fn interleave_bits_u64(lhs: u64, rhs: u64) -> (r: u128)
    ensures
        forall|k: u128|
            k < 128 ==> #[trigger] bit_u128(r, k) == (if k % 2 == 0 {
                bit_u64(rhs, (k / 2) as u64)
            } else {
                bit_u64(lhs, (k / 2) as u64)
            }),
{
    let zl: u128 = zero_high_bits_u128(lhs as u128);
    let zr: u128 = zero_high_bits_u128(rhs as u128);
    let sl: u128 = interleave_with_zero_u128(zl);
    let sr: u128 = interleave_with_zero_u128(zr);
    let r: u128 = (sl << 1u128) | sr;
    proof {
        assert forall|k: u128|
            k < 128 implies #[trigger] bit_u128(r, k) == (if k % 2 == 0 {
            bit_u64(rhs, (k / 2) as u64)
        } else {
            bit_u64(lhs, (k / 2) as u64)
        }) by {
            let km1: u128 = if k > 0 {
                (k - 1) as u128
            } else {
                0u128
            };
            assert(bit_u128(sr, k) == (k % 2 == 0 && bit_u128(zr, k / 2)));
            if k > 0 {
                assert(bit_u128(sl, km1) == (km1 % 2 == 0 && bit_u128(zl, km1 / 2)));
            }
            if k % 2 == 0 {
                assert(k % 2 == 0 ==> (bit_u128(r, k) == bit_u64(rhs, (k / 2) as u64)))
                    by (bit_vector)
                    requires
                        k < 128u128,
                        r == (sl << 1u128) | sr,
                        zr == (rhs as u128) & 0x0000_0000_0000_0000_FFFF_FFFF_FFFF_FFFFu128,
                        bit_u128(sr, k) == bit_u128(zr, k / 2),
                        k > 0 ==> km1 == (k - 1) as u128 && !bit_u128(sl, km1),
                ;
            } else {
                assert(k % 2 == 1 ==> (bit_u128(r, k) == bit_u64(lhs, (k / 2) as u64)))
                    by (bit_vector)
                    requires
                        k >= 1,
                        k < 128u128,
                        km1 == (k - 1) as u128,
                        r == (sl << 1u128) | sr,
                        zl == (lhs as u128) & 0x0000_0000_0000_0000_FFFF_FFFF_FFFF_FFFFu128,
                        bit_u128(sl, km1) == bit_u128(zl, km1 / 2),
                        !bit_u128(sr, k),
                ;
            }
        }
    }
    r
}

} // verus!
