//! The brute-force reference oracle: the textbook per-bit Hilbert index,
//! one quadrant decision and one rotation per bit, from the most significant
//! bit down. It serves the test suite as the correctness yardstick for the
//! precomputed fast path.

use vstd::arithmetic::power2::lemma2_to64;
use vstd::arithmetic::power2::lemma2_to64_rest;
use vstd::arithmetic::power2::lemma_pow2_adds;
use vstd::arithmetic::power2::lemma_pow2_pos;
use vstd::arithmetic::power2::lemma_pow2_strictly_increases;
use vstd::arithmetic::power2::lemma_pow2_unfold;
use vstd::arithmetic::power2::pow2;
use vstd::prelude::*;

verus! {

/// The quadrant rotation: when the `y` quadrant bit is clear the axes are
/// swapped, after reflecting both when the `x` quadrant bit is set.
pub open spec fn rot_spec(x: u32, y: u32, rx: u32, ry: u32) -> (u32, u32) {
    if ry == 0 {
        if rx == 1 {
            (!y, !x)
        } else {
            (y, x)
        }
    } else {
        (x, y)
    }
}

/// The Hilbert index over the low `n` bit levels: the quadrant number at the
/// top remaining level, weighted by the square of the level's cell size,
/// plus the index of the rotated remainder.
pub open spec fn hilbert_index(x: u32, y: u32, n: nat) -> int
    decreases n,
{
    if n == 0 {
        0
    } else {
        let s = pow2((n - 1) as nat) as u32;
        let rx: u32 = if x & s > 0 {
            1u32
        } else {
            0u32
        };
        let ry: u32 = if y & s > 0 {
            1u32
        } else {
            0u32
        };
        let q: int = if rx == 1 {
            if ry == 1 {
                2
            } else {
                3
            }
        } else {
            if ry == 1 {
                1
            } else {
                0
            }
        };
        let r2 = rot_spec(x, y, rx, ry);
        pow2((n - 1) as nat) * pow2((n - 1) as nat) * q + hilbert_index(r2.0, r2.1, (n - 1) as nat)
    }
}

/// The quadrant formula `(3 * rx) ^ ry` evaluated on quadrant bits.
proof fn lemma_quadrant()
    by (bit_vector)
    ensures
        0u32 ^ 0u32 == 0u32,
        0u32 ^ 1u32 == 1u32,
        3u32 ^ 0u32 == 3u32,
        3u32 ^ 1u32 == 2u32,
{
}

/// The Hilbert index over `n` bit levels is non-negative and below `4^n`.
pub proof fn lemma_hilbert_index_bound(x: u32, y: u32, n: nat)
    ensures
        0 <= hilbert_index(x, y, n) < pow2(2 * n),
    decreases n,
{
    if n == 0 {
        lemma2_to64();
    } else {
        let s = pow2((n - 1) as nat) as u32;
        let rx: u32 = if x & s > 0 {
            1u32
        } else {
            0u32
        };
        let ry: u32 = if y & s > 0 {
            1u32
        } else {
            0u32
        };
        let r2 = rot_spec(x, y, rx, ry);
        lemma_hilbert_index_bound(r2.0, r2.1, (n - 1) as nat);
        lemma_pow2_adds((n - 1) as nat, (n - 1) as nat);
        lemma_pow2_adds(2 * (n - 1) as nat, 2);
        lemma_pow2_pos((n - 1) as nat);
        lemma2_to64();
    }
}

/// Rotates the remaining coordinate bits into the frame of the quadrant
/// `(rx, ry)`.
pub fn rot_b(x: u32, y: u32, rx: u32, ry: u32) -> (r: (u32, u32))
    ensures
        r == rot_spec(x, y, rx, ry),
{
    if ry == 0 {
        if rx == 1 {
            (!y, !x)
        } else {
            (y, x)
        }
    } else {
        (x, y)
    }
}

/// The brute-force Hilbert distance of `(x, y)`: walks the 32 bit levels
/// from the top, accumulating each level's quadrant contribution and
/// rotating the remainder.
pub fn xy2d(x: u32, y: u32) -> (d: u64)
    ensures
        d == hilbert_index(x, y, 32),
{
    let mut xy: (u32, u32) = (x, y);
    let mut s: u32 = 1u32 << 31u32;
    let mut d: u64 = 0;
    let ghost mut i: nat = 32;
    proof {
        assert(1u32 << 31u32 == 0x8000_0000u32) by (bit_vector);
        lemma2_to64();
        lemma2_to64_rest();
        lemma_hilbert_index_bound(x, y, 32);
    }
    while s > 0
        invariant
            i <= 32,
            i >= 1 ==> s == pow2((i - 1) as nat),
            i == 0 ==> s == 0,
            d + hilbert_index(xy.0, xy.1, i) == hilbert_index(x, y, 32),
            0 <= hilbert_index(xy.0, xy.1, i),
            hilbert_index(x, y, 32) < pow2(64),
            pow2(64) == 0x1_0000_0000_0000_0000,
        decreases i,
    {
        proof {
            lemma_pow2_pos((i - 1) as nat);
            lemma_pow2_strictly_increases((i - 1) as nat, 32);
            lemma2_to64();
        }
        let rx: u32 = if (xy.0 & s) > 0 {
            1
        } else {
            0
        };
        let ry: u32 = if (xy.1 & s) > 0 {
            1
        } else {
            0
        };
        proof {
            lemma_quadrant();
            lemma_pow2_adds((i - 1) as nat, (i - 1) as nat);
            lemma_pow2_strictly_increases((2 * (i - 1)) as nat, 64);
            let r2 = rot_spec(xy.0, xy.1, rx, ry);
            lemma_hilbert_index_bound(r2.0, r2.1, (i - 1) as nat);
            assert(hilbert_index(xy.0, xy.1, i) == pow2((i - 1) as nat) * pow2((i - 1) as nat) * (
            if rx == 1 {
                if ry == 1 {
                    2int
                } else {
                    3int
                }
            } else {
                if ry == 1 {
                    1int
                } else {
                    0int
                }
            }) + hilbert_index(r2.0, r2.1, (i - 1) as nat));
        }
        d = d + (s as u64) * (s as u64) * (((3 * rx) ^ ry) as u64);
        xy = rot_b(xy.0, xy.1, rx, ry);
        s = s / 2;
        proof {
            if i >= 2 {
                lemma_pow2_unfold((i - 1) as nat);
            }
            i = (i - 1) as nat;
        }
    }
    proof {
        lemma_pow2_pos((i - 1) as nat);
    }
    d
}

} // verus!
