//! Hilbert-curve precomputation for 16-bit coordinates (32-bit distances).
//!
//! `HilbertPrecomputeData::new` derives the per-point correction state: two
//! masks whose bit at position `k` records whether the curve's recursive
//! quadrant subdivision has flipped, respectively swapped, the axes by the
//! time it reads bit `k` of the coordinates. The derivation walks the bit
//! positions from the highest set bit of `x | y` downwards and propagates
//! each quadrant decision to every lower bit at once with a fill-below mask.
//!
//! `HilbertPrecompute` couples a point with its correction state and answers
//! distance and order queries against it.

use core::cmp::Ordering;

use vstd::prelude::*;
use vstd::std_specs::bits::axiom_u16_leading_zeros;
use vstd::std_specs::bits::u16_leading_zeros;

use crate::bit_util::bit_u16;
use crate::bit_util::bit_u32;
use crate::bit_util::fill_below_u16;
use crate::bit_util::mask_pow2_and_under_u16;
use crate::bit_util::mask_u16;
use crate::interleave::interleave_bits_u16;

verus! {

/// The correction state of one point: the cumulative axis-reflection
/// ("flip") and axis-swap ("swap") masks of the curve's quadrant
/// subdivision, one bit per recursion level.
#[derive(PartialEq, Eq, Structural, Hash, Clone, Copy, Debug)]
pub struct HilbertPrecomputeData {
    pub flip: u16,
    pub swap: u16,
}

/// The swap mask before any significant bit has been processed: an
/// alternating pattern over the leading zero bits of `x | y`, extended below
/// the highest set bit when the count of leading zeros is odd.
pub open spec fn initial_swap(x: u16, y: u16) -> u16 {
    let zeros = u16_leading_zeros(x | y);
    let seeded = 0xAAAAu16 & !(0xFFFFu16 >> zeros);
    let top = (1u16 << 15u16) >> zeros;
    seeded | fill_below_u16(seeded & (top << 1u16))
}

/// One derivation step: folds the quadrant decision at bit position `k` into
/// the running flip and swap masks, propagating it to all lower bits.
pub open spec fn derive_step(x: u16, y: u16, flip: u16, swap: u16, k: u16) -> (u16, u16) {
    let diff = x ^ y;
    let yn = !y;
    let bit = 1u16 << k;
    let xy_mask = (swap & diff) ^ flip;
    let swap2 = swap ^ fill_below_u16((yn ^ xy_mask) & bit);
    let flip2 = flip ^ fill_below_u16((x ^ xy_mask) & bit & diff);
    (flip2, swap2)
}

/// The running (flip, swap) state after the deriver has processed every bit
/// position from the highest set bit of `x | y` down to position `k`.
pub open spec fn derive_state(x: u16, y: u16, k: int) -> (u16, u16)
    decreases 16 - k,
{
    if k > 15 - u16_leading_zeros(x | y) {
        (0u16, initial_swap(x, y))
    } else {
        let prev = derive_state(x, y, k + 1);
        derive_step(x, y, prev.0, prev.1, k as u16)
    }
}

/// The correction state the deriver produces for `(x, y)`: the state after
/// every bit position has been processed, or `(0, y)` when `x | y` is zero.
pub open spec fn correction(x: u16, y: u16) -> HilbertPrecomputeData {
    if x | y == 0 {
        HilbertPrecomputeData { flip: 0u16, swap: y }
    } else {
        let s = derive_state(x, y, 0);
        HilbertPrecomputeData { flip: s.0, swap: s.1 }
    }
}

/// Bit facts the deriver leans on: constants, single-bit masks being powers
/// of two, and how a walking bit moves one position at a time.
proof fn lemma_derive_bits(zeros: u32, k: u16, v: u16, w: u16)
    by (bit_vector)
    ensures
        !0x5555u16 == 0xAAAAu16,
        !0u16 == 0xFFFFu16,
        zeros < 16 ==> (1u16 << 15u16) >> zeros == 1u16 << ((15 - zeros) as u16),
        k < 16 ==> ((1u16 << k) >> 1u16) == (if k == 0 {
            0u16
        } else {
            1u16 << ((k - 1) as u16)
        }),
        v != 0 ==> (v >> 1u16) < v,
        k < 16 ==> (1u16 << k) != 0,
        k < 15 ==> ((1u16 << k) << 1u16) == (1u16 << ((k + 1) as u16)),
        ((1u16 << 15u16) << 1u16) == 0,
        k < 16 ==> ((v & (1u16 << k)) & (((v & (1u16 << k)) - 1) as u16)) == 0,
        k < 16 ==> (((v & (1u16 << k)) & w) & ((((v & (1u16 << k)) & w) - 1) as u16)) == 0,
        (0u16 & ((0u16 - 1) as u16)) == 0,
        v & 0u16 == 0,
{
}

impl HilbertPrecomputeData {
    /// Derives the correction state for `(x, y)`, processing the bit
    /// positions from the highest set bit of `x | y` down to bit zero.
    pub fn new(x: u16, y: u16) -> (r: Self)
        ensures
            r == correction(x, y),
    {
        let swap_pattern: u16 = mask_u16(1);
        let zeros: u32 = (x | y).leading_zeros();
        proof {
            axiom_u16_leading_zeros(x | y);
        }
        if zeros == 16 {
            return Self { flip: 0, swap: y };
        }
        let bit0: u16 = (1u16 << 15u16) >> zeros;
        let mut flip: u16 = 0;
        let mut swap: u16 = (!swap_pattern) & !((!0u16) >> zeros);
        proof {
            lemma_derive_bits(zeros, (15 - zeros) as u16, swap, 0);
            if zeros > 0 {
                lemma_derive_bits(zeros, (16 - zeros) as u16, swap, 0);
            }
        }
        swap = swap | mask_pow2_and_under_u16(swap & (bit0 << 1u16));

        let diff: u16 = x ^ y;
        let yn: u16 = !y;
        let mut bit: u16 = bit0;
        let ghost p: int = 15 - zeros as int;
        let ghost mut k: int = p;
        proof {
            assert(flip == 0 && swap == initial_swap(x, y));
            assert(derive_state(x, y, p + 1) == (0u16, initial_swap(x, y)));
        }
        while bit != 0
            invariant
                x | y != 0,
                zeros == u16_leading_zeros(x | y),
                zeros < 16,
                p == 15 - zeros as int,
                -1 <= k <= p,
                k >= 0 ==> bit == 1u16 << (k as u16),
                k >= 0 ==> bit != 0,
                k == -1 ==> bit == 0,
                diff == x ^ y,
                yn == !y,
                (flip, swap) == derive_state(x, y, k + 1),
            decreases bit,
        {
            proof {
                lemma_derive_bits(zeros, k as u16, yn ^ ((swap & diff) ^ flip), diff);
                lemma_derive_bits(zeros, k as u16, x ^ ((swap & diff) ^ flip), diff);
                lemma_derive_bits(zeros, k as u16, bit, diff);
            }
            let xy_mask: u16 = (swap & diff) ^ flip;
            let ghost old_flip: u16 = flip;
            let ghost old_swap: u16 = swap;
            swap = swap ^ mask_pow2_and_under_u16((yn ^ xy_mask) & bit);
            flip = flip ^ mask_pow2_and_under_u16((x ^ xy_mask) & bit & diff);
            proof {
                assert((flip, swap) == derive_step(x, y, old_flip, old_swap, k as u16));
                assert((flip, swap) == derive_state(x, y, k));
            }
            bit = bit >> 1u16;
            proof {
                k = k - 1;
                if k >= 0 {
                    lemma_derive_bits(zeros, k as u16, bit, diff);
                }
            }
        }
        proof {
            assert(k == -1);
            assert((flip, swap) == derive_state(x, y, 0));
        }
        Self { flip, swap }
    }
}

/// A point together with its derived correction state; immutable, cheap to
/// copy, and usable for many distance or order queries against the point.
#[derive(PartialEq, Eq, Structural, Hash, Clone, Copy, Debug)]
pub struct HilbertPrecompute {
    pub x: u16,
    pub y: u16,
    pub data: HilbertPrecomputeData,
}

/// The corrected first axis: the value whose bits land on the odd positions
/// of the distance, obtained by swapping in `y`'s bit where the swap mask
/// says so and reflecting where the flip mask says so.
pub open spec fn corrected_axis(x: u16, y: u16, data: HilbertPrecomputeData) -> u16 {
    x ^ (((x ^ y) & data.swap) ^ data.flip)
}

/// Bit `k` of the distance of a point with correction state `data`: bits of
/// `x ^ y` on the even positions, bits of the corrected axis on the odd ones.
pub open spec fn distance_bit(x: u16, y: u16, data: HilbertPrecomputeData, k: u32) -> bool {
    if k % 2 == 0 {
        bit_u16(x ^ y, (k / 2) as u16)
    } else {
        bit_u16(corrected_axis(x, y, data), (k / 2) as u16)
    }
}

/// A bit position where two values' XOR is set is one where they disagree.
proof fn lemma_xor_bit_neq(a: u16, b: u16, j: u16)
    by (bit_vector)
    requires
        j < 16,
        ((a ^ b) >> j) & 1u16 != 0u16,
    ensures
        bit_u16(a, j) != bit_u16(b, j),
{
}

/// One half of the distance's injectivity: two points whose distances agree
/// bit for bit have the same coordinate XOR, because the even distance bits
/// are exactly its bits.
pub proof fn lemma_distance_determines_xor(
    x1: u16,
    y1: u16,
    data1: HilbertPrecomputeData,
    d1: u32,
    x2: u16,
    y2: u16,
    data2: HilbertPrecomputeData,
    d2: u32,
)
    requires
        forall|k: u32| k < 32 ==> #[trigger] bit_u32(d1, k) == distance_bit(x1, y1, data1, k),
        forall|k: u32| k < 32 ==> #[trigger] bit_u32(d2, k) == distance_bit(x2, y2, data2, k),
        d1 == d2,
    ensures
        x1 ^ y1 == x2 ^ y2,
{
    let a = x1 ^ y1;
    let b = x2 ^ y2;
    if a != b {
        assert(a ^ b != 0u16) by (bit_vector)
            requires
                a != b,
        ;
        axiom_u16_leading_zeros(a ^ b);
        let lz = u16_leading_zeros(a ^ b);
        let j: u16 = (15 - lz) as u16;
        lemma_xor_bit_neq(a, b, j);
        let k2: u32 = (2 * (j as u32)) as u32;
        assert(bit_u32(d1, k2) == distance_bit(x1, y1, data1, k2));
        assert(bit_u32(d2, k2) == distance_bit(x2, y2, data2, k2));
        assert(false);
    }
}

/// The two-bit window of the would-be distance at depth `log2_n`: the bit of
/// the corrected axis in the high half, the bit of `x ^ y` in the low half.
pub open spec fn local_dist(log2_n: u32, x: u16, y: u16, flip: u16, swap: u16) -> u32 {
    let m = (1u32 | (1u32 << 16u32)) << ((16 - log2_n - 1) as u32);
    let xy_diff = x ^ y;
    let diff = (xy_diff & swap) ^ flip;
    ((((x ^ diff) as u32) << 16u32) | (xy_diff as u32)) & m
}

/// How the precomputed point orders against `(qx, qy)`: equal exactly on the
/// same coordinates, otherwise by the two-bit local distances at the depth
/// of the first differing bit, both evaluated with the pivot's masks.
pub open spec fn compare_spec(
    px: u16,
    py: u16,
    data: HilbertPrecomputeData,
    qx: u16,
    qy: u16,
) -> Ordering {
    if px == qx && py == qy {
        Ordering::Equal
    } else {
        let prefix = u16_leading_zeros((px ^ qx) | (py ^ qy));
        let lp = local_dist(prefix, px, py, data.flip, data.swap);
        let lq = local_dist(prefix, qx, qy, data.flip, data.swap);
        if lp < lq {
            Ordering::Less
        } else if lp == lq {
            Ordering::Equal
        } else {
            Ordering::Greater
        }
    }
}

/// Two coordinate pairs coincide exactly when the OR of their coordinate
/// XORs is zero.
proof fn lemma_xor_or_zero(px: u16, qx: u16, py: u16, qy: u16)
    by (bit_vector)
    ensures
        ((px ^ qx) | (py ^ qy)) == 0 <==> (px == qx && py == qy),
{
}

/// At the depth of a differing bit, the two local distances differ: either
/// the low window bits (`x ^ y`) already disagree, or both coordinates
/// differ there and the corrected-axis bits disagree whatever the masks.
proof fn lemma_local_dist_neq(prefix: u32, px: u16, py: u16, qx: u16, qy: u16, f: u16, s: u16)
    by (bit_vector)
    requires
        prefix < 16,
        (((px ^ qx) | (py ^ qy)) >> ((15 - prefix) as u16)) & 1u16 != 0u16,
    ensures
        local_dist(prefix, px, py, f, s) != local_dist(prefix, qx, qy, f, s),
{
}

impl HilbertPrecompute {
    /// Couples `(x, y)` with a freshly derived correction state.
    pub fn new(x: u16, y: u16) -> (r: Self)
        ensures
            r == (HilbertPrecompute { x, y, data: correction(x, y) }),
    {
        Self { x, y, data: HilbertPrecomputeData::new(x, y) }
    }

    /// Couples `(x, y)` with an externally supplied correction state. A
    /// verified caller must supply exactly the state the deriver would
    /// produce; an unverified caller that hands in anything else gets
    /// silently incorrect distances and comparisons, never an error.
    pub fn new_with_data(x: u16, y: u16, data: HilbertPrecomputeData) -> (r: Self)
        requires
            data == correction(x, y),
        ensures
            r == (HilbertPrecompute { x, y, data }),
    {
        Self { x, y, data }
    }

    /// The stored first coordinate.
    pub fn x(&self) -> (r: u16)
        ensures
            r == self.x,
    {
        self.x
    }

    /// The stored second coordinate.
    pub fn y(&self) -> (r: u16)
        ensures
            r == self.y,
    {
        self.y
    }

    /// The Hilbert distance of the stored point: bits of `x ^ y` on the even
    /// positions, bits of the corrected axis on the odd positions.
    pub fn distance(&self) -> (r: u32)
        ensures
            forall|k: u32|
                k < 32 ==> #[trigger] bit_u32(r, k) == distance_bit(self.x, self.y, self.data, k),
    {
        let xy_diff: u16 = self.x ^ self.y;
        let diff: u16 = (xy_diff & self.data.swap) ^ self.data.flip;
        interleave_bits_u16(self.x ^ diff, xy_diff)
    }

    /// Orders the stored point against `(rhs_x, rhs_y)` by Hilbert distance,
    /// reusing the stored correction state for both sides: the two points
    /// agree on every bit above the first differing one, so the quadrant
    /// state derived from the pivot is valid for the other point down to
    /// that depth, and the two-bit windows there decide the order. Returns
    /// `Equal` exactly on the pivot's own coordinates.
    pub fn compare(&self, rhs_x: u16, rhs_y: u16) -> (r: Ordering)
        ensures
            r == compare_spec(self.x, self.y, self.data, rhs_x, rhs_y),
            r == Ordering::Equal <==> (self.x == rhs_x && self.y == rhs_y),
    {
        let v: u16 = (self.x ^ rhs_x) | (self.y ^ rhs_y);
        let matching_prefix: u32 = v.leading_zeros();
        proof {
            axiom_u16_leading_zeros(v);
            lemma_xor_or_zero(self.x, rhs_x, self.y, rhs_y);
        }
        if matching_prefix == 16 {
            Ordering::Equal
        } else {
            let loc_lhs: u32 = xy_local_dist(
                matching_prefix,
                self.x,
                self.y,
                self.data.flip,
                self.data.swap,
            );
            let loc_rhs: u32 = xy_local_dist(
                matching_prefix,
                rhs_x,
                rhs_y,
                self.data.flip,
                self.data.swap,
            );
            proof {
                lemma_local_dist_neq(
                    matching_prefix,
                    self.x,
                    self.y,
                    rhs_x,
                    rhs_y,
                    self.data.flip,
                    self.data.swap,
                );
            }
            if loc_lhs < loc_rhs {
                Ordering::Less
            } else if loc_lhs == loc_rhs {
                Ordering::Equal
            } else {
                Ordering::Greater
            }
        }
    }
}

/// Isolates the two distance bits at depth `log2_n`: the corrected-axis bit
/// in the high half of the window, the `x ^ y` bit in the low half.
fn xy_local_dist(log2_n: u32, x: u16, y: u16, flip: u16, swap: u16) -> (r: u32)
    requires
        log2_n < 16,
    ensures
        r == local_dist(log2_n, x, y, flip, swap),
{
    let shift: u32 = (16 - log2_n - 1) as u32;
    let m: u32 = (1u32 | (1u32 << 16u32)) << shift;
    let xy_diff: u16 = x ^ y;
    let diff: u16 = (xy_diff & swap) ^ flip;
    let a: u32 = (x ^ diff) as u32;
    let b: u32 = xy_diff as u32;
    ((a << 16u32) | b) & m
}

} // verus!
