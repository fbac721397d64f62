//! Hilbert-curve precomputation for 8-bit coordinates (16-bit distances).
//!
//! `HilbertPrecomputeData::new` derives the per-point correction state: two
//! masks whose bit at position `k` records whether the curve's recursive
//! quadrant subdivision has flipped, respectively swapped, the axes by the
//! time it reads bit `k` of the coordinates. The derivation walks the bit
//! positions from the highest set bit of `x | y` downwards and propagates
//! each quadrant decision to every lower bit at once with a fill-below mask.
//!
//! `HilbertPrecompute` couples a point with its correction state and answers
//! distance and order queries against it.

use core::cmp::Ordering;

use vstd::prelude::*;
use vstd::std_specs::bits::axiom_u8_leading_zeros;
use vstd::std_specs::bits::u8_leading_zeros;

use crate::bit_util::bit_u8;
use crate::bit_util::bit_u16;
use crate::bit_util::fill_below_u8;
use crate::bit_util::mask_pow2_and_under_u8;
use crate::bit_util::mask_u8;
use crate::interleave::interleave_bits_u8;

verus! {

/// The correction state of one point: the cumulative axis-reflection
/// ("flip") and axis-swap ("swap") masks of the curve's quadrant
/// subdivision, one bit per recursion level.
#[derive(PartialEq, Eq, Structural, Hash, Clone, Copy, Debug)]
pub struct HilbertPrecomputeData {
    pub flip: u8,
    pub swap: u8,
}

/// The swap mask before any significant bit has been processed: an
/// alternating pattern over the leading zero bits of `x | y`, extended below
/// the highest set bit when the count of leading zeros is odd.
pub open spec fn initial_swap(x: u8, y: u8) -> u8 {
    let zeros = u8_leading_zeros(x | y);
    let seeded = 0xAAu8 & !(0xFFu8 >> zeros);
    let top = (1u8 << 7u8) >> zeros;
    seeded | fill_below_u8(seeded & (top << 1u8))
}

/// One derivation step: folds the quadrant decision at bit position `k` into
/// the running flip and swap masks, propagating it to all lower bits.
pub open spec fn derive_step(x: u8, y: u8, flip: u8, swap: u8, k: u8) -> (u8, u8) {
    let diff = x ^ y;
    let yn = !y;
    let bit = 1u8 << k;
    let xy_mask = (swap & diff) ^ flip;
    let swap2 = swap ^ fill_below_u8((yn ^ xy_mask) & bit);
    let flip2 = flip ^ fill_below_u8((x ^ xy_mask) & bit & diff);
    (flip2, swap2)
}

/// The running (flip, swap) state after the deriver has processed every bit
/// position from the highest set bit of `x | y` down to position `k`.
pub open spec fn derive_state(x: u8, y: u8, k: int) -> (u8, u8)
    decreases 8 - k,
{
    if k > 7 - u8_leading_zeros(x | y) {
        (0u8, initial_swap(x, y))
    } else {
        let prev = derive_state(x, y, k + 1);
        derive_step(x, y, prev.0, prev.1, k as u8)
    }
}

/// The correction state the deriver produces for `(x, y)`: the state after
/// every bit position has been processed, or `(0, y)` when `x | y` is zero.
pub open spec fn correction(x: u8, y: u8) -> HilbertPrecomputeData {
    if x | y == 0 {
        HilbertPrecomputeData { flip: 0u8, swap: y }
    } else {
        let s = derive_state(x, y, 0);
        HilbertPrecomputeData { flip: s.0, swap: s.1 }
    }
}

/// Bit facts the deriver leans on: constants, single-bit masks being powers
/// of two, and how a walking bit moves one position at a time.
proof fn lemma_derive_bits(zeros: u32, k: u8, v: u8, w: u8)
    by (bit_vector)
    ensures
        !0x55u8 == 0xAAu8,
        !0u8 == 0xFFu8,
        zeros < 8 ==> (1u8 << 7u8) >> zeros == 1u8 << ((7 - zeros) as u8),
        k < 8 ==> ((1u8 << k) >> 1u8) == (if k == 0 {
            0u8
        } else {
            1u8 << ((k - 1) as u8)
        }),
        v != 0 ==> (v >> 1u8) < v,
        k < 8 ==> (1u8 << k) != 0,
        k < 7 ==> ((1u8 << k) << 1u8) == (1u8 << ((k + 1) as u8)),
        ((1u8 << 7u8) << 1u8) == 0,
        k < 8 ==> ((v & (1u8 << k)) & (((v & (1u8 << k)) - 1) as u8)) == 0,
        k < 8 ==> (((v & (1u8 << k)) & w) & ((((v & (1u8 << k)) & w) - 1) as u8)) == 0,
        (0u8 & ((0u8 - 1) as u8)) == 0,
        v & 0u8 == 0,
{
}

impl HilbertPrecomputeData {
    /// Derives the correction state for `(x, y)`, processing the bit
    /// positions from the highest set bit of `x | y` down to bit zero.
    pub fn new(x: u8, y: u8) -> (r: Self)
        ensures
            r == correction(x, y),
    {
        let swap_pattern: u8 = mask_u8(1);
        let zeros: u32 = (x | y).leading_zeros();
        proof {
            axiom_u8_leading_zeros(x | y);
        }
        if zeros == 8 {
            return Self { flip: 0, swap: y };
        }
        let bit0: u8 = (1u8 << 7u8) >> zeros;
        let mut flip: u8 = 0;
        let mut swap: u8 = (!swap_pattern) & !((!0u8) >> zeros);
        proof {
            lemma_derive_bits(zeros, (7 - zeros) as u8, swap, 0);
            if zeros > 0 {
                lemma_derive_bits(zeros, (8 - zeros) as u8, swap, 0);
            }
        }
        swap = swap | mask_pow2_and_under_u8(swap & (bit0 << 1u8));

        let diff: u8 = x ^ y;
        let yn: u8 = !y;
        let mut bit: u8 = bit0;
        let ghost p: int = 7 - zeros as int;
        let ghost mut k: int = p;
        proof {
            assert(flip == 0 && swap == initial_swap(x, y));
            assert(derive_state(x, y, p + 1) == (0u8, initial_swap(x, y)));
        }
        while bit != 0
            invariant
                x | y != 0,
                zeros == u8_leading_zeros(x | y),
                zeros < 8,
                p == 7 - zeros as int,
                -1 <= k <= p,
                k >= 0 ==> bit == 1u8 << (k as u8),
                k >= 0 ==> bit != 0,
                k == -1 ==> bit == 0,
                diff == x ^ y,
                yn == !y,
                (flip, swap) == derive_state(x, y, k + 1),
            decreases bit,
        {
            proof {
                lemma_derive_bits(zeros, k as u8, yn ^ ((swap & diff) ^ flip), diff);
                lemma_derive_bits(zeros, k as u8, x ^ ((swap & diff) ^ flip), diff);
                lemma_derive_bits(zeros, k as u8, bit, diff);
            }
            let xy_mask: u8 = (swap & diff) ^ flip;
            let ghost old_flip: u8 = flip;
            let ghost old_swap: u8 = swap;
            swap = swap ^ mask_pow2_and_under_u8((yn ^ xy_mask) & bit);
            flip = flip ^ mask_pow2_and_under_u8((x ^ xy_mask) & bit & diff);
            proof {
                assert((flip, swap) == derive_step(x, y, old_flip, old_swap, k as u8));
                assert((flip, swap) == derive_state(x, y, k));
            }
            bit = bit >> 1u8;
            proof {
                k = k - 1;
                if k >= 0 {
                    lemma_derive_bits(zeros, k as u8, bit, diff);
                }
            }
        }
        proof {
            assert(k == -1);
            assert((flip, swap) == derive_state(x, y, 0));
        }
        Self { flip, swap }
    }
}

/// A point together with its derived correction state; immutable, cheap to
/// copy, and usable for many distance or order queries against the point.
#[derive(PartialEq, Eq, Structural, Hash, Clone, Copy, Debug)]
pub struct HilbertPrecompute {
    pub x: u8,
    pub y: u8,
    pub data: HilbertPrecomputeData,
}

/// The corrected first axis: the value whose bits land on the odd positions
/// of the distance, obtained by swapping in `y`'s bit where the swap mask
/// says so and reflecting where the flip mask says so.
pub open spec fn corrected_axis(x: u8, y: u8, data: HilbertPrecomputeData) -> u8 {
    x ^ (((x ^ y) & data.swap) ^ data.flip)
}

/// Bit `k` of the distance of a point with correction state `data`: bits of
/// `x ^ y` on the even positions, bits of the corrected axis on the odd ones.
pub open spec fn distance_bit(x: u8, y: u8, data: HilbertPrecomputeData, k: u16) -> bool {
    if k % 2 == 0 {
        bit_u8(x ^ y, (k / 2) as u8)
    } else {
        bit_u8(corrected_axis(x, y, data), (k / 2) as u8)
    }
}

/// A bit position where two values' XOR is set is one where they disagree.
proof fn lemma_xor_bit_neq(a: u8, b: u8, j: u8)
    by (bit_vector)
    requires
        j < 8,
        ((a ^ b) >> j) & 1u8 != 0u8,
    ensures
        bit_u8(a, j) != bit_u8(b, j),
{
}

/// One half of the distance's injectivity: two points whose distances agree
/// bit for bit have the same coordinate XOR, because the even distance bits
/// are exactly its bits.
pub proof fn lemma_distance_determines_xor(
    x1: u8,
    y1: u8,
    data1: HilbertPrecomputeData,
    d1: u16,
    x2: u8,
    y2: u8,
    data2: HilbertPrecomputeData,
    d2: u16,
)
    requires
        forall|k: u16| k < 16 ==> #[trigger] bit_u16(d1, k) == distance_bit(x1, y1, data1, k),
        forall|k: u16| k < 16 ==> #[trigger] bit_u16(d2, k) == distance_bit(x2, y2, data2, k),
        d1 == d2,
    ensures
        x1 ^ y1 == x2 ^ y2,
{
    let a = x1 ^ y1;
    let b = x2 ^ y2;
    if a != b {
        assert(a ^ b != 0u8) by (bit_vector)
            requires
                a != b,
        ;
        axiom_u8_leading_zeros(a ^ b);
        let lz = u8_leading_zeros(a ^ b);
        let j: u8 = (7 - lz) as u8;
        lemma_xor_bit_neq(a, b, j);
        let k2: u16 = (2 * (j as u16)) as u16;
        assert(bit_u16(d1, k2) == distance_bit(x1, y1, data1, k2));
        assert(bit_u16(d2, k2) == distance_bit(x2, y2, data2, k2));
        assert(false);
    }
}

/// The two-bit window of the would-be distance at depth `log2_n`: the bit of
/// the corrected axis in the high half, the bit of `x ^ y` in the low half.
pub open spec fn local_dist(log2_n: u32, x: u8, y: u8, flip: u8, swap: u8) -> u16 {
    let m = (1u16 | (1u16 << 8u16)) << ((8 - log2_n - 1) as u16);
    let xy_diff = x ^ y;
    let diff = (xy_diff & swap) ^ flip;
    ((((x ^ diff) as u16) << 8u16) | (xy_diff as u16)) & m
}

/// How the precomputed point orders against `(qx, qy)`: equal exactly on the
/// same coordinates, otherwise by the two-bit local distances at the depth
/// of the first differing bit, both evaluated with the pivot's masks.
pub open spec fn compare_spec(
    px: u8,
    py: u8,
    data: HilbertPrecomputeData,
    qx: u8,
    qy: u8,
) -> Ordering {
    if px == qx && py == qy {
        Ordering::Equal
    } else {
        let prefix = u8_leading_zeros((px ^ qx) | (py ^ qy));
        let lp = local_dist(prefix, px, py, data.flip, data.swap);
        let lq = local_dist(prefix, qx, qy, data.flip, data.swap);
        if lp < lq {
            Ordering::Less
        } else if lp == lq {
            Ordering::Equal
        } else {
            Ordering::Greater
        }
    }
}

/// Two coordinate pairs coincide exactly when the OR of their coordinate
/// XORs is zero.
proof fn lemma_xor_or_zero(px: u8, qx: u8, py: u8, qy: u8)
    by (bit_vector)
    ensures
        ((px ^ qx) | (py ^ qy)) == 0 <==> (px == qx && py == qy),
{
}

/// At the depth of a differing bit, the two local distances differ: either
/// the low window bits (`x ^ y`) already disagree, or both coordinates
/// differ there and the corrected-axis bits disagree whatever the masks.
proof fn lemma_local_dist_neq(prefix: u32, px: u8, py: u8, qx: u8, qy: u8, f: u8, s: u8)
    by (bit_vector)
    requires
        prefix < 8,
        (((px ^ qx) | (py ^ qy)) >> ((7 - prefix) as u8)) & 1u8 != 0u8,
    ensures
        local_dist(prefix, px, py, f, s) != local_dist(prefix, qx, qy, f, s),
{
}

impl HilbertPrecompute {
    /// Couples `(x, y)` with a freshly derived correction state.
    pub fn new(x: u8, y: u8) -> (r: Self)
        ensures
            r == (HilbertPrecompute { x, y, data: correction(x, y) }),
    {
        Self { x, y, data: HilbertPrecomputeData::new(x, y) }
    }

    /// Couples `(x, y)` with an externally supplied correction state. A
    /// verified caller must supply exactly the state the deriver would
    /// produce; an unverified caller that hands in anything else gets
    /// silently incorrect distances and comparisons, never an error.
    pub fn new_with_data(x: u8, y: u8, data: HilbertPrecomputeData) -> (r: Self)
        requires
            data == correction(x, y),
        ensures
            r == (HilbertPrecompute { x, y, data }),
    {
        Self { x, y, data }
    }

    /// The stored first coordinate.
    pub fn x(&self) -> (r: u8)
        ensures
            r == self.x,
    {
        self.x
    }

    /// The stored second coordinate.
    pub fn y(&self) -> (r: u8)
        ensures
            r == self.y,
    {
        self.y
    }

    /// The Hilbert distance of the stored point: bits of `x ^ y` on the even
    /// positions, bits of the corrected axis on the odd positions.
    pub fn distance(&self) -> (r: u16)
        ensures
            forall|k: u16|
                k < 16 ==> #[trigger] bit_u16(r, k) == distance_bit(self.x, self.y, self.data, k),
    {
        let xy_diff: u8 = self.x ^ self.y;
        let diff: u8 = (xy_diff & self.data.swap) ^ self.data.flip;
        interleave_bits_u8(self.x ^ diff, xy_diff)
    }

    /// Orders the stored point against `(rhs_x, rhs_y)` by Hilbert distance,
    /// reusing the stored correction state for both sides: the two points
    /// agree on every bit above the first differing one, so the quadrant
    /// state derived from the pivot is valid for the other point down to
    /// that depth, and the two-bit windows there decide the order. Returns
    /// `Equal` exactly on the pivot's own coordinates.
    pub fn compare(&self, rhs_x: u8, rhs_y: u8) -> (r: Ordering)
        ensures
            r == compare_spec(self.x, self.y, self.data, rhs_x, rhs_y),
            r == Ordering::Equal <==> (self.x == rhs_x && self.y == rhs_y),
    {
        let v: u8 = (self.x ^ rhs_x) | (self.y ^ rhs_y);
        let matching_prefix: u32 = v.leading_zeros();
        proof {
            axiom_u8_leading_zeros(v);
            lemma_xor_or_zero(self.x, rhs_x, self.y, rhs_y);
        }
        if matching_prefix == 8 {
            Ordering::Equal
        } else {
            let loc_lhs: u16 = xy_local_dist(
                matching_prefix,
                self.x,
                self.y,
                self.data.flip,
                self.data.swap,
            );
            let loc_rhs: u16 = xy_local_dist(
                matching_prefix,
                rhs_x,
                rhs_y,
                self.data.flip,
                self.data.swap,
            );
            proof {
                lemma_local_dist_neq(
                    matching_prefix,
                    self.x,
                    self.y,
                    rhs_x,
                    rhs_y,
                    self.data.flip,
                    self.data.swap,
                );
            }
            if loc_lhs < loc_rhs {
                Ordering::Less
            } else if loc_lhs == loc_rhs {
                Ordering::Equal
            } else {
                Ordering::Greater
            }
        }
    }
}

/// Isolates the two distance bits at depth `log2_n`: the corrected-axis bit
/// in the high half of the window, the `x ^ y` bit in the low half.
fn xy_local_dist(log2_n: u32, x: u8, y: u8, flip: u8, swap: u8) -> (r: u16)
    requires
        log2_n < 8,
    ensures
        r == local_dist(log2_n, x, y, flip, swap),
{
    let shift: u16 = (8 - log2_n - 1) as u16;
    let m: u16 = (1u16 | (1u16 << 8u16)) << shift;
    let xy_diff: u8 = x ^ y;
    let diff: u8 = (xy_diff & swap) ^ flip;
    let a: u16 = (x ^ diff) as u16;
    let b: u16 = xy_diff as u16;
    ((a << 8u16) | b) & m
}

} // verus!
