use std::cmp::Ordering;

use hilbert::precompute_u16::HilbertPrecompute as HilbertPrecompute16;
use hilbert::precompute_u32::HilbertPrecompute;
use hilbert::precompute_u32::HilbertPrecomputeData;
use hilbert::precompute_u64::HilbertPrecompute as HilbertPrecompute64;
use hilbert::precompute_u8::HilbertPrecompute as HilbertPrecompute8;
use hilbert::reference_impl::xy2d;

/// Per-bit Hilbert index over `bits` bit levels, the textbook way, for any
/// coordinate width up to 64 bits.
fn brute(x: u64, y: u64, bits: u32) -> u128 {
    let mask: u64 = if bits == 64 { u64::MAX } else { (1u64 << bits) - 1 };
    let mut xy = (x, y);
    let mut s: u64 = 1u64 << (bits - 1);
    let mut d: u128 = 0;
    while s > 0 {
        let rx: u32 = if xy.0 & s > 0 { 1 } else { 0 };
        let ry: u32 = if xy.1 & s > 0 { 1 } else { 0 };
        d += (s as u128) * (s as u128) * (((3 * rx) ^ ry) as u128);
        if ry == 0 {
            if rx == 1 {
                xy = (!xy.0 & mask, !xy.1 & mask);
            }
            xy = (xy.1, xy.0);
        }
        s /= 2;
    }
    d
}

#[test]
fn test_brute_distance() {
    let n = 32;

    for x0 in 0..n {
        for y0 in 0..n {
            let d0 = xy2d(x0, y0);
            let precompute = HilbertPrecompute::new(x0, y0);

            assert_eq!(d0, precompute.distance());
        }
    }
}

#[test]
fn test_brute_compare() {
    let n = 32;

    for x0 in 0..n {
        for y0 in 0..n {
            let d0 = xy2d(x0, y0);
            let precompute = HilbertPrecompute::new(x0, y0);

            for x1 in 0..n {
                for y1 in 0..n {
                    let d1 = xy2d(x1, y1);
                    assert_eq!(d0.cmp(&d1), precompute.compare(x1, y1));
                }
            }
        }
    }
}

#[test]
fn test_distance_all_widths() {
    for x in 0..16u64 {
        for y in 0..16u64 {
            assert_eq!(
                HilbertPrecompute8::new(x as u8, y as u8).distance() as u128,
                brute(x, y, 8)
            );
            assert_eq!(
                HilbertPrecompute16::new(x as u16, y as u16).distance() as u128,
                brute(x, y, 16)
            );
            assert_eq!(
                HilbertPrecompute::new(x as u32, y as u32).distance() as u128,
                brute(x, y, 32)
            );
            assert_eq!(HilbertPrecompute64::new(x, y).distance(), brute(x, y, 64));
        }
    }
    assert_eq!(
        HilbertPrecompute8::new(0xA5, 0x3C).distance() as u128,
        brute(0xA5, 0x3C, 8)
    );
    assert_eq!(
        HilbertPrecompute64::new(0xFEDC_BA09_8765_4321, 0x0123_4567_89AB_CDEF).distance(),
        brute(0xFEDC_BA09_8765_4321, 0x0123_4567_89AB_CDEF, 64)
    );
}

#[test]
fn test_round_trip_state() {
    for &(x, y) in &[(0u32, 0u32), (5, 10), (5, 11), (123_456, 654_321), (u32::MAX, 17)] {
        let data = HilbertPrecomputeData::new(x, y);
        let rebuilt = HilbertPrecompute::new_with_data(x, y, data);
        let fresh = HilbertPrecompute::new(x, y);
        assert_eq!(rebuilt, fresh);
        assert_eq!(rebuilt.distance(), fresh.distance());
    }
}

#[test]
fn test_scenario_5bit() {
    let a = HilbertPrecompute::new(5, 10);
    let b = HilbertPrecompute::new(5, 11);
    let da = xy2d(5, 10);
    let db = xy2d(5, 11);
    assert_ne!(a.distance(), b.distance());
    assert_eq!(a.compare(5, 11), da.cmp(&db));
    assert_eq!(b.compare(5, 10), db.cmp(&da));
    assert_eq!(a.distance(), da);
    assert_eq!(b.distance(), db);
}

#[test]
fn test_distance_injective_on_grid() {
    let n = 32;
    let mut seen: Vec<u64> = Vec::new();
    for x in 0..n {
        for y in 0..n {
            seen.push(HilbertPrecompute::new(x, y).distance());
        }
    }
    seen.sort();
    for pair in seen.windows(2) {
        assert_ne!(pair[0], pair[1]);
    }
}

#[test]
fn test_compare_equal_only_on_same_point() {
    let p = HilbertPrecompute::new(1000, 2000);
    assert_eq!(p.compare(1000, 2000), Ordering::Equal);
    assert_ne!(p.compare(1000, 2001), Ordering::Equal);
    assert_ne!(p.compare(1001, 2000), Ordering::Equal);
    assert_ne!(p.compare(0, 0), Ordering::Equal);
}

#[test]
fn test_accessors() {
    let p = HilbertPrecompute::new(42, 99);
    assert_eq!(p.x(), 42);
    assert_eq!(p.y(), 99);
}

#[test]
fn test_distance_known_values() {
    assert_eq!(xy2d(0, 0), 0);
    assert_eq!(HilbertPrecompute::new(0, 0).distance(), 0);
    assert_eq!(
        HilbertPrecompute::new(u32::MAX, u32::MAX).distance(),
        brute(u32::MAX as u64, u32::MAX as u64, 32) as u64
    );
}

#[test]
fn test_brute_compare_all_widths() {
    let n = 8u64;
    for x0 in 0..n {
        for y0 in 0..n {
            let p8 = HilbertPrecompute8::new(x0 as u8, y0 as u8);
            let p16 = HilbertPrecompute16::new(x0 as u16, y0 as u16);
            let p64 = HilbertPrecompute64::new(x0, y0);
            for x1 in 0..n {
                for y1 in 0..n {
                    let expect8 = brute(x0, y0, 8).cmp(&brute(x1, y1, 8));
                    let expect16 = brute(x0, y0, 16).cmp(&brute(x1, y1, 16));
                    let expect64 = brute(x0, y0, 64).cmp(&brute(x1, y1, 64));
                    assert_eq!(expect8, p8.compare(x1 as u8, y1 as u8));
                    assert_eq!(expect16, p16.compare(x1 as u16, y1 as u16));
                    assert_eq!(expect64, p64.compare(x1, y1));
                }
            }
        }
    }
}
