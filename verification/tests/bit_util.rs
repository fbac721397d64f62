use hilbert::bit_util::bit_count;
use hilbert::bit_util::mask_pow2_and_under_u32;
use hilbert::bit_util::mask_u32;
use hilbert::bit_util::mask_u64;
use hilbert::bit_util::zero_high_bits_u16;
use hilbert::bit_util::zero_high_bits_u32;
use hilbert::bit_util::zero_high_bits_u64;
use hilbert::bit_util::zero_high_bits_u8;

#[test]
fn test_mask() {
    assert_eq!(mask_u32(16), 0x0000_FFFF_u32);
    assert_eq!(mask_u32(8), 0x00FF_00FF_u32);
    assert_eq!(mask_u32(4), 0x0F0F_0F0F_u32);
    assert_eq!(mask_u32(2), 0x3333_3333_u32);
    assert_eq!(mask_u32(1), 0x5555_5555_u32);
}

#[test]
fn test_mask_wide() {
    assert_eq!(mask_u64(32), 0x0000_0000_FFFF_FFFF_u64);
    assert_eq!(mask_u64(1), 0x5555_5555_5555_5555_u64);
}

#[test]
fn test_zero_high_bits() {
    assert_eq!(zero_high_bits_u64(0xFEDCBA0987654321), 0x87654321u64);
    assert_eq!(zero_high_bits_u32(0x87654321), 0x4321u32);
    assert_eq!(zero_high_bits_u16(0x4321), 0x21u16);
    assert_eq!(zero_high_bits_u8(0x21), 0x1u8);
}

#[test]
fn test_mask_pow2_and_under() {
    assert_eq!(mask_pow2_and_under_u32(0x100), 0x1FF);
    assert_eq!(mask_pow2_and_under_u32(0x001), 0x001);
    assert_eq!(mask_pow2_and_under_u32(0x000), 0x000);
}

#[test]
fn test_bit_count() {
    assert_eq!(bit_count::<u8>(), 8);
    assert_eq!(bit_count::<u16>(), 16);
    assert_eq!(bit_count::<u32>(), 32);
    assert_eq!(bit_count::<u64>(), 64);
}
