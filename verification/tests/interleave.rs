use hilbert::interleave::interleave_bits_u16;
use hilbert::interleave::interleave_bits_u32;
use hilbert::interleave::interleave_bits_u64;
use hilbert::interleave::interleave_bits_u8;

#[test]
fn test_interleave_bits() {
    assert_eq!(interleave_bits_u32(0b0000u32, 0b0000u32), 0b00000000u64);
    assert_eq!(interleave_bits_u32(0b1111u32, 0b1111u32), 0b11111111u64);
    assert_eq!(interleave_bits_u32(0b0000u32, 0b1111u32), 0b01010101u64);
    assert_eq!(interleave_bits_u32(0b1111u32, 0b0000u32), 0b10101010u64);
    assert_eq!(interleave_bits_u32(0b1010u32, 0b0101u32), 0b10011001u64);
}

#[test]
fn test_interleave_full_width() {
    assert_eq!(interleave_bits_u8(0xFF, 0xFF), 0xFFFFu16);
    assert_eq!(interleave_bits_u16(0xFFFF, 0xFFFF), 0xFFFF_FFFFu32);
    assert_eq!(interleave_bits_u32(u32::MAX, u32::MAX), u64::MAX);
    assert_eq!(interleave_bits_u64(u64::MAX, u64::MAX), u128::MAX);
    assert_eq!(interleave_bits_u32(0, u32::MAX), 0x5555_5555_5555_5555u64);
    assert_eq!(interleave_bits_u32(u32::MAX, 0), 0xAAAA_AAAA_AAAA_AAAAu64);
    assert_eq!(interleave_bits_u64(0, u64::MAX), 0x5555_5555_5555_5555_5555_5555_5555_5555u128);
}

#[test]
fn test_interleave_alternating() {
    assert_eq!(interleave_bits_u8(0b1010, 0b0101), 0b10011001u16);
    assert_eq!(
        interleave_bits_u16(0xAAAA, 0x5555),
        0b1001_1001_1001_1001_1001_1001_1001_1001u32
    );
    assert_eq!(interleave_bits_u64(1, 2), 0b0110u128);
}
