use baselib::bit::{
    bit, clear_bit, clear_bit16, clear_bit32, clear_bit64, clear_bit8, clear_bit_usize, get_bit, is_bit_clear16,
    is_bit_clear32, is_bit_clear64, is_bit_clear8, is_bit_clear_uintn, is_bit_clear_usize, is_bit_set16,
    is_bit_set32, is_bit_set64, is_bit_set8, is_bit_set_uintn, is_bit_set_usize, set_bit, set_bit16, set_bit32,
    set_bit64, set_bit8, set_bit_usize, u16bit, u32bit, u64bit, u8bit, usizebit, Bit,
};
use baselib::common::bitindex::{calc_bitindex_and_bitpos, calc_bitindex_size_in_bytes, calc_bitindex_size_in_usize};
use baselib::common::{u32bit as b32, u64bit as b64, ubit};

#[test]
fn bit_table_values() {
    let t = Bit::new();
    assert_eq!(t.get_as_u64(0), 1);
    assert_eq!(t.get_as_u64(5), 32);
    assert_eq!(t.get_as_u64(63), 1u64 << 63);
    assert_eq!(t.get_into(10), 1024);
    assert_eq!(t.get_as_u32(31), 1u32 << 31);
    assert_eq!(t.get_as_usize(12), 4096);
}

#[test]
fn bit_table_first_n_masks() {
    let t = Bit::new();
    assert_eq!(t.get_mask_first_n_bits_into(0), 0);
    assert_eq!(t.get_mask_first_n_bits_into(12), 0xFFF);
    assert_eq!(t.get_mask_first_n_bits_into(63), u64::MAX >> 1);
    assert_eq!(t.get_mask_first_n_bits_into(64), u64::MAX);
}

#[test]
fn word_bit_set_and_clear() {
    assert_eq!(bit(3), 8);
    assert_eq!(set_bit(0b1000, 1), 0b1010);
    assert_eq!(clear_bit(0b1010, 3), 0b0010);
    assert_eq!(set_bit(0b1010, 1), 0b1010);
}

#[test]
fn get_bit_holds_only_for_zero_or_the_single_bit() {
    assert!(get_bit(0, 3));
    assert!(get_bit(8, 3));
    assert!(!get_bit(9, 3));
    assert!(!get_bit(2, 3));
}

#[test]
fn single_bit_values_of_each_width() {
    assert_eq!(usizebit(4), 16);
    assert_eq!(u64bit(40), 1u64 << 40);
    assert_eq!(u32bit(31), 0x8000_0000);
    assert_eq!(u16bit(15), 0x8000);
    assert_eq!(u8bit(7), 0x80);
}

#[test]
fn set_clear_and_test_each_width() {
    assert_eq!(set_bit8(0, 7), 0x80);
    assert_eq!(clear_bit8(0xFF, 0), 0xFE);
    assert!(is_bit_set8(0x80, 7) && is_bit_clear8(0x80, 6));
    assert_eq!(set_bit16(1, 15), 0x8001);
    assert_eq!(clear_bit16(0x8001, 0), 0x8000);
    assert!(is_bit_set16(0x8000, 15) && is_bit_clear16(0x8000, 14));
    assert_eq!(set_bit32(0, 20), 0x10_0000);
    assert_eq!(clear_bit32(0x10_0001, 20), 1);
    assert!(is_bit_set32(0x10_0000, 20) && is_bit_clear32(0x10_0000, 21));
    assert_eq!(set_bit64(0, 63), 1u64 << 63);
    assert_eq!(clear_bit64(u64::MAX, 63), u64::MAX >> 1);
    assert!(is_bit_set64(1u64 << 40, 40) && is_bit_clear64(1u64 << 40, 41));
    assert_eq!(set_bit_usize(0, 12), 4096);
    assert_eq!(clear_bit_usize(4097, 12), 1);
    assert!(is_bit_set_usize(4096, 12) && is_bit_clear_usize(4096, 11));
    assert!(is_bit_set_uintn(6, 2) && is_bit_clear_uintn(6, 0));
}

#[test]
fn setting_then_clearing_a_bit_touches_only_that_bit() {
    let v: usize = 0b1011_0110;
    for b in 0..8 {
        let s = set_bit_usize(v, b);
        let c = clear_bit_usize(v, b);
        assert!(is_bit_set_usize(s, b));
        assert!(is_bit_clear_usize(c, b));
        for k in 0..8 {
            if k != b {
                assert_eq!(is_bit_set_usize(s, k), is_bit_set_usize(v, k));
                assert_eq!(is_bit_set_usize(c, k), is_bit_set_usize(v, k));
            }
        }
        assert_eq!(clear_bit_usize(s, b), clear_bit_usize(v, b));
        assert_eq!(set_bit_usize(c, b), set_bit_usize(v, b));
    }
}

#[test]
fn fixed_width_helpers() {
    assert_eq!(b32::bit(4), 16);
    assert_eq!(b32::set_bit(0, 31), 0x8000_0000);
    assert_eq!(b32::clear_bit(0xFFFF_FFFF, 0), 0xFFFF_FFFE);
    assert!(b32::is_bit_set(4, 2) && b32::is_bit_clear(4, 1));
    assert_eq!(b32::apply_mask(0xABCD, 0xFF), 0xCD);
    assert_eq!(b32::create_bitmask(4, 7), 0xF0);
    assert_eq!(b64::create_bitmask(0, 11), 0xFFF);
    assert_eq!(b64::set_bit(0, 63), 1u64 << 63);
    assert!(b64::is_bit_set(1u64 << 33, 33));
    assert_eq!(ubit::create_bitmask(12, 15), 0xF000);
    assert_eq!(ubit::clear_bit(0xF000, 12), 0xE000);
    assert!(ubit::is_bit_clear(0xE000, 12));
}

#[test]
fn bit_index_sizes() {
    let wb = usize::BITS as usize;
    assert_eq!(calc_bitindex_size_in_usize(0), 0);
    assert_eq!(calc_bitindex_size_in_usize(1), 1);
    assert_eq!(calc_bitindex_size_in_usize(wb), 1);
    assert_eq!(calc_bitindex_size_in_usize(wb + 1), 2);
    assert_eq!(calc_bitindex_size_in_bytes(wb + 1), 2 * (wb / 8));
    let (idx, pos) = calc_bitindex_and_bitpos(wb + 5);
    assert_eq!((idx, pos), (1, 5));
}
