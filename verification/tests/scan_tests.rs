use baselib::arch::aarch64::aarch_popcount;
use baselib::arch::x86::{x86_bsf, x86_bsr, x86_popcount, DescriptorTablePtr};
use baselib::common::ubit::count_ones_below;

#[test]
fn popcount_counts_the_low_32_bits() {
    assert_eq!(x86_popcount(0), 0);
    assert_eq!(x86_popcount(0b1011), 3);
    assert_eq!(x86_popcount(0xFFFF_FFFF), 32);
    assert_eq!(x86_popcount(usize::MAX), 32);
}

#[test]
fn popcount_of_the_whole_word() {
    assert_eq!(aarch_popcount(0), 0);
    assert_eq!(aarch_popcount(usize::MAX), usize::BITS as usize);
    assert_eq!(aarch_popcount(0x8000_0001), 2);
    assert_eq!(count_ones_below(0xF0, 6), 2);
}

#[test]
fn bit_scans_find_the_lowest_and_highest_set_bits() {
    assert_eq!(x86_bsf(1), 0);
    assert_eq!(x86_bsf(0b1000), 3);
    assert_eq!(x86_bsf(0x8000_0000), 31);
    assert_eq!(x86_bsr(1), 0);
    assert_eq!(x86_bsr(0b1011), 3);
    assert_eq!(x86_bsr(usize::MAX), usize::BITS as usize - 1);
    for x in [1usize, 6, 96, 0x1234_5678, usize::MAX / 3] {
        assert_eq!(x86_bsf(x), x.trailing_zeros() as usize);
        assert_eq!(x86_bsr(x), (usize::BITS - 1 - x.leading_zeros()) as usize);
        assert_eq!(aarch_popcount(x), x.count_ones() as usize);
    }
}

#[test]
fn descriptor_table_operand() {
    let d = DescriptorTablePtr { limit: 0xFFF, base: 0x1000 };
    assert_eq!(d, DescriptorTablePtr { limit: 0xFFF, base: 0x1000 });
}
