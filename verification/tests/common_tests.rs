use baselib::common::{
    align_down, align_up, hi32, hi64, lo32, lo64, machine_ubits, machine_ubytes, make128, make64, nebulae_test_pattern,
    range_contains,
};

#[test]
fn joining_and_splitting_words() {
    let v = make128(0x1234, 0xABCD);
    assert_eq!(v, (0x1234u128 << 64) | 0xABCD);
    assert_eq!(hi64(v), 0x1234);
    assert_eq!(lo64(v), 0xABCD);
    let w = make64(0xDEAD, 0xBEEF);
    assert_eq!(w, 0x0000_DEAD_0000_BEEF);
    assert_eq!(hi32(w), 0xDEAD);
    assert_eq!(lo32(w), 0xBEEF);
}

#[test]
fn splitting_undoes_joining() {
    for (h, l) in [(0usize, 0usize), (1, usize::MAX), (usize::MAX, 7), (0x8000, 0x1)] {
        let v = make128(h, l);
        assert_eq!(hi64(v) as usize, h);
        assert_eq!(lo64(v) as usize, l);
    }
}

#[test]
fn rounding_to_powers_of_two() {
    assert_eq!(align_up(0, 4096), 0);
    assert_eq!(align_up(1, 4096), 4096);
    assert_eq!(align_up(4096, 4096), 4096);
    assert_eq!(align_up(4097, 8), 4104);
    assert_eq!(align_down(4097, 4096), 4096);
    assert_eq!(align_down(4095, 4096), 0);
    assert_eq!(align_down(0x20_1234, 0x20_0000), 0x20_0000);
}

#[test]
fn half_open_ranges() {
    assert!(range_contains(100, 10, 100));
    assert!(range_contains(100, 10, 109));
    assert!(!range_contains(100, 10, 110));
    assert!(!range_contains(100, 10, 99));
    assert!(!range_contains(100, 0, 100));
}

#[test]
fn machine_word_facts() {
    assert_eq!(machine_ubytes(), std::mem::size_of::<usize>());
    assert_eq!(machine_ubits(), usize::BITS as usize);
    assert_eq!(nebulae_test_pattern(), 0x6464_8888_3232_5225u64 as usize);
}
