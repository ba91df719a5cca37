use baselib::memory::address::{
    align_canon_1g_mask, align_canon_2m_mask, align_canon_4k_mask, Align, AsPhys, AsVirt, BytePattern, MemAddr, PhysAddr,
    VirtAddr,
};
use baselib::memory::{BitPattern, MemBlock, MemoryUnit};
use baselib::vmem::PageSize;

#[test]
fn address_arithmetic() {
    let mut p = PhysAddr(0x1000);
    assert_eq!(p.inner_add(0x234), PhysAddr(0x1234));
    assert_eq!(p.inner_sub(0x34), PhysAddr(0x1200));
    assert_eq!(p.inner_and(0xF00), PhysAddr(0x200));
    assert_eq!(p.inner_or(0x1001), PhysAddr(0x1201));
    assert_eq!(p.inner_xor(0x1), PhysAddr(0x1200));
    assert_eq!(p.inner_inc(3), PhysAddr(0x1203));
    assert_eq!(p.inner_dec(3), PhysAddr(0x1200));
    assert_eq!(p.inner_inc_by_page_size(PageSize::Small), PhysAddr(0x2200));
    assert_eq!(p.inner_dec_by_page_size(PageSize::Small), PhysAddr(0x1200));
    assert_eq!(p.inner_inc_by_default_page_size(), PhysAddr(0x2200));
    assert_eq!(p.inner_inc_by_type::<u64>(2), PhysAddr(0x2210));
    assert_eq!(p.inner_dec_by_type::<u32>(4), PhysAddr(0x2200));
    assert_eq!(p.inner_bitnot(), PhysAddr(!0x2200usize));
    assert!(PhysAddr(0).is_null() && !PhysAddr(1).is_null());
    assert_eq!(PhysAddr(77).as_const_usize(), 77);
}

#[test]
fn virtual_address_arithmetic() {
    let mut v = VirtAddr(0x20_0000);
    assert_eq!(v.inner_inc_by_page_size(PageSize::Medium), VirtAddr(0x40_0000));
    assert_eq!(v.inner_dec_by_page_size(PageSize::Medium), VirtAddr(0x20_0000));
    assert_eq!(v.inner_add(5), VirtAddr(0x20_0005));
    assert!(VirtAddr(0).is_null());
}

#[test]
fn alignment_of_addresses() {
    let p = PhysAddr(0x20_1234);
    assert_eq!(p.align_4k(), PhysAddr(0x20_1000));
    assert_eq!(p.align_2m(), PhysAddr(0x20_0000));
    assert_eq!(p.align_1g(), PhysAddr(0));
    assert!(!p.is_aligned_4k());
    assert!(PhysAddr(0x20_0000).is_aligned_2m());
    assert!(PhysAddr(0x4000_0000).is_aligned_1g());
    assert!(PhysAddr(0x3000).is_default_page_aligned());
    assert!(PhysAddr(0x3000).is_default_page_size_aligned());
    assert!(!PhysAddr(0x3000).is_page_aligned_greater_than_default());
    assert_eq!(p.align_up(0x1000), PhysAddr(0x20_2000));
    assert_eq!(p.align_down(0x100), PhysAddr(0x20_1200));
    assert!(p.is_aligned(4) && !p.is_aligned(8));
    assert_eq!(0x1fffusize.align_4k(), 0x1000);
}

#[test]
fn canonical_frame_masks() {
    assert_eq!(align_canon_4k_mask(), 0x0000_FFFF_FFFF_F000u64 as usize);
    assert_eq!(align_canon_2m_mask(), 0x0000_FFFF_FFE0_0000u64 as usize);
    assert_eq!(align_canon_1g_mask(), 0x0000_FFFF_C000_0000u64 as usize);
    let v = VirtAddr(0x1234_5678);
    assert_eq!(v.align_canon_4k(), VirtAddr(0x1234_5000));
    assert_eq!(v.align_canon_default(), VirtAddr(0x1234_5000));
    assert!(!v.is_aligned_canon_4k());
    assert!(VirtAddr(0x4000_0000).is_aligned_canon_1g());
    assert_eq!(v.align_canon_2m(), VirtAddr(0x1220_0000));
    assert_eq!(v.align_canon_1g(), VirtAddr(0));
    assert!(VirtAddr(0x20_0000).is_aligned_canon_2m());
    assert!(VirtAddr(0x1000).is_aligned_canon_default());
}

#[test]
fn page_table_indexes() {
    let v = VirtAddr((1usize << 39) * 3 + (1usize << 30) * 5 + (1usize << 21) * 7 + (1usize << 12) * 9 + 0x123);
    assert_eq!(v.get_page_table_indexes(), (3, 5, 7, 9));
    assert_eq!(PhysAddr(0).get_page_table_indexes(), (0, 0, 0, 0));
}

#[test]
fn conversions() {
    assert_eq!(5usize.as_phys(), PhysAddr(5));
    assert_eq!(6usize.as_virt(), VirtAddr(6));
    assert_eq!(7u64.as_phys(), PhysAddr(7));
    assert_eq!(PhysAddr::from(9usize), PhysAddr(9));
    assert_eq!(VirtAddr::from(PhysAddr(10)), VirtAddr(10));
    let u: usize = PhysAddr(11).into();
    assert_eq!(u, 11);
    assert_eq!(<PhysAddr as MemAddr>::new_from_usize(12), PhysAddr(12));
}

#[test]
fn memory_blocks() {
    let b: MemBlock<PhysAddr> = MemBlock::new_with(PhysAddr(0x1000), 0x100);
    assert!(b.contains_addr(PhysAddr(0x1000)));
    assert!(b.contains_addr(PhysAddr(0x10FF)));
    assert!(!b.contains_addr(PhysAddr(0x1100)));
    assert!(!b.contains_addr(PhysAddr(0xFFF)));
    let c: MemBlock<PhysAddr> = MemBlock::new_from(b);
    assert_eq!((c.base_addr, c.size), (PhysAddr(0x1000), 0x100));
    let e: MemBlock<VirtAddr> = MemBlock::new();
    assert_eq!((e.base_addr, e.size), (VirtAddr(0), 0));
}

#[test]
fn memory_units() {
    let u: MemoryUnit<PhysAddr> = MemoryUnit::new_with(PhysAddr(0x20_0000), 0x60_0000);
    assert!(u.is_addr_page_aligned(PageSize::Medium));
    assert!(!u.is_addr_page_aligned(PageSize::Huge));
    assert_eq!(u.page_count(PageSize::Medium), 3);
    assert_eq!(u.page_count(PageSize::Huge), 1);
    assert_eq!(u.max_addr(), 0x7F_FFFF);
    let z: MemoryUnit<VirtAddr> = MemoryUnit::new();
    assert_eq!(z.size, 0);
}

#[test]
fn fill_patterns() {
    assert_eq!(BitPattern::ZeroZero.into_bits(), 0);
    assert_eq!(BitPattern::FF.into_bits(), 0xFF);
    assert_eq!(BitPattern::from_bits(0x5A), BitPattern::Custom(0x5A));
    assert_eq!(BitPattern::from_bits(0), BitPattern::ZeroZero);
    assert_eq!(BitPattern::from_bits(BitPattern::Custom(0xFF).into_bits()), BitPattern::FF);
    assert_eq!(BytePattern::from_bits(255), BytePattern::FF);
    assert_eq!(BytePattern::Custom(0xAB).as_usize_pattern(), 0xABAB_ABAB_ABAB_ABABu64 as usize);
    assert_eq!(BytePattern::ZeroZero.as_usize_pattern(), 0);
}
