use baselib::genesis::{MemMapEntry, MEMORY_TYPE_CONVENTIONAL};
use baselib::arch::aarch64::PageSize as ArmPageSize;
use baselib::arch::x86_32::PageSize as X86PageSize;
use baselib::memory::address::PhysAddr;
use baselib::permissions::Owner;
use baselib::vmem::pages::{addr_to_page_index, bytes_to_pages, calc_pages_reqd, pages_to_bytes, usize_to_page_index};
use baselib::vmem::{PageSize, Vas, PAGING_WRITETHROUGH};

#[test]
fn page_sizes() {
    assert_eq!(PageSize::Small.into_bits(), 0x1000);
    assert_eq!(PageSize::Medium.into_bits(), 0x20_0000);
    assert_eq!(PageSize::Huge.as_const_usize(), 0x4000_0000);
    for p in [PageSize::Small, PageSize::Medium, PageSize::Huge] {
        assert_eq!(PageSize::from_bits(p.into_bits()), p);
    }
    assert_eq!(PageSize::from_bits(12345), PageSize::Small);
    assert_eq!(ArmPageSize::Medium.into_bits(), 0x4000);
    assert_eq!(ArmPageSize::from_bits(0x1_0000), ArmPageSize::Large);
    assert_eq!(X86PageSize::Medium.into_bits(), 0x40_0000);
    assert_eq!(X86PageSize::from_bits(7), X86PageSize::Small);
}

#[test]
fn page_counts() {
    assert_eq!(pages_to_bytes(3, PageSize::Small), 0x3000);
    assert_eq!(bytes_to_pages(0x3001, PageSize::Small), (4, false));
    assert_eq!(bytes_to_pages(0x3000, PageSize::Small), (3, true));
    assert_eq!(bytes_to_pages(0x1000, PageSize::Medium), (1, false));
    assert_eq!(bytes_to_pages(0x40_0000, PageSize::Medium), (2, true));
    assert_eq!(calc_pages_reqd(0, PageSize::Small), 0);
    assert_eq!(calc_pages_reqd(1, PageSize::Small), 1);
    assert_eq!(calc_pages_reqd(0x40_0001, PageSize::Medium), 3);
    assert_eq!(usize_to_page_index(0x5FFF), 5);
    assert_eq!(addr_to_page_index(PhysAddr(0x6000)), 6);
}

#[test]
fn address_space_register_value() {
    let mut v = Vas::new();
    assert_eq!(v.cr3, PhysAddr(0));
    assert_eq!(v.owner, Owner::Memory);
    v.base_page_table = Some(PhysAddr(0x7000));
    assert_eq!(v.init_cr3(), PhysAddr(0x7000 | PAGING_WRITETHROUGH));
    assert_eq!(v.switch_to(), 0x7008);
    assert_eq!(v.cr3, PhysAddr(0x7008));
}

#[test]
fn the_pages_to_identity_map_are_those_of_other_than_conventional_blocks() {
    let e = |ty: u32, phys_start: u64, page_count: u64| MemMapEntry { ty, phys_start, page_count, att: 0 };
    let map = [
        e(MEMORY_TYPE_CONVENTIONAL, 0x1000, 4),
        e(2, 0x10000, 2),
        e(MEMORY_TYPE_CONVENTIONAL, 0x20000, 8),
        e(5, 0x40000, 1),
    ];
    let v = Vas::new();
    assert_eq!(v.identity_map_based_on_memory_map(&map), vec![PhysAddr(0x10000), PhysAddr(0x11000), PhysAddr(0x40000)]);
    assert_eq!(v.identity_map_based_on_memory_map(&map[..1]), vec![]);
}
