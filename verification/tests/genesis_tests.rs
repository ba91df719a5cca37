use baselib::frame_alloc::TreeAllocator;
use baselib::genesis::{allocator_footprint, default_page_info, memory_map_pages, nebulae, reserved_page_info, ConvScan, MemMapEntry, MEMORY_TYPE_CONVENTIONAL};
use baselib::memory::address::PhysAddr;
use baselib::permissions::Owner;
use baselib::vmem::pages::PageStatus;
use baselib::vmem::PageSize;

fn entry(ty: u32, phys_start: u64, page_count: u64) -> MemMapEntry {
    MemMapEntry { ty, phys_start, page_count, att: 0xF }
}

fn memory_map() -> Vec<MemMapEntry> {
    vec![
        entry(MEMORY_TYPE_CONVENTIONAL, 0x1000, 15),
        entry(2, 0x10000, 4),
        entry(MEMORY_TYPE_CONVENTIONAL, 0x20000, 32),
        entry(MEMORY_TYPE_CONVENTIONAL, 0x100000, 2),
    ]
}

#[test]
fn map_buffers_keep_room_for_more_descriptors() {
    assert_eq!(memory_map_pages(0x1800, 48, 25), 2);
    assert_eq!(memory_map_pages(0x1F00, 48, 25), 3);
    assert_eq!(memory_map_pages(0x2000, 48, 25), 3);
    assert_eq!(memory_map_pages(0x1F00, 48, 5), 2);
}

#[test]
fn scanning_finds_the_largest_and_smallest_blocks() {
    let mut s = ConvScan::new();
    s.scan(&memory_map(), true);
    assert_eq!((s.largest, s.largest_size), (PhysAddr(0x20000), 0x20000));
    assert_eq!((s.smallest, s.smallest_size), (PhysAddr(0x100000), 0x2000));
    assert_eq!(s.conv_pages, 49);
    assert_eq!(s.max_phys, 0x102000);
    // a later pass without counting only looks for larger and smaller blocks
    s.scan(&[entry(MEMORY_TYPE_CONVENTIONAL, 0x200000, 1), entry(3, 0x300000, 100)], false);
    assert_eq!((s.smallest, s.smallest_size), (PhysAddr(0x200000), 0x1000));
    assert_eq!(s.conv_pages, 49);
}

#[test]
fn the_genesis_block_takes_a_last_or_first_page() {
    let mut s = ConvScan::new();
    s.scan(&memory_map(), true);
    // the largest block starts on a page boundary: the smallest gives its last page
    assert_eq!(s.genesis_block(), PhysAddr(0x101000));
    let mut one = ConvScan::new();
    one.scan(&[entry(MEMORY_TYPE_CONVENTIONAL, 0x5000, 3)], true);
    assert_eq!(one.genesis_block(), PhysAddr(0x7000));
    let odd = ConvScan { largest: PhysAddr(0x5800), largest_size: 0x3000, ..s };
    assert_eq!(odd.genesis_block(), PhysAddr(0x5000));
}

#[test]
fn allocator_storage_is_sized_per_page() {
    let f = allocator_footprint(0x102000, 48, 96);
    assert_eq!(f.total_pages, 258);
    assert_eq!(f.page_info_pages, 4);
    assert_eq!(f.bitmap_pages, 1);
    assert_eq!(f.storage_pages, 7);
}

#[test]
fn default_records_describe_free_conventional_pages() {
    let v = default_page_info(3);
    assert_eq!(v.len(), 3);
    assert_eq!(v[2].phys_base, PhysAddr(0x2000));
    assert!(v.iter().all(|p| p.status == PageStatus::Free && p.owner == Owner::Nobody && p.size == 0x1000
        && p.purpose == MEMORY_TYPE_CONVENTIONAL && p.page_size == PageSize::Small));
}

#[test]
fn the_memory_map_populates_the_allocator() {
    let mut a = TreeAllocator::new();
    a.init(PhysAddr(0x8_0000), 16, 0x110000, default_page_info(0x110));
    let mut map = memory_map();
    map.push(entry(MEMORY_TYPE_CONVENTIONAL, 0x102000, 8));
    a.add_memory_map(&map, 0x102000);
    assert_eq!(a.free_mem_count(), 0xF000 + 0x20000 + 0x2000);
    assert!(a.is_frame_index_free(0) && !a.is_frame_index_free(1) && a.is_frame_index_free(2) && a.is_frame_index_free(3));
    assert!(!a.is_frame_index_free(4));
    let r = a.page_record(0x11);
    assert_eq!((r.status, r.owner, r.purpose, r.uefi_flags), (PageStatus::Reserved, Owner::Kernel, 2, 0xF));
    assert_eq!(a.page_record(0x20).status, PageStatus::Free);
    // blocks that overlap what is held, or do not start on a page, are refused
    assert_eq!(a.add_map_entry(entry(MEMORY_TYPE_CONVENTIONAL, 0x2000, 1)), None);
    assert_eq!(a.add_map_entry(MemMapEntry { ty: MEMORY_TYPE_CONVENTIONAL, phys_start: 0x200800, page_count: 1, att: 0 }), None);
    assert_eq!(a.add_map_entry(entry(MEMORY_TYPE_CONVENTIONAL, 0x200000, 1)), Some(4));
    assert!(a.region_fits(0x300000, 0x1000));
    assert!(!a.region_fits(0x20000, 0x1000));
    assert!(!a.region_fits(0x300800, 0x1000));
}

#[test]
fn nebulae_hands_back_its_argument() {
    assert_eq!(nebulae(0), 0);
    assert_eq!(nebulae(0xdead_beef), 0xdead_beef);
    assert_eq!(nebulae(usize::MAX), usize::MAX);
}

#[test]
fn only_the_pages_of_reserved_blocks_taken_in_change() {
    let mut a = TreeAllocator::new();
    a.init(PhysAddr(0x8_0000), 16, 0x110000, default_page_info(0x110));
    let map = vec![
        entry(MEMORY_TYPE_CONVENTIONAL, 0x1000, 15),
        entry(2, 0x10000, 4),
        entry(MEMORY_TYPE_CONVENTIONAL, 0x20000, 32),
        entry(5, 0x108000, 2),
        entry(6, 0x40000, 2),
    ];
    a.add_memory_map(&map, 0x108000);
    for q in 0x10..0x14 {
        assert_eq!((a.page_record(q).status, a.page_record(q).owner), (PageStatus::Reserved, Owner::Kernel));
    }
    // the block at the limit ends the map: neither it nor the one after is taken in
    assert_eq!(a.page_record(0x40).status, PageStatus::Free);
    assert_eq!(a.page_record(0x108).status, PageStatus::Free);
    assert_eq!(a.page_record(0x14).status, PageStatus::Free);
    assert_eq!(a.page_record(0x1).status, PageStatus::Free);
}

#[test]
fn the_top_of_memory_is_the_highest_end_not_the_last() {
    let mut s = ConvScan::new();
    s.scan(&[entry(MEMORY_TYPE_CONVENTIONAL, 0x2000, 1), entry(MEMORY_TYPE_CONVENTIONAL, 0x1000, 1)], true);
    assert_eq!(s.max_phys, 0x3000);
    assert_eq!(s.conv_pages, 2);
    let mut t = ConvScan::new();
    t.scan(&[entry(MEMORY_TYPE_CONVENTIONAL, 0x100000, 16), entry(2, 0x800000, 16), entry(MEMORY_TYPE_CONVENTIONAL, 0x1000, 2)], true);
    assert_eq!(t.max_phys, 0x110000);
}

#[test]
fn boot_denies_every_page_by_default() {
    let v = reserved_page_info(3);
    assert_eq!(v.len(), 3);
    assert_eq!(v[1].phys_base, PhysAddr(0x1000));
    assert!(v.iter().all(|p| p.status == PageStatus::Reserved && p.owner == Owner::Nobody && p.size == 0x1000));
}
