use baselib::bringup::{candidate_base_free, draw_candidate_base, find_free_base, scratch_base, PREBOOT_SCRATCH_PAGE_COUNT};
use baselib::common::{USIZE_2G, USIZE_512K};
use baselib::frame_alloc::TreeAllocator;
use baselib::genesis::{default_page_info, MemMapEntry, MEMORY_TYPE_CONVENTIONAL};
use baselib::memory::address::PhysAddr;
use baselib::memory::MemBlock;
use baselib::rng::isaac64::Isaac64Rng;

fn entry(ty: u32, phys_start: u64, page_count: u64) -> MemMapEntry {
    MemMapEntry { ty, phys_start, page_count, att: 0xF }
}

fn block(base: usize, size: usize) -> MemBlock<PhysAddr> {
    MemBlock { base_addr: PhysAddr(base), size }
}

fn boot_map() -> Vec<MemMapEntry> {
    vec![
        entry(MEMORY_TYPE_CONVENTIONAL, 0x1000, 2),
        entry(2, 0x10000, 4),
        entry(MEMORY_TYPE_CONVENTIONAL, 0x100000, 0x100),
        entry(MEMORY_TYPE_CONVENTIONAL, 0x300000, 0x200),
    ]
}

fn seeded_rng() -> Isaac64Rng {
    let mut g = Isaac64Rng::new_with_fixed_buf(PhysAddr(0x40_0000)).unwrap();
    let mut seed = [0u32; 512];
    for (i, s) in seed.iter_mut().enumerate() {
        *s = (i as u32).wrapping_mul(0x9E37_79B9) ^ 0x5bd1_e995;
    }
    g.reseed_via_u32_array(&seed);
    g
}

#[test]
fn scratch_goes_in_the_first_conventional_block_large_enough() {
    assert_eq!(PREBOOT_SCRATCH_PAGE_COUNT, 3);
    assert_eq!(scratch_base(&boot_map()), Some(PhysAddr(0x100000)));
    assert_eq!(scratch_base(&[entry(MEMORY_TYPE_CONVENTIONAL, 0x5000, 3)]), Some(PhysAddr(0x5000)));
    // no block is large enough
    assert_eq!(scratch_base(&[entry(MEMORY_TYPE_CONVENTIONAL, 0x5000, 2), entry(1, 0x9000, 10)]), None);
    // the first block large enough starts at a null address
    assert_eq!(scratch_base(&[entry(MEMORY_TYPE_CONVENTIONAL, 0, 8), entry(MEMORY_TYPE_CONVENTIONAL, 0x9000, 8)]), None);
}

#[test]
fn a_base_is_free_inside_one_conventional_block_and_outside_the_taken_ones() {
    let map = boot_map();
    let taken = vec![block(0x100000, 0x1000), block(0x101000, 0x1000), block(0x102000, 0x1000), block(0, 0), block(0x200000, 0x1000)];
    // inside a taken block
    assert!(!candidate_base_free(0x101000, 0x1000, &taken, &map));
    // just past the taken blocks
    assert!(candidate_base_free(0x103000, 0x1000, &taken, &map));
    // the block would run past the end of the memory-map block
    assert!(candidate_base_free(0x1FF000, 0x1000, &taken, &map));
    assert!(!candidate_base_free(0x1FF000, 0x1001, &taken, &map));
    // in a reserved block, and in no block at all
    assert!(!candidate_base_free(0x11000, 0, &taken, &map));
    assert!(!candidate_base_free(0x250000, 0, &taken, &map));
    // blocks after the first empty one are not in the list
    assert!(candidate_base_free(0x300000, 0x1000, &[block(0, 0), block(0x300000, 0x1000)], &map));
    // with nothing taken and no size, any conventional address will do
    assert!(candidate_base_free(0x1800, 0, &[], &map));
}

#[test]
fn the_first_block_holding_a_base_decides() {
    // a reserved block listed first hides the conventional one behind it
    let map = vec![entry(3, 0x100000, 1), entry(MEMORY_TYPE_CONVENTIONAL, 0x100000, 16)];
    assert!(!candidate_base_free(0x100000, 0, &[], &map));
    assert!(candidate_base_free(0x101000, 0, &[], &map));
}

#[test]
fn candidate_bases_are_drawn_on_frames_between_512k_and_the_ceiling() {
    let mut g = seeded_rng();
    for _ in 0..200 {
        let b = draw_candidate_base(&mut g, 0x1000_0000);
        assert_eq!(b % 0x1000, 0);
        assert!(b >= USIZE_512K && b <= 0x1000_0000);
    }
    for _ in 0..200 {
        let b = draw_candidate_base(&mut g, usize::MAX);
        assert!(b >= USIZE_512K && b <= USIZE_2G);
    }
}

#[test]
fn draws_repeat_from_the_same_state() {
    let mut a = seeded_rng();
    let mut b = seeded_rng();
    for _ in 0..20 {
        assert_eq!(draw_candidate_base(&mut a, 0x800_0000), draw_candidate_base(&mut b, 0x800_0000));
    }
}

#[test]
fn a_free_base_is_found_when_the_map_has_room() {
    let mut g = seeded_rng();
    let map = vec![entry(MEMORY_TYPE_CONVENTIONAL, 0x80000, 0x7F80)];
    let taken = vec![block(0x80000, 0x1000)];
    let b = find_free_base(&mut g, 0x800_0000, 0x3000, &taken, &map, 1000).unwrap();
    assert_eq!(b % 0x1000, 0);
    assert!(candidate_base_free(b, 0x3000, &taken, &map));
    assert!(b >= 0x81000 && b + 0x3000 <= 0x800_0000);
    // nothing is conventional: every draw is refused
    let none = vec![entry(2, 0, 0x8000)];
    assert_eq!(find_free_base(&mut g, 0x800_0000, 0x1000, &[], &none, 50), None);
    assert_eq!(find_free_base(&mut g, 0x800_0000, 0x1000, &[], &map, 0), None);
}

fn boot_allocator() -> TreeAllocator {
    let mut a = TreeAllocator::new();
    a.init(PhysAddr(0x8_0000), 32, 0x700000, default_page_info(0x700));
    a
}

#[test]
fn the_genesis_page_splits_off_the_front_of_its_block() {
    let mut a = boot_allocator();
    let mut map = boot_map();
    map.push(entry(MEMORY_TYPE_CONVENTIONAL, 0x600000, 0));
    map.push(entry(MEMORY_TYPE_CONVENTIONAL, 0x680000, 0x10));
    assert!(a.add_boot_regions(&map, 0x100000));
    // both conventional blocks are free but the genesis page; the reserved one is held
    assert_eq!(a.free_mem_count(), 0x2000 + 0xFF000 + 0x200000);
    assert!(!a.region_fits(0x100000, 0x1000));
    assert!(!a.region_fits(0x101000, 0x1000));
    assert!(!a.region_fits(0x10000, 0x1000));
    assert!(!a.region_fits(0x4FF000, 0x1000));
    // entries after the one with no pages are left out
    assert!(a.region_fits(0x680000, 0x10000));
}

#[test]
fn elsewhere_in_its_block_the_genesis_page_is_the_last_one() {
    let mut a = boot_allocator();
    assert!(a.add_boot_regions(&boot_map(), 0x180000));
    assert_eq!(a.free_mem_count(), 0x2000 + 0xFF000 + 0x200000);
    // the last page of the block is held, the rest is free from its start
    assert!(!a.region_fits(0x1FF000, 0x1000));
    assert!(!a.region_fits(0x100000, 0x1000));
    assert!(a.region_fits(0x200000, 0x1000));
}

#[test]
fn a_genesis_block_that_cannot_be_split_in_fails() {
    let mut a = boot_allocator();
    assert!(a.add_boot_regions(&[entry(MEMORY_TYPE_CONVENTIONAL, 0x100000, 0x10)], 0x200000));
    // the genesis block's entry overlaps what is held
    assert!(!a.add_boot_regions(&[entry(MEMORY_TYPE_CONVENTIONAL, 0x100000, 0x10)], 0x100000));
    // an entry that overlaps and does not hold the genesis block is skipped
    assert!(a.add_boot_regions(&[entry(MEMORY_TYPE_CONVENTIONAL, 0x100000, 0x10)], 0x200000));
    assert_eq!(a.free_mem_count(), 0x10000);
}
