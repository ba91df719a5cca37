use baselib::kalloc::MemoryPool;
use baselib::memory::address::VirtAddr;
use baselib::vmem::PageSize;

fn pool() -> MemoryPool {
    let mut p = MemoryPool::new("test", PageSize::Small, 64, 128, VirtAddr(0x10_0000), VirtAddr(0x20_0000));
    assert_eq!(p.init(Some(VirtAddr(0x10_0000))), Some(VirtAddr(0x10_0000)));
    p
}

#[test]
fn pool_description() {
    let p = MemoryPool::new("pool", PageSize::Small, 64, 128, VirtAddr(0x10_0000), VirtAddr(0x20_0000));
    assert_eq!(p.name(), "pool");
    assert_eq!(p.block_size(), 64);
    assert_eq!(p.capacity(), 128);
}

#[test]
fn pool_sizes() {
    assert_eq!(MemoryPool::calc_size_in_bytes(128, 64), 8192);
    assert_eq!(MemoryPool::calc_size_in_pages(128, 64, PageSize::Small), 2);
    assert_eq!(MemoryPool::calc_size_in_pages(129, 64, PageSize::Small), 3);
    assert_eq!(MemoryPool::calc_bitmap_size_in_usize(128), 128usize.div_ceil(usize::BITS as usize));
    assert_eq!(MemoryPool::calc_bitmap_size_in_pages(128), 1);
}

#[test]
fn failed_mapping_leaves_the_pool_unset() {
    let mut p = MemoryPool::new("x", PageSize::Small, 64, 128, VirtAddr(0x10_0000), VirtAddr(0x20_0000));
    assert_eq!(p.init(None), None);
    assert_eq!(p.internal_alloc(8), None);
}

#[test]
fn blocks_come_out_lowest_first() {
    let mut p = pool();
    assert_eq!(p.internal_alloc(32), Some(VirtAddr(0x10_0000)));
    assert_eq!(p.internal_alloc(64), Some(VirtAddr(0x10_0040)));
    assert_eq!(p.internal_alloc_zeroed(1), Some(VirtAddr(0x10_0080)));
    assert_eq!(p.used(), 3);
}

#[test]
fn requests_larger_than_a_block_fail() {
    let mut p = pool();
    assert_eq!(p.internal_alloc(65), None);
    assert_eq!(p.used(), 0);
}

#[test]
fn a_freed_block_is_handed_out_again() {
    let mut p = pool();
    let a = p.internal_alloc(16).unwrap();
    let b = p.internal_alloc(16).unwrap();
    assert_ne!(a, b);
    assert!(p.internal_dealloc(a.0, 16));
    assert_eq!(p.internal_alloc(16), Some(a));
}

#[test]
fn the_pool_runs_out() {
    let mut p = pool();
    for i in 0..128usize {
        assert_eq!(p.internal_alloc(64), Some(VirtAddr(0x10_0000 + 64 * i)));
    }
    assert_eq!(p.internal_alloc(64), None);
    assert_eq!(p.used(), 128);
    assert_eq!(p.free(), 0);
}

#[test]
fn reallocation_keeps_the_block() {
    let p = pool();
    assert_eq!(p.internal_realloc(0x10_0040, 16, 32), Some(VirtAddr(0x10_0040)));
}

#[test]
fn only_blocks_of_the_pool_handed_out_may_be_taken_back() {
    let mut p = pool();
    assert!(!p.can_dealloc(0x10_0000));
    let a = p.internal_alloc(8).unwrap();
    assert!(p.can_dealloc(a.0));
    assert!(p.can_dealloc(0x10_0000 + 127 * 64));
    assert!(!p.can_dealloc(0x10_0000 + 128 * 64));
    assert!(!p.can_dealloc(0x0F_F000));
}
