use baselib::frame_alloc::{MemNode, MemRegionDescr, TreeAllocator};
use baselib::memory::address::PhysAddr;
use baselib::permissions::Owner;
use baselib::structures::tree::{RBNode, RBTree};
use baselib::vmem::pages::{PageInfo, PageStatus};
use baselib::vmem::PageSize;

fn pages(n: usize) -> Vec<PageInfo> {
    (0..n)
        .map(|i| PageInfo {
            phys_base: PhysAddr(i * 0x1000),
            size: 0x1000,
            uefi_flags: 0,
            status: PageStatus::Reserved,
            owner: Owner::Nobody,
            purpose: 0,
            flags: 0,
            page_size: PageSize::Small,
        })
        .collect()
}

/// An allocator with eight slots over 64 pages and two free regions:
/// 16 KiB at 0x10000 (slot 0) and 4 KiB at 0x20000 (slot 1).
fn allocator() -> TreeAllocator {
    let mut a = TreeAllocator::new();
    a.init(PhysAddr(0x8_0000), 8, 64 * 0x1000, pages(64));
    assert_eq!(a.add_region(PhysAddr(0x10000), 0x4000, true, 0, Owner::Nobody), Some(0));
    assert_eq!(a.add_region(PhysAddr(0x20000), 0x1000, true, 0, Owner::Nobody), Some(1));
    a
}

fn addr_key(start: usize, size: usize) -> u128 {
    ((start as u128) << 64) | size as u128
}

#[test]
fn mem_node_accessors() {
    let mut n = MemNode::new();
    assert_eq!((n.key(), n.value()), (0, 0));
    n.set_key(77);
    n.set_value(5);
    assert_eq!((n.key(), n.value()), (77, 5));
}

#[test]
fn region_descriptor_constructors() {
    let d = MemRegionDescr::new();
    assert_eq!((d.start_addr, d.size, d.is_free), (PhysAddr(0), 0, false));
    let mut e = MemRegionDescr::new_with(PhysAddr(0x5000), 0x2000, true, 3, Owner::Kernel);
    assert_eq!((e.start_addr, e.size, e.is_free, e.flags, e.owner), (PhysAddr(0x5000), 0x2000, true, 3, Owner::Kernel));
    e.size_tree_node_ptr().set_value(9);
    assert_eq!(e.size_node.value(), 9);
    e.addr_tree_node_ptr().set_key(11);
    assert_eq!(e.addr_node.key(), 11);
}

#[test]
fn fresh_allocator_counts() {
    let mut a = TreeAllocator::new();
    a.init(PhysAddr(0x8_0000), 8, 64, pages(64));
    assert_eq!(a.page_count(), 8);
    assert_eq!(a.mem_count(), 64);
    assert_eq!(a.free_mem_count(), 0);
    assert_eq!(a.alloc_frame_single(Owner::Kernel, PageSize::Small), None);
}

#[test]
fn added_regions_are_free() {
    let mut a = allocator();
    assert_eq!(a.free_mem_count(), 0x5000);
    assert_eq!(a.free_page_count(), 5);
    assert!(a.is_frame_index_free(0));
    assert!(a.is_frame_index_free(1));
    assert!(!a.is_frame_index_free(2));
    assert!(a.is_memory_frame_free(PhysAddr(0x1000)));
}

#[test]
fn single_frames_come_from_the_smallest_fitting_region() {
    let mut a = allocator();
    // the 4 KiB region fits exactly
    assert_eq!(a.alloc_frame_single(Owner::Kernel, PageSize::Small), Some(PhysAddr(0x20000)));
    assert_eq!(a.free_mem_count(), 0x4000);
    assert!(!a.is_frame_index_free(1));
    // the 16 KiB region is split and its first page handed out
    assert_eq!(a.alloc_frame_single(Owner::Kernel, PageSize::Small), Some(PhysAddr(0x10000)));
    assert_eq!(a.free_mem_count(), 0x3000);
    // no 2 MiB region exists
    assert_eq!(a.alloc_frame_single(Owner::Kernel, PageSize::Medium), None);
}

#[test]
fn freed_frames_can_be_handed_out_again() {
    let mut a = allocator();
    let f = a.alloc_frame_single(Owner::Kernel, PageSize::Small).unwrap();
    assert_eq!(a.free_mem_count(), 0x4000);
    a.dealloc_frame(f, Owner::Kernel);
    assert_eq!(a.free_mem_count(), 0x5000);
    assert!(a.is_frame_index_free(1));
    assert_eq!(a.alloc_frame_single(Owner::Kernel, PageSize::Small), Some(f));
}

#[test]
fn multi_page_frames() {
    let mut a = allocator();
    assert_eq!(a.alloc_frame(0x2000, PageSize::Small, Owner::Kernel), Some(PhysAddr(0x10000)));
    assert_eq!(a.free_mem_count(), 0x3000);
    // nothing free holds 16 KiB any more
    assert_eq!(a.alloc_frame(0x4000, PageSize::Small, Owner::Kernel), None);
    assert_eq!(a.free_mem_count(), 0x3000);
}

#[test]
fn fixed_frames_are_cut_out_of_free_regions() {
    let mut a = allocator();
    assert_eq!(a.alloc_frame_fixed(PhysAddr(0x12000), 0x1000, Owner::Kernel, PageSize::Small), Some(PhysAddr(0x12000)));
    assert_eq!(a.free_mem_count(), 0x4000);
    // the same frame is no longer free, and nothing is free at 0x30000
    assert_eq!(a.alloc_frame_fixed(PhysAddr(0x12000), 0x1000, Owner::Kernel, PageSize::Small), None);
    assert_eq!(a.alloc_frame_fixed(PhysAddr(0x30000), 0x1000, Owner::Kernel, PageSize::Small), None);
    assert_eq!(a.free_mem_count(), 0x4000);
}

#[test]
fn regions_can_be_marked_and_removed() {
    let mut a = allocator();
    a.mark_region_allocated(0, Owner::Kernel);
    assert!(!a.is_frame_index_free(0));
    assert_eq!(a.free_mem_count(), 0x1000);
    assert!(a.mark_region_free(0, Owner::Kernel));
    assert!(a.is_frame_index_free(0));
    assert_eq!(a.free_mem_count(), 0x5000);
    a.remove_region(1);
    assert_eq!(a.free_mem_count(), 0x4000);
    assert_eq!(a.add_region(PhysAddr(0x30000), 0x2000, false, 0, Owner::Kernel), Some(1));
    assert_eq!(a.free_mem_count(), 0x4000);
}

#[test]
fn address_search_prefers_the_holding_region() {
    let mut t = RBTree::new();
    t.put(RBNode { key: addr_key(0x1000, 0x1000), value: 1, idx: 0 });
    t.put(RBNode { key: addr_key(0x3000, 0x2000), value: 2, idx: 0 });
    let n = MemNode::new();
    let hit = n.contains_addr(&t, PhysAddr(0x3800)).unwrap();
    assert_eq!((hit.key(), hit.value()), (addr_key(0x3000, 0x2000), 2));
    // 0x2800 lies in no region: the first that reaches it is taken
    let near = n.contains_addr(&t, PhysAddr(0x2800)).unwrap();
    assert_eq!(near.value(), 2);
    // a region ending exactly at the address reaches it
    assert_eq!(n.contains_addr(&t, PhysAddr(0x2000)).unwrap().value(), 1);
    assert!(n.contains_addr(&t, PhysAddr(0x9000)).is_none());
}

#[test]
fn page_records_follow_allocation() {
    let mut a = allocator();
    assert_eq!(a.page_record_count(), 64);
    let f = a.alloc_frame_single(Owner::Kernel, PageSize::Small).unwrap();
    let page = f.0 / 0x1000;
    assert_eq!((a.page_record(page).status, a.page_record(page).owner), (PageStatus::Alloc, Owner::Kernel));
    a.dealloc_frame(f, Owner::Kernel);
    assert_eq!((a.page_record(page).status, a.page_record(page).owner), (PageStatus::Free, Owner::Nobody));
    a.set_page_owner(3, Owner::Uefi);
    assert_eq!(a.page_record(3).owner, Owner::Uefi);
    a.clear_page_records(2, 2);
    assert_eq!((a.page_record(2).status, a.page_record(3).owner, a.page_record(3).status), (PageStatus::Free, Owner::Nobody, PageStatus::Free));
    assert_eq!(a.page_record(4).status, PageStatus::Reserved);
}

#[test]
fn a_frame_can_be_freed_only_by_its_owner() {
    let mut a = allocator();
    assert!(!a.is_deallocatable(PhysAddr(0x10000), Owner::Kernel));
    let p = a.alloc_frame(0x1000, PageSize::Small, Owner::Kernel).unwrap();
    // the smallest free region that fits is the 4 KiB one
    assert_eq!(p, PhysAddr(0x20000));
    assert!(a.is_deallocatable(p, Owner::Kernel));
    assert!(!a.is_deallocatable(p, Owner::Memory));
    a.dealloc_frame(p, Owner::Kernel);
    assert!(!a.is_deallocatable(p, Owner::Kernel));
    assert_eq!(a.free_mem_count(), 0x5000);
}

#[test]
fn adding_then_removing_a_region_restores_the_allocator() {
    let mut a = allocator();
    let before = a.free_mem_count();
    let i = a.add_region(PhysAddr(0x30000), 0x2000, true, 0, Owner::Nobody).unwrap();
    assert_eq!(i, 2);
    assert!(!a.region_fits(0x30000, 0x1000));
    a.remove_region(i);
    assert!(a.region_fits(0x30000, 0x1000));
    assert_eq!(a.free_mem_count(), before);
    // the slot is available again
    assert_eq!(a.add_region(PhysAddr(0x40000), 0x1000, false, 0, Owner::Kernel), Some(2));
}
