use std::collections::HashMap;

use baselib::memory::address::{PhysAddr, VirtAddr};
use baselib::permissions::Owner;
use baselib::vmem::walk::{MapStage, MapWalk, TranslateWalk, UnmapWalk, WalkEvent, WalkOp};
use baselib::vmem::PageSize;

const ROOT: usize = 0x1000;
const TABLE_FLAGS: usize = 0x1 | 0x2 | 0x8;

/// Page tables in a simulated physical memory, and a bump allocator of
/// table frames.
struct Memory {
    tables: HashMap<usize, Vec<usize>>,
    next_frame: usize,
    released: Vec<(PhysAddr, Owner, Owner)>,
    cleared: Vec<(usize, usize)>,
    owners: Vec<(usize, Owner)>,
    invalidated: Vec<VirtAddr>,
    fail_alloc: bool,
}

impl Memory {
    fn new() -> Memory {
        Memory {
            tables: HashMap::new(),
            next_frame: 0x10_0000,
            released: Vec::new(),
            cleared: Vec::new(),
            owners: Vec::new(),
            invalidated: Vec::new(),
            fail_alloc: false,
        }
    }

    fn read(&self, table: PhysAddr, index: usize) -> PhysAddr {
        PhysAddr(self.tables.get(&table.0).map(|t| t[index]).unwrap_or(0))
    }

    fn write(&mut self, table: PhysAddr, index: usize, value: PhysAddr) {
        self.tables.entry(table.0).or_insert_with(|| vec![0; 512])[index] = value.0;
    }

    /// Carries out `op`; `None` when the walk is over.
    fn perform(&mut self, op: WalkOp) -> Option<WalkEvent> {
        match op {
            WalkOp::Read { table, index } => Some(WalkEvent::Entry(self.read(table, index))),
            WalkOp::Write { table, index, value } => {
                self.write(table, index, value);
                Some(WalkEvent::Done)
            }
            WalkOp::AllocTable => {
                if self.fail_alloc {
                    return Some(WalkEvent::Frame(None));
                }
                let f = self.next_frame;
                self.next_frame += 0x1000;
                Some(WalkEvent::Frame(Some(PhysAddr(f))))
            }
            WalkOp::IdentityMap { frame } => {
                let (w, first) = MapWalk::identity_map_page(PhysAddr(ROOT), frame, Owner::Memory, PageSize::Small, TABLE_FLAGS);
                self.map(w, first);
                Some(WalkEvent::Done)
            }
            WalkOp::Release { frame, frame_owner, unmap_owner } => {
                self.released.push((frame, frame_owner, unmap_owner));
                Some(WalkEvent::Done)
            }
            WalkOp::Invalidate { addr } => {
                self.invalidated.push(addr);
                Some(WalkEvent::Done)
            }
            WalkOp::SetOwner { page, owner } => {
                self.owners.push((page, owner));
                Some(WalkEvent::Done)
            }
            WalkOp::ClearPages { page, count } => {
                self.cleared.push((page, count));
                Some(WalkEvent::Done)
            }
            WalkOp::Finish { .. } | WalkOp::Translated { .. } => None,
        }
    }

    fn map(&mut self, mut w: MapWalk, mut op: WalkOp) -> Option<VirtAddr> {
        loop {
            if let WalkOp::Finish { mapped } = op {
                return mapped;
            }
            let ev = self.perform(op).unwrap();
            let (nw, nop) = w.step(ev);
            w = nw;
            op = nop;
        }
    }

    fn map_page(&mut self, p: usize, v: usize, size: PageSize, flags: usize) -> Option<VirtAddr> {
        let (w, op) = MapWalk::map_page(PhysAddr(ROOT), PhysAddr(p), VirtAddr(v), Owner::Kernel, size, flags);
        self.map(w, op)
    }

    fn unmap_page(&mut self, v: usize, size: PageSize) {
        let (mut w, mut op) = UnmapWalk::unmap_page(PhysAddr(ROOT), VirtAddr(v), Owner::Kernel, size);
        while let Some(ev) = self.perform(op) {
            let (nw, nop) = w.step(ev);
            w = nw;
            op = nop;
        }
    }

    fn virt_to_phys(&mut self, v: usize) -> PhysAddr {
        let (mut w, mut op) = TranslateWalk::virt_to_phys(PhysAddr(ROOT), VirtAddr(v));
        loop {
            if let WalkOp::Translated { frame } = op {
                return frame;
            }
            let ev = self.perform(op).unwrap();
            let (nw, nop) = w.step(ev);
            w = nw;
            op = nop;
        }
    }
}

#[test]
fn translating_an_empty_hierarchy_gives_zero() {
    let mut m = Memory::new();
    assert_eq!(m.virt_to_phys(0x4000_0000), PhysAddr(0));
}

#[test]
fn misaligned_frames_are_not_mapped() {
    let mut m = Memory::new();
    assert_eq!(m.map_page(0x1234, 0x4000_0000, PageSize::Small, 0x3), None);
    assert_eq!(m.map_page(0x1000, 0x4000_0000, PageSize::Medium, 0x3), None);
    assert!(m.tables.is_empty());
}

#[test]
fn small_page_maps_and_translates_back() {
    let mut m = Memory::new();
    assert_eq!(m.map_page(0x7000, 0x4000_3000, PageSize::Small, 0x3), Some(VirtAddr(0x4000_3000)));
    assert_eq!(m.virt_to_phys(0x4000_3000), PhysAddr(0x7000));
    // the new tables were identity mapped along the way
    assert_eq!(m.virt_to_phys(0x10_0000), PhysAddr(0x10_0000));
    assert_eq!(m.owners.last(), Some(&(7, Owner::Kernel)));
    assert_eq!(m.invalidated.last(), Some(&VirtAddr(0x4000_3000)));
    // root entry 0 names the first table with the table flags
    assert_eq!(m.read(PhysAddr(ROOT), 0), PhysAddr(0x10_0000 | TABLE_FLAGS));
}

#[test]
fn large_pages_translate_to_their_frames() {
    let mut m = Memory::new();
    assert_eq!(m.map_page(0x8000_0000, 0x8000_0000, PageSize::Huge, 0x3), Some(VirtAddr(0x8000_0000)));
    assert_eq!(m.virt_to_phys(0x8000_0000), PhysAddr(0x8000_0000));
    assert_eq!(m.map_page(0x60_0000, 0x4020_0000, PageSize::Medium, 0x3), Some(VirtAddr(0x4020_0000)));
    assert_eq!(m.virt_to_phys(0x4020_0000), PhysAddr(0x60_0000));
}

#[test]
fn a_failed_table_allocation_maps_nothing() {
    let mut m = Memory::new();
    m.fail_alloc = true;
    assert_eq!(m.map_page(0x7000, 0x4000_3000, PageSize::Small, 0x3), None);
    assert!(m.tables.is_empty());
}

#[test]
fn unmapping_empties_the_entry_and_clears_the_records() {
    let mut m = Memory::new();
    m.map_page(0x7000, 0x4000_3000, PageSize::Small, 0x3);
    m.unmap_page(0x4000_3000, PageSize::Small);
    assert_eq!(m.virt_to_phys(0x4000_3000), PhysAddr(0));
    assert_eq!(m.cleared, vec![(7, 1)]);
    // with its page table still in place, unmapping again reads the empty
    // entry and clears the record of page 0
    m.unmap_page(0x4000_3000, PageSize::Small);
    assert_eq!(m.cleared, vec![(7, 1), (0, 1)]);
}

#[test]
fn unmapping_a_huge_page_clears_all_its_records() {
    let mut m = Memory::new();
    m.map_page(0x8000_0000, 0x8000_0000, PageSize::Huge, 0x3);
    m.unmap_page(0x8000_0000, PageSize::Huge);
    assert_eq!(m.virt_to_phys(0x8000_0000), PhysAddr(0));
    assert_eq!(m.cleared, vec![(0x8_0000, 0x4_0000)]);
    assert!(m.released.is_empty());
}

#[test]
fn a_huge_page_over_a_directory_releases_its_tables() {
    let mut m = Memory::new();
    m.map_page(0x7000, 0x4000_3000, PageSize::Small, 0x3);
    let before = m.released.len();
    assert_eq!(m.map_page(0x4000_0000, 0x4000_0000, PageSize::Huge, 0x3), Some(VirtAddr(0x4000_0000)));
    // the directory's 512 entries are all tables or empty; each is released, then the directory
    assert_eq!(m.released.len() - before, 513);
    assert!(m.released.iter().all(|r| r.1 == Owner::Kernel && r.2 == Owner::Memory));
    assert_eq!(m.virt_to_phys(0x4000_0000), PhysAddr(0x4000_0000));
}

#[test]
fn walk_stages_start_where_expected() {
    let (w, op) = MapWalk::map_page(PhysAddr(ROOT), PhysAddr(0x2000), VirtAddr(0x2000), Owner::Kernel, PageSize::Small, 3);
    assert_eq!(w.stage, MapStage::Probe { level: 3, table: PhysAddr(ROOT) });
    assert_eq!(op, WalkOp::Read { table: PhysAddr(ROOT), index: 0 });
}

#[test]
fn a_large_page_over_a_large_page_takes_its_slot() {
    let mut m = Memory::new();
    m.map_page(0x8000_0000, 0x8000_0000, PageSize::Huge, 0x3);
    m.map_page(0x4000_0000, 0xC000_0000, PageSize::Huge, 0x3);
    // a second 1 GiB page over the first
    assert_eq!(m.map_page(0x1_0000_0000, 0x8000_0000, PageSize::Huge, 0x3), Some(VirtAddr(0x8000_0000)));
    assert_eq!(m.virt_to_phys(0x8000_0000), PhysAddr(0x1_0000_0000));
    assert_eq!(m.virt_to_phys(0xC000_0000), PhysAddr(0x4000_0000));
    // a second 2 MiB page over the first; the old frame is handed back once
    m.map_page(0x60_0000, 0x4020_0000, PageSize::Medium, 0x3);
    m.map_page(0xA0_0000, 0x4040_0000, PageSize::Medium, 0x3);
    let before = m.released.len();
    assert_eq!(m.map_page(0x80_0000, 0x4020_0000, PageSize::Medium, 0x3), Some(VirtAddr(0x4020_0000)));
    assert_eq!(m.virt_to_phys(0x4020_0000), PhysAddr(0x80_0000));
    assert_eq!(m.virt_to_phys(0x4040_0000), PhysAddr(0xA0_0000));
    assert_eq!(m.released.len() - before, 1);
    // unmapping a 1 GiB page leaves the other
    m.unmap_page(0x8000_0000, PageSize::Huge);
    assert_eq!(m.virt_to_phys(0x8000_0000), PhysAddr(0));
    assert_eq!(m.virt_to_phys(0xC000_0000), PhysAddr(0x4000_0000));
}
