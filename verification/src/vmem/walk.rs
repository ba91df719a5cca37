//! Walks of the four-level page-table hierarchy, written as step machines.
//!
//! Page tables live in physical memory. A walk decides what to do next; its
//! caller reads and writes table entries, allocates and frees frames,
//! invalidates translations and records page owners, and reports each
//! outcome back as an event. The level of a table is 3 for the root, 2 for a
//! directory-pointer table, 1 for a directory and 0 for a page table.
use vstd::prelude::*;
use crate::common::MEMORY_DEFAULT_PAGE_USIZE;
use crate::memory::address::{PhysAddr, VirtAddr, MemAddr, page_table_indexes};
use crate::permissions::Owner;
use crate::vmem::{PageSize, PAGING_PRESENT, PAGING_WRITEABLE, PAGING_WRITETHROUGH, PAGING_IS_PAGE_FRAME};
use crate::vmem::pages::usize_to_page_index;

verus! {

/// A page table: 512 entries, each a frame address with flag bits.
pub struct PageTable {
    pub entries: [PhysAddr; 512],
}

/// What a walk asks its caller to do.
#[derive(Clone, Copy, Debug, PartialEq, Eq, Structural)]
pub enum WalkOp {
    /// Read entry `index` of the table at `table`; answer with the entry.
    Read { table: PhysAddr, index: usize },
    /// Write `value` into entry `index` of the table at `table`.
    Write { table: PhysAddr, index: usize, value: PhysAddr },
    /// Allocate one default-size frame, owned by the kernel, for a new
    /// table; answer with the frame, or none.
    AllocTable,
    /// Map `frame` at its own address as a default-size page, present,
    /// writeable and write-through, owned by the memory manager.
    IdentityMap { frame: PhysAddr },
    /// Free the frame at `frame` on behalf of `frame_owner`, then unmap the
    /// default-size page at that address on behalf of `unmap_owner`.
    Release { frame: PhysAddr, frame_owner: Owner, unmap_owner: Owner },
    /// Drop any cached translation of `addr`.
    Invalidate { addr: VirtAddr },
    /// Record `owner` as the owner of default-size page `page`.
    SetOwner { page: usize, owner: Owner },
    /// Mark `count` default-size pages from page `page` free and unowned.
    ClearPages { page: usize, count: usize },
    /// The walk is over: the mapped address, or none when nothing was
    /// mapped.
    Finish { mapped: Option<VirtAddr> },
    /// The translation is over: the frame the address maps to, 0 when none.
    Translated { frame: PhysAddr },
}

/// What the caller reports back.
#[derive(Clone, Copy, Debug, PartialEq, Eq, Structural)]
pub enum WalkEvent {
    /// The entry that was read.
    Entry(PhysAddr),
    /// The frame that was allocated, or none.
    Frame(Option<PhysAddr>),
    /// The asked action was carried out.
    Done,
}

/// The index into the table at `level` that translates `v`.
pub open spec fn slot(v: VirtAddr, level: u8) -> usize {
    let (a, b, c, d) = page_table_indexes(v.0);
    if level == 3 { a } else if level == 2 { b } else if level == 1 { c } else { d }
}

/// The index into the table at `level` that translates `v`.
pub fn slot_of(v: VirtAddr, level: u8) -> (r: usize)
    ensures
        r == slot(v, level),
        r < 512,
{
    let (a, b, c, d) = v.get_page_table_indexes();
    if level == 3 { a } else if level == 2 { b } else if level == 1 { c } else { d }
}

/// The table or frame an entry names: its low 12 bits cleared.
pub open spec fn frame_of(e: PhysAddr) -> PhysAddr {
    PhysAddr(e.0 & !0xFFFusize)
}

/// The 2 MiB frame an entry names.
pub open spec fn frame_2m_of(e: PhysAddr) -> PhysAddr {
    PhysAddr(e.0 & !0x1F_FFFFusize)
}

/// The 1 GiB frame an entry names.
pub open spec fn frame_1g_of(e: PhysAddr) -> PhysAddr {
    PhysAddr(e.0 & !0x3FFF_FFFFusize)
}

/// The entry maps a large page rather than naming a table.
pub open spec fn is_large(e: PhysAddr) -> bool {
    e.0 & 0x80usize != 0
}

/// The stage of a translation.
#[derive(Clone, Copy, Debug, PartialEq, Eq, Structural)]
pub enum TranslateStage {
    /// Awaiting the entry of the table at `level`.
    Reading { level: u8 },
    /// Over.
    Finished { frame: PhysAddr },
}

/// A translation of `v` through the hierarchy rooted at `root`.
#[derive(Clone, Copy, Debug, PartialEq, Eq, Structural)]
pub struct TranslateWalk {
    pub root: PhysAddr,
    pub v: VirtAddr,
    pub stage: TranslateStage,
}

/// The next stage and action of a translation on an entry read at `level`:
/// an empty entry ends it with 0; a large-page entry of a directory-pointer
/// table or directory ends it with the 1 GiB or 2 MiB frame; an entry of a
/// page table ends it with the frame; any other entry names the table read
/// next.
pub open spec fn translate_next(s: TranslateWalk, ev: WalkEvent) -> (TranslateWalk, WalkOp) {
    match (s.stage, ev) {
        (TranslateStage::Reading { level }, WalkEvent::Entry(e)) => {
            if level == 0 {
                (TranslateWalk { stage: TranslateStage::Finished { frame: frame_of(e) }, ..s },
                    WalkOp::Translated { frame: frame_of(e) })
            } else if level == 2 && is_large(e) {
                (TranslateWalk { stage: TranslateStage::Finished { frame: frame_1g_of(e) }, ..s },
                    WalkOp::Translated { frame: frame_1g_of(e) })
            } else if level == 1 && is_large(e) {
                (TranslateWalk { stage: TranslateStage::Finished { frame: frame_2m_of(e) }, ..s },
                    WalkOp::Translated { frame: frame_2m_of(e) })
            } else if e.0 == 0 {
                (TranslateWalk { stage: TranslateStage::Finished { frame: PhysAddr(0) }, ..s },
                    WalkOp::Translated { frame: PhysAddr(0) })
            } else {
                (TranslateWalk { stage: TranslateStage::Reading { level: (level - 1) as u8 }, ..s },
                    WalkOp::Read { table: frame_of(e), index: slot(s.v, (level - 1) as u8) })
            }
        },
        (TranslateStage::Finished { frame }, _) => (s, WalkOp::Translated { frame }),
        (_, _) => (s, WalkOp::Translated { frame: PhysAddr(0) }),
    }
}

impl TranslateWalk {
    /// A translation is reading at a level of the hierarchy, or over.
    pub open spec fn wf(&self) -> bool {
        match self.stage {
            TranslateStage::Reading { level } => level <= 3,
            TranslateStage::Finished { .. } => true,
        }
    }

    /// The event the walk waits for is an entry.
    pub open spec fn awaits(&self, ev: WalkEvent) -> bool {
        match self.stage {
            TranslateStage::Reading { .. } => ev is Entry,
            TranslateStage::Finished { .. } => true,
        }
    }

    /// Starts translating `v` through the hierarchy rooted at `root`: the
    /// root's entry for `v` is read first.
    pub fn virt_to_phys(root: PhysAddr, v: VirtAddr) -> (r: (TranslateWalk, WalkOp))
        ensures
            r.0 == (TranslateWalk { root, v, stage: TranslateStage::Reading { level: 3 } }),
            r.1 == (WalkOp::Read { table: root, index: slot(v, 3) }),
            r.0.wf(),
    {
        (TranslateWalk { root, v, stage: TranslateStage::Reading { level: 3 } }, WalkOp::Read { table: root, index: slot_of(v, 3) })
    }

    /// Takes the next step of the translation on `ev`.
    pub fn step(&self, ev: WalkEvent) -> (r: (TranslateWalk, WalkOp))
        requires
            self.wf(),
            self.awaits(ev),
        ensures
            r == translate_next(*self, ev),
            r.0.wf(),
    {
        match (self.stage, ev) {
            (TranslateStage::Reading { level }, WalkEvent::Entry(e)) => {
                if level == 0 {
                    let f = PhysAddr(e.0 & !0xFFFusize);
                    (TranslateWalk { stage: TranslateStage::Finished { frame: f }, ..*self }, WalkOp::Translated { frame: f })
                } else if level == 2 && e.0 & PAGING_IS_PAGE_FRAME != 0 {
                    let f = PhysAddr(e.0 & !0x3FFF_FFFFusize);
                    (TranslateWalk { stage: TranslateStage::Finished { frame: f }, ..*self }, WalkOp::Translated { frame: f })
                } else if level == 1 && e.0 & PAGING_IS_PAGE_FRAME != 0 {
                    let f = PhysAddr(e.0 & !0x1F_FFFFusize);
                    (TranslateWalk { stage: TranslateStage::Finished { frame: f }, ..*self }, WalkOp::Translated { frame: f })
                } else if e.0 == 0 {
                    (TranslateWalk { stage: TranslateStage::Finished { frame: PhysAddr(0) }, ..*self },
                        WalkOp::Translated { frame: PhysAddr(0) })
                } else {
                    let next: u8 = level - 1;
                    (TranslateWalk { stage: TranslateStage::Reading { level: next }, ..*self },
                        WalkOp::Read { table: PhysAddr(e.0 & !0xFFFusize), index: slot_of(self.v, next) })
                }
            },
            (TranslateStage::Finished { frame }, _) => (*self, WalkOp::Translated { frame }),
            (_, _) => (*self, WalkOp::Translated { frame: PhysAddr(0) }),
        }
    }
}

/// The level whose entry maps a page of `ps`: the directory-pointer table
/// for 1 GiB pages, the directory for 2 MiB pages, the page table for 4 KiB
/// pages.
pub open spec fn leaf_level(ps: PageSize) -> u8 {
    match ps {
        PageSize::Huge => 2,
        PageSize::Medium => 1,
        PageSize::Small => 0,
    }
}

/// The entry that maps frame `p` as a page of `ps` with `flags`: large
/// pages carry the large-page bit as well.
pub open spec fn leaf_value(p: PhysAddr, flags: usize, ps: PageSize) -> PhysAddr {
    if ps == PageSize::Small {
        PhysAddr(p.0 | flags)
    } else {
        PhysAddr(p.0 | (flags | 0x80usize))
    }
}

/// The flags of an entry that names a table: present, writeable,
/// write-through.
pub open spec fn table_flags() -> usize {
    0x1usize | 0x2usize | 0x8usize
}

/// The stage of a mapping.
#[derive(Clone, Copy, Debug, PartialEq, Eq, Structural)]
pub enum MapStage {
    /// Awaiting the entry of the table at `level` on the way down.
    Probe { level: u8, table: PhysAddr },
    /// Awaiting a frame for the table the entry will name.
    Alloc { level: u8, table: PhysAddr },
    /// Awaiting the write of the new table's frame into the entry.
    Linked { level: u8, table: PhysAddr, frame: PhysAddr },
    /// Awaiting the identity mapping of the new table.
    Mapped { level: u8, table: PhysAddr },
    /// Awaiting the entry, to add the table flags to it.
    Flagging { level: u8, table: PhysAddr },
    /// Awaiting the write of the flagged entry.
    Flagged { level: u8, table: PhysAddr },
    /// Awaiting the entry, to follow it into the new table.
    Follow { level: u8, table: PhysAddr },
    /// Awaiting the directory-pointer entry a 1 GiB page will take.
    HugeSlot { table: PhysAddr },
    /// Awaiting entry `i` of the directory the 1 GiB page displaces.
    HugeScan { table: PhysAddr, dir: PhysAddr, i: usize },
    /// Awaiting the release of the table entry `i` of that directory names.
    HugeFreed { table: PhysAddr, dir: PhysAddr, i: usize },
    /// Awaiting, in round `i`, the directory entry a 2 MiB page will take.
    MedSlot { table: PhysAddr, i: usize },
    /// Awaiting entry `i` of the directory.
    MedScan { table: PhysAddr, i: usize },
    /// Awaiting the release of the table entry `i` names.
    MedFreed { table: PhysAddr, i: usize },
    /// Awaiting the entry at `level` whose table the large page displaces.
    Tail { level: u8, table: PhysAddr },
    /// Awaiting the release of that table.
    Cleared { level: u8, table: PhysAddr },
    /// Awaiting the write of the page's entry.
    Written,
    /// Awaiting the invalidation of the address.
    Invalidated,
    /// Awaiting the record of the page's owner.
    Owned,
    /// Over.
    Finished { mapped: Option<VirtAddr> },
}

/// A mapping of frame `p` at `v` as a page of `page_size` with `flags`, for
/// `owner`, in the hierarchy rooted at `root`.
#[derive(Clone, Copy, Debug, PartialEq, Eq, Structural)]
pub struct MapWalk {
    pub root: PhysAddr,
    pub p: PhysAddr,
    pub v: VirtAddr,
    pub owner: Owner,
    pub page_size: PageSize,
    pub flags: usize,
    pub stage: MapStage,
}

/// `s` moved to stage `st`.
pub open spec fn map_at(s: MapWalk, st: MapStage) -> MapWalk {
    MapWalk { stage: st, ..s }
}

/// Writing the page's entry into the table at `level`.
pub open spec fn map_write_leaf(s: MapWalk, level: u8, table: PhysAddr) -> (MapWalk, WalkOp) {
    (map_at(s, MapStage::Written), WalkOp::Write { table, index: slot(s.v, level), value: leaf_value(s.p, s.flags, s.page_size) })
}

/// Arriving at the table at `level`, `fresh` when it was just made: above
/// the page's level, its entry is read; at the page's level, a 4 KiB page or
/// a fresh table takes the entry at once, while a table that was there
/// already is first cleared of what the large page displaces.
pub open spec fn map_arrive(s: MapWalk, level: u8, table: PhysAddr, fresh: bool) -> (MapWalk, WalkOp) {
    if level == leaf_level(s.page_size) {
        if level == 0 || fresh {
            map_write_leaf(s, level, table)
        } else if level == 2 {
            (map_at(s, MapStage::HugeSlot { table }), WalkOp::Read { table, index: slot(s.v, 2) })
        } else {
            (map_at(s, MapStage::MedSlot { table, i: 0 }), WalkOp::Read { table, index: slot(s.v, 1) })
        }
    } else {
        (map_at(s, MapStage::Probe { level, table }), WalkOp::Read { table, index: slot(s.v, level) })
    }
}

/// After entry `i` of the displaced directory: the next entry, or, after
/// the last, the directory-pointer entry that names the directory.
pub open spec fn map_huge_next(s: MapWalk, table: PhysAddr, dir: PhysAddr, i: usize) -> (MapWalk, WalkOp) {
    if i + 1 < 512 {
        (map_at(s, MapStage::HugeScan { table, dir, i: (i + 1) as usize }), WalkOp::Read { table: dir, index: (i + 1) as usize })
    } else {
        (map_at(s, MapStage::Tail { level: 2, table }), WalkOp::Read { table, index: slot(s.v, 2) })
    }
}

/// After round `i` over the directory: the next round, or, after the last,
/// the directory entry whose table the page displaces.
pub open spec fn map_med_next(s: MapWalk, table: PhysAddr, i: usize) -> (MapWalk, WalkOp) {
    if i + 1 < 512 {
        (map_at(s, MapStage::MedSlot { table, i: (i + 1) as usize }), WalkOp::Read { table, index: slot(s.v, 1) })
    } else {
        (map_at(s, MapStage::Tail { level: 1, table }), WalkOp::Read { table, index: slot(s.v, 1) })
    }
}

/// The next stage and action of a mapping on `ev`. On the way down an empty
/// entry gets a new table: a frame is allocated (none ends the walk with
/// nothing mapped), written into the entry, identity mapped, given the table
/// flags, and followed. At the page's level a 4 KiB page, or a large page in
/// a fresh table, has its entry written at once. A 1 GiB page whose slot
/// names a directory first releases each table that an entry of that
/// directory names without mapping a large page, then the directory. A
/// 2 MiB page makes 512 rounds, each reading its slot and, while the slot
/// does not map a large page, releasing the table that directory entry `i`
/// names; it then releases the table its slot names. The entry is then
/// written, the address invalidated and the owner of the frame's first page
/// recorded, and the walk ends with `v`.
pub open spec fn map_next(s: MapWalk, ev: WalkEvent) -> (MapWalk, WalkOp) {
    match (s.stage, ev) {
        (MapStage::Probe { level, table }, WalkEvent::Entry(e)) => {
            if e.0 == 0 {
                (map_at(s, MapStage::Alloc { level, table }), WalkOp::AllocTable)
            } else {
                map_arrive(s, (level - 1) as u8, frame_of(e), false)
            }
        },
        (MapStage::Alloc { .. }, WalkEvent::Frame(None)) => (map_at(s, MapStage::Finished { mapped: None }), WalkOp::Finish { mapped: None }),
        (MapStage::Alloc { level, table }, WalkEvent::Frame(Some(f))) =>
            (map_at(s, MapStage::Linked { level, table, frame: f }), WalkOp::Write { table, index: slot(s.v, level), value: f }),
        (MapStage::Linked { level, table, frame }, WalkEvent::Done) =>
            (map_at(s, MapStage::Mapped { level, table }), WalkOp::IdentityMap { frame }),
        (MapStage::Mapped { level, table }, WalkEvent::Done) =>
            (map_at(s, MapStage::Flagging { level, table }), WalkOp::Read { table, index: slot(s.v, level) }),
        (MapStage::Flagging { level, table }, WalkEvent::Entry(e)) =>
            (map_at(s, MapStage::Flagged { level, table }), WalkOp::Write { table, index: slot(s.v, level), value: PhysAddr(e.0 | table_flags()) }),
        (MapStage::Flagged { level, table }, WalkEvent::Done) =>
            (map_at(s, MapStage::Follow { level, table }), WalkOp::Read { table, index: slot(s.v, level) }),
        (MapStage::Follow { level, .. }, WalkEvent::Entry(e)) => map_arrive(s, (level - 1) as u8, frame_of(e), true),
        (MapStage::HugeSlot { table }, WalkEvent::Entry(e)) => {
            if is_large(e) {
                map_write_leaf(s, 2, table)
            } else {
                (map_at(s, MapStage::HugeScan { table, dir: frame_of(e), i: 0 }), WalkOp::Read { table: frame_of(e), index: 0 })
            }
        },
        (MapStage::HugeScan { table, dir, i }, WalkEvent::Entry(e)) => {
            if !is_large(e) {
                (map_at(s, MapStage::HugeFreed { table, dir, i }),
                    WalkOp::Release { frame: frame_of(e), frame_owner: Owner::Kernel, unmap_owner: Owner::Memory })
            } else {
                map_huge_next(s, table, dir, i)
            }
        },
        (MapStage::HugeFreed { table, dir, i }, WalkEvent::Done) => map_huge_next(s, table, dir, i),
        (MapStage::MedSlot { table, i }, WalkEvent::Entry(e)) => {
            if !is_large(e) {
                (map_at(s, MapStage::MedScan { table, i }), WalkOp::Read { table, index: i })
            } else {
                map_med_next(s, table, i)
            }
        },
        (MapStage::MedScan { table, i }, WalkEvent::Entry(e)) =>
            (map_at(s, MapStage::MedFreed { table, i }),
                WalkOp::Release { frame: frame_of(e), frame_owner: Owner::Kernel, unmap_owner: Owner::Memory }),
        (MapStage::MedFreed { table, i }, WalkEvent::Done) => map_med_next(s, table, i),
        (MapStage::Tail { level, table }, WalkEvent::Entry(e)) =>
            (map_at(s, MapStage::Cleared { level, table }),
                WalkOp::Release { frame: frame_of(e), frame_owner: Owner::Kernel, unmap_owner: Owner::Memory }),
        (MapStage::Cleared { level, table }, WalkEvent::Done) => map_write_leaf(s, level, table),
        (MapStage::Written, WalkEvent::Done) => (map_at(s, MapStage::Invalidated), WalkOp::Invalidate { addr: s.v }),
        (MapStage::Invalidated, WalkEvent::Done) =>
            (map_at(s, MapStage::Owned), WalkOp::SetOwner { page: s.p.0 / MEMORY_DEFAULT_PAGE_USIZE, owner: s.owner }),
        (MapStage::Owned, WalkEvent::Done) => (map_at(s, MapStage::Finished { mapped: Some(s.v) }), WalkOp::Finish { mapped: Some(s.v) }),
        (MapStage::Finished { mapped }, _) => (s, WalkOp::Finish { mapped }),
        (_, _) => (s, WalkOp::Finish { mapped: None }),
    }
}

impl MapWalk {
    /// The stage fits the page size: the way down stays above the page's
    /// level, the clearing rounds stay within the 512 entries, and only the
    /// page's own level is cleared.
    pub open spec fn wf(&self) -> bool {
        let ll = leaf_level(self.page_size);
        match self.stage {
            MapStage::Probe { level, .. } | MapStage::Alloc { level, .. } | MapStage::Linked { level, .. }
            | MapStage::Mapped { level, .. } | MapStage::Flagging { level, .. } | MapStage::Flagged { level, .. }
            | MapStage::Follow { level, .. } => ll < level <= 3,
            MapStage::HugeSlot { .. } => self.page_size == PageSize::Huge,
            MapStage::HugeScan { i, .. } | MapStage::HugeFreed { i, .. } => self.page_size == PageSize::Huge && i < 512,
            MapStage::MedSlot { i, .. } | MapStage::MedScan { i, .. } | MapStage::MedFreed { i, .. } =>
                self.page_size == PageSize::Medium && i < 512,
            MapStage::Tail { level, .. } | MapStage::Cleared { level, .. } => level == ll && level >= 1,
            _ => true,
        }
    }

    /// `ev` is the kind of event the stage waits for.
    pub open spec fn awaits(&self, ev: WalkEvent) -> bool {
        match self.stage {
            MapStage::Probe { .. } | MapStage::Flagging { .. } | MapStage::Follow { .. } | MapStage::HugeSlot { .. }
            | MapStage::HugeScan { .. } | MapStage::MedSlot { .. } | MapStage::MedScan { .. } | MapStage::Tail { .. } => ev is Entry,
            MapStage::Alloc { .. } => ev is Frame,
            MapStage::Finished { .. } => true,
            _ => ev is Done,
        }
    }

    /// This walk at stage `st`.
    fn at(&self, st: MapStage) -> (r: MapWalk)
        ensures
            r == map_at(*self, st),
    {
        MapWalk { stage: st, ..*self }
    }

    /// Writes the page's entry into the table at `level`.
    fn write_leaf(&self, level: u8, table: PhysAddr) -> (r: (MapWalk, WalkOp))
        ensures
            r == map_write_leaf(*self, level, table),
    {
        let value = if self.page_size == PageSize::Small {
            PhysAddr(self.p.0 | self.flags)
        } else {
            PhysAddr(self.p.0 | (self.flags | PAGING_IS_PAGE_FRAME))
        };
        (self.at(MapStage::Written), WalkOp::Write { table, index: slot_of(self.v, level), value })
    }

    /// Arrives at the table at `level`.
    fn arrive(&self, level: u8, table: PhysAddr, fresh: bool) -> (r: (MapWalk, WalkOp))
        ensures
            r == map_arrive(*self, level, table, fresh),
    {
        let ll: u8 = match self.page_size {
            PageSize::Huge => 2,
            PageSize::Medium => 1,
            PageSize::Small => 0,
        };
        if level == ll {
            if level == 0 || fresh {
                self.write_leaf(level, table)
            } else if level == 2 {
                (self.at(MapStage::HugeSlot { table }), WalkOp::Read { table, index: slot_of(self.v, 2) })
            } else {
                (self.at(MapStage::MedSlot { table, i: 0 }), WalkOp::Read { table, index: slot_of(self.v, 1) })
            }
        } else {
            (self.at(MapStage::Probe { level, table }), WalkOp::Read { table, index: slot_of(self.v, level) })
        }
    }

    /// The step after entry `i` of the displaced directory.
    fn huge_next(&self, table: PhysAddr, dir: PhysAddr, i: usize) -> (r: (MapWalk, WalkOp))
        requires
            i < 512,
        ensures
            r == map_huge_next(*self, table, dir, i),
    {
        if i + 1 < 512 {
            (self.at(MapStage::HugeScan { table, dir, i: i + 1 }), WalkOp::Read { table: dir, index: i + 1 })
        } else {
            (self.at(MapStage::Tail { level: 2, table }), WalkOp::Read { table, index: slot_of(self.v, 2) })
        }
    }

    /// The step after round `i` over the directory.
    fn med_next(&self, table: PhysAddr, i: usize) -> (r: (MapWalk, WalkOp))
        requires
            i < 512,
        ensures
            r == map_med_next(*self, table, i),
    {
        if i + 1 < 512 {
            (self.at(MapStage::MedSlot { table, i: i + 1 }), WalkOp::Read { table, index: slot_of(self.v, 1) })
        } else {
            (self.at(MapStage::Tail { level: 1, table }), WalkOp::Read { table, index: slot_of(self.v, 1) })
        }
    }

    /// Starts mapping frame `p` at `v` as a page of `page_size` with
    /// `flags` for `owner`: a frame not aligned to the page size ends the
    /// walk at once with nothing mapped; otherwise the root's entry for `v`
    /// is read first.
    pub fn map_page(root: PhysAddr, p: PhysAddr, v: VirtAddr, owner: Owner, page_size: PageSize, flags: usize) -> (r: (MapWalk, WalkOp))
        ensures
            r.0.root == root && r.0.p == p && r.0.v == v && r.0.owner == owner && r.0.page_size == page_size && r.0.flags == flags,
            p.0 % page_size.size() != 0 ==> r.0.stage == (MapStage::Finished { mapped: None }) && r.1 == (WalkOp::Finish { mapped: None }),
            p.0 % page_size.size() == 0 ==> r.0.stage == (MapStage::Probe { level: 3, table: root })
                && r.1 == (WalkOp::Read { table: root, index: slot(v, 3) }),
            r.0.wf(),
    {
        let s = MapWalk { root, p, v, owner, page_size, flags, stage: MapStage::Finished { mapped: None } };
        if p.0 % page_size.into_bits() != 0 {
            (s, WalkOp::Finish { mapped: None })
        } else {
            (s.at(MapStage::Probe { level: 3, table: root }), WalkOp::Read { table: root, index: slot_of(v, 3) })
        }
    }

    /// Starts mapping frame `p` at the address of its 4 KiB frame.
    pub fn identity_map_page(root: PhysAddr, p: PhysAddr, owner: Owner, page_size: PageSize, flags: usize) -> (r: (MapWalk, WalkOp))
        ensures
            r.0.v == VirtAddr(frame_of(p).0),
            r.0.root == root && r.0.p == p && r.0.owner == owner && r.0.page_size == page_size && r.0.flags == flags,
            p.0 % page_size.size() != 0 ==> r.0.stage == (MapStage::Finished { mapped: None }) && r.1 == (WalkOp::Finish { mapped: None }),
            p.0 % page_size.size() == 0 ==> r.0.stage == (MapStage::Probe { level: 3, table: root })
                && r.1 == (WalkOp::Read { table: root, index: slot(VirtAddr(frame_of(p).0), 3) }),
            r.0.wf(),
    {
        Self::map_page(root, p, VirtAddr(p.0 & !0xFFFusize), owner, page_size, flags)
    }

    /// Takes the next step of the mapping on `ev`.
    pub fn step(&self, ev: WalkEvent) -> (r: (MapWalk, WalkOp))
        requires
            self.wf(),
            self.awaits(ev),
        ensures
            r == map_next(*self, ev),
            r.0.wf(),
    {
        match (self.stage, ev) {
            (MapStage::Probe { level, table }, WalkEvent::Entry(e)) => {
                if e.0 == 0 {
                    (self.at(MapStage::Alloc { level, table }), WalkOp::AllocTable)
                } else {
                    self.arrive(level - 1, PhysAddr(e.0 & !0xFFFusize), false)
                }
            },
            (MapStage::Alloc { .. }, WalkEvent::Frame(None)) =>
                (self.at(MapStage::Finished { mapped: None }), WalkOp::Finish { mapped: None }),
            (MapStage::Alloc { level, table }, WalkEvent::Frame(Some(f))) =>
                (self.at(MapStage::Linked { level, table, frame: f }), WalkOp::Write { table, index: slot_of(self.v, level), value: f }),
            (MapStage::Linked { level, table, frame }, WalkEvent::Done) =>
                (self.at(MapStage::Mapped { level, table }), WalkOp::IdentityMap { frame }),
            (MapStage::Mapped { level, table }, WalkEvent::Done) =>
                (self.at(MapStage::Flagging { level, table }), WalkOp::Read { table, index: slot_of(self.v, level) }),
            (MapStage::Flagging { level, table }, WalkEvent::Entry(e)) =>
                (self.at(MapStage::Flagged { level, table }), WalkOp::Write {
                    table,
                    index: slot_of(self.v, level),
                    value: PhysAddr(e.0 | (PAGING_PRESENT | PAGING_WRITEABLE | PAGING_WRITETHROUGH)),
                }),
            (MapStage::Flagged { level, table }, WalkEvent::Done) =>
                (self.at(MapStage::Follow { level, table }), WalkOp::Read { table, index: slot_of(self.v, level) }),
            (MapStage::Follow { level, .. }, WalkEvent::Entry(e)) => self.arrive(level - 1, PhysAddr(e.0 & !0xFFFusize), true),
            (MapStage::HugeSlot { table }, WalkEvent::Entry(e)) => {
                if e.0 & PAGING_IS_PAGE_FRAME != 0 {
                    self.write_leaf(2, table)
                } else {
                    let dir = PhysAddr(e.0 & !0xFFFusize);
                    (self.at(MapStage::HugeScan { table, dir, i: 0 }), WalkOp::Read { table: dir, index: 0 })
                }
            },
            (MapStage::HugeScan { table, dir, i }, WalkEvent::Entry(e)) => {
                if e.0 & PAGING_IS_PAGE_FRAME == 0 {
                    (self.at(MapStage::HugeFreed { table, dir, i }),
                        WalkOp::Release { frame: PhysAddr(e.0 & !0xFFFusize), frame_owner: Owner::Kernel, unmap_owner: Owner::Memory })
                } else {
                    self.huge_next(table, dir, i)
                }
            },
            (MapStage::HugeFreed { table, dir, i }, WalkEvent::Done) => self.huge_next(table, dir, i),
            (MapStage::MedSlot { table, i }, WalkEvent::Entry(e)) => {
                if e.0 & PAGING_IS_PAGE_FRAME == 0 {
                    (self.at(MapStage::MedScan { table, i }), WalkOp::Read { table, index: i })
                } else {
                    self.med_next(table, i)
                }
            },
            (MapStage::MedScan { table, i }, WalkEvent::Entry(e)) =>
                (self.at(MapStage::MedFreed { table, i }),
                    WalkOp::Release { frame: PhysAddr(e.0 & !0xFFFusize), frame_owner: Owner::Kernel, unmap_owner: Owner::Memory }),
            (MapStage::MedFreed { table, i }, WalkEvent::Done) => self.med_next(table, i),
            (MapStage::Tail { level, table }, WalkEvent::Entry(e)) =>
                (self.at(MapStage::Cleared { level, table }),
                    WalkOp::Release { frame: PhysAddr(e.0 & !0xFFFusize), frame_owner: Owner::Kernel, unmap_owner: Owner::Memory }),
            (MapStage::Cleared { level, table }, WalkEvent::Done) => self.write_leaf(level, table),
            (MapStage::Written, WalkEvent::Done) => (self.at(MapStage::Invalidated), WalkOp::Invalidate { addr: self.v }),
            (MapStage::Invalidated, WalkEvent::Done) =>
                (self.at(MapStage::Owned), WalkOp::SetOwner { page: usize_to_page_index(self.p.0), owner: self.owner }),
            (MapStage::Owned, WalkEvent::Done) =>
                (self.at(MapStage::Finished { mapped: Some(self.v) }), WalkOp::Finish { mapped: Some(self.v) }),
            (MapStage::Finished { mapped }, _) => (*self, WalkOp::Finish { mapped }),
            (_, _) => (*self, WalkOp::Finish { mapped: None }),
        }
    }
}

/// The stage of an unmapping.
#[derive(Clone, Copy, Debug, PartialEq, Eq, Structural)]
pub enum UnmapStage {
    /// Awaiting the root's entry.
    Root,
    /// Awaiting the directory-pointer entry of a 1 GiB page.
    HugeSlot { pdpt: PhysAddr },
    /// Awaiting entry `i` of the directory that entry names.
    HugeScan { pdpt: PhysAddr, dir: PhysAddr, i: usize },
    /// Awaiting the release of the table entry `i` of the directory names.
    HugeFreed { pdpt: PhysAddr, dir: PhysAddr, i: usize },
    /// Awaiting the directory-pointer entry, to release its directory.
    HugeTail { pdpt: PhysAddr },
    /// Awaiting that release.
    HugeReleased { pdpt: PhysAddr },
    /// Awaiting the entry at `level` (2 or 1) on the way down.
    Check { level: u8, table: PhysAddr },
    /// Awaiting, in round `i`, the directory entry of a 2 MiB page.
    MedSlot { pdpt: PhysAddr, pd: PhysAddr, i: usize },
    /// Awaiting entry `i` of the directory.
    MedScan { pdpt: PhysAddr, pd: PhysAddr, i: usize },
    /// Awaiting the release of the table entry `i` names.
    MedFreed { pdpt: PhysAddr, pd: PhysAddr, i: usize },
    /// Awaiting the directory-pointer entry, to release the directory.
    MedTail { pdpt: PhysAddr, pd: PhysAddr },
    /// Awaiting that release.
    MedReleased { pd: PhysAddr },
    /// Awaiting the page's entry at `level`, to clear its pages' records.
    Info { level: u8, table: PhysAddr },
    /// Awaiting the clearing of the records.
    Cleared { level: u8, table: PhysAddr },
    /// Awaiting the write of the empty entry.
    Zeroed { level: u8, table: PhysAddr },
    /// Awaiting the invalidation of the address.
    Invalidated { level: u8, table: PhysAddr },
    /// Over.
    Finished,
}

/// An unmapping of the page of `page_size` at `v`, for `owner`, in the
/// hierarchy rooted at `root`.
#[derive(Clone, Copy, Debug, PartialEq, Eq, Structural)]
pub struct UnmapWalk {
    pub root: PhysAddr,
    pub v: VirtAddr,
    pub owner: Owner,
    pub page_size: PageSize,
    pub stage: UnmapStage,
}

/// `s` moved to stage `st`.
pub open spec fn unmap_at(s: UnmapWalk, st: UnmapStage) -> UnmapWalk {
    UnmapWalk { stage: st, ..s }
}

/// The walk is over.
pub open spec fn unmap_done(s: UnmapWalk) -> (UnmapWalk, WalkOp) {
    (unmap_at(s, UnmapStage::Finished), WalkOp::Finish { mapped: None })
}

/// The frame the page entry `e` at `level` maps.
pub open spec fn frame_at(e: PhysAddr, level: u8) -> PhysAddr {
    if level == 2 { frame_1g_of(e) } else if level == 1 { frame_2m_of(e) } else { frame_of(e) }
}

/// After entry `i` of the directory under a 1 GiB slot.
pub open spec fn unmap_huge_next(s: UnmapWalk, pdpt: PhysAddr, dir: PhysAddr, i: usize) -> (UnmapWalk, WalkOp) {
    if i + 1 < 512 {
        (unmap_at(s, UnmapStage::HugeScan { pdpt, dir, i: (i + 1) as usize }), WalkOp::Read { table: dir, index: (i + 1) as usize })
    } else {
        (unmap_at(s, UnmapStage::HugeTail { pdpt }), WalkOp::Read { table: pdpt, index: slot(s.v, 2) })
    }
}

/// After round `i` over the directory of a 2 MiB slot.
pub open spec fn unmap_med_next(s: UnmapWalk, pdpt: PhysAddr, pd: PhysAddr, i: usize) -> (UnmapWalk, WalkOp) {
    if i + 1 < 512 {
        (unmap_at(s, UnmapStage::MedSlot { pdpt, pd, i: (i + 1) as usize }), WalkOp::Read { table: pd, index: slot(s.v, 1) })
    } else {
        (unmap_at(s, UnmapStage::MedTail { pdpt, pd }), WalkOp::Read { table: pdpt, index: slot(s.v, 2) })
    }
}

/// The next stage and action of an unmapping on `ev`. On the way down an
/// empty entry ends the walk. A 1 GiB page releases the tables of the
/// directory its slot names, then that directory; a 2 MiB page releases the
/// tables its directory names, then the directory. The page's entry is then
/// read, the records of its pages cleared, the entry emptied and the address
/// invalidated; the walk then goes on down from the emptied slot.
pub open spec fn unmap_next(s: UnmapWalk, ev: WalkEvent) -> (UnmapWalk, WalkOp) {
    match (s.stage, ev) {
        (UnmapStage::Root, WalkEvent::Entry(e)) => {
            if e.0 == 0 {
                unmap_done(s)
            } else if s.page_size == PageSize::Huge {
                (unmap_at(s, UnmapStage::HugeSlot { pdpt: frame_of(e) }), WalkOp::Read { table: frame_of(e), index: slot(s.v, 2) })
            } else {
                (unmap_at(s, UnmapStage::Check { level: 2, table: frame_of(e) }), WalkOp::Read { table: frame_of(e), index: slot(s.v, 2) })
            }
        },
        (UnmapStage::HugeSlot { pdpt }, WalkEvent::Entry(e)) => {
            if !is_large(e) {
                (unmap_at(s, UnmapStage::HugeScan { pdpt, dir: frame_of(e), i: 0 }), WalkOp::Read { table: frame_of(e), index: 0 })
            } else {
                (unmap_at(s, UnmapStage::Info { level: 2, table: pdpt }), WalkOp::Read { table: pdpt, index: slot(s.v, 2) })
            }
        },
        (UnmapStage::HugeScan { pdpt, dir, i }, WalkEvent::Entry(e)) => {
            if !is_large(e) {
                (unmap_at(s, UnmapStage::HugeFreed { pdpt, dir, i }),
                    WalkOp::Release { frame: frame_of(e), frame_owner: Owner::Memory, unmap_owner: Owner::Memory })
            } else {
                unmap_huge_next(s, pdpt, dir, i)
            }
        },
        (UnmapStage::HugeFreed { pdpt, dir, i }, WalkEvent::Done) => unmap_huge_next(s, pdpt, dir, i),
        (UnmapStage::HugeTail { pdpt }, WalkEvent::Entry(e)) =>
            (unmap_at(s, UnmapStage::HugeReleased { pdpt }),
                WalkOp::Release { frame: frame_of(e), frame_owner: Owner::Kernel, unmap_owner: s.owner }),
        (UnmapStage::HugeReleased { pdpt }, WalkEvent::Done) =>
            (unmap_at(s, UnmapStage::Info { level: 2, table: pdpt }), WalkOp::Read { table: pdpt, index: slot(s.v, 2) }),
        (UnmapStage::Check { level, table }, WalkEvent::Entry(e)) => {
            if e.0 == 0 {
                unmap_done(s)
            } else if level == 2 && s.page_size == PageSize::Medium {
                (unmap_at(s, UnmapStage::MedSlot { pdpt: table, pd: frame_of(e), i: 0 }), WalkOp::Read { table: frame_of(e), index: slot(s.v, 1) })
            } else if level == 2 {
                (unmap_at(s, UnmapStage::Check { level: 1, table: frame_of(e) }), WalkOp::Read { table: frame_of(e), index: slot(s.v, 1) })
            } else {
                (unmap_at(s, UnmapStage::Info { level: 0, table: frame_of(e) }), WalkOp::Read { table: frame_of(e), index: slot(s.v, 0) })
            }
        },
        (UnmapStage::MedSlot { pdpt, pd, i }, WalkEvent::Entry(e)) => {
            if !is_large(e) {
                (unmap_at(s, UnmapStage::MedScan { pdpt, pd, i }), WalkOp::Read { table: pd, index: i })
            } else {
                unmap_med_next(s, pdpt, pd, i)
            }
        },
        (UnmapStage::MedScan { pdpt, pd, i }, WalkEvent::Entry(e)) =>
            (unmap_at(s, UnmapStage::MedFreed { pdpt, pd, i }),
                WalkOp::Release { frame: frame_of(e), frame_owner: Owner::Memory, unmap_owner: Owner::Memory }),
        (UnmapStage::MedFreed { pdpt, pd, i }, WalkEvent::Done) => unmap_med_next(s, pdpt, pd, i),
        (UnmapStage::MedTail { pd, .. }, WalkEvent::Entry(e)) =>
            (unmap_at(s, UnmapStage::MedReleased { pd }),
                WalkOp::Release { frame: frame_of(e), frame_owner: Owner::Memory, unmap_owner: Owner::Memory }),
        (UnmapStage::MedReleased { pd }, WalkEvent::Done) =>
            (unmap_at(s, UnmapStage::Info { level: 1, table: pd }), WalkOp::Read { table: pd, index: slot(s.v, 1) }),
        (UnmapStage::Info { level, table }, WalkEvent::Entry(e)) =>
            (unmap_at(s, UnmapStage::Cleared { level, table }),
                WalkOp::ClearPages { page: frame_at(e, level).0 / MEMORY_DEFAULT_PAGE_USIZE, count: s.page_size.size() / MEMORY_DEFAULT_PAGE_USIZE }),
        (UnmapStage::Cleared { level, table }, WalkEvent::Done) =>
            (unmap_at(s, UnmapStage::Zeroed { level, table }), WalkOp::Write { table, index: slot(s.v, level), value: PhysAddr(0) }),
        (UnmapStage::Zeroed { level, table }, WalkEvent::Done) =>
            (unmap_at(s, UnmapStage::Invalidated { level, table }), WalkOp::Invalidate { addr: s.v }),
        (UnmapStage::Invalidated { level, table }, WalkEvent::Done) => {
            if level == 0 {
                unmap_done(s)
            } else {
                (unmap_at(s, UnmapStage::Check { level, table }), WalkOp::Read { table, index: slot(s.v, level) })
            }
        },
        (UnmapStage::Finished, _) => (s, WalkOp::Finish { mapped: None }),
        (_, _) => (s, WalkOp::Finish { mapped: None }),
    }
}

impl UnmapWalk {
    /// The stage fits the page size: the 1 GiB stages belong to 1 GiB
    /// pages, the 2 MiB stages to 2 MiB pages, rounds stay within the 512
    /// entries, and levels are those of tables below the root.
    pub open spec fn wf(&self) -> bool {
        match self.stage {
            UnmapStage::HugeSlot { .. } | UnmapStage::HugeTail { .. } | UnmapStage::HugeReleased { .. } => self.page_size == PageSize::Huge,
            UnmapStage::HugeScan { i, .. } | UnmapStage::HugeFreed { i, .. } => self.page_size == PageSize::Huge && i < 512,
            UnmapStage::MedSlot { i, .. } | UnmapStage::MedScan { i, .. } | UnmapStage::MedFreed { i, .. } =>
                self.page_size == PageSize::Medium && i < 512,
            UnmapStage::MedTail { .. } | UnmapStage::MedReleased { .. } => self.page_size == PageSize::Medium,
            UnmapStage::Check { level, .. } => 1 <= level <= 2,
            UnmapStage::Info { level, .. } | UnmapStage::Cleared { level, .. } | UnmapStage::Zeroed { level, .. }
            | UnmapStage::Invalidated { level, .. } => level <= 2,
            _ => true,
        }
    }

    /// `ev` is the kind of event the stage waits for.
    pub open spec fn awaits(&self, ev: WalkEvent) -> bool {
        match self.stage {
            UnmapStage::HugeFreed { .. } | UnmapStage::HugeReleased { .. } | UnmapStage::MedFreed { .. } | UnmapStage::MedReleased { .. }
            | UnmapStage::Cleared { .. } | UnmapStage::Zeroed { .. } | UnmapStage::Invalidated { .. } => ev is Done,
            UnmapStage::Finished => true,
            _ => ev is Entry,
        }
    }

    /// This walk at stage `st`.
    fn at(&self, st: UnmapStage) -> (r: UnmapWalk)
        ensures
            r == unmap_at(*self, st),
    {
        UnmapWalk { stage: st, ..*self }
    }

    /// The step after entry `i` of the directory under a 1 GiB slot.
    fn huge_next(&self, pdpt: PhysAddr, dir: PhysAddr, i: usize) -> (r: (UnmapWalk, WalkOp))
        requires
            i < 512,
        ensures
            r == unmap_huge_next(*self, pdpt, dir, i),
    {
        if i + 1 < 512 {
            (self.at(UnmapStage::HugeScan { pdpt, dir, i: i + 1 }), WalkOp::Read { table: dir, index: i + 1 })
        } else {
            (self.at(UnmapStage::HugeTail { pdpt }), WalkOp::Read { table: pdpt, index: slot_of(self.v, 2) })
        }
    }

    /// The step after round `i` over the directory of a 2 MiB slot.
    fn med_next(&self, pdpt: PhysAddr, pd: PhysAddr, i: usize) -> (r: (UnmapWalk, WalkOp))
        requires
            i < 512,
        ensures
            r == unmap_med_next(*self, pdpt, pd, i),
    {
        if i + 1 < 512 {
            (self.at(UnmapStage::MedSlot { pdpt, pd, i: i + 1 }), WalkOp::Read { table: pd, index: slot_of(self.v, 1) })
        } else {
            (self.at(UnmapStage::MedTail { pdpt, pd }), WalkOp::Read { table: pdpt, index: slot_of(self.v, 2) })
        }
    }

    /// Starts unmapping the page of `page_size` at `v`, which is aligned to
    /// that size: the root's entry for `v` is read first.
    pub fn unmap_page(root: PhysAddr, v: VirtAddr, owner: Owner, page_size: PageSize) -> (r: (UnmapWalk, WalkOp))
        requires
            v.0 % page_size.size() == 0,
        ensures
            r.0 == (UnmapWalk { root, v, owner, page_size, stage: UnmapStage::Root }),
            r.1 == (WalkOp::Read { table: root, index: slot(v, 3) }),
            r.0.wf(),
    {
        (UnmapWalk { root, v, owner, page_size, stage: UnmapStage::Root }, WalkOp::Read { table: root, index: slot_of(v, 3) })
    }

    /// Takes the next step of the unmapping on `ev`.
    pub fn step(&self, ev: WalkEvent) -> (r: (UnmapWalk, WalkOp))
        requires
            self.wf(),
            self.awaits(ev),
        ensures
            r == unmap_next(*self, ev),
            r.0.wf(),
    {
        let done = (self.at(UnmapStage::Finished), WalkOp::Finish { mapped: None });
        match (self.stage, ev) {
            (UnmapStage::Root, WalkEvent::Entry(e)) => {
                let t = PhysAddr(e.0 & !0xFFFusize);
                if e.0 == 0 {
                    done
                } else if self.page_size == PageSize::Huge {
                    (self.at(UnmapStage::HugeSlot { pdpt: t }), WalkOp::Read { table: t, index: slot_of(self.v, 2) })
                } else {
                    (self.at(UnmapStage::Check { level: 2, table: t }), WalkOp::Read { table: t, index: slot_of(self.v, 2) })
                }
            },
            (UnmapStage::HugeSlot { pdpt }, WalkEvent::Entry(e)) => {
                if e.0 & PAGING_IS_PAGE_FRAME == 0 {
                    let dir = PhysAddr(e.0 & !0xFFFusize);
                    (self.at(UnmapStage::HugeScan { pdpt, dir, i: 0 }), WalkOp::Read { table: dir, index: 0 })
                } else {
                    (self.at(UnmapStage::Info { level: 2, table: pdpt }), WalkOp::Read { table: pdpt, index: slot_of(self.v, 2) })
                }
            },
            (UnmapStage::HugeScan { pdpt, dir, i }, WalkEvent::Entry(e)) => {
                if e.0 & PAGING_IS_PAGE_FRAME == 0 {
                    (self.at(UnmapStage::HugeFreed { pdpt, dir, i }),
                        WalkOp::Release { frame: PhysAddr(e.0 & !0xFFFusize), frame_owner: Owner::Memory, unmap_owner: Owner::Memory })
                } else {
                    self.huge_next(pdpt, dir, i)
                }
            },
            (UnmapStage::HugeFreed { pdpt, dir, i }, WalkEvent::Done) => self.huge_next(pdpt, dir, i),
            (UnmapStage::HugeTail { pdpt }, WalkEvent::Entry(e)) =>
                (self.at(UnmapStage::HugeReleased { pdpt }),
                    WalkOp::Release { frame: PhysAddr(e.0 & !0xFFFusize), frame_owner: Owner::Kernel, unmap_owner: self.owner }),
            (UnmapStage::HugeReleased { pdpt }, WalkEvent::Done) =>
                (self.at(UnmapStage::Info { level: 2, table: pdpt }), WalkOp::Read { table: pdpt, index: slot_of(self.v, 2) }),
            (UnmapStage::Check { level, table }, WalkEvent::Entry(e)) => {
                let t = PhysAddr(e.0 & !0xFFFusize);
                if e.0 == 0 {
                    done
                } else if level == 2 && self.page_size == PageSize::Medium {
                    (self.at(UnmapStage::MedSlot { pdpt: table, pd: t, i: 0 }), WalkOp::Read { table: t, index: slot_of(self.v, 1) })
                } else if level == 2 {
                    (self.at(UnmapStage::Check { level: 1, table: t }), WalkOp::Read { table: t, index: slot_of(self.v, 1) })
                } else {
                    (self.at(UnmapStage::Info { level: 0, table: t }), WalkOp::Read { table: t, index: slot_of(self.v, 0) })
                }
            },
            (UnmapStage::MedSlot { pdpt, pd, i }, WalkEvent::Entry(e)) => {
                if e.0 & PAGING_IS_PAGE_FRAME == 0 {
                    (self.at(UnmapStage::MedScan { pdpt, pd, i }), WalkOp::Read { table: pd, index: i })
                } else {
                    self.med_next(pdpt, pd, i)
                }
            },
            (UnmapStage::MedScan { pdpt, pd, i }, WalkEvent::Entry(e)) =>
                (self.at(UnmapStage::MedFreed { pdpt, pd, i }),
                    WalkOp::Release { frame: PhysAddr(e.0 & !0xFFFusize), frame_owner: Owner::Memory, unmap_owner: Owner::Memory }),
            (UnmapStage::MedFreed { pdpt, pd, i }, WalkEvent::Done) => self.med_next(pdpt, pd, i),
            (UnmapStage::MedTail { pd, .. }, WalkEvent::Entry(e)) =>
                (self.at(UnmapStage::MedReleased { pd }),
                    WalkOp::Release { frame: PhysAddr(e.0 & !0xFFFusize), frame_owner: Owner::Memory, unmap_owner: Owner::Memory }),
            (UnmapStage::MedReleased { pd }, WalkEvent::Done) =>
                (self.at(UnmapStage::Info { level: 1, table: pd }), WalkOp::Read { table: pd, index: slot_of(self.v, 1) }),
            (UnmapStage::Info { level, table }, WalkEvent::Entry(e)) => {
                let f = if level == 2 {
                    PhysAddr(e.0 & !0x3FFF_FFFFusize)
                } else if level == 1 {
                    PhysAddr(e.0 & !0x1F_FFFFusize)
                } else {
                    PhysAddr(e.0 & !0xFFFusize)
                };
                let count = self.page_size.into_bits() / MEMORY_DEFAULT_PAGE_USIZE;
                (self.at(UnmapStage::Cleared { level, table }), WalkOp::ClearPages { page: f.0 / MEMORY_DEFAULT_PAGE_USIZE, count })
            },
            (UnmapStage::Cleared { level, table }, WalkEvent::Done) =>
                (self.at(UnmapStage::Zeroed { level, table }), WalkOp::Write { table, index: slot_of(self.v, level), value: PhysAddr(0) }),
            (UnmapStage::Zeroed { level, table }, WalkEvent::Done) =>
                (self.at(UnmapStage::Invalidated { level, table }), WalkOp::Invalidate { addr: self.v }),
            (UnmapStage::Invalidated { level, table }, WalkEvent::Done) => {
                if level == 0 {
                    done
                } else {
                    (self.at(UnmapStage::Check { level, table }), WalkOp::Read { table, index: slot_of(self.v, level) })
                }
            },
            (UnmapStage::Finished, _) => (*self, WalkOp::Finish { mapped: None }),
            (_, _) => (*self, WalkOp::Finish { mapped: None }),
        }
    }
}

/// How far a mapping is from its end.
pub open spec fn map_measure(s: MapWalk) -> int {
    match s.stage {
        MapStage::Finished { .. } => 0,
        MapStage::Owned => 1,
        MapStage::Invalidated => 2,
        MapStage::Written => 3,
        MapStage::Cleared { .. } => 4,
        MapStage::Tail { .. } => 5,
        MapStage::HugeScan { i, .. } => 8 + 4 * (511 - i) + 2,
        MapStage::HugeFreed { i, .. } => 8 + 4 * (511 - i) + 1,
        MapStage::HugeSlot { .. } => 2060,
        MapStage::MedSlot { i, .. } => 8 + 4 * (511 - i) + 3,
        MapStage::MedScan { i, .. } => 8 + 4 * (511 - i) + 2,
        MapStage::MedFreed { i, .. } => 8 + 4 * (511 - i) + 1,
        MapStage::Probe { level, .. } => 3000 * level + 16,
        MapStage::Alloc { level, .. } => 3000 * level + 15,
        MapStage::Linked { level, .. } => 3000 * level + 14,
        MapStage::Mapped { level, .. } => 3000 * level + 13,
        MapStage::Flagging { level, .. } => 3000 * level + 12,
        MapStage::Flagged { level, .. } => 3000 * level + 11,
        MapStage::Follow { level, .. } => 3000 * level + 10,
    }
}

/// A mapping ends: every step from a stage before the end brings it closer
/// to the end.
pub proof fn lemma_map_progress(s: MapWalk, ev: WalkEvent)
    requires
        s.wf(),
        s.awaits(ev),
        !(s.stage is Finished),
    ensures
        0 <= map_measure(map_next(s, ev).0) < map_measure(s),
{
}

/// The page's entry is written where a translation of the mapped address
/// reads at the page's level: whenever a mapping writes it, the write goes
/// to slot `slot(v, leaf_level(page_size))` and carries the leaf value.
pub proof fn lemma_map_writes_leaf_slot(s: MapWalk, ev: WalkEvent)
    requires
        s.wf(),
        s.awaits(ev),
        !(s.stage is Written),
        map_next(s, ev).0.stage is Written,
    ensures
        map_next(s, ev).1 matches WalkOp::Write { index, value, .. }
            && index == slot(s.v, leaf_level(s.page_size)) && value == leaf_value(s.p, s.flags, s.page_size),
{
}

/// How far an unmapping is from its end.
pub open spec fn unmap_measure(s: UnmapWalk) -> int {
    let base = |level: u8| if level == 2 { 2101int } else if level == 1 { 6int } else { 1int };
    match s.stage {
        UnmapStage::Finished => 0,
        UnmapStage::Invalidated { level, .. } => base(level),
        UnmapStage::Zeroed { level, .. } => base(level) + 1,
        UnmapStage::Cleared { level, .. } => base(level) + 2,
        UnmapStage::Info { level, .. } => base(level) + 3,
        UnmapStage::Check { level, .. } => base(level) - 1,
        UnmapStage::MedReleased { .. } => 10,
        UnmapStage::MedTail { .. } => 11,
        UnmapStage::MedSlot { i, .. } => 12 + 4 * (511 - i) + 3,
        UnmapStage::MedScan { i, .. } => 12 + 4 * (511 - i) + 2,
        UnmapStage::MedFreed { i, .. } => 12 + 4 * (511 - i) + 1,
        UnmapStage::HugeReleased { .. } => 2105,
        UnmapStage::HugeTail { .. } => 2106,
        UnmapStage::HugeScan { i, .. } => 2107 + 4 * (511 - i) + 2,
        UnmapStage::HugeFreed { i, .. } => 2107 + 4 * (511 - i) + 1,
        UnmapStage::HugeSlot { .. } => 4154,
        UnmapStage::Root => 5000,
    }
}

/// An unmapping ends: every step from a stage before the end brings it
/// closer to the end.
pub proof fn lemma_unmap_progress(s: UnmapWalk, ev: WalkEvent)
    requires
        s.wf(),
        s.awaits(ev),
        !(s.stage is Finished),
    ensures
        0 <= unmap_measure(unmap_next(s, ev).0) < unmap_measure(s),
{
}

/// A translation ends: every step from a stage before the end goes one
/// level down or ends it.
pub proof fn lemma_translate_progress(s: TranslateWalk, ev: WalkEvent)
    requires
        s.wf(),
        s.awaits(ev),
        s.stage is Reading,
    ensures
        match (s.stage, translate_next(s, ev).0.stage) {
            (TranslateStage::Reading { level: a }, TranslateStage::Reading { level: b }) => b < a,
            (_, next) => next is Finished,
        },
{
}

/// A translation that reads, at the page's level, the entry a mapping
/// writes for an aligned frame `p` with flags below bit 12 gives `p` back.
pub proof fn lemma_leaf_translates_back(t: TranslateWalk, p: PhysAddr, flags: usize, ps: PageSize)
    requires
        t.stage == (TranslateStage::Reading { level: leaf_level(ps) }),
        p.0 % ps.size() == 0,
        flags < 0x1000,
    ensures
        translate_next(t, WalkEvent::Entry(leaf_value(p, flags, ps))).1 == (WalkOp::Translated { frame: p }),
{
    let a = p.0;
    assert({
        &&& (a % 4096 == 0 && flags < 0x1000 ==> (a | flags) & !0xFFFusize == a)
        &&& (a % 0x20_0000 == 0 && flags < 0x1000 ==> (a | (flags | 0x80usize)) & !0x1F_FFFFusize == a
            && (a | (flags | 0x80usize)) & 0x80usize != 0)
        &&& (a % 0x4000_0000 == 0 && flags < 0x1000 ==> (a | (flags | 0x80usize)) & !0x3FFF_FFFFusize == a
            && (a | (flags | 0x80usize)) & 0x80usize != 0)
    }) by (bit_vector);
}

/// An entry that an unmapping emptied translates to no frame, whatever
/// level a translation reads it at.
pub proof fn lemma_empty_entry_translates_to_zero(t: TranslateWalk)
    requires
        t.wf(),
        t.stage is Reading,
    ensures
        translate_next(t, WalkEvent::Entry(PhysAddr(0))).1 == (WalkOp::Translated { frame: PhysAddr(0) }),
{
    assert(0usize & !0xFFFusize == 0 && 0usize & 0x80usize == 0) by (bit_vector);
}

/// Memory after writing `value` into entry `index` of the table at `table`.
pub open spec fn mem_write(mem: spec_fn(usize, usize) -> usize, table: usize, index: usize, value: usize) -> spec_fn(usize, usize) -> usize {
    |t: usize, i: usize| if t == table && i == index { value } else { mem(t, i) }
}

/// How far a translation is from its end.
pub open spec fn translate_measure(s: TranslateWalk) -> int {
    match s.stage {
        TranslateStage::Reading { level } => level + 1,
        TranslateStage::Finished { .. } => 0,
    }
}

/// The frame a translation that is at `s` and asks `op` ends with when
/// every read is answered from `mem` (`mem(t, i)` is entry `i` of the table
/// at `t`).
pub open spec fn translate_run(mem: spec_fn(usize, usize) -> usize, s: TranslateWalk, op: WalkOp) -> PhysAddr
    decreases translate_measure(s),
{
    match op {
        WalkOp::Translated { frame } => frame,
        WalkOp::Read { table, index } => {
            let ev = WalkEvent::Entry(PhysAddr(mem(table.0, index)));
            if s.wf() && s.stage is Reading {
                proof { lemma_translate_progress(s, ev); }
                translate_run(mem, translate_next(s, ev).0, translate_next(s, ev).1)
            } else {
                PhysAddr(0)
            }
        },
        _ => PhysAddr(0),
    }
}

/// The event that answers `op` from `mem`, and the memory after it: reads
/// read `mem`, writes write it, frames cannot be had, anything else is done
/// without touching the tables.
pub open spec fn answer(mem: spec_fn(usize, usize) -> usize, op: WalkOp) -> (WalkEvent, spec_fn(usize, usize) -> usize) {
    match op {
        WalkOp::Read { table, index } => (WalkEvent::Entry(PhysAddr(mem(table.0, index))), mem),
        WalkOp::Write { table, index, value } => (WalkEvent::Done, mem_write(mem, table.0, index, value.0)),
        WalkOp::AllocTable => (WalkEvent::Frame(None), mem),
        _ => (WalkEvent::Done, mem),
    }
}

/// The memory and result a mapping that is at `s` and asks `op` ends with
/// when each action is answered by `answer`.
pub open spec fn map_run(mem: spec_fn(usize, usize) -> usize, s: MapWalk, op: WalkOp) -> (spec_fn(usize, usize) -> usize, Option<VirtAddr>)
    decreases map_measure(s),
{
    match op {
        WalkOp::Finish { mapped } => (mem, mapped),
        _ => {
            let (ev, mem2) = answer(mem, op);
            if s.wf() && s.awaits(ev) && !(s.stage is Finished) {
                proof { lemma_map_progress(s, ev); }
                map_run(mem2, map_next(s, ev).0, map_next(s, ev).1)
            } else {
                (mem, None)
            }
        },
    }
}

/// The memory an unmapping that is at `s` and asks `op` ends with when each
/// action is answered by `answer`.
pub open spec fn unmap_run(mem: spec_fn(usize, usize) -> usize, s: UnmapWalk, op: WalkOp) -> spec_fn(usize, usize) -> usize
    decreases unmap_measure(s),
{
    match op {
        WalkOp::Finish { .. } => mem,
        _ => {
            let (ev, mem2) = answer(mem, op);
            if s.wf() && s.awaits(ev) && !(s.stage is Finished) {
                proof { lemma_unmap_progress(s, ev); }
                unmap_run(mem2, unmap_next(s, ev).0, unmap_next(s, ev).1)
            } else {
                mem
            }
        },
    }
}

/// The tables on the way to the 4 KiB page at `v` in `mem` from `root` are
/// all there, none maps a large page, and the page's entry is not one of
/// the entries on the way.
pub open spec fn small_path(mem: spec_fn(usize, usize) -> usize, root: PhysAddr, v: VirtAddr) -> bool {
    let e3 = PhysAddr(mem(root.0, slot(v, 3)));
    let t2 = frame_of(e3);
    let e2 = PhysAddr(mem(t2.0, slot(v, 2)));
    let t1 = frame_of(e2);
    let e1 = PhysAddr(mem(t1.0, slot(v, 1)));
    let t0 = frame_of(e1);
    &&& e3.0 != 0 && e2.0 != 0 && e1.0 != 0
    &&& !is_large(e2) && !is_large(e1)
    &&& !(t0.0 == root.0 && slot(v, 0) == slot(v, 3))
    &&& !(t0.0 == t2.0 && slot(v, 0) == slot(v, 2))
    &&& !(t0.0 == t1.0 && slot(v, 0) == slot(v, 1))
}

/// The table that holds the entry of the 4 KiB page at `v`.
pub open spec fn small_table(mem: spec_fn(usize, usize) -> usize, root: PhysAddr, v: VirtAddr) -> PhysAddr {
    let t2 = frame_of(PhysAddr(mem(root.0, slot(v, 3))));
    let t1 = frame_of(PhysAddr(mem(t2.0, slot(v, 2))));
    frame_of(PhysAddr(mem(t1.0, slot(v, 1))))
}

/// A read gives back what a mapping wrote: when the tables on the way to
/// a 4 KiB page at `v` are there, mapping an aligned frame `p` with flags
/// below bit 12 writes only the page's entry, maps `v`, and a translation
/// of `v` afterwards gives `p`.
pub proof fn lemma_map_then_translate(mem: spec_fn(usize, usize) -> usize, root: PhysAddr, p: PhysAddr, v: VirtAddr, owner: Owner, flags: usize)
    requires
        p.0 % 4096 == 0,
        flags < 0x1000,
        small_path(mem, root, v),
    ensures
        ({
            let start = MapWalk { root, p, v, owner, page_size: PageSize::Small, flags, stage: MapStage::Probe { level: 3, table: root } };
            let (mem2, r) = map_run(mem, start, WalkOp::Read { table: root, index: slot(v, 3) });
            &&& r == Some(v)
            &&& mem2 == mem_write(mem, small_table(mem, root, v).0, slot(v, 0), p.0 | flags)
            &&& translate_run(mem2, TranslateWalk { root, v, stage: TranslateStage::Reading { level: 3 } },
                WalkOp::Read { table: root, index: slot(v, 3) }) == p
        }),
{
    let s0 = MapWalk { root, p, v, owner, page_size: PageSize::Small, flags, stage: MapStage::Probe { level: 3, table: root } };
    let op0 = WalkOp::Read { table: root, index: slot(v, 3) };
    let e3 = PhysAddr(mem(root.0, slot(v, 3)));
    let t2 = frame_of(e3);
    let e2 = PhysAddr(mem(t2.0, slot(v, 2)));
    let t1 = frame_of(e2);
    let e1 = PhysAddr(mem(t1.0, slot(v, 1)));
    let t0 = frame_of(e1);
    let leaf = PhysAddr(p.0 | flags);
    let mem2 = mem_write(mem, t0.0, slot(v, 0), leaf.0);
    let (s1, op1) = map_next(s0, WalkEvent::Entry(e3));
    assert(s1.stage == (MapStage::Probe { level: 2, table: t2 }) && op1 == (WalkOp::Read { table: t2, index: slot(v, 2) }));
    let (s2, op2) = map_next(s1, WalkEvent::Entry(e2));
    assert(s2.stage == (MapStage::Probe { level: 1, table: t1 }) && op2 == (WalkOp::Read { table: t1, index: slot(v, 1) }));
    let (s3, op3) = map_next(s2, WalkEvent::Entry(e1));
    assert(s3.stage == MapStage::Written && op3 == (WalkOp::Write { table: t0, index: slot(v, 0), value: leaf }));
    let (s4, op4) = map_next(s3, WalkEvent::Done);
    let (s5, op5) = map_next(s4, WalkEvent::Done);
    let (s6, op6) = map_next(s5, WalkEvent::Done);
    assert(op6 == (WalkOp::Finish { mapped: Some(v) }));
    assert(map_run(mem2, s6, op6) == (mem2, Some(v)));
    assert(map_run(mem2, s5, op5) == map_run(mem2, s6, op6));
    assert(map_run(mem2, s4, op4) == map_run(mem2, s5, op5));
    assert(map_run(mem, s3, op3) == map_run(mem2, s4, op4));
    assert(map_run(mem, s2, op2) == map_run(mem, s3, op3));
    assert(map_run(mem, s1, op1) == map_run(mem, s2, op2));
    assert(map_run(mem, s0, op0) == map_run(mem, s1, op1));

    let t = TranslateWalk { root, v, stage: TranslateStage::Reading { level: 3 } };
    assert(mem2(root.0, slot(v, 3)) == e3.0);
    assert(mem2(t2.0, slot(v, 2)) == e2.0);
    assert(mem2(t1.0, slot(v, 1)) == e1.0);
    assert(mem2(t0.0, slot(v, 0)) == leaf.0);
    let (u1, w1) = translate_next(t, WalkEvent::Entry(e3));
    assert(w1 == (WalkOp::Read { table: t2, index: slot(v, 2) }));
    let (u2, w2) = translate_next(u1, WalkEvent::Entry(e2));
    assert(w2 == (WalkOp::Read { table: t1, index: slot(v, 1) }));
    let (u3, w3) = translate_next(u2, WalkEvent::Entry(e1));
    assert(w3 == (WalkOp::Read { table: t0, index: slot(v, 0) }));
    lemma_leaf_translates_back(u3, p, flags, PageSize::Small);
    let (u4, w4) = translate_next(u3, WalkEvent::Entry(leaf));
    assert(w4 == (WalkOp::Translated { frame: p }));
    assert(translate_run(mem2, u4, w4) == p);
    assert(u3.wf() && u3.stage is Reading);
    assert(PhysAddr(mem2(t0.0, slot(v, 0))) == leaf);
    assert(translate_run(mem2, u3, w3) == p);
    assert(translate_run(mem2, u2, w2) == translate_run(mem2, u3, w3));
    assert(translate_run(mem2, u1, w1) == translate_run(mem2, u2, w2));
    assert(translate_run(mem2, t, WalkOp::Read { table: root, index: slot(v, 3) }) == translate_run(mem2, u1, w1));
}

/// An unmapped page translates to nothing: when the tables on the way to
/// a 4 KiB page at `v` are there, unmapping it empties only the page's
/// entry, and a translation of `v` afterwards gives 0.
pub proof fn lemma_unmap_then_translate(mem: spec_fn(usize, usize) -> usize, root: PhysAddr, v: VirtAddr, owner: Owner)
    requires
        small_path(mem, root, v),
    ensures
        ({
            let start = UnmapWalk { root, v, owner, page_size: PageSize::Small, stage: UnmapStage::Root };
            let mem2 = unmap_run(mem, start, WalkOp::Read { table: root, index: slot(v, 3) });
            &&& mem2 == mem_write(mem, small_table(mem, root, v).0, slot(v, 0), 0)
            &&& translate_run(mem2, TranslateWalk { root, v, stage: TranslateStage::Reading { level: 3 } },
                WalkOp::Read { table: root, index: slot(v, 3) }) == PhysAddr(0)
        }),
{
    let s0 = UnmapWalk { root, v, owner, page_size: PageSize::Small, stage: UnmapStage::Root };
    let op0 = WalkOp::Read { table: root, index: slot(v, 3) };
    let e3 = PhysAddr(mem(root.0, slot(v, 3)));
    let t2 = frame_of(e3);
    let e2 = PhysAddr(mem(t2.0, slot(v, 2)));
    let t1 = frame_of(e2);
    let e1 = PhysAddr(mem(t1.0, slot(v, 1)));
    let t0 = frame_of(e1);
    let e0 = PhysAddr(mem(t0.0, slot(v, 0)));
    let mem2 = mem_write(mem, t0.0, slot(v, 0), 0);
    let (s1, op1) = unmap_next(s0, WalkEvent::Entry(e3));
    assert(s1.stage == (UnmapStage::Check { level: 2, table: t2 }) && op1 == (WalkOp::Read { table: t2, index: slot(v, 2) }));
    let (s2, op2) = unmap_next(s1, WalkEvent::Entry(e2));
    assert(s2.stage == (UnmapStage::Check { level: 1, table: t1 }) && op2 == (WalkOp::Read { table: t1, index: slot(v, 1) }));
    let (s3, op3) = unmap_next(s2, WalkEvent::Entry(e1));
    assert(s3.stage == (UnmapStage::Info { level: 0, table: t0 }) && op3 == (WalkOp::Read { table: t0, index: slot(v, 0) }));
    let (s4, op4) = unmap_next(s3, WalkEvent::Entry(e0));
    assert(s4.stage == (UnmapStage::Cleared { level: 0, table: t0 }));
    let (s5, op5) = unmap_next(s4, WalkEvent::Done);
    assert(op5 == (WalkOp::Write { table: t0, index: slot(v, 0), value: PhysAddr(0) }));
    let (s6, op6) = unmap_next(s5, WalkEvent::Done);
    let (s7, op7) = unmap_next(s6, WalkEvent::Done);
    assert(op7 == (WalkOp::Finish { mapped: None }));
    assert(unmap_run(mem2, s7, op7) == mem2);
    assert(unmap_run(mem2, s6, op6) == unmap_run(mem2, s7, op7));
    assert(unmap_run(mem, s5, op5) == unmap_run(mem2, s6, op6));
    assert(unmap_run(mem, s4, op4) == unmap_run(mem, s5, op5));
    assert(unmap_run(mem, s3, op3) == unmap_run(mem, s4, op4));
    assert(unmap_run(mem, s2, op2) == unmap_run(mem, s3, op3));
    assert(unmap_run(mem, s1, op1) == unmap_run(mem, s2, op2));
    assert(unmap_run(mem, s0, op0) == unmap_run(mem, s1, op1));

    let t = TranslateWalk { root, v, stage: TranslateStage::Reading { level: 3 } };
    assert(mem2(root.0, slot(v, 3)) == e3.0);
    assert(mem2(t2.0, slot(v, 2)) == e2.0);
    assert(mem2(t1.0, slot(v, 1)) == e1.0);
    assert(PhysAddr(mem2(t0.0, slot(v, 0))) == PhysAddr(0));
    let (u1, w1) = translate_next(t, WalkEvent::Entry(e3));
    let (u2, w2) = translate_next(u1, WalkEvent::Entry(e2));
    let (u3, w3) = translate_next(u2, WalkEvent::Entry(e1));
    assert(w3 == (WalkOp::Read { table: t0, index: slot(v, 0) }));
    lemma_empty_entry_translates_to_zero(u3);
    let (u4, w4) = translate_next(u3, WalkEvent::Entry(PhysAddr(0)));
    assert(translate_run(mem2, u4, w4) == PhysAddr(0));
    assert(translate_run(mem2, u3, w3) == PhysAddr(0));
    assert(translate_run(mem2, u2, w2) == translate_run(mem2, u3, w3));
    assert(translate_run(mem2, u1, w1) == translate_run(mem2, u2, w2));
    assert(translate_run(mem2, t, WalkOp::Read { table: root, index: slot(v, 3) }) == translate_run(mem2, u1, w1));
}

/// Whether a translation that is at `s` and asks `op`, with every read
/// answered from `mem`, reads entry `index` of the table at `table`.
pub open spec fn translate_reads(mem: spec_fn(usize, usize) -> usize, s: TranslateWalk, op: WalkOp, table: usize, index: usize) -> bool
    decreases translate_measure(s),
{
    match op {
        WalkOp::Read { table: t, index: i } => {
            if t.0 == table && i == index {
                true
            } else {
                let ev = WalkEvent::Entry(PhysAddr(mem(t.0, i)));
                if s.wf() && s.stage is Reading {
                    proof { lemma_translate_progress(s, ev); }
                    translate_reads(mem, translate_next(s, ev).0, translate_next(s, ev).1, table, index)
                } else {
                    false
                }
            }
        },
        _ => false,
    }
}

/// A translation that never reads an entry ends the same when only that
/// entry is written.
pub proof fn lemma_translate_unread(mem: spec_fn(usize, usize) -> usize, s: TranslateWalk, op: WalkOp, table: usize, index: usize, value: usize)
    requires
        !translate_reads(mem, s, op, table, index),
    ensures
        translate_run(mem_write(mem, table, index, value), s, op) == translate_run(mem, s, op),
    decreases translate_measure(s),
{
    if let WalkOp::Read { table: t, index: i } = op {
        let ev = WalkEvent::Entry(PhysAddr(mem(t.0, i)));
        assert(mem_write(mem, table, index, value)(t.0, i) == mem(t.0, i));
        if s.wf() && s.stage is Reading {
            lemma_translate_progress(s, ev);
            lemma_translate_unread(mem, translate_next(s, ev).0, translate_next(s, ev).1, table, index, value);
        }
    }
}

/// The translation of `w` from the tables at `root`, read from `mem`.
pub open spec fn translation(mem: spec_fn(usize, usize) -> usize, root: PhysAddr, w: VirtAddr) -> PhysAddr {
    translate_run(mem, TranslateWalk { root, v: w, stage: TranslateStage::Reading { level: 3 } },
        WalkOp::Read { table: root, index: slot(w, 3) })
}

/// Whether the translation of `w` from the tables at `root` reads entry
/// `index` of the table at `table`.
pub open spec fn translation_reads(mem: spec_fn(usize, usize) -> usize, root: PhysAddr, w: VirtAddr, table: usize, index: usize) -> bool {
    translate_reads(mem, TranslateWalk { root, v: w, stage: TranslateStage::Reading { level: 3 } },
        WalkOp::Read { table: root, index: slot(w, 3) }, table, index)
}

/// A mapping changes no other translation: when the tables on the way to
/// a 4 KiB page at `v` are there, mapping it leaves the translation of
/// every address `w` whose walk does not pass through `v`'s entry as it was.
pub proof fn lemma_map_keeps_other_translations(mem: spec_fn(usize, usize) -> usize, root: PhysAddr, p: PhysAddr, v: VirtAddr,
    owner: Owner, flags: usize, w: VirtAddr)
    requires
        p.0 % 4096 == 0,
        flags < 0x1000,
        small_path(mem, root, v),
        !translation_reads(mem, root, w, small_table(mem, root, v).0, slot(v, 0)),
    ensures
        ({
            let start = MapWalk { root, p, v, owner, page_size: PageSize::Small, flags, stage: MapStage::Probe { level: 3, table: root } };
            let (mem2, r) = map_run(mem, start, WalkOp::Read { table: root, index: slot(v, 3) });
            translation(mem2, root, w) == translation(mem, root, w)
        }),
{
    lemma_map_then_translate(mem, root, p, v, owner, flags);
    lemma_translate_unread(mem, TranslateWalk { root, v: w, stage: TranslateStage::Reading { level: 3 } },
        WalkOp::Read { table: root, index: slot(w, 3) }, small_table(mem, root, v).0, slot(v, 0), p.0 | flags);
}

/// An unmapping changes no other translation: when the tables on the way to
/// a 4 KiB page at `v` are there, unmapping it leaves the translation of
/// every address `w` whose walk does not pass through `v`'s entry as it was.
pub proof fn lemma_unmap_keeps_other_translations(mem: spec_fn(usize, usize) -> usize, root: PhysAddr, v: VirtAddr, owner: Owner, w: VirtAddr)
    requires
        small_path(mem, root, v),
        !translation_reads(mem, root, w, small_table(mem, root, v).0, slot(v, 0)),
    ensures
        ({
            let start = UnmapWalk { root, v, owner, page_size: PageSize::Small, stage: UnmapStage::Root };
            let mem2 = unmap_run(mem, start, WalkOp::Read { table: root, index: slot(v, 3) });
            translation(mem2, root, w) == translation(mem, root, w)
        }),
{
    lemma_unmap_then_translate(mem, root, v, owner);
    lemma_translate_unread(mem, TranslateWalk { root, v: w, stage: TranslateStage::Reading { level: 3 } },
        WalkOp::Read { table: root, index: slot(w, 3) }, small_table(mem, root, v).0, slot(v, 0), 0);
}

/// The directory-pointer table on the way to `v`.
pub open spec fn huge_table(mem: spec_fn(usize, usize) -> usize, root: PhysAddr, v: VirtAddr) -> PhysAddr {
    frame_of(PhysAddr(mem(root.0, slot(v, 3))))
}

/// The way to a 1 GiB page at `v` is there and its slot already maps a
/// large page: the root entry names a table, its entry for `v` maps a large
/// page, and that entry is not the root entry itself.
pub open spec fn huge_path(mem: spec_fn(usize, usize) -> usize, root: PhysAddr, v: VirtAddr) -> bool {
    let e3 = PhysAddr(mem(root.0, slot(v, 3)));
    let t2 = frame_of(e3);
    &&& e3.0 != 0
    &&& is_large(PhysAddr(mem(t2.0, slot(v, 2))))
    &&& !(t2.0 == root.0 && slot(v, 2) == slot(v, 3))
}

/// A read gives back what a 1 GiB mapping wrote: when the slot of the page
/// at `v` already maps a large page, mapping an aligned frame `p` with
/// flags below bit 12 writes only that entry, maps `v`, and a translation
/// of `v` afterwards gives `p`.
pub proof fn lemma_map_huge_then_translate(mem: spec_fn(usize, usize) -> usize, root: PhysAddr, p: PhysAddr, v: VirtAddr, owner: Owner, flags: usize)
    requires
        p.0 % 0x4000_0000 == 0,
        flags < 0x1000,
        huge_path(mem, root, v),
    ensures
        ({
            let start = MapWalk { root, p, v, owner, page_size: PageSize::Huge, flags, stage: MapStage::Probe { level: 3, table: root } };
            let (mem2, r) = map_run(mem, start, WalkOp::Read { table: root, index: slot(v, 3) });
            &&& r == Some(v)
            &&& mem2 == mem_write(mem, huge_table(mem, root, v).0, slot(v, 2), leaf_value(p, flags, PageSize::Huge).0)
            &&& translation(mem2, root, v) == p
        }),
{
    let s0 = MapWalk { root, p, v, owner, page_size: PageSize::Huge, flags, stage: MapStage::Probe { level: 3, table: root } };
    let op0 = WalkOp::Read { table: root, index: slot(v, 3) };
    let e3 = PhysAddr(mem(root.0, slot(v, 3)));
    let t2 = frame_of(e3);
    let e2 = PhysAddr(mem(t2.0, slot(v, 2)));
    let leaf = leaf_value(p, flags, PageSize::Huge);
    let mem2 = mem_write(mem, t2.0, slot(v, 2), leaf.0);
    let (s1, op1) = map_next(s0, WalkEvent::Entry(e3));
    assert(s1.stage == (MapStage::HugeSlot { table: t2 }) && op1 == (WalkOp::Read { table: t2, index: slot(v, 2) }));
    let (s2, op2) = map_next(s1, WalkEvent::Entry(e2));
    assert(s2.stage == MapStage::Written && op2 == (WalkOp::Write { table: t2, index: slot(v, 2), value: leaf }));
    let (s3, op3) = map_next(s2, WalkEvent::Done);
    let (s4, op4) = map_next(s3, WalkEvent::Done);
    let (s5, op5) = map_next(s4, WalkEvent::Done);
    assert(op5 == (WalkOp::Finish { mapped: Some(v) }));
    assert(map_run(mem2, s5, op5) == (mem2, Some(v)));
    assert(map_run(mem2, s4, op4) == map_run(mem2, s5, op5));
    assert(map_run(mem2, s3, op3) == map_run(mem2, s4, op4));
    assert(map_run(mem, s2, op2) == map_run(mem2, s3, op3));
    assert(map_run(mem, s1, op1) == map_run(mem, s2, op2));
    assert(map_run(mem, s0, op0) == map_run(mem, s1, op1));

    let t = TranslateWalk { root, v, stage: TranslateStage::Reading { level: 3 } };
    assert(mem2(root.0, slot(v, 3)) == e3.0);
    assert(mem2(t2.0, slot(v, 2)) == leaf.0);
    let (u1, w1) = translate_next(t, WalkEvent::Entry(e3));
    assert(w1 == (WalkOp::Read { table: t2, index: slot(v, 2) }));
    lemma_leaf_translates_back(u1, p, flags, PageSize::Huge);
    let (u2, w2) = translate_next(u1, WalkEvent::Entry(leaf));
    assert(w2 == (WalkOp::Translated { frame: p }));
    assert(translate_run(mem2, u2, w2) == p);
    assert(translate_run(mem2, u1, w1) == p);
    assert(translate_run(mem2, t, WalkOp::Read { table: root, index: slot(v, 3) }) == translate_run(mem2, u1, w1));
}

/// The directory on the way to `v`.
pub open spec fn medium_table(mem: spec_fn(usize, usize) -> usize, root: PhysAddr, v: VirtAddr) -> PhysAddr {
    let t2 = frame_of(PhysAddr(mem(root.0, slot(v, 3))));
    frame_of(PhysAddr(mem(t2.0, slot(v, 2))))
}

/// The way to a 2 MiB page at `v` is there and its slot already maps a
/// large page: the root and directory-pointer entries name tables, the
/// directory entry for `v` maps a large page, and that entry is neither of
/// the two above it.
pub open spec fn medium_path(mem: spec_fn(usize, usize) -> usize, root: PhysAddr, v: VirtAddr) -> bool {
    let e3 = PhysAddr(mem(root.0, slot(v, 3)));
    let t2 = frame_of(e3);
    let e2 = PhysAddr(mem(t2.0, slot(v, 2)));
    let t1 = frame_of(e2);
    &&& e3.0 != 0 && e2.0 != 0
    &&& !is_large(e2)
    &&& is_large(PhysAddr(mem(t1.0, slot(v, 1))))
    &&& !(t1.0 == root.0 && slot(v, 1) == slot(v, 3))
    &&& !(t1.0 == t2.0 && slot(v, 1) == slot(v, 2))
}

/// The rounds over a directory entry that already maps a large page pass
/// on to the last step, reading that entry again.
proof fn lemma_med_rounds(mem: spec_fn(usize, usize) -> usize, s: MapWalk, table: PhysAddr, i: usize)
    requires
        s.stage == (MapStage::MedSlot { table, i }),
        s.page_size == PageSize::Medium,
        i < 512,
        is_large(PhysAddr(mem(table.0, slot(s.v, 1)))),
    ensures
        map_run(mem, s, WalkOp::Read { table, index: slot(s.v, 1) })
            == map_run(mem, map_at(s, MapStage::Tail { level: 1, table }), WalkOp::Read { table, index: slot(s.v, 1) }),
    decreases 512 - i,
{
    let op = WalkOp::Read { table, index: slot(s.v, 1) };
    let ev = WalkEvent::Entry(PhysAddr(mem(table.0, slot(s.v, 1))));
    let (n, nop) = map_next(s, ev);
    assert(map_run(mem, s, op) == map_run(mem, n, nop));
    if i + 1 < 512 {
        lemma_med_rounds(mem, n, table, (i + 1) as usize);
    }
}

/// A read gives back what a 2 MiB mapping wrote: when the slot of the page
/// at `v` already maps a large page, mapping an aligned frame `p` with
/// flags below bit 12 writes only that entry, maps `v`, and a translation
/// of `v` afterwards gives `p`.
pub proof fn lemma_map_medium_then_translate(mem: spec_fn(usize, usize) -> usize, root: PhysAddr, p: PhysAddr, v: VirtAddr, owner: Owner, flags: usize)
    requires
        p.0 % 0x20_0000 == 0,
        flags < 0x1000,
        medium_path(mem, root, v),
    ensures
        ({
            let start = MapWalk { root, p, v, owner, page_size: PageSize::Medium, flags, stage: MapStage::Probe { level: 3, table: root } };
            let (mem2, r) = map_run(mem, start, WalkOp::Read { table: root, index: slot(v, 3) });
            &&& r == Some(v)
            &&& mem2 == mem_write(mem, medium_table(mem, root, v).0, slot(v, 1), leaf_value(p, flags, PageSize::Medium).0)
            &&& translation(mem2, root, v) == p
        }),
{
    let s0 = MapWalk { root, p, v, owner, page_size: PageSize::Medium, flags, stage: MapStage::Probe { level: 3, table: root } };
    let op0 = WalkOp::Read { table: root, index: slot(v, 3) };
    let e3 = PhysAddr(mem(root.0, slot(v, 3)));
    let t2 = frame_of(e3);
    let e2 = PhysAddr(mem(t2.0, slot(v, 2)));
    let t1 = frame_of(e2);
    let e1 = PhysAddr(mem(t1.0, slot(v, 1)));
    let leaf = leaf_value(p, flags, PageSize::Medium);
    let mem2 = mem_write(mem, t1.0, slot(v, 1), leaf.0);
    let (s1, op1) = map_next(s0, WalkEvent::Entry(e3));
    assert(s1.stage == (MapStage::Probe { level: 2, table: t2 }) && op1 == (WalkOp::Read { table: t2, index: slot(v, 2) }));
    let (s2, op2) = map_next(s1, WalkEvent::Entry(e2));
    assert(s2.stage == (MapStage::MedSlot { table: t1, i: 0 }) && op2 == (WalkOp::Read { table: t1, index: slot(v, 1) }));
    lemma_med_rounds(mem, s2, t1, 0);
    let st = map_at(s2, MapStage::Tail { level: 1, table: t1 });
    let (s3, op3) = map_next(st, WalkEvent::Entry(e1));
    assert(s3.stage == (MapStage::Cleared { level: 1, table: t1 }));
    let (s4, op4) = map_next(s3, WalkEvent::Done);
    assert(s4.stage == MapStage::Written && op4 == (WalkOp::Write { table: t1, index: slot(v, 1), value: leaf }));
    let (s5, op5) = map_next(s4, WalkEvent::Done);
    let (s6, op6) = map_next(s5, WalkEvent::Done);
    let (s7, op7) = map_next(s6, WalkEvent::Done);
    assert(op7 == (WalkOp::Finish { mapped: Some(v) }));
    assert(map_run(mem2, s7, op7) == (mem2, Some(v)));
    assert(map_run(mem2, s6, op6) == map_run(mem2, s7, op7));
    assert(map_run(mem2, s5, op5) == map_run(mem2, s6, op6));
    assert(map_run(mem, s4, op4) == map_run(mem2, s5, op5));
    assert(map_run(mem, s3, op3) == map_run(mem, s4, op4));
    assert(map_run(mem, st, WalkOp::Read { table: t1, index: slot(v, 1) }) == map_run(mem, s3, op3));
    assert(map_run(mem, s1, op1) == map_run(mem, s2, op2));
    assert(map_run(mem, s0, op0) == map_run(mem, s1, op1));

    let t = TranslateWalk { root, v, stage: TranslateStage::Reading { level: 3 } };
    assert(mem2(root.0, slot(v, 3)) == e3.0);
    assert(mem2(t2.0, slot(v, 2)) == e2.0);
    assert(mem2(t1.0, slot(v, 1)) == leaf.0);
    let (u1, w1) = translate_next(t, WalkEvent::Entry(e3));
    assert(w1 == (WalkOp::Read { table: t2, index: slot(v, 2) }));
    let (u2, w2) = translate_next(u1, WalkEvent::Entry(e2));
    assert(w2 == (WalkOp::Read { table: t1, index: slot(v, 1) }));
    lemma_leaf_translates_back(u2, p, flags, PageSize::Medium);
    let (u3, w3) = translate_next(u2, WalkEvent::Entry(leaf));
    assert(w3 == (WalkOp::Translated { frame: p }));
    assert(translate_run(mem2, u3, w3) == p);
    assert(translate_run(mem2, u2, w2) == p);
    assert(translate_run(mem2, u1, w1) == p);
    assert(translate_run(mem2, t, WalkOp::Read { table: root, index: slot(v, 3) }) == translate_run(mem2, u1, w1));
}

/// A large mapping changes no other translation: when the slot of a
/// 1 GiB or 2 MiB page at `v` already maps a large page, mapping it leaves
/// the translation of every address `w` whose walk does not pass through
/// that slot as it was.
pub proof fn lemma_map_large_keeps_other_translations(mem: spec_fn(usize, usize) -> usize, root: PhysAddr, p: PhysAddr, v: VirtAddr,
    owner: Owner, flags: usize, w: VirtAddr)
    requires
        flags < 0x1000,
    ensures
        p.0 % 0x4000_0000 == 0 && huge_path(mem, root, v)
            && !translation_reads(mem, root, w, huge_table(mem, root, v).0, slot(v, 2)) ==> ({
            let start = MapWalk { root, p, v, owner, page_size: PageSize::Huge, flags, stage: MapStage::Probe { level: 3, table: root } };
            translation(map_run(mem, start, WalkOp::Read { table: root, index: slot(v, 3) }).0, root, w) == translation(mem, root, w)
        }),
        p.0 % 0x20_0000 == 0 && medium_path(mem, root, v)
            && !translation_reads(mem, root, w, medium_table(mem, root, v).0, slot(v, 1)) ==> ({
            let start = MapWalk { root, p, v, owner, page_size: PageSize::Medium, flags, stage: MapStage::Probe { level: 3, table: root } };
            translation(map_run(mem, start, WalkOp::Read { table: root, index: slot(v, 3) }).0, root, w) == translation(mem, root, w)
        }),
{
    let t = TranslateWalk { root, v: w, stage: TranslateStage::Reading { level: 3 } };
    let op = WalkOp::Read { table: root, index: slot(w, 3) };
    if p.0 % 0x4000_0000 == 0 && huge_path(mem, root, v) && !translation_reads(mem, root, w, huge_table(mem, root, v).0, slot(v, 2)) {
        lemma_map_huge_then_translate(mem, root, p, v, owner, flags);
        lemma_translate_unread(mem, t, op, huge_table(mem, root, v).0, slot(v, 2), leaf_value(p, flags, PageSize::Huge).0);
    }
    if p.0 % 0x20_0000 == 0 && medium_path(mem, root, v) && !translation_reads(mem, root, w, medium_table(mem, root, v).0, slot(v, 1)) {
        lemma_map_medium_then_translate(mem, root, p, v, owner, flags);
        lemma_translate_unread(mem, t, op, medium_table(mem, root, v).0, slot(v, 1), leaf_value(p, flags, PageSize::Medium).0);
    }
}

/// An unmapped 1 GiB page translates to nothing: when the slot of the page
/// at `v` maps a large page, unmapping it empties only that entry, and a
/// translation of `v` afterwards gives 0.
pub proof fn lemma_unmap_huge_then_translate(mem: spec_fn(usize, usize) -> usize, root: PhysAddr, v: VirtAddr, owner: Owner)
    requires
        huge_path(mem, root, v),
    ensures
        ({
            let start = UnmapWalk { root, v, owner, page_size: PageSize::Huge, stage: UnmapStage::Root };
            let mem2 = unmap_run(mem, start, WalkOp::Read { table: root, index: slot(v, 3) });
            &&& mem2 == mem_write(mem, huge_table(mem, root, v).0, slot(v, 2), 0)
            &&& translation(mem2, root, v) == PhysAddr(0)
        }),
{
    let s0 = UnmapWalk { root, v, owner, page_size: PageSize::Huge, stage: UnmapStage::Root };
    let op0 = WalkOp::Read { table: root, index: slot(v, 3) };
    let e3 = PhysAddr(mem(root.0, slot(v, 3)));
    let t2 = frame_of(e3);
    let e2 = PhysAddr(mem(t2.0, slot(v, 2)));
    let mem2 = mem_write(mem, t2.0, slot(v, 2), 0);
    let (s1, op1) = unmap_next(s0, WalkEvent::Entry(e3));
    assert(s1.stage == (UnmapStage::HugeSlot { pdpt: t2 }) && op1 == (WalkOp::Read { table: t2, index: slot(v, 2) }));
    let (s2, op2) = unmap_next(s1, WalkEvent::Entry(e2));
    assert(s2.stage == (UnmapStage::Info { level: 2, table: t2 }) && op2 == (WalkOp::Read { table: t2, index: slot(v, 2) }));
    let (s3, op3) = unmap_next(s2, WalkEvent::Entry(e2));
    assert(s3.stage == (UnmapStage::Cleared { level: 2, table: t2 }));
    let (s4, op4) = unmap_next(s3, WalkEvent::Done);
    assert(s4.stage == (UnmapStage::Zeroed { level: 2, table: t2 }) && op4 == (WalkOp::Write { table: t2, index: slot(v, 2), value: PhysAddr(0) }));
    let (s5, op5) = unmap_next(s4, WalkEvent::Done);
    assert(s5.stage == (UnmapStage::Invalidated { level: 2, table: t2 }));
    let (s6, op6) = unmap_next(s5, WalkEvent::Done);
    assert(s6.stage == (UnmapStage::Check { level: 2, table: t2 }) && op6 == (WalkOp::Read { table: t2, index: slot(v, 2) }));
    assert(mem2(t2.0, slot(v, 2)) == 0);
    let (s7, op7) = unmap_next(s6, WalkEvent::Entry(PhysAddr(0)));
    assert(op7 is Finish);
    assert(unmap_run(mem2, s7, op7) == mem2);
    assert(unmap_run(mem2, s6, op6) == unmap_run(mem2, s7, op7));
    assert(unmap_run(mem2, s5, op5) == unmap_run(mem2, s6, op6));
    assert(unmap_run(mem, s4, op4) == unmap_run(mem2, s5, op5));
    assert(unmap_run(mem, s3, op3) == unmap_run(mem, s4, op4));
    assert(unmap_run(mem, s2, op2) == unmap_run(mem, s3, op3));
    assert(unmap_run(mem, s1, op1) == unmap_run(mem, s2, op2));
    assert(unmap_run(mem, s0, op0) == unmap_run(mem, s1, op1));

    let t = TranslateWalk { root, v, stage: TranslateStage::Reading { level: 3 } };
    assert(mem2(root.0, slot(v, 3)) == e3.0);
    let (u1, w1) = translate_next(t, WalkEvent::Entry(e3));
    assert(w1 == (WalkOp::Read { table: t2, index: slot(v, 2) }));
    lemma_empty_entry_translates_to_zero(u1);
    let (u2, w2) = translate_next(u1, WalkEvent::Entry(PhysAddr(0)));
    assert(translate_run(mem2, u2, w2) == PhysAddr(0));
    assert(translate_run(mem2, u1, w1) == PhysAddr(0));
    assert(translate_run(mem2, t, WalkOp::Read { table: root, index: slot(v, 3) }) == translate_run(mem2, u1, w1));
}

/// A 1 GiB unmapping changes no other translation: when the slot of the
/// page at `v` maps a large page, unmapping it leaves the translation of
/// every address `w` whose walk does not pass through that slot as it was.
pub proof fn lemma_unmap_huge_keeps_other_translations(mem: spec_fn(usize, usize) -> usize, root: PhysAddr, v: VirtAddr, owner: Owner, w: VirtAddr)
    requires
        huge_path(mem, root, v),
        !translation_reads(mem, root, w, huge_table(mem, root, v).0, slot(v, 2)),
    ensures
        ({
            let start = UnmapWalk { root, v, owner, page_size: PageSize::Huge, stage: UnmapStage::Root };
            translation(unmap_run(mem, start, WalkOp::Read { table: root, index: slot(v, 3) }), root, w) == translation(mem, root, w)
        }),
{
    lemma_unmap_huge_then_translate(mem, root, v, owner);
    lemma_translate_unread(mem, TranslateWalk { root, v: w, stage: TranslateStage::Reading { level: 3 } },
        WalkOp::Read { table: root, index: slot(w, 3) }, huge_table(mem, root, v).0, slot(v, 2), 0);
}

} // verus!
