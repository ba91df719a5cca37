//! Allocating and freeing pages of an address space, written as step
//! machines: the machine decides which frames to ask for, where to map them
//! and what to undo; its caller runs the frame allocator and the page-table
//! walks, fills memory, and reports back.
use vstd::prelude::*;
use crate::common::MEMORY_DEFAULT_PAGE_USIZE;
use crate::memory::BitPattern;
use crate::memory::address::{PhysAddr, VirtAddr};
use crate::permissions::Owner;
use crate::vmem::PageSize;
use crate::vmem::pages::calc_pages_reqd;

verus! {

/// What a page machine asks its caller to do.
#[derive(Clone, Copy, Debug, PartialEq, Eq, Structural)]
pub enum PagesOp {
    /// Allocate a frame of `size` bytes in pages of `page_size` for
    /// `owner`; answer with the frame, or none.
    AllocFrame { size: usize, page_size: PageSize, owner: Owner },
    /// Map frame `p` at `v` as a page of `page_size` with `flags` for
    /// `owner`.
    MapPage { p: PhysAddr, v: VirtAddr, owner: Owner, page_size: PageSize, flags: usize },
    /// Unmap the page of `page_size` at `v` for `owner`.
    Unmap { v: VirtAddr, owner: Owner, page_size: PageSize },
    /// Translate `v`; answer with the frame it maps to.
    Translate { v: VirtAddr },
    /// Free the frame at `p` on behalf of `owner`.
    Dealloc { p: PhysAddr, owner: Owner },
    /// Map `frame` at its own address as a default-size page, present,
    /// writeable and write-through, owned by the memory manager.
    IdentityMap { frame: PhysAddr },
    /// Fill `len` bytes from `v` with `pattern`.
    Fill { v: VirtAddr, len: usize, pattern: u8 },
    /// Over: the address the operation gives, or none.
    Finish { result: Option<usize> },
}

/// What the caller reports back.
#[derive(Clone, Copy, Debug, PartialEq, Eq, Structural)]
pub enum PagesEvent {
    /// The frame that was allocated, or none.
    Frame(Option<PhysAddr>),
    /// The frame the translated address maps to.
    Translated(PhysAddr),
    /// The asked action was carried out.
    Done,
}

/// The stage of a page machine.
#[derive(Clone, Copy, Debug, PartialEq, Eq, Structural)]
pub enum PagesStage {
    /// Awaiting the frame of page `i` of a run.
    Alloc { i: usize },
    /// Awaiting the mapping of page `i` of a run.
    Mapped { i: usize },
    /// Awaiting the unmapping of page `j` of those held.
    Unmapped { j: usize },
    /// Awaiting the frame page `j` of those held maps to.
    Translated { j: usize },
    /// Awaiting the freeing of that frame.
    Freed { j: usize },
    /// Awaiting fill `j` of `of`.
    Filled { j: usize, of: usize },
    /// Awaiting the one frame of a virtual run.
    VAlloc,
    /// Awaiting the mapping of page `i` of a virtual run onto `frame`.
    VMapped { frame: PhysAddr, i: usize },
    /// Awaiting the frame of a single page.
    SAlloc,
    /// Awaiting the mapping of the single page.
    SMapped,
    /// Awaiting the frame of a new root table.
    BAlloc,
    /// Awaiting the identity mapping of the new root table.
    BMapped { frame: PhysAddr },
    /// Over.
    Finished { result: Option<usize> },
}

/// A page machine: pages of `page_size` from `v` for `owner`, mapped with
/// `flags` and filled with `pattern`. `count` pages are concerned, `held` of
/// which are held so far; page `i` is mapped at `v + i * map_step` and freed
/// at `v + i * free_step`; a fill covers `fill_len` bytes.
#[derive(Clone, Copy, Debug, PartialEq, Eq, Structural)]
pub struct PagesWalk {
    pub v: VirtAddr,
    pub owner: Owner,
    pub page_size: PageSize,
    pub flags: usize,
    pub pattern: u8,
    pub count: usize,
    pub held: usize,
    pub map_step: usize,
    pub free_step: usize,
    pub fill_len: usize,
    pub stage: PagesStage,
}

/// `s` moved to stage `st`.
pub open spec fn pages_at(s: PagesWalk, st: PagesStage) -> PagesWalk {
    PagesWalk { stage: st, ..s }
}

/// The machine ends with `result`.
pub open spec fn pages_finish(s: PagesWalk, result: Option<usize>) -> (PagesWalk, PagesOp) {
    (pages_at(s, PagesStage::Finished { result }), PagesOp::Finish { result })
}

/// The first of `of` fills.
pub open spec fn pages_fill(s: PagesWalk, of: usize) -> (PagesWalk, PagesOp) {
    (pages_at(s, PagesStage::Filled { j: 0, of }), PagesOp::Fill { v: s.v, len: s.fill_len, pattern: s.pattern })
}

/// Unmapping page `j` of those held.
pub open spec fn pages_unmap(s: PagesWalk, j: usize) -> (PagesWalk, PagesOp) {
    (pages_at(s, PagesStage::Unmapped { j }),
        PagesOp::Unmap { v: VirtAddr((s.v.0 + j * s.free_step) as usize), owner: s.owner, page_size: s.page_size })
}

/// Mapping frame `p` as page `i`.
pub open spec fn pages_map(s: PagesWalk, st: PagesStage, p: PhysAddr, i: usize) -> (PagesWalk, PagesOp) {
    (pages_at(s, st), PagesOp::MapPage { p, v: VirtAddr((s.v.0 + i * s.map_step) as usize), owner: s.owner, page_size: s.page_size, flags: s.flags })
}

/// Asking for the frame of one default-size page of the run.
pub open spec fn pages_alloc(s: PagesWalk, i: usize) -> (PagesWalk, PagesOp) {
    (pages_at(s, PagesStage::Alloc { i }), PagesOp::AllocFrame { size: MEMORY_DEFAULT_PAGE_USIZE, page_size: s.page_size, owner: s.owner })
}

/// The next stage and action of a page machine on `ev`. A run asks for a
/// frame per page and maps each as it comes; when a frame cannot be had,
/// every page held so far is unmapped and the frame it maps to freed, and
/// the run ends with none; when all are mapped, each held page is filled and
/// the run ends with `v`. A virtual run maps its one frame at every page. A
/// single page that cannot be had gives address 0. Freeing unmaps each page,
/// then frees the frame it maps to. A new root table is identity mapped and
/// ends with its frame.
pub open spec fn pages_next(s: PagesWalk, ev: PagesEvent) -> (PagesWalk, PagesOp) {
    match (s.stage, ev) {
        (PagesStage::Alloc { i }, PagesEvent::Frame(Some(f))) =>
            pages_map(PagesWalk { held: (i + 1) as usize, ..s }, PagesStage::Mapped { i }, f, i),
        (PagesStage::Alloc { .. }, PagesEvent::Frame(None)) =>
            if s.held == 0 { pages_finish(s, None) } else { pages_unmap(s, 0) },
        (PagesStage::Mapped { i }, PagesEvent::Done) =>
            if i + 1 < s.count { pages_alloc(s, (i + 1) as usize) } else { pages_fill(s, s.held) },
        (PagesStage::Unmapped { j }, PagesEvent::Done) =>
            (pages_at(s, PagesStage::Translated { j }), PagesOp::Translate { v: VirtAddr((s.v.0 + j * s.free_step) as usize) }),
        (PagesStage::Translated { j }, PagesEvent::Translated(p)) =>
            (pages_at(s, PagesStage::Freed { j }), PagesOp::Dealloc { p, owner: Owner::Nobody }),
        (PagesStage::Freed { j }, PagesEvent::Done) =>
            if j + 1 < s.held { pages_unmap(s, (j + 1) as usize) } else { pages_finish(s, None) },
        (PagesStage::Filled { j, of }, PagesEvent::Done) =>
            if j + 1 < of {
                (pages_at(s, PagesStage::Filled { j: (j + 1) as usize, of }), PagesOp::Fill { v: s.v, len: s.fill_len, pattern: s.pattern })
            } else {
                pages_finish(s, Some(s.v.0))
            },
        (PagesStage::VAlloc, PagesEvent::Frame(None)) => pages_finish(s, None),
        (PagesStage::VAlloc, PagesEvent::Frame(Some(f))) =>
            if s.count == 0 { pages_fill(s, 1) } else { pages_map(s, PagesStage::VMapped { frame: f, i: 0 }, f, 0) },
        (PagesStage::VMapped { frame, i }, PagesEvent::Done) =>
            if i + 1 < s.count { pages_map(s, PagesStage::VMapped { frame, i: (i + 1) as usize }, frame, (i + 1) as usize) } else { pages_fill(s, 1) },
        (PagesStage::SAlloc, PagesEvent::Frame(None)) => pages_finish(s, Some(0)),
        (PagesStage::SAlloc, PagesEvent::Frame(Some(f))) => pages_map(s, PagesStage::SMapped, f, 0),
        (PagesStage::SMapped, PagesEvent::Done) => pages_fill(s, 1),
        (PagesStage::BAlloc, PagesEvent::Frame(None)) => pages_finish(s, None),
        (PagesStage::BAlloc, PagesEvent::Frame(Some(f))) => (pages_at(s, PagesStage::BMapped { frame: f }), PagesOp::IdentityMap { frame: f }),
        (PagesStage::BMapped { frame }, PagesEvent::Done) => pages_finish(s, Some(frame.0)),
        (PagesStage::Finished { result }, _) => (s, PagesOp::Finish { result }),
        (_, _) => (s, PagesOp::Finish { result: None }),
    }
}

/// How far a page machine is from its end.
pub open spec fn pages_measure(s: PagesWalk) -> int {
    let c = s.count as int;
    match s.stage {
        PagesStage::Finished { .. } => 0,
        PagesStage::Filled { j, of } => of - j,
        PagesStage::Unmapped { j } => 3 * (s.held - j),
        PagesStage::Translated { j } => 3 * (s.held - j) - 1,
        PagesStage::Freed { j } => 3 * (s.held - j) - 2,
        PagesStage::Alloc { i } => 3 * c + 2 * (c - i) + 1,
        PagesStage::Mapped { i } => 3 * c + 2 * (c - i),
        PagesStage::VAlloc => c + 2,
        PagesStage::VMapped { i, .. } => c - i + 1,
        PagesStage::SAlloc => 3,
        PagesStage::SMapped => 2,
        PagesStage::BAlloc => 2,
        PagesStage::BMapped { .. } => 1,
    }
}

impl PagesWalk {
    /// The addresses of the pages concerned fit a word, and the counters
    /// stay within the pages concerned.
    pub open spec fn wf(&self) -> bool {
        &&& self.v.0 + self.count * self.map_step <= usize::MAX
        &&& self.v.0 + self.count * self.free_step <= usize::MAX
        &&& self.held <= self.count
        &&& match self.stage {
            PagesStage::Alloc { i } => i < self.count && self.held == i,
            PagesStage::Mapped { i } => i < self.count && self.held == i + 1,
            PagesStage::Unmapped { j } | PagesStage::Translated { j } | PagesStage::Freed { j } => j < self.held,
            PagesStage::Filled { j, of } => j < of,
            PagesStage::VMapped { i, .. } => i < self.count,
            PagesStage::SAlloc => self.count == 1,
            _ => true,
        }
    }

    /// `ev` is the kind of event the stage waits for.
    pub open spec fn awaits(&self, ev: PagesEvent) -> bool {
        match self.stage {
            PagesStage::Alloc { .. } | PagesStage::VAlloc | PagesStage::SAlloc | PagesStage::BAlloc => ev is Frame,
            PagesStage::Translated { .. } => ev is Translated,
            PagesStage::Finished { .. } => true,
            _ => ev is Done,
        }
    }

    /// This machine at stage `st`.
    fn at(&self, st: PagesStage) -> (r: PagesWalk)
        ensures
            r == pages_at(*self, st),
    {
        PagesWalk { stage: st, ..*self }
    }

    /// Ends with `result`.
    fn finish(&self, result: Option<usize>) -> (r: (PagesWalk, PagesOp))
        ensures
            r == pages_finish(*self, result),
    {
        (self.at(PagesStage::Finished { result }), PagesOp::Finish { result })
    }

    /// Starts the first of `of` fills.
    fn fill(&self, of: usize) -> (r: (PagesWalk, PagesOp))
        ensures
            r == pages_fill(*self, of),
    {
        (self.at(PagesStage::Filled { j: 0, of }), PagesOp::Fill { v: self.v, len: self.fill_len, pattern: self.pattern })
    }

    /// Unmaps page `j` of those held.
    fn unmap(&self, j: usize) -> (r: (PagesWalk, PagesOp))
        requires
            self.wf(),
            j < self.count,
        ensures
            r == pages_unmap(*self, j),
    {
        proof { lemma_step_fits(self.v.0, j, self.count, self.free_step); }
        (self.at(PagesStage::Unmapped { j }),
            PagesOp::Unmap { v: VirtAddr(self.v.0 + j * self.free_step), owner: self.owner, page_size: self.page_size })
    }

    /// Maps frame `p` as page `i`.
    fn map(&self, st: PagesStage, p: PhysAddr, i: usize) -> (r: (PagesWalk, PagesOp))
        requires
            self.v.0 + self.count * self.map_step <= usize::MAX,
            i < self.count,
        ensures
            r == pages_map(*self, st, p, i),
    {
        proof { lemma_step_fits(self.v.0, i, self.count, self.map_step); }
        (self.at(st), PagesOp::MapPage { p, v: VirtAddr(self.v.0 + i * self.map_step), owner: self.owner, page_size: self.page_size, flags: self.flags })
    }

    /// Asks for the frame of page `i` of a run.
    fn ask_frame(&self, i: usize) -> (r: (PagesWalk, PagesOp))
        ensures
            r == pages_alloc(*self, i),
    {
        (self.at(PagesStage::Alloc { i }), PagesOp::AllocFrame { size: MEMORY_DEFAULT_PAGE_USIZE, page_size: self.page_size, owner: self.owner })
    }

    /// Starts allocating the default-size pages that hold `size` bytes,
    /// mapping them as pages of `page_size` from `v`, each after the last,
    /// and filling them with `bit_pattern`; freeing steps default-size pages
    /// from `v`. Nothing to allocate ends at once with `v`.
    pub fn alloc_pages_fixed(size: usize, v: VirtAddr, owner: Owner, page_size: PageSize, flags: usize, bit_pattern: BitPattern)
        -> (r: (PagesWalk, PagesOp))
        requires
            size + 4095 <= usize::MAX,
            v.0 + ((size + 4095) / 4096) * page_size.size() <= usize::MAX,
        ensures
            r.0.wf(),
            r.0.count == (size + 4095) / 4096,
            r.0.v == v && r.0.owner == owner && r.0.page_size == page_size && r.0.flags == flags && r.0.pattern == bit_pattern.bits(),
            r.0.held == 0 && r.0.map_step == page_size.size() && r.0.free_step == 4096 && r.0.fill_len == page_size.size(),
            r.0.count == 0 ==> r.0.stage == (PagesStage::Finished { result: Some(v.0) }) && r.1 == (PagesOp::Finish { result: Some(v.0) }),
            r.0.count > 0 ==> r == pages_alloc(r.0, 0),
    {
        let count = calc_pages_reqd(size, PageSize::Small);
        let ps = page_size.into_bits();
        proof { lemma_steps_fit(v.0, count, ps); }
        let s = PagesWalk {
            v, owner, page_size, flags, pattern: bit_pattern.into_bits(), count, held: 0,
            map_step: ps, free_step: MEMORY_DEFAULT_PAGE_USIZE, fill_len: ps, stage: PagesStage::Alloc { i: 0 },
        };
        if count == 0 {
            s.finish(Some(v.0))
        } else {
            s.ask_frame(0)
        }
    }

    /// Starts allocating one frame of `size` bytes in pages of `page_size`
    /// and mapping it at every page from `v` that `size` needs, then filling
    /// `size` bytes from `v` with `bit_pattern`.
    pub fn alloc_pages_fixed_virtual(size: usize, v: VirtAddr, owner: Owner, page_size: PageSize, flags: usize, bit_pattern: BitPattern)
        -> (r: (PagesWalk, PagesOp))
        requires
            size + page_size.size() - 1 <= usize::MAX,
            v.0 + ((size + page_size.size() - 1) / page_size.size() as int) * page_size.size() <= usize::MAX,
        ensures
            r.0.wf(),
            r.0.count == (size + page_size.size() - 1) / page_size.size() as int,
            r.0.v == v && r.0.owner == owner && r.0.page_size == page_size && r.0.flags == flags && r.0.pattern == bit_pattern.bits(),
            r.0.map_step == page_size.size() && r.0.fill_len == size,
            r.0.stage == PagesStage::VAlloc,
            r.1 == (PagesOp::AllocFrame { size, page_size, owner }),
    {
        let count = calc_pages_reqd(size, page_size);
        let ps = page_size.into_bits();
        let s = PagesWalk {
            v, owner, page_size, flags, pattern: bit_pattern.into_bits(), count, held: 0,
            map_step: ps, free_step: 0, fill_len: size, stage: PagesStage::VAlloc,
        };
        (s, PagesOp::AllocFrame { size, page_size, owner })
    }

    /// Starts allocating one default-size frame in pages of `page_size`,
    /// mapping it at `v` and filling a page of `page_size` from `v` with
    /// `bit_pattern`.
    pub fn alloc_page_fixed(v: VirtAddr, owner: Owner, page_size: PageSize, flags: usize, bit_pattern: BitPattern) -> (r: (PagesWalk, PagesOp))
        ensures
            r.0.wf(),
            r.0.v == v && r.0.owner == owner && r.0.page_size == page_size && r.0.flags == flags && r.0.pattern == bit_pattern.bits(),
            r.0.count == 1 && r.0.map_step == 0 && r.0.fill_len == page_size.size(),
            r.0.stage == PagesStage::SAlloc,
            r.1 == (PagesOp::AllocFrame { size: MEMORY_DEFAULT_PAGE_USIZE, page_size, owner }),
    {
        let s = PagesWalk {
            v, owner, page_size, flags, pattern: bit_pattern.into_bits(), count: 1, held: 0,
            map_step: 0, free_step: 0, fill_len: page_size.into_bits(), stage: PagesStage::SAlloc,
        };
        (s, PagesOp::AllocFrame { size: MEMORY_DEFAULT_PAGE_USIZE, page_size, owner })
    }

    /// Starts freeing the page of `page_size` at `v`: it is unmapped, then
    /// the frame it maps to freed.
    pub fn dealloc_page(v: VirtAddr, owner: Owner, page_size: PageSize) -> (r: (PagesWalk, PagesOp))
        ensures
            r.0.wf(),
            r.0.v == v && r.0.owner == owner && r.0.page_size == page_size,
            r.0.count == 1 && r.0.held == 1,
            r == pages_unmap(r.0, 0),
    {
        let s = PagesWalk {
            v, owner, page_size, flags: 0, pattern: 0, count: 1, held: 1,
            map_step: 0, free_step: 0, fill_len: 0, stage: PagesStage::Unmapped { j: 0 },
        };
        s.unmap(0)
    }

    /// Starts freeing the pages of `page_size` from `v`, one per
    /// default-size page that `size` bytes need: each is unmapped, then the
    /// frame it maps to freed. Nothing to free ends at once.
    pub fn dealloc_pages_contiguous(v: VirtAddr, size: usize, owner: Owner, page_size: PageSize) -> (r: (PagesWalk, PagesOp))
        requires
            size + 4095 <= usize::MAX,
            v.0 + ((size + 4095) / 4096) * page_size.size() <= usize::MAX,
        ensures
            r.0.wf(),
            r.0.count == (size + 4095) / 4096 && r.0.held == r.0.count,
            r.0.v == v && r.0.owner == owner && r.0.page_size == page_size && r.0.free_step == page_size.size(),
            r.0.count == 0 ==> r.0.stage == (PagesStage::Finished { result: None }) && r.1 == (PagesOp::Finish { result: None }),
            r.0.count > 0 ==> r == pages_unmap(r.0, 0),
    {
        let count = calc_pages_reqd(size, PageSize::Small);
        let ps = page_size.into_bits();
        proof { lemma_steps_fit(v.0, count, ps); }
        let s = PagesWalk {
            v, owner, page_size, flags: 0, pattern: 0, count, held: count,
            map_step: 0, free_step: ps, fill_len: 0, stage: PagesStage::Finished { result: None },
        };
        if count == 0 {
            s.finish(None)
        } else {
            s.unmap(0)
        }
    }

    /// Starts making a new root table: one default-size frame for the
    /// memory manager, identity mapped; it ends with the frame, or none when
    /// no frame can be had.
    pub fn new_base() -> (r: (PagesWalk, PagesOp))
        ensures
            r.0.wf(),
            r.0.stage == PagesStage::BAlloc,
            r.1 == (PagesOp::AllocFrame { size: MEMORY_DEFAULT_PAGE_USIZE, page_size: PageSize::Small, owner: Owner::Memory }),
    {
        let s = PagesWalk {
            v: VirtAddr(0), owner: Owner::Memory, page_size: PageSize::Small, flags: 0, pattern: 0, count: 0, held: 0,
            map_step: 0, free_step: 0, fill_len: 0, stage: PagesStage::BAlloc,
        };
        (s, PagesOp::AllocFrame { size: MEMORY_DEFAULT_PAGE_USIZE, page_size: PageSize::Small, owner: Owner::Memory })
    }

    /// Takes the next step on `ev`.
    pub fn step(&self, ev: PagesEvent) -> (r: (PagesWalk, PagesOp))
        requires
            self.wf(),
            self.awaits(ev),
        ensures
            r == pages_next(*self, ev),
            r.0.wf(),
    {
        match (self.stage, ev) {
            (PagesStage::Alloc { i }, PagesEvent::Frame(Some(f))) => {
                let s = PagesWalk { held: i + 1, ..*self };
                s.map(PagesStage::Mapped { i }, f, i)
            },
            (PagesStage::Alloc { .. }, PagesEvent::Frame(None)) =>
                if self.held == 0 { self.finish(None) } else { self.unmap(0) },
            (PagesStage::Mapped { i }, PagesEvent::Done) =>
                if i + 1 < self.count { self.ask_frame(i + 1) } else { self.fill(self.held) },
            (PagesStage::Unmapped { j }, PagesEvent::Done) => {
                proof { lemma_step_fits(self.v.0, j, self.count, self.free_step); }
                (self.at(PagesStage::Translated { j }), PagesOp::Translate { v: VirtAddr(self.v.0 + j * self.free_step) })
            },
            (PagesStage::Translated { j }, PagesEvent::Translated(p)) =>
                (self.at(PagesStage::Freed { j }), PagesOp::Dealloc { p, owner: Owner::Nobody }),
            (PagesStage::Freed { j }, PagesEvent::Done) =>
                if j + 1 < self.held { self.unmap(j + 1) } else { self.finish(None) },
            (PagesStage::Filled { j, of }, PagesEvent::Done) =>
                if j + 1 < of {
                    (self.at(PagesStage::Filled { j: j + 1, of }), PagesOp::Fill { v: self.v, len: self.fill_len, pattern: self.pattern })
                } else {
                    self.finish(Some(self.v.0))
                },
            (PagesStage::VAlloc, PagesEvent::Frame(None)) => self.finish(None),
            (PagesStage::VAlloc, PagesEvent::Frame(Some(f))) =>
                if self.count == 0 { self.fill(1) } else { self.map(PagesStage::VMapped { frame: f, i: 0 }, f, 0) },
            (PagesStage::VMapped { frame, i }, PagesEvent::Done) =>
                if i + 1 < self.count { self.map(PagesStage::VMapped { frame, i: i + 1 }, frame, i + 1) } else { self.fill(1) },
            (PagesStage::SAlloc, PagesEvent::Frame(None)) => self.finish(Some(0)),
            (PagesStage::SAlloc, PagesEvent::Frame(Some(f))) => {
                self.map(PagesStage::SMapped, f, 0)
            },
            (PagesStage::SMapped, PagesEvent::Done) => self.fill(1),
            (PagesStage::BAlloc, PagesEvent::Frame(None)) => self.finish(None),
            (PagesStage::BAlloc, PagesEvent::Frame(Some(f))) => (self.at(PagesStage::BMapped { frame: f }), PagesOp::IdentityMap { frame: f }),
            (PagesStage::BMapped { frame }, PagesEvent::Done) => self.finish(Some(frame.0)),
            (PagesStage::Finished { result }, _) => (*self, PagesOp::Finish { result }),
            (_, _) => (*self, PagesOp::Finish { result: None }),
        }
    }
}

/// Page `i` of `count` pages `step` apart from `a` starts within a word.
proof fn lemma_step_fits(a: usize, i: usize, count: usize, step: usize)
    requires
        a + count * step <= usize::MAX,
        i < count,
    ensures
        a + i * step <= usize::MAX,
        a + i * step <= a + count * step,
{
    assert(i * step <= count * step) by (nonlinear_arith)
        requires i < count;
}

/// When pages of `step` bytes fit, default-size pages fit too.
proof fn lemma_steps_fit(a: usize, count: usize, step: usize)
    requires
        a + count * step <= usize::MAX,
        step >= 4096,
    ensures
        a + count * 4096 <= usize::MAX,
{
    assert(count * 4096 <= count * step) by (nonlinear_arith)
        requires step >= 4096;
}

/// A page machine ends: every step from a stage before the end brings it
/// closer to the end.
pub proof fn lemma_pages_progress(s: PagesWalk, ev: PagesEvent)
    requires
        s.wf(),
        s.awaits(ev),
        !(s.stage is Finished),
    ensures
        0 <= pages_measure(pages_next(s, ev).0) < pages_measure(s),
{
}

/// A run that cannot get a frame gives back every page it held: the undoing
/// unmaps held pages one after another from the first, and ends, with
/// none, only after the last of them.
pub proof fn lemma_pages_undo_all(s: PagesWalk, ev: PagesEvent)
    requires
        s.wf(),
        s.awaits(ev),
        s.stage is Freed,
    ensures
        s.stage matches PagesStage::Freed { j } && {
            &&& pages_next(s, ev).0.stage is Finished ==> j + 1 == s.held && pages_next(s, ev).1 == (PagesOp::Finish { result: None })
            &&& !(pages_next(s, ev).0.stage is Finished) ==> pages_next(s, ev).0.stage == (PagesStage::Unmapped { j: (j + 1) as usize })
        },
{
}

} // verus!
