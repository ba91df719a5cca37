use baselib::memory::address::{PhysAddr, VirtAddr};
use baselib::memory::BitPattern;
use baselib::permissions::Owner;
use baselib::vmem::pagealloc::{PagesEvent, PagesOp, PagesWalk};
use baselib::vmem::PageSize;

/// Runs a page machine, handing out `frames` in turn (none once they run
/// out) and translating every address to `0x9000`; returns every action.
fn run(mut w: PagesWalk, mut op: PagesOp, frames: &[u64]) -> Vec<PagesOp> {
    let mut ops = vec![op];
    let mut next = 0;
    loop {
        let ev = match op {
            PagesOp::Finish { .. } => return ops,
            PagesOp::AllocFrame { .. } => {
                let f = frames.get(next).map(|&f| PhysAddr(f as usize));
                next += 1;
                PagesEvent::Frame(f)
            }
            PagesOp::Translate { .. } => PagesEvent::Translated(PhysAddr(0x9000)),
            _ => PagesEvent::Done,
        };
        let (nw, nop) = w.step(ev);
        w = nw;
        op = nop;
        ops.push(op);
    }
}

#[test]
fn a_run_maps_each_page_then_fills_it() {
    let (w, op) = PagesWalk::alloc_pages_fixed(0x2001, VirtAddr(0x40_0000), Owner::Kernel, PageSize::Small, 3, BitPattern::FF);
    assert_eq!(w.count, 3);
    let ops = run(w, op, &[0x10000, 0x11000, 0x12000]);
    let maps: Vec<_> = ops.iter().filter_map(|o| match o { PagesOp::MapPage { p, v, .. } => Some((p.0, v.0)), _ => None }).collect();
    assert_eq!(maps, vec![(0x10000, 0x40_0000), (0x11000, 0x40_1000), (0x12000, 0x40_2000)]);
    let fills = ops.iter().filter(|o| matches!(o, PagesOp::Fill { len: 0x1000, pattern: 0xff, .. })).count();
    assert_eq!(fills, 3);
    assert_eq!(ops.last(), Some(&PagesOp::Finish { result: Some(0x40_0000) }));
}

#[test]
fn a_run_that_runs_out_gives_back_what_it_held() {
    let (w, op) = PagesWalk::alloc_pages_fixed(0x3000, VirtAddr(0x40_0000), Owner::Kernel, PageSize::Small, 3, BitPattern::ZeroZero);
    let ops = run(w, op, &[0x10000, 0x11000]);
    let tail: Vec<_> = ops.iter().skip_while(|o| !matches!(o, PagesOp::Unmap { .. })).cloned().collect();
    assert_eq!(
        tail,
        vec![
            PagesOp::Unmap { v: VirtAddr(0x40_0000), owner: Owner::Kernel, page_size: PageSize::Small },
            PagesOp::Translate { v: VirtAddr(0x40_0000) },
            PagesOp::Dealloc { p: PhysAddr(0x9000), owner: Owner::Nobody },
            PagesOp::Unmap { v: VirtAddr(0x40_1000), owner: Owner::Kernel, page_size: PageSize::Small },
            PagesOp::Translate { v: VirtAddr(0x40_1000) },
            PagesOp::Dealloc { p: PhysAddr(0x9000), owner: Owner::Nobody },
            PagesOp::Finish { result: None },
        ]
    );
}

#[test]
fn an_empty_run_ends_at_once() {
    let (_, op) = PagesWalk::alloc_pages_fixed(0, VirtAddr(0x5000), Owner::Kernel, PageSize::Small, 3, BitPattern::ZeroZero);
    assert_eq!(op, PagesOp::Finish { result: Some(0x5000) });
    let (w, op) = PagesWalk::alloc_pages_fixed(0x1000, VirtAddr(0x5000), Owner::Kernel, PageSize::Small, 3, BitPattern::ZeroZero);
    assert_eq!(run(w, op, &[]).last(), Some(&PagesOp::Finish { result: None }));
}

#[test]
fn a_virtual_run_maps_one_frame_everywhere() {
    let (w, op) = PagesWalk::alloc_pages_fixed_virtual(0x40_0000, VirtAddr(0x8000_0000), Owner::Kernel, PageSize::Medium, 3, BitPattern::Custom(7));
    assert_eq!(op, PagesOp::AllocFrame { size: 0x40_0000, page_size: PageSize::Medium, owner: Owner::Kernel });
    let ops = run(w, op, &[0x20_0000]);
    let maps: Vec<_> = ops.iter().filter_map(|o| match o { PagesOp::MapPage { p, v, .. } => Some((p.0, v.0)), _ => None }).collect();
    assert_eq!(maps, vec![(0x20_0000, 0x8000_0000), (0x20_0000, 0x8020_0000)]);
    assert!(ops.contains(&PagesOp::Fill { v: VirtAddr(0x8000_0000), len: 0x40_0000, pattern: 7 }));
    assert_eq!(ops.last(), Some(&PagesOp::Finish { result: Some(0x8000_0000) }));
}

#[test]
fn a_single_page_that_cannot_be_had_gives_zero() {
    let (w, op) = PagesWalk::alloc_page_fixed(VirtAddr(0x7000), Owner::Kernel, PageSize::Small, 3, BitPattern::ZeroZero);
    assert_eq!(run(w, op, &[]).last(), Some(&PagesOp::Finish { result: Some(0) }));
    let (w, op) = PagesWalk::alloc_page_fixed(VirtAddr(0x7000), Owner::Kernel, PageSize::Small, 3, BitPattern::ZeroZero);
    let ops = run(w, op, &[0x3000]);
    assert_eq!(ops[1], PagesOp::MapPage { p: PhysAddr(0x3000), v: VirtAddr(0x7000), owner: Owner::Kernel, page_size: PageSize::Small, flags: 3 });
    assert_eq!(ops.last(), Some(&PagesOp::Finish { result: Some(0x7000) }));
}

#[test]
fn freeing_unmaps_then_frees_each_page() {
    let (w, op) = PagesWalk::dealloc_pages_contiguous(VirtAddr(0x40_0000), 0x2000, Owner::Kernel, PageSize::Small);
    let ops = run(w, op, &[]);
    let unmaps: Vec<_> = ops.iter().filter_map(|o| match o { PagesOp::Unmap { v, .. } => Some(v.0), _ => None }).collect();
    assert_eq!(unmaps, vec![0x40_0000, 0x40_1000]);
    assert_eq!(ops.iter().filter(|o| matches!(o, PagesOp::Dealloc { .. })).count(), 2);
    let (w, op) = PagesWalk::dealloc_page(VirtAddr(0x9000), Owner::Kernel, PageSize::Small);
    assert_eq!(run(w, op, &[]).len(), 4);
}

#[test]
fn a_new_root_table_is_identity_mapped() {
    let (w, op) = PagesWalk::new_base();
    let ops = run(w, op, &[0x55000]);
    assert_eq!(ops, vec![
        PagesOp::AllocFrame { size: 0x1000, page_size: PageSize::Small, owner: Owner::Memory },
        PagesOp::IdentityMap { frame: PhysAddr(0x55000) },
        PagesOp::Finish { result: Some(0x55000) },
    ]);
    let (w, op) = PagesWalk::new_base();
    assert_eq!(run(w, op, &[]).last(), Some(&PagesOp::Finish { result: None }));
}
