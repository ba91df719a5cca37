//! Boot-time constants, the boot method, and where boot-time blocks go.
use vstd::prelude::*;
use crate::common::{nebulae_test_pattern_spec, USIZE_512K, USIZE_2G, MEMORY_DEFAULT_PAGE_USIZE};
use crate::genesis::{entry_fits, MemMapEntry, MEMORY_TYPE_CONVENTIONAL};
use crate::memory::MemBlock;
use crate::memory::address::{align_canon_4k_spec, Align, PhysAddr};
use crate::rng::isaac64::Isaac64Rng;

verus! {

/// How often, in deallocations, the frame allocator merges free regions.
pub const FRAME_ALLOCATOR_COALESCE_THRESHOLD_DEALLOC: usize = 100;

/// How the kernel was started.
#[derive(Copy, Clone, Debug, PartialEq, Eq, Structural)]
pub enum KernelBootMethod {
    Undetermined,
    Uefi,
    Bios,
    Multiboot,
    Firmware,
    Bsp,
    Other,
}

impl KernelBootMethod {
    /// The number of a boot method, in declaration order from zero.
    pub open spec fn bits(self) -> usize {
        match self {
            KernelBootMethod::Undetermined => 0,
            KernelBootMethod::Uefi => 1,
            KernelBootMethod::Bios => 2,
            KernelBootMethod::Multiboot => 3,
            KernelBootMethod::Firmware => 4,
            KernelBootMethod::Bsp => 5,
            KernelBootMethod::Other => 6,
        }
    }

    /// The number of the boot method.
    pub fn into_bits(self) -> (r: usize)
        ensures
            r == self.bits(),
    {
        match self {
            KernelBootMethod::Undetermined => 0,
            KernelBootMethod::Uefi => 1,
            KernelBootMethod::Bios => 2,
            KernelBootMethod::Multiboot => 3,
            KernelBootMethod::Firmware => 4,
            KernelBootMethod::Bsp => 5,
            KernelBootMethod::Other => 6,
        }
    }

    /// The boot method for a number, read one step below `into_bits`: zero
    /// is UEFI, one BIOS, two multiboot, three firmware, four BSP, and any
    /// other number is `Other`.
    pub fn from_bits(bits: usize) -> (r: KernelBootMethod)
        ensures
            bits == 0 ==> r == KernelBootMethod::Uefi,
            bits == 1 ==> r == KernelBootMethod::Bios,
            bits == 2 ==> r == KernelBootMethod::Multiboot,
            bits == 3 ==> r == KernelBootMethod::Firmware,
            bits == 4 ==> r == KernelBootMethod::Bsp,
            bits > 4 ==> r == KernelBootMethod::Other,
    {
        match bits {
            0 => KernelBootMethod::Uefi,
            1 => KernelBootMethod::Bios,
            2 => KernelBootMethod::Multiboot,
            3 => KernelBootMethod::Firmware,
            4 => KernelBootMethod::Bsp,
            _ => KernelBootMethod::Other,
        }
    }
}

impl crate::common::AsUsize for KernelBootMethod {
    open spec fn usize_of(&self) -> usize {
        self.bits()
    }

    fn as_usize(&self) -> (r: usize) {
        self.into_bits()
    }
}

/// The pages set aside for scratch use before the allocators exist.
pub const PREBOOT_SCRATCH_PAGE_COUNT: usize = 3;

/// The scratch area: the start of the first conventional block of at least
/// `PREBOOT_SCRATCH_PAGE_COUNT` pages, or none when there is no such block
/// or it starts at a null address (zero or the test pattern).
pub fn scratch_base(entries: &[MemMapEntry]) -> (r: Option<PhysAddr>)
    ensures
        match r {
            Some(p) => exists|k: int| #[trigger] first_scratch(entries@, k) && p.0 == entries@[k].phys_start as usize
                && !null_addr(p.0),
            None => forall|k: int| #[trigger] first_scratch(entries@, k)
                ==> null_addr(entries@[k].phys_start as usize),
        },
{
    let mut i: usize = 0;
    while i < entries.len()
        invariant
            i <= entries@.len(),
            forall|j: int| 0 <= j < i ==> !#[trigger] scratch_fits(entries@[j]),
        decreases entries@.len() - i,
    {
        let e = entries[i];
        if e.ty == MEMORY_TYPE_CONVENTIONAL && e.page_count >= PREBOOT_SCRATCH_PAGE_COUNT as u64 {
            let p = PhysAddr(e.phys_start as usize);
            proof {
                assert(first_scratch(entries@, i as int));
                assert forall|k: int| #[trigger] first_scratch(entries@, k) implies k == i by {
                    if k < i {
                        assert(!scratch_fits(entries@[k]));
                    } else if k > i {
                        assert(!scratch_fits(entries@[i as int]));
                    }
                }
            }
            if p.is_null() {
                return None;
            }
            return Some(p);
        }
        i = i + 1;
    }
    None
}

/// `a` is a null address: zero or the test pattern.
pub open spec fn null_addr(a: usize) -> bool {
    a == 0 || a == nebulae_test_pattern_spec()
}

/// Entry `e` can hold the scratch area.
pub open spec fn scratch_fits(e: MemMapEntry) -> bool {
    e.ty == MEMORY_TYPE_CONVENTIONAL && e.page_count >= PREBOOT_SCRATCH_PAGE_COUNT as u64
}

/// Entry `k` is the first of `entries` that can hold the scratch area.
pub open spec fn first_scratch(entries: Seq<MemMapEntry>, k: int) -> bool {
    &&& 0 <= k < entries.len()
    &&& scratch_fits(entries[k])
    &&& forall|j: int| 0 <= j < k ==> !#[trigger] scratch_fits(entries[j])
}

/// The block of entry `e` holds address `a`.
pub open spec fn entry_holds(e: MemMapEntry, a: int) -> bool {
    (e.phys_start as usize) <= a < (e.phys_start as usize) + (e.page_count as usize) * 4096
}

/// Block `k` of `taken` is in the list: neither it nor a block before it is
/// empty (an empty block ends the list).
pub open spec fn listed(taken: Seq<MemBlock<PhysAddr>>, k: int) -> bool {
    &&& 0 <= k < taken.len()
    &&& forall|i: int| 0 <= i <= k ==> #[trigger] taken[i].size != 0
}

/// Address `a` lies in a listed block of `taken`.
pub open spec fn in_taken(taken: Seq<MemBlock<PhysAddr>>, a: int) -> bool {
    exists|k: int| #[trigger] listed(taken, k) && taken[k].base_addr.0 <= a < taken[k].base_addr.0 + taken[k].size
}

/// Entry `k` is the first of `entries` whose block holds `a`.
pub open spec fn first_holder(entries: Seq<MemMapEntry>, a: int, k: int) -> bool {
    &&& 0 <= k < entries.len()
    &&& entry_holds(entries[k], a)
    &&& forall|j: int| 0 <= j < k ==> !#[trigger] entry_holds(entries[j], a)
}

/// A block of `bytes` bytes may start at `a`: `a` lies in no listed block
/// of `taken`, and the first memory-map block that holds `a` is
/// conventional and holds the whole block.
pub open spec fn base_free(taken: Seq<MemBlock<PhysAddr>>, entries: Seq<MemMapEntry>, a: int, bytes: int) -> bool {
    &&& !in_taken(taken, a)
    &&& exists|k: int| #[trigger] first_holder(entries, a, k) && entries[k].ty == MEMORY_TYPE_CONVENTIONAL
        && a + bytes <= (entries[k].phys_start as usize) + (entries[k].page_count as usize) * 4096
}

/// Whether a block of `bytes` bytes may start at `candidate` (see
/// `base_free`).
pub fn candidate_base_free(candidate: usize, bytes: usize, taken: &[MemBlock<PhysAddr>], entries: &[MemMapEntry]) -> (r: bool)
    requires
        forall|k: int| 0 <= k < entries@.len() ==> #[trigger] entry_fits(entries@[k]),
    ensures
        r == base_free(taken@, entries@, candidate as int, bytes as int),
{
    let mut k: usize = 0;
    while k < taken.len() && taken[k].size != 0
        invariant
            k <= taken@.len(),
            forall|i: int| 0 <= i < k ==> #[trigger] taken@[i].size != 0
                && !(taken@[i].base_addr.0 <= candidate < taken@[i].base_addr.0 + taken@[i].size),
        decreases taken@.len() - k,
    {
        let b = &taken[k];
        if candidate >= b.base_addr.0 && candidate - b.base_addr.0 < b.size {
            proof {
                assert(listed(taken@, k as int));
            }
            return false;
        }
        k = k + 1;
    }
    proof {
        assert forall|kk: int| #[trigger] listed(taken@, kk) implies !(taken@[kk].base_addr.0 <= candidate
            < taken@[kk].base_addr.0 + taken@[kk].size) by {
            if kk >= k {
                assert(taken@[k as int].size != 0);
            }
        }
    }
    let mut j: usize = 0;
    while j < entries.len()
        invariant
            j <= entries@.len(),
            !in_taken(taken@, candidate as int),
            forall|q: int| 0 <= q < entries@.len() ==> #[trigger] entry_fits(entries@[q]),
            forall|i: int| 0 <= i < j ==> !#[trigger] entry_holds(entries@[i], candidate as int),
        decreases entries@.len() - j,
    {
        let e = entries[j];
        proof { assert(entry_fits(entries@[j as int])); }
        let start = e.phys_start as usize;
        let size = (e.page_count as usize) * MEMORY_DEFAULT_PAGE_USIZE;
        if candidate >= start && candidate - start < size {
            proof {
                assert(first_holder(entries@, candidate as int, j as int));
                assert forall|kk: int| #[trigger] first_holder(entries@, candidate as int, kk) implies kk == j by {
                    if kk < j {
                        assert(!entry_holds(entries@[kk], candidate as int));
                    } else if kk > j {
                        assert(!entry_holds(entries@[j as int], candidate as int));
                    }
                }
            }
            return e.ty == MEMORY_TYPE_CONVENTIONAL && bytes <= size - (candidate - start);
        }
        j = j + 1;
    }
    proof {
        assert forall|kk: int| !#[trigger] first_holder(entries@, candidate as int, kk) by {
            if 0 <= kk < entries@.len() {
                assert(!entry_holds(entries@[kk], candidate as int));
            }
        }
    }
    false
}

/// The upper end of the range boot-time blocks are drawn from: the lower of
/// `phys_boundary` and 2 GiB.
pub open spec fn draw_ceiling(phys_boundary: usize) -> usize {
    if phys_boundary < USIZE_2G { phys_boundary } else { USIZE_2G }
}

/// `r` is what drawing a number between `lo` and `hi` from `o` gives, `n`
/// the generator after it.
pub open spec fn drawn_between(o: &Isaac64Rng, n: &Isaac64Rng, lo: usize, hi: usize, r: usize) -> bool {
    &&& usize::BITS == 64 ==> Isaac64Rng::ranged64_post(o, n, lo as u64, hi as u64, r as u64)
    &&& usize::BITS == 32 ==> Isaac64Rng::ranged32_post(o, n, lo as u32, hi as u32, r as u32)
}

/// Draws a candidate base for a boot-time block: a number between 512 KiB
/// and `draw_ceiling(phys_boundary)`, cut to its canonical 4 KiB frame.
pub fn draw_candidate_base(rng: &mut Isaac64Rng, phys_boundary: usize) -> (r: usize)
    requires
        old(rng).wf(),
    ensures
        final(rng).wf(),
        exists|d: usize| #[trigger] drawn_between(old(rng), final(rng), USIZE_512K, draw_ceiling(phys_boundary), d)
            && r == d & align_canon_4k_spec(),
        r == r & align_canon_4k_spec(),
{
    let hi = if phys_boundary < USIZE_2G { phys_boundary } else { USIZE_2G };
    let d = rng.ranged_rand_usize(USIZE_512K, hi);
    proof {
        assert(drawn_between(old(rng), rng, USIZE_512K, draw_ceiling(phys_boundary), d));
    }
    let r = d.align_canon_default();
    assert(d & align_canon_4k_spec() == (d & align_canon_4k_spec()) & align_canon_4k_spec()) by (bit_vector);
    r
}

/// `n` is the generator `o` after `k` candidate draws (see
/// `draw_candidate_base`), none of which was free for a block of `bytes`
/// bytes (see `base_free`).
pub open spec fn refused_draws(
    o: Isaac64Rng,
    n: Isaac64Rng,
    k: nat,
    phys_boundary: usize,
    bytes: usize,
    taken: Seq<MemBlock<PhysAddr>>,
    entries: Seq<MemMapEntry>,
) -> bool
    decreases k,
{
    if k == 0 {
        n == o
    } else {
        exists|m: Isaac64Rng, d: usize| #[trigger] drawn_between(&m, &n, USIZE_512K, draw_ceiling(phys_boundary), d)
            && refused_draws(o, m, (k - 1) as nat, phys_boundary, bytes, taken, entries)
            && !base_free(taken, entries, (d & align_canon_4k_spec()) as int, bytes as int)
    }
}

/// Draws candidate bases (see `draw_candidate_base`) until one is free for
/// a block of `bytes` bytes (see `base_free`), at most `tries` times: the
/// first free draw, after the refused ones; none, with the generator past
/// `tries` refused draws, when every draw was taken.
pub fn find_free_base(
    rng: &mut Isaac64Rng,
    phys_boundary: usize,
    bytes: usize,
    taken: &[MemBlock<PhysAddr>],
    entries: &[MemMapEntry],
    tries: usize,
) -> (r: Option<usize>)
    requires
        old(rng).wf(),
        forall|k: int| 0 <= k < entries@.len() ==> #[trigger] entry_fits(entries@[k]),
    ensures
        final(rng).wf(),
        match r {
            Some(b) => {
                &&& base_free(taken@, entries@, b as int, bytes as int)
                &&& b == b & align_canon_4k_spec()
                &&& exists|m: Isaac64Rng, k: nat, d: usize|
                    #![trigger refused_draws(*old(rng), m, k, phys_boundary, bytes, taken@, entries@), drawn_between(&m, final(rng), USIZE_512K, draw_ceiling(phys_boundary), d)]
                    k < tries && refused_draws(*old(rng), m, k, phys_boundary, bytes, taken@, entries@)
                    && drawn_between(&m, final(rng), USIZE_512K, draw_ceiling(phys_boundary), d)
                    && b == d & align_canon_4k_spec()
            },
            None => refused_draws(*old(rng), *final(rng), tries as nat, phys_boundary, bytes, taken@, entries@),
        },
{
    let mut n: usize = 0;
    while n < tries
        invariant
            n <= tries,
            rng.wf(),
            forall|k: int| 0 <= k < entries@.len() ==> #[trigger] entry_fits(entries@[k]),
            refused_draws(*old(rng), *rng, n as nat, phys_boundary, bytes, taken@, entries@),
        decreases tries - n,
    {
        let ghost pre = *rng;
        let b = draw_candidate_base(rng, phys_boundary);
        let ghost d = choose|d: usize| #[trigger] drawn_between(&pre, rng, USIZE_512K, draw_ceiling(phys_boundary), d)
            && b == d & align_canon_4k_spec();
        if candidate_base_free(b, bytes, taken, entries) {
            proof {
                assert(refused_draws(*old(rng), pre, n as nat, phys_boundary, bytes, taken@, entries@));
                assert(drawn_between(&pre, rng, USIZE_512K, draw_ceiling(phys_boundary), d));
            }
            return Some(b);
        }
        proof {
            assert(drawn_between(&pre, rng, USIZE_512K, draw_ceiling(phys_boundary), d));
            assert(refused_draws(*old(rng), *rng, (n + 1) as nat, phys_boundary, bytes, taken@, entries@));
        }
        n = n + 1;
    }
    None
}

} // verus!
