//! The physical frame allocator: memory regions kept in a slot array whose
//! free slots a bitmap tracks, indexed by four ordered trees (free and
//! allocated regions, each by size and by address).
use vstd::prelude::*;
use vstd::set_lib::{set_int_range, lemma_int_range, lemma_len_subset};
use crate::bitmap::Bitmap;
use crate::permissions::Owner;
use crate::memory::address::{PhysAddr, VirtAddr};
use crate::common::{make128, hi64, lo64, hi64_spec, lo64_spec, align_up, lemma_sizes_are_pow2, MEMORY_DEFAULT_PAGE_USIZE, AsUsize};
use crate::memory::address::MemAddr;
use crate::vmem::PageSize;
use crate::vmem::pages::{calc_pages_reqd, pages_to_bytes};
use vstd::arithmetic::div_mod::{lemma_fundamental_div_mod, lemma_fundamental_div_mod_converse, lemma_mod_multiples_basic, lemma_div_is_ordered};
use crate::structures::tree::{RBTree, RBNode, put_spec, seq_has};
use crate::vmem::pages::{PageInfo, PageStatus, addr_to_page_index, usize_to_page_index};
use crate::bringup::FRAME_ALLOCATOR_COALESCE_THRESHOLD_DEALLOC;
use crate::genesis::{entry_fits, MemMapEntry, MEMORY_TYPE_CONVENTIONAL};
use crate::bringup::entry_holds;

verus! {

/// The key of a region in a by-size tree: the size above the address.
pub open spec fn size_key_of(start: usize, size: usize) -> u128 {
    (size as int * 0x1_0000_0000_0000_0000 + start as int) as u128
}

/// The key of a region in a by-address tree: the address above the size.
pub open spec fn addr_key_of(start: usize, size: usize) -> u128 {
    (start as int * 0x1_0000_0000_0000_0000 + size as int) as u128
}

/// A tree node as a region descriptor holds it: a key and a slot index.
#[derive(Clone, Copy, Debug, PartialEq, Eq, Structural)]
pub struct MemNode {
    key: u128,
    value: usize,
}

impl MemNode {
    /// A node with key and value zero.
    pub fn new() -> (r: MemNode)
        ensures
            r.key_spec() == 0,
            r.value_spec() == 0,
    {
        MemNode { key: 0, value: 0 }
    }

    /// The key.
    pub closed spec fn key_spec(&self) -> u128 {
        self.key
    }

    /// The value.
    pub closed spec fn value_spec(&self) -> usize {
        self.value
    }

    /// The key.
    pub fn key(&self) -> (r: u128)
        ensures
            r == self.key_spec(),
    {
        self.key
    }

    /// Sets the key.
    pub fn set_key(&mut self, key: u128)
        ensures
            final(self).key_spec() == key,
            final(self).value_spec() == old(self).value_spec(),
    {
        self.key = key;
    }

    /// The value.
    pub fn value(&self) -> (r: usize)
        ensures
            r == self.value_spec(),
    {
        self.value
    }

    /// Sets the value.
    pub fn set_value(&mut self, value: usize)
        ensures
            final(self).value_spec() == value,
            final(self).key_spec() == old(self).key_spec(),
    {
        self.value = value;
    }
}

/// One memory region and its bookkeeping.
#[derive(Clone, Copy, Debug)]
pub struct MemRegionDescr {
    pub start_addr: PhysAddr,
    pub size: usize,
    pub is_free: bool,
    pub flags: usize,
    pub owner: Owner,
    pub idx: usize,
    pub size_node: MemNode,
    pub addr_node: MemNode,
}

impl MemRegionDescr {
    /// An empty, allocated region at address zero owned by nobody.
    pub fn new() -> (r: MemRegionDescr)
        ensures
            r.start_addr == PhysAddr(0),
            r.size == 0,
            !r.is_free,
            r.flags == 0,
            r.owner == Owner::Nobody,
            r.idx == 0,
            r.size_node.key_spec() == 0,
            r.size_node.value_spec() == 0,
            r.addr_node.key_spec() == 0,
            r.addr_node.value_spec() == 0,
    {
        MemRegionDescr {
            start_addr: PhysAddr(0),
            size: 0,
            is_free: false,
            flags: 0,
            owner: Owner::Nobody,
            idx: 0,
            size_node: MemNode::new(),
            addr_node: MemNode::new(),
        }
    }

    /// A region with the given address, size, state, flags and owner.
    pub fn new_with(start_address: PhysAddr, size: usize, is_free: bool, flags: usize, owner: Owner) -> (r: MemRegionDescr)
        ensures
            r.start_addr == start_address,
            r.size == size,
            r.is_free == is_free,
            r.flags == flags,
            r.owner == owner,
            r.idx == 0,
            r.size_node.key_spec() == 0,
            r.size_node.value_spec() == 0,
            r.addr_node.key_spec() == 0,
            r.addr_node.value_spec() == 0,
    {
        MemRegionDescr {
            start_addr: start_address,
            size,
            is_free,
            flags,
            owner,
            idx: 0,
            size_node: MemNode::new(),
            addr_node: MemNode::new(),
        }
    }

    /// The node this region has in a by-size tree.
    pub fn size_tree_node_ptr(&mut self) -> (r: &mut MemNode)
        ensures
            *r == old(self).size_node,
            *final(self) == (MemRegionDescr { size_node: *final(r), ..*old(self) }),
    {
        &mut self.size_node
    }

    /// The node this region has in a by-address tree.
    pub fn addr_tree_node_ptr(&mut self) -> (r: &mut MemNode)
        ensures
            *r == old(self).addr_node,
            *final(self) == (MemRegionDescr { addr_node: *final(r), ..*old(self) }),
    {
        &mut self.addr_node
    }
}

/// The key of a region in one of the trees.
pub open spec fn key_of(r: MemRegionDescr, by_size: bool) -> u128 {
    if by_size { size_key_of(r.start_addr.0, r.size) } else { addr_key_of(r.start_addr.0, r.size) }
}

/// The ranges `[s1, s1 + z1)` and `[s2, s2 + z2)` start at different
/// addresses and do not overlap.
pub open spec fn apart(s1: usize, z1: usize, s2: usize, z2: usize) -> bool {
    &&& s1 != s2
    &&& (s1 + z1 <= s2 || s2 + z2 <= s1)
}

/// Two regions start at different addresses and do not overlap.
pub open spec fn separate(a: MemRegionDescr, b: MemRegionDescr) -> bool {
    apart(a.start_addr.0, a.size, b.start_addr.0, b.size)
}

/// A tree holds exactly the regions of `live` in state `free`, each under
/// its key and with its slot as value.
pub open spec fn trunk_ok(m: Map<u128, RBNode>, regs: Seq<MemRegionDescr>, live: Set<int>, free: bool, by_size: bool) -> bool {
    &&& forall|k: u128| #[trigger] m.contains_key(k) ==> {
        let i = m[k].value as int;
        &&& live.contains(i)
        &&& 0 <= i < regs.len()
        &&& regs[i].is_free == free
        &&& key_of(regs[i], by_size) == k
    }
    &&& forall|i: int| #[trigger] live.contains(i) && 0 <= i < regs.len() && regs[i].is_free == free ==> {
        &&& m.contains_key(key_of(regs[i], by_size))
        &&& m[key_of(regs[i], by_size)].value == i
    }
}

/// Regions that start apart have different keys.
pub proof fn lemma_separate_keys(a: MemRegionDescr, b: MemRegionDescr)
    requires
        a.start_addr.0 != b.start_addr.0,
    ensures
        key_of(a, true) != key_of(b, true),
        key_of(a, false) != key_of(b, false),
{
    let c: int = 0x1_0000_0000_0000_0000;
    let (sa, sb, za, zb) = (a.start_addr.0 as int, b.start_addr.0 as int, a.size as int, b.size as int);
    assert(za * c + sa != zb * c + sb) by (nonlinear_arith)
        requires sa != sb, 0 <= sa < c, 0 <= sb < c, 0 <= za < c, 0 <= zb < c, c == 0x1_0000_0000_0000_0000int;
    assert(sa * c + za != sb * c + zb) by (nonlinear_arith)
        requires sa != sb, 0 <= za < c, 0 <= zb < c, c == 0x1_0000_0000_0000_0000int;
    assert(0 <= za * c + sa < 0x1_0000_0000_0000_0000_0000_0000_0000_0000int) by (nonlinear_arith)
        requires 0 <= sa < c, 0 <= za < c, c == 0x1_0000_0000_0000_0000int;
    assert(0 <= zb * c + sb < 0x1_0000_0000_0000_0000_0000_0000_0000_0000int) by (nonlinear_arith)
        requires 0 <= sb < c, 0 <= zb < c, c == 0x1_0000_0000_0000_0000int;
    assert(0 <= sa * c + za < 0x1_0000_0000_0000_0000_0000_0000_0000_0000int) by (nonlinear_arith)
        requires 0 <= sa < c, 0 <= za < c, c == 0x1_0000_0000_0000_0000int;
    assert(0 <= sb * c + zb < 0x1_0000_0000_0000_0000_0000_0000_0000_0000int) by (nonlinear_arith)
        requires 0 <= sb < c, 0 <= zb < c, c == 0x1_0000_0000_0000_0000int;
}

/// Adding a region to a tree that holds the others of its state.
pub proof fn lemma_trunk_insert(m: Map<u128, RBNode>, regs: Seq<MemRegionDescr>, live: Set<int>, free: bool, by_size: bool, i: int)
    requires
        trunk_ok(m, regs, live, free, by_size),
        !live.contains(i),
        0 <= i < regs.len(),
        i <= usize::MAX,
        regs[i].is_free == free,
        forall|j: int| #[trigger] live.contains(j) && 0 <= j < regs.len() ==> regs[j].start_addr.0 != regs[i].start_addr.0,
    ensures
        !m.contains_key(key_of(regs[i], by_size)),
        trunk_ok(put_spec(m, RBNode { key: key_of(regs[i], by_size), value: i as usize, idx: i as usize }),
            regs, live.insert(i), free, by_size),
{
    let k = key_of(regs[i], by_size);
    if m.contains_key(k) {
        let j = m[k].value as int;
        lemma_separate_keys(regs[i], regs[j]);
    }
    let n = RBNode { key: k, value: i as usize, idx: i as usize };
    let m2 = put_spec(m, n);
    assert(m2 == m.insert(k, n));
    assert forall|i2: int| #[trigger] live.insert(i).contains(i2) && 0 <= i2 < regs.len() && regs[i2].is_free == free implies
        m2.contains_key(key_of(regs[i2], by_size)) && m2[key_of(regs[i2], by_size)].value == i2 by {
        if i2 != i {
            assert(live.contains(i2));
            lemma_separate_keys(regs[i], regs[i2]);
        }
    }
}

/// Taking a region out of the tree that holds it.
pub proof fn lemma_trunk_remove(m: Map<u128, RBNode>, regs: Seq<MemRegionDescr>, live: Set<int>, free: bool, by_size: bool, i: int)
    requires
        trunk_ok(m, regs, live, free, by_size),
        live.contains(i),
        0 <= i < regs.len(),
        regs[i].is_free == free,
        forall|j: int| #[trigger] live.contains(j) && 0 <= j < regs.len() && j != i ==> regs[j].start_addr.0 != regs[i].start_addr.0,
    ensures
        m.contains_key(key_of(regs[i], by_size)),
        trunk_ok(m.remove(key_of(regs[i], by_size)), regs, live.remove(i), free, by_size),
{
    let k = key_of(regs[i], by_size);
    let m2 = m.remove(k);
    assert forall|k2: u128| #[trigger] m2.contains_key(k2) implies live.remove(i).contains(m2[k2].value as int) by {
        let j = m[k2].value as int;
        if j == i {
            assert(key_of(regs[i], by_size) == k2);
        }
    }
    assert forall|i2: int| #[trigger] live.remove(i).contains(i2) && 0 <= i2 < regs.len() && regs[i2].is_free == free implies
        m2.contains_key(key_of(regs[i2], by_size)) && m2[key_of(regs[i2], by_size)].value == i2 by {
        assert(live.contains(i2));
        lemma_separate_keys(regs[i], regs[i2]);
    }
}

/// A tree is not affected by a region outside the set it describes, nor by
/// a region of the other state leaving or joining that set.
pub proof fn lemma_trunk_frame(m: Map<u128, RBNode>, regs: Seq<MemRegionDescr>, regs2: Seq<MemRegionDescr>, live: Set<int>, live2: Set<int>, free: bool, by_size: bool)
    requires
        trunk_ok(m, regs, live, free, by_size),
        regs.len() == regs2.len(),
        forall|j: int| #[trigger] live.contains(j) && 0 <= j < regs.len() && regs[j].is_free == free ==> live2.contains(j) && regs2[j] == regs[j],
        forall|j: int| #[trigger] live2.contains(j) && 0 <= j < regs.len() && regs2[j].is_free == free ==> live.contains(j) && regs2[j] == regs[j],
    ensures
        trunk_ok(m, regs2, live2, free, by_size),
{
    assert forall|k: u128| #[trigger] m.contains_key(k) implies {
        let i = m[k].value as int;
        &&& live2.contains(i)
        &&& 0 <= i < regs2.len()
        &&& regs2[i].is_free == free
        &&& key_of(regs2[i], by_size) == k
    } by {
        let i = m[k].value as int;
        assert(live.contains(i) && regs[i].is_free == free);
    }
    assert forall|i: int| #[trigger] live2.contains(i) && 0 <= i < regs2.len() && regs2[i].is_free == free implies
        m.contains_key(key_of(regs2[i], by_size)) && m[key_of(regs2[i], by_size)].value == i by {
        assert(live.contains(i) && regs2[i] == regs[i]);
    }
}

/// The positions of a bitmap that are clear: the slots in use.
pub open spec fn taken(bm: Bitmap) -> Set<int> {
    Set::new(|i: int| 0 <= i < bm.n_bits() && !bm.bit(i))
}

/// The slot bookkeeping of a region in use is consistent: it starts on a
/// page boundary, its end fits a machine word and its nodes carry its keys
/// and its slot.
pub open spec fn sane(r: MemRegionDescr, i: int) -> bool {
    &&& r.start_addr.0 + r.size <= usize::MAX
    &&& r.start_addr.0 % 4096 == 0
    &&& r.idx == i
    &&& r.size_node.key_spec() == key_of(r, true)
    &&& r.size_node.value_spec() == i
    &&& r.addr_node.key_spec() == key_of(r, false)
    &&& r.addr_node.value_spec() == i
}

/// Clearing one set position of a bitmap adds it to the slots in use.
pub proof fn lemma_taken_clear(b1: Bitmap, b2: Bitmap, s: int)
    requires
        b1.n_words() == b2.n_words(),
        0 <= s < b1.n_bits(),
        b1.bit(s),
        forall|p: int| 0 <= p < b2.n_bits() ==> #[trigger] b2.bit(p) == (p != s && b1.bit(p)),
    ensures
        taken(b2) =~= taken(b1).insert(s),
        !taken(b1).contains(s),
{
}

/// Setting one clear position of a bitmap removes it from the slots in use.
pub proof fn lemma_taken_set(b1: Bitmap, b2: Bitmap, s: int)
    requires
        b1.n_words() == b2.n_words(),
        0 <= s < b1.n_bits(),
        forall|p: int| 0 <= p < b2.n_bits() ==> #[trigger] b2.bit(p) == (p == s || b1.bit(p)),
    ensures
        taken(b2) =~= taken(b1).remove(s),
{
}

/// The slots in use are finitely many, at most one per position.
pub proof fn lemma_taken_bound(b: Bitmap)
    ensures
        taken(b).finite(),
        taken(b).len() <= b.n_bits(),
{
    lemma_int_range(0, b.n_bits() as int);
    assert(taken(b).subset_of(set_int_range(0, b.n_bits() as int)));
    lemma_len_subset(taken(b), set_int_range(0, b.n_bits() as int));
}

/// The four trees of the allocator: free and allocated regions, each by
/// size and by address.
#[derive(Clone, Copy, Debug, PartialEq, Eq, PartialOrd, Structural)]
pub enum MemTreeTrunk {
    SizeFree,
    SizeAlloc,
    AddressFree,
    AddressAlloc,
}

/// The frame allocator.
pub struct TreeAllocator {
    pub phys_base: PhysAddr,
    count: usize,
    capacity: usize,
    rb_size_free: RBTree,
    rb_addr_free: RBTree,
    rb_size_alloc: RBTree,
    rb_addr_alloc: RBTree,
    dealloc_since_last_merge_free_count: usize,
    pub merge_free_dealloc_interval: usize,
    pub bitmap: Option<Bitmap>,
    mem_regions: Vec<MemRegionDescr>,
    page_info: Vec<PageInfo>,
    total_pages: usize,
    phys_mem_max: usize,
    live: Ghost<Set<int>>,
}

impl TreeAllocator {
    /// The region slots.
    pub closed spec fn regions(&self) -> Seq<MemRegionDescr> {
        self.mem_regions@
    }

    /// The slots that hold a region.
    pub closed spec fn live(&self) -> Set<int> {
        self.live@
    }

    /// The number of slots.
    pub closed spec fn cap(&self) -> nat {
        self.capacity as nat
    }

    /// The per-page bookkeeping.
    pub closed spec fn pages(&self) -> Seq<PageInfo> {
        self.page_info@
    }

    /// Whether slot `i` is available.
    pub closed spec fn slot_free(&self, i: int) -> bool {
        self.bitmap->0.bit(i)
    }

    /// Where the region slots live.
    pub closed spec fn base(&self) -> PhysAddr {
        self.phys_base
    }

    /// How many frees may pass before the free regions are merged.
    pub closed spec fn merge_interval(&self) -> usize {
        self.merge_free_dealloc_interval
    }

    /// The number of regions.
    pub closed spec fn region_count(&self) -> nat {
        self.count as nat
    }

    /// Frees since the free regions were last merged.
    pub closed spec fn frees_since_merge(&self) -> nat {
        self.dealloc_since_last_merge_free_count as nat
    }

    /// The total page count and the top of physical memory.
    pub closed spec fn totals(&self) -> (usize, usize) {
        (self.total_pages, self.phys_mem_max)
    }

    /// The four trees describe the regions of `l`.
    pub closed spec fn trunks_ok(&self, l: Set<int>) -> bool {
        &&& trunk_ok(self.rb_size_free@, self.mem_regions@, l, true, true)
        &&& trunk_ok(self.rb_addr_free@, self.mem_regions@, l, true, false)
        &&& trunk_ok(self.rb_size_alloc@, self.mem_regions@, l, false, true)
        &&& trunk_ok(self.rb_addr_alloc@, self.mem_regions@, l, false, false)
    }

    /// Everything but the trees is consistent.
    pub closed spec fn base_inv(&self) -> bool {
        &&& self.bitmap is Some
        &&& self.bitmap->0.wf()
        &&& self.capacity <= self.bitmap->0.n_bits()
        &&& self.mem_regions@.len() == self.capacity
        &&& self.rb_size_free.wf()
        &&& self.rb_addr_free.wf()
        &&& self.rb_size_alloc.wf()
        &&& self.rb_addr_alloc.wf()
        &&& self.bitmap->0.free() == taken(self.bitmap->0).len()
        &&& self.live@.finite()
        &&& self.count == self.live@.len()
        &&& forall|i: int| #[trigger] self.live@.contains(i) ==> {
            &&& 0 <= i < self.capacity
            &&& !self.bitmap->0.bit(i)
            &&& sane(self.mem_regions@[i], i)
        }
        &&& forall|i: int, j: int| #[trigger] self.live@.contains(i) && #[trigger] self.live@.contains(j) && i != j
            ==> separate(self.mem_regions@[i], self.mem_regions@[j])
    }

    /// The allocator is consistent: the slots in use hold separate regions,
    /// and the trees index exactly those regions.
    pub closed spec fn inv(&self) -> bool {
        &&& self.base_inv()
        &&& self.trunks_ok(self.live@)
    }

    /// A new region from `start` of `size` bytes would start on a page
    /// boundary and not meet any region.
    pub closed spec fn fits_apart(&self, start: usize, size: usize) -> bool {
        &&& start + size <= usize::MAX
        &&& start % 4096 == 0
        &&& forall|j: int| #[trigger] self.live@.contains(j) ==> apart(
            start, size, self.mem_regions@[j].start_addr.0, self.mem_regions@[j].size)
    }

    /// An allocator with no slots and empty trees.
    pub fn new() -> (r: TreeAllocator)
        ensures
            r.inv(),
            r.cap() == 0,
            r.live() == Set::<int>::empty(),
            r.region_count() == 0,
            r.frees_since_merge() == 0,
            r.merge_interval() == FRAME_ALLOCATOR_COALESCE_THRESHOLD_DEALLOC,
            r.base() == PhysAddr(0),
    {
        let bm = Bitmap::new();
        proof {
            lemma_taken_bound(bm);
            assert(taken(bm) =~= Set::<int>::empty());
        }
        TreeAllocator {
            phys_base: PhysAddr(0),
            count: 0,
            capacity: 0,
            rb_size_free: RBTree::new(),
            rb_addr_free: RBTree::new(),
            rb_size_alloc: RBTree::new(),
            rb_addr_alloc: RBTree::new(),
            dealloc_since_last_merge_free_count: 0,
            merge_free_dealloc_interval: FRAME_ALLOCATOR_COALESCE_THRESHOLD_DEALLOC,
            bitmap: Some(bm),
            mem_regions: Vec::new(),
            page_info: Vec::new(),
            total_pages: 0,
            phys_mem_max: 0,
            live: Ghost(Set::empty()),
        }
    }
}

/// Keys of two words fit in 128 bits.
pub proof fn lemma_key_fits(hi: usize, lo: usize)
    ensures
        0 <= hi as int * 0x1_0000_0000_0000_0000 + lo as int <= u128::MAX,
{
    assert(0 <= hi as int * 0x1_0000_0000_0000_0000 + lo as int <= u128::MAX) by (nonlinear_arith)
        requires hi <= 0xffff_ffff_ffff_ffffu64, lo <= 0xffff_ffff_ffff_ffffu64;
}

impl TreeAllocator {
    /// Sets the allocator up for `total_pages` region slots at
    /// `regions_base`, every slot available and the trees empty;
    /// `page_info` is the per-page bookkeeping and `phys_mem_max` the top of
    /// physical memory.
    pub fn init(&mut self, regions_base: PhysAddr, total_pages: usize, phys_mem_max: usize, page_info: Vec<PageInfo>)
        requires
            total_pages + 63 <= usize::MAX,
            ((total_pages + 63) / 64) * 64 <= usize::MAX,
        ensures
            final(self).inv(),
            final(self).cap() == total_pages,
            final(self).live() == Set::<int>::empty(),
            forall|i: int| 0 <= i < total_pages ==> #[trigger] final(self).slot_free(i),
            final(self).pages() == page_info@,
            final(self).totals() == (total_pages, phys_mem_max),
            final(self).base() == regions_base,
            final(self).region_count() == 0,
            final(self).frees_since_merge() == old(self).frees_since_merge(),
            final(self).merge_interval() == old(self).merge_interval(),
    {
        let mut bm = Bitmap::new();
        bm.init(total_pages, VirtAddr(0), VirtAddr(0), true);
        bm.set_all();
        let mut regions: Vec<MemRegionDescr> = Vec::new();
        let mut i: usize = 0;
        while i < total_pages
            invariant
                i <= total_pages,
                regions@.len() == i,
            decreases total_pages - i,
        {
            regions.push(MemRegionDescr::new());
            i = i + 1;
        }
        proof {
            lemma_taken_bound(bm);
            assert(taken(bm) =~= Set::<int>::empty());
        }
        self.phys_base = regions_base;
        self.count = 0;
        self.capacity = total_pages;
        self.rb_size_free = RBTree::new();
        self.rb_addr_free = RBTree::new();
        self.rb_size_alloc = RBTree::new();
        self.rb_addr_alloc = RBTree::new();
        self.bitmap = Some(bm);
        self.mem_regions = regions;
        self.page_info = page_info;
        self.total_pages = total_pages;
        self.phys_mem_max = phys_mem_max;
        self.live = Ghost(Set::empty());
    }

    /// Takes the lowest available slot below the capacity, if there is one.
    fn alloc_internal_slot(&mut self) -> (r: Option<usize>)
        requires
            old(self).base_inv(),
        ensures
            final(self).base_inv(),
            final(self).mem_regions == old(self).mem_regions,
            final(self).live == old(self).live,
            final(self).count == old(self).count,
            final(self).capacity == old(self).capacity,
            final(self).rb_size_free == old(self).rb_size_free,
            final(self).rb_addr_free == old(self).rb_addr_free,
            final(self).rb_size_alloc == old(self).rb_size_alloc,
            final(self).rb_addr_alloc == old(self).rb_addr_alloc,
            final(self).page_info == old(self).page_info,
            final(self).phys_base == old(self).phys_base,
            final(self).total_pages == old(self).total_pages,
            final(self).phys_mem_max == old(self).phys_mem_max,
            final(self).dealloc_since_last_merge_free_count == old(self).dealloc_since_last_merge_free_count,
            final(self).merge_free_dealloc_interval == old(self).merge_free_dealloc_interval,
            match r {
                Some(s) => {
                    &&& s < old(self).capacity
                    &&& old(self).slot_free(s as int)
                    &&& (forall|q: int| 0 <= q < s ==> !#[trigger] old(self).slot_free(q))
                    &&& !final(self).slot_free(s as int)
                    &&& forall|q: int| 0 <= q < old(self).capacity && q != s ==> #[trigger] final(self).slot_free(q) == old(self).slot_free(q)
                },
                None => {
                    &&& forall|q: int| 0 <= q < old(self).capacity ==> !#[trigger] old(self).slot_free(q)
                    &&& final(self).bitmap == old(self).bitmap
                },
            },
    {
        let mut bm = self.bitmap.take().unwrap();
        let found = bm.find_first_set();
        proof { bm.lemma_bits_fit(); }
        match found {
            Some(slot) => {
                proof {
                    assert(crate::bitmap::in_window(slot as int, 0, bm.n_words() as int, 0, 64));
                    assert forall|q: int| 0 <= q < slot implies !#[trigger] bm.bit(q) by {
                        assert(crate::bitmap::in_window(q, 0, bm.n_words() as int, 0, 64));
                    }
                }
                if slot < self.capacity {
                    proof {
                        lemma_taken_bound(bm);
                        assert(!taken(bm).contains(slot as int));
                        lemma_int_range(0, bm.n_bits() as int);
                        assert(taken(bm).insert(slot as int).subset_of(set_int_range(0, bm.n_bits() as int)));
                        lemma_len_subset(taken(bm).insert(slot as int), set_int_range(0, bm.n_bits() as int));
                    }
                    let ghost b1 = bm;
                    bm.clear(slot);
                    proof {
                        lemma_taken_clear(b1, bm, slot as int);
                        lemma_taken_bound(b1);
                    }
                    self.bitmap = Some(bm);
                    Some(slot)
                } else {
                    proof {
                        assert forall|q: int| 0 <= q < self.capacity implies !#[trigger] bm.bit(q) by {}
                    }
                    self.bitmap = Some(bm);
                    None
                }
            },
            None => {
                proof {
                    assert forall|q: int| 0 <= q < self.capacity implies !#[trigger] bm.bit(q) by {
                        assert(crate::bitmap::in_window(q, 0, bm.n_words() as int, 0, 64));
                    }
                }
                self.bitmap = Some(bm);
                None
            },
        }
    }

    /// Gives slot `idx` back: its descriptor is wiped and the slot is
    /// available again.
    fn dealloc_internal_slot(&mut self, idx: usize)
        requires
            old(self).base_inv(),
            idx < old(self).capacity,
            !old(self).slot_free(idx as int),
            !old(self).live@.contains(idx as int),
        ensures
            final(self).base_inv(),
            final(self).mem_regions@ == old(self).mem_regions@.update(idx as int, final(self).mem_regions@[idx as int]),
            final(self).mem_regions@[idx as int].start_addr == PhysAddr(0),
            final(self).mem_regions@[idx as int].size == 0,
            !final(self).mem_regions@[idx as int].is_free,
            final(self).mem_regions@[idx as int].owner == Owner::Nobody,
            final(self).slot_free(idx as int),
            forall|q: int| 0 <= q < old(self).capacity && q != idx ==> #[trigger] final(self).slot_free(q) == old(self).slot_free(q),
            final(self).live == old(self).live,
            final(self).count == old(self).count,
            final(self).capacity == old(self).capacity,
            final(self).rb_size_free == old(self).rb_size_free,
            final(self).rb_addr_free == old(self).rb_addr_free,
            final(self).rb_size_alloc == old(self).rb_size_alloc,
            final(self).rb_addr_alloc == old(self).rb_addr_alloc,
            final(self).page_info == old(self).page_info,
            final(self).phys_base == old(self).phys_base,
            final(self).total_pages == old(self).total_pages,
            final(self).phys_mem_max == old(self).phys_mem_max,
            final(self).dealloc_since_last_merge_free_count == old(self).dealloc_since_last_merge_free_count,
            final(self).merge_free_dealloc_interval == old(self).merge_free_dealloc_interval,
    {
        let mut bm = self.bitmap.take().unwrap();
        proof {
            lemma_taken_bound(bm);
            assert(taken(bm).contains(idx as int));
        }
        let ghost b1 = bm;
        bm.set(idx);
        proof {
            lemma_taken_set(b1, bm, idx as int);
        }
        self.bitmap = Some(bm);
        self.mem_regions.set(idx, MemRegionDescr::new());
        proof {
            assert forall|i: int| #[trigger] self.live@.contains(i) implies sane(self.mem_regions@[i], i) by {
                assert(i != idx);
            }
            assert forall|i: int, j: int| #[trigger] self.live@.contains(i) && #[trigger] self.live@.contains(j) && i != j
                implies separate(self.mem_regions@[i], self.mem_regions@[j]) by {
                assert(i != idx && j != idx);
            }
        }
    }
}

impl TreeAllocator {
    /// The four trees are well formed.
    closed spec fn trees_wf(&self) -> bool {
        &&& self.rb_size_free.wf()
        &&& self.rb_addr_free.wf()
        &&& self.rb_size_alloc.wf()
        &&& self.rb_addr_alloc.wf()
    }

    /// Everything but the trees and the region slots is as in `o`.
    closed spec fn same_outside(&self, o: &TreeAllocator) -> bool {
        &&& self.bitmap == o.bitmap
        &&& self.live == o.live
        &&& self.count == o.count
        &&& self.capacity == o.capacity
        &&& self.page_info == o.page_info
        &&& self.phys_base == o.phys_base
        &&& self.total_pages == o.total_pages
        &&& self.phys_mem_max == o.phys_mem_max
        &&& self.dealloc_since_last_merge_free_count == o.dealloc_since_last_merge_free_count
        &&& self.merge_free_dealloc_interval == o.merge_free_dealloc_interval
    }

    /// Puts region `i` into the two trees of its state, its nodes taking the
    /// keys made from its address and size and its slot as value.
    fn put_region_into_trunks(&mut self, i: usize, Ghost(l): Ghost<Set<int>>)
        requires
            old(self).trees_wf(),
            old(self).trunks_ok(l),
            !l.contains(i as int),
            (i as int) < old(self).mem_regions@.len(),
            forall|j: int| #[trigger] l.contains(j) && 0 <= j < old(self).mem_regions@.len() ==>
                old(self).mem_regions@[j].start_addr.0 != old(self).mem_regions@[i as int].start_addr.0,
        ensures
            final(self).trees_wf(),
            final(self).trunks_ok(l.insert(i as int)),
            final(self).same_outside(old(self)),
            final(self).mem_regions@ == old(self).mem_regions@.update(i as int, final(self).mem_regions@[i as int]),
            ({
                let (o, n) = (old(self).mem_regions@[i as int], final(self).mem_regions@[i as int]);
                &&& n.start_addr == o.start_addr && n.size == o.size && n.is_free == o.is_free
                &&& n.flags == o.flags && n.owner == o.owner && n.idx == o.idx
                &&& n.size_node.key_spec() == key_of(o, true) && n.size_node.value_spec() == i
                &&& n.addr_node.key_spec() == key_of(o, false) && n.addr_node.value_spec() == i
            }),
            old(self).mem_regions@[i as int].is_free ==> final(self).rb_size_alloc == old(self).rb_size_alloc
                && final(self).rb_addr_alloc == old(self).rb_addr_alloc,
            !old(self).mem_regions@[i as int].is_free ==> final(self).rb_size_free == old(self).rb_size_free
                && final(self).rb_addr_free == old(self).rb_addr_free,
            old(self).mem_regions@[i as int].is_free ==> final(self).rb_addr_free.entries().len() == old(self).rb_addr_free.entries().len() + 1,
            old(self).mem_regions@[i as int].is_free ==> final(self).free_sizes() == old(self).free_sizes() + old(self).mem_regions@[i as int].size,
            !old(self).mem_regions@[i as int].is_free ==> final(self).free_sizes() == old(self).free_sizes(),
    {
        let r = self.mem_regions[i];
        let sk = make128(r.size, r.start_addr.0);
        let ak = make128(r.start_addr.0, r.size);
        proof {
            lemma_key_fits(r.size, r.start_addr.0);
            lemma_key_fits(r.start_addr.0, r.size);
        }
        let r2 = MemRegionDescr {
            start_addr: r.start_addr,
            size: r.size,
            is_free: r.is_free,
            flags: r.flags,
            owner: r.owner,
            idx: r.idx,
            size_node: MemNode { key: sk, value: i },
            addr_node: MemNode { key: ak, value: i },
        };
        let ghost regs = self.mem_regions@;
        self.mem_regions.set(i, r2);
        let ghost regs2 = self.mem_regions@;
        let sn = RBNode { key: sk, value: i, idx: i };
        let an = RBNode { key: ak, value: i, idx: i };
        proof {
            let l2 = l.insert(i as int);
            let f = r.is_free;
            lemma_trunk_frame(self.rb_size_free@, regs, regs2, l, if f { l } else { l2 }, true, true);
            lemma_trunk_frame(self.rb_addr_free@, regs, regs2, l, if f { l } else { l2 }, true, false);
            lemma_trunk_frame(self.rb_size_alloc@, regs, regs2, l, if f { l2 } else { l }, false, true);
            lemma_trunk_frame(self.rb_addr_alloc@, regs, regs2, l, if f { l2 } else { l }, false, false);
            assert(key_of(regs2[i as int], true) == sk);
            assert(key_of(regs2[i as int], false) == ak);
            if f {
                lemma_trunk_insert(self.rb_size_free@, regs2, l, true, true, i as int);
                lemma_trunk_insert(self.rb_addr_free@, regs2, l, true, false, i as int);
            } else {
                lemma_trunk_insert(self.rb_size_alloc@, regs2, l, false, true, i as int);
                lemma_trunk_insert(self.rb_addr_alloc@, regs2, l, false, false, i as int);
            }
        }
        let ghost e = self.rb_size_free.entries();
        if r.is_free {
            self.rb_size_free.put(sn);
            self.rb_addr_free.put(an);
            proof {
                let p = choose|p: int| 0 <= p <= e.len() && self.rb_size_free.entries() == #[trigger] e.insert(p, sn);
                lemma_sizes_sum_insert(e, p, sn);
            }
        } else {
            self.rb_size_alloc.put(sn);
            self.rb_addr_alloc.put(an);
        }
    }

    /// Takes region `i` out of the two trees of its state, by the keys its
    /// nodes hold.
    fn remove_region_from_trunks(&mut self, i: usize, Ghost(l): Ghost<Set<int>>)
        requires
            old(self).trees_wf(),
            old(self).trunks_ok(l),
            l.contains(i as int),
            (i as int) < old(self).mem_regions@.len(),
            sane(old(self).mem_regions@[i as int], i as int),
            forall|j: int| #[trigger] l.contains(j) && 0 <= j < old(self).mem_regions@.len() && j != i ==>
                old(self).mem_regions@[j].start_addr.0 != old(self).mem_regions@[i as int].start_addr.0,
        ensures
            final(self).trees_wf(),
            final(self).trunks_ok(l.remove(i as int)),
            final(self).same_outside(old(self)),
            final(self).mem_regions == old(self).mem_regions,
            old(self).mem_regions@[i as int].is_free ==> final(self).rb_size_alloc == old(self).rb_size_alloc
                && final(self).rb_addr_alloc == old(self).rb_addr_alloc,
            !old(self).mem_regions@[i as int].is_free ==> final(self).rb_size_free == old(self).rb_size_free
                && final(self).rb_addr_free == old(self).rb_addr_free,
            old(self).mem_regions@[i as int].is_free ==> final(self).rb_addr_free.entries().len() == old(self).rb_addr_free.entries().len() - 1,
            old(self).mem_regions@[i as int].is_free ==> final(self).free_sizes() == old(self).free_sizes() - old(self).mem_regions@[i as int].size,
            !old(self).mem_regions@[i as int].is_free ==> final(self).free_sizes() == old(self).free_sizes(),
    {
        let r = self.mem_regions[i];
        let ghost regs = self.mem_regions@;
        proof {
            let l2 = l.remove(i as int);
            let f = r.is_free;
            if f {
                lemma_trunk_remove(self.rb_size_free@, regs, l, true, true, i as int);
                lemma_trunk_remove(self.rb_addr_free@, regs, l, true, false, i as int);
                lemma_trunk_frame(self.rb_size_alloc@, regs, regs, l, l2, false, true);
                lemma_trunk_frame(self.rb_addr_alloc@, regs, regs, l, l2, false, false);
            } else {
                lemma_trunk_remove(self.rb_size_alloc@, regs, l, false, true, i as int);
                lemma_trunk_remove(self.rb_addr_alloc@, regs, l, false, false, i as int);
                lemma_trunk_frame(self.rb_size_free@, regs, regs, l, l2, true, true);
                lemma_trunk_frame(self.rb_addr_free@, regs, regs, l, l2, true, false);
            }
        }
        let ghost e = self.rb_size_free.entries();
        if r.is_free {
            self.rb_size_free.delete(r.size_node.key);
            self.rb_addr_free.delete(r.addr_node.key);
            proof {
                let p = choose|p: int| 0 <= p < e.len() && #[trigger] e[p].key == r.size_node.key
                    && self.rb_size_free.entries() == e.remove(p);
                lemma_sizes_sum_remove(e, p);
                lemma_key_decode(r.size, r.start_addr.0);
            }
        } else {
            self.rb_size_alloc.delete(r.size_node.key);
            self.rb_addr_alloc.delete(r.addr_node.key);
        }
    }
}

/// The default-size pages that `[start, start + size)` touches, as a range
/// of page indexes.
pub open spec fn page_span(start: usize, size: usize) -> (int, int) {
    if size == 0 {
        (0, 0)
    } else {
        (start as int / 4096, (start + size - 1) / 4096 + 1)
    }
}

/// `n` is `o` with the pages of `[start, start + size)` that it has given
/// status `st` and owner `ow`.
pub open spec fn pages_marked(o: Seq<PageInfo>, n: Seq<PageInfo>, start: usize, size: usize, st: PageStatus, ow: Owner) -> bool {
    &&& n.len() == o.len()
    &&& forall|i: int| 0 <= i < n.len() ==> #[trigger] n[i] == (if page_span(start, size).0 <= i < page_span(start, size).1 {
        PageInfo { status: st, owner: ow, ..o[i] }
    } else {
        o[i]
    })
}

/// Four trees that describe a set of regions still do after slots outside
/// the set change.
proof fn lemma_trunks_frame(a: &TreeAllocator, b: &TreeAllocator, l: Set<int>)
    requires
        a.trunks_ok(l),
        a.rb_size_free == b.rb_size_free,
        a.rb_addr_free == b.rb_addr_free,
        a.rb_size_alloc == b.rb_size_alloc,
        a.rb_addr_alloc == b.rb_addr_alloc,
        a.mem_regions@.len() == b.mem_regions@.len(),
        forall|j: int| #[trigger] l.contains(j) && 0 <= j < a.mem_regions@.len() ==> b.mem_regions@[j] == a.mem_regions@[j],
    ensures
        b.trunks_ok(l),
{
    lemma_trunk_frame(a.rb_size_free@, a.mem_regions@, b.mem_regions@, l, l, true, true);
    lemma_trunk_frame(a.rb_addr_free@, a.mem_regions@, b.mem_regions@, l, l, true, false);
    lemma_trunk_frame(a.rb_size_alloc@, a.mem_regions@, b.mem_regions@, l, l, false, true);
    lemma_trunk_frame(a.rb_addr_alloc@, a.mem_regions@, b.mem_regions@, l, l, false, false);
}

impl TreeAllocator {
    /// The slot count, page bookkeeping, totals, base and merge settings are
    /// as in `o`.
    pub closed spec fn keeps_setup(&self, o: &TreeAllocator) -> bool {
        &&& self.capacity == o.capacity
        &&& self.phys_base == o.phys_base
        &&& self.total_pages == o.total_pages
        &&& self.phys_mem_max == o.phys_mem_max
        &&& self.merge_free_dealloc_interval == o.merge_free_dealloc_interval
    }

    /// Marks the pages of `[start_page_base_addr, + size)` that the page
    /// bookkeeping has as free or allocated, with owner `owner`.
    fn update_page_info_range(&mut self, start_page_base_addr: PhysAddr, size: usize, is_free: bool, owner: Owner)
        requires
            start_page_base_addr.0 + size <= usize::MAX,
        ensures
            pages_marked(old(self).page_info@, final(self).page_info@, start_page_base_addr.0, size,
                if is_free { PageStatus::Free } else { PageStatus::Alloc }, owner),
            final(self).mem_regions == old(self).mem_regions,
            final(self).rb_size_free == old(self).rb_size_free,
            final(self).rb_addr_free == old(self).rb_addr_free,
            final(self).rb_size_alloc == old(self).rb_size_alloc,
            final(self).rb_addr_alloc == old(self).rb_addr_alloc,
            final(self).bitmap == old(self).bitmap,
            final(self).live == old(self).live,
            final(self).count == old(self).count,
            final(self).capacity == old(self).capacity,
            final(self).phys_base == old(self).phys_base,
            final(self).total_pages == old(self).total_pages,
            final(self).phys_mem_max == old(self).phys_mem_max,
            final(self).dealloc_since_last_merge_free_count == old(self).dealloc_since_last_merge_free_count,
            final(self).merge_free_dealloc_interval == old(self).merge_free_dealloc_interval,
    {
        if size == 0 {
            assert(self.page_info@ =~= old(self).page_info@);
            return;
        }
        let status = if is_free { PageStatus::Free } else { PageStatus::Alloc };
        let first = addr_to_page_index(start_page_base_addr);
        let last = usize_to_page_index(start_page_base_addr.0 + size - 1);
        let mut pages: Vec<PageInfo> = Vec::new();
        std::mem::swap(&mut pages, &mut self.page_info);
        let ghost o = pages@;
        let mut i: usize = first;
        assert(start_page_base_addr.0 / 4096 <= (start_page_base_addr.0 + size - 1) / 4096) by (nonlinear_arith)
            requires size > 0;
        while i <= last
            invariant
                first <= i <= last + 1,
                first == start_page_base_addr.0 / 4096,
                last == (start_page_base_addr.0 + size - 1) / 4096,
                last < usize::MAX,
                pages@.len() == o.len(),
                forall|j: int| 0 <= j < pages@.len() ==> #[trigger] pages@[j] == (if first <= j < i {
                    PageInfo { status: status, owner: owner, ..o[j] }
                } else {
                    o[j]
                }),
            decreases last + 1 - i,
        {
            if i < pages.len() {
                let mut p = pages[i];
                p.status = status;
                p.owner = owner;
                pages.set(i, p);
            }
            i = i + 1;
        }
        std::mem::swap(&mut pages, &mut self.page_info);
    }
}

impl TreeAllocator {
    /// Adds a region of `size` bytes from `start_addr` in the lowest
    /// available slot and indexes it in the trees of its state; none when no
    /// slot is available. The region must start on a page boundary and not
    /// meet any region already held.
    pub fn add_region(&mut self, start_addr: PhysAddr, size: usize, is_free: bool, flags: usize, owner: Owner) -> (r: Option<usize>)
        requires
            old(self).inv(),
            old(self).fits_apart(start_addr.0, size),
        ensures
            final(self).inv(),
            final(self).keeps_setup(old(self)),
            final(self).pages() == old(self).pages(),
            final(self).frees_since_merge() == old(self).frees_since_merge(),
            match r {
                Some(i) => {
                    &&& i < old(self).cap()
                    &&& old(self).slot_free(i as int)
                    &&& (forall|q: int| 0 <= q < i ==> !#[trigger] old(self).slot_free(q))
                    &&& !final(self).slot_free(i as int)
                    &&& forall|q: int| 0 <= q < old(self).cap() && q != i ==> #[trigger] final(self).slot_free(q) == old(self).slot_free(q)
                    &&& final(self).live() == old(self).live().insert(i as int)
                    &&& final(self).region_count() == old(self).region_count() + 1
                    &&& final(self).free_sizes() == old(self).free_sizes() + (if is_free { size as int } else { 0 })
                    &&& final(self).regions().len() == old(self).regions().len()
                    &&& ({
                        let n = final(self).regions()[i as int];
                        &&& n.start_addr == start_addr && n.size == size && n.is_free == is_free
                        &&& n.flags == flags && n.owner == owner && n.idx == i
                    })
                    &&& forall|j: int| 0 <= j < old(self).regions().len() && j != i ==> #[trigger] final(self).regions()[j] == old(self).regions()[j]
                },
                None => {
                    &&& forall|q: int| 0 <= q < old(self).cap() ==> !#[trigger] old(self).slot_free(q)
                    &&& *final(self) == *old(self)
                },
            },
    {
        let region_slot = self.alloc_internal_slot();
        match region_slot {
            Some(idx) => {
                let ghost a0 = *self;
                let r = MemRegionDescr {
                    start_addr,
                    size,
                    is_free,
                    flags,
                    owner,
                    idx,
                    size_node: MemNode::new(),
                    addr_node: MemNode::new(),
                };
                self.mem_regions.set(idx, r);
                let ghost l = self.live@;
                proof {
                    assert(!l.contains(idx as int));
                    lemma_trunks_frame(&a0, self, l);
                }
                self.put_region_into_trunks(idx, Ghost(l));
                proof {
                    let bm = self.bitmap->0;
                    lemma_taken_bound(bm);
                    assert(l.insert(idx as int).subset_of(taken(bm)));
                    lemma_len_subset(l.insert(idx as int), taken(bm));
                    bm.lemma_bits_fit();
                }
                self.live = Ghost(l.insert(idx as int));
                self.count = self.count + 1;
                proof {
                    assert forall|i: int| #[trigger] self.live@.contains(i) implies {
                        &&& 0 <= i < self.capacity
                        &&& !self.bitmap->0.bit(i)
                        &&& sane(self.mem_regions@[i], i)
                    } by {
                        if i != idx {
                            assert(l.contains(i));
                        }
                    }
                    assert forall|i: int, j: int| #[trigger] self.live@.contains(i) && #[trigger] self.live@.contains(j) && i != j
                        implies separate(self.mem_regions@[i], self.mem_regions@[j]) by {
                        if i == idx {
                            assert(a0.live@.contains(j));
                        } else if j == idx {
                            assert(a0.live@.contains(i));
                        } else {
                            assert(a0.live@.contains(i) && a0.live@.contains(j));
                        }
                    }
                    assert(self.bitmap == a0.bitmap);
                    assert forall|q: int| 0 <= q < old(self).cap() && q != idx implies #[trigger] self.slot_free(q) == old(self).slot_free(q) by {
                        assert(a0.slot_free(q) == old(self).slot_free(q));
                    }
                }
                Some(idx)
            },
            None => None,
        }
    }

    /// Takes region `region_idx` out of its trees and gives its slot back.
    pub fn remove_region(&mut self, region_idx: usize)
        requires
            old(self).inv(),
            old(self).live().contains(region_idx as int),
        ensures
            final(self).inv(),
            final(self).keeps_setup(old(self)),
            final(self).pages() == old(self).pages(),
            final(self).frees_since_merge() == old(self).frees_since_merge(),
            final(self).live() == old(self).live().remove(region_idx as int),
            final(self).region_count() == old(self).region_count() - 1,
            final(self).free_sizes() == old(self).free_sizes() - (if old(self).regions()[region_idx as int].is_free {
                old(self).regions()[region_idx as int].size as int
            } else {
                0
            }),
            final(self).slot_free(region_idx as int),
            forall|q: int| 0 <= q < old(self).cap() && q != region_idx ==> #[trigger] final(self).slot_free(q) == old(self).slot_free(q),
            final(self).regions().len() == old(self).regions().len(),
            forall|j: int| 0 <= j < old(self).regions().len() && j != region_idx ==> #[trigger] final(self).regions()[j] == old(self).regions()[j],
    {
        let ghost l = self.live@;
        proof {
            assert forall|j: int| #[trigger] l.contains(j) && 0 <= j < self.mem_regions@.len() && j != region_idx implies
                self.mem_regions@[j].start_addr.0 != self.mem_regions@[region_idx as int].start_addr.0 by {
                assert(separate(self.mem_regions@[j], self.mem_regions@[region_idx as int]));
            }
        }
        self.remove_region_from_trunks(region_idx, Ghost(l));
        self.live = Ghost(l.remove(region_idx as int));
        self.count = self.count - 1;
        let ghost a1 = *self;
        self.dealloc_internal_slot(region_idx);
        proof {
            lemma_trunks_frame(&a1, self, self.live@);
        }
    }

    /// Marks region `region_idx` allocated to `owner`, moving it to the
    /// trees of allocated regions and marking its pages; a region already
    /// allocated is left as it is.
    pub fn mark_region_allocated(&mut self, region_idx: usize, owner: Owner)
        requires
            old(self).inv(),
            old(self).live().contains(region_idx as int),
        ensures
            final(self).inv(),
            final(self).free_sizes() == old(self).free_sizes() - (if old(self).regions()[region_idx as int].is_free {
                old(self).regions()[region_idx as int].size as int
            } else {
                0
            }),
            final(self).keeps_allocated(old(self)),
            final(self).keeps_setup(old(self)),
            final(self).same_cover(old(self)),
            final(self).allocated_from_but(old(self), old(self).regions()[region_idx as int].start_addr.0 as int,
                old(self).regions()[region_idx as int].size as int),
            final(self).live() == old(self).live(),
            final(self).region_count() == old(self).region_count(),
            final(self).frees_since_merge() == old(self).frees_since_merge(),
            forall|q: int| #[trigger] final(self).slot_free(q) == old(self).slot_free(q),
            ({
                let o = old(self).regions()[region_idx as int];
                if o.is_free {
                    &&& final(self).regions() == old(self).regions().update(region_idx as int,
                        MemRegionDescr { is_free: false, owner: owner, ..o })
                    &&& pages_marked(old(self).pages(), final(self).pages(), o.start_addr.0, o.size, PageStatus::Alloc, owner)
                } else {
                    &&& final(self).regions() == old(self).regions()
                    &&& final(self).pages() == old(self).pages()
                }
            }),
    {
        if !self.mem_regions[region_idx].is_free {
            proof { Self::lemma_cover_extent(old(self), self); }
            return;
        }
        let r = self.mem_regions[region_idx];
        let ghost l = self.live@;
        proof {
            assert forall|j: int| #[trigger] l.contains(j) && 0 <= j < self.mem_regions@.len() && j != region_idx implies
                self.mem_regions@[j].start_addr.0 != self.mem_regions@[region_idx as int].start_addr.0 by {
                assert(separate(self.mem_regions@[j], self.mem_regions@[region_idx as int]));
            }
        }
        self.remove_region_from_trunks(region_idx, Ghost(l));
        let ghost a1 = *self;
        let r2 = MemRegionDescr {
            start_addr: r.start_addr,
            size: r.size,
            is_free: false,
            flags: r.flags,
            owner,
            idx: r.idx,
            size_node: r.size_node,
            addr_node: r.addr_node,
        };
        self.mem_regions.set(region_idx, r2);
        let l2 = Ghost(l.remove(region_idx as int));
        proof {
            lemma_trunks_frame(&a1, self, l2@);
            assert forall|j: int| #[trigger] l2@.contains(j) && 0 <= j < self.mem_regions@.len() implies
                self.mem_regions@[j].start_addr.0 != self.mem_regions@[region_idx as int].start_addr.0 by {
                assert(separate(a1.mem_regions@[j], a1.mem_regions@[region_idx as int]));
            }
        }
        self.put_region_into_trunks(region_idx, l2);
        proof {
            assert(l2@.insert(region_idx as int) =~= l);
            assert(self.mem_regions@[region_idx as int] == r2);
            assert(self.mem_regions@ =~= old(self).mem_regions@.update(region_idx as int, r2));
            assert forall|i: int| #[trigger] self.live@.contains(i) implies sane(self.mem_regions@[i], i) by {}
            assert forall|i: int, j: int| #[trigger] self.live@.contains(i) && #[trigger] self.live@.contains(j) && i != j
                implies separate(self.mem_regions@[i], self.mem_regions@[j]) by {
                assert(separate(old(self).mem_regions@[i], old(self).mem_regions@[j]));
            }
        }
        self.update_page_info_range(r.start_addr, r.size, false, owner);
        proof { Self::lemma_cover_extent(old(self), self); }
    }

    /// Marks region `region_idx` free when `owner` owns it: it moves to the
    /// trees of free regions, belongs to nobody and its pages are marked
    /// free. False when another owner holds it; a free region is left as it is.
    pub fn mark_region_free(&mut self, region_idx: usize, owner: Owner) -> (r: bool)
        requires
            old(self).inv(),
            old(self).live().contains(region_idx as int),
        ensures
            final(self).inv(),
            final(self).keeps_setup(old(self)),
            final(self).live() == old(self).live(),
            final(self).region_count() == old(self).region_count(),
            final(self).frees_since_merge() == old(self).frees_since_merge(),
            forall|q: int| #[trigger] final(self).slot_free(q) == old(self).slot_free(q),
            r == (old(self).regions()[region_idx as int].owner == owner),
            final(self).same_cover(old(self)),
            final(self).free_sizes() == old(self).free_sizes() + (if r && !old(self).regions()[region_idx as int].is_free {
                old(self).regions()[region_idx as int].size as int
            } else {
                0
            }),
            ({
                let o = old(self).regions()[region_idx as int];
                if r && !o.is_free {
                    &&& final(self).regions() == old(self).regions().update(region_idx as int,
                        MemRegionDescr { is_free: true, owner: Owner::Nobody, ..o })
                    &&& pages_marked(old(self).pages(), final(self).pages(), o.start_addr.0, o.size, PageStatus::Free, Owner::Nobody)
                } else {
                    &&& final(self).regions() == old(self).regions()
                    &&& final(self).pages() == old(self).pages()
                }
            }),
    {
        if self.mem_regions[region_idx].owner != owner {
            proof { Self::lemma_cover_extent(old(self), self); }
            return false;
        }
        if self.mem_regions[region_idx].is_free {
            proof { Self::lemma_cover_extent(old(self), self); }
            return true;
        }
        let r = self.mem_regions[region_idx];
        let ghost l = self.live@;
        proof {
            assert forall|j: int| #[trigger] l.contains(j) && 0 <= j < self.mem_regions@.len() && j != region_idx implies
                self.mem_regions@[j].start_addr.0 != self.mem_regions@[region_idx as int].start_addr.0 by {
                assert(separate(self.mem_regions@[j], self.mem_regions@[region_idx as int]));
            }
        }
        self.remove_region_from_trunks(region_idx, Ghost(l));
        let ghost a1 = *self;
        let r2 = MemRegionDescr {
            start_addr: r.start_addr,
            size: r.size,
            is_free: true,
            flags: r.flags,
            owner: Owner::Nobody,
            idx: r.idx,
            size_node: r.size_node,
            addr_node: r.addr_node,
        };
        self.mem_regions.set(region_idx, r2);
        let l2 = Ghost(l.remove(region_idx as int));
        proof {
            lemma_trunks_frame(&a1, self, l2@);
            assert forall|j: int| #[trigger] l2@.contains(j) && 0 <= j < self.mem_regions@.len() implies
                self.mem_regions@[j].start_addr.0 != self.mem_regions@[region_idx as int].start_addr.0 by {
                assert(separate(a1.mem_regions@[j], a1.mem_regions@[region_idx as int]));
            }
        }
        self.put_region_into_trunks(region_idx, l2);
        proof {
            assert(l2@.insert(region_idx as int) =~= l);
            assert(self.mem_regions@[region_idx as int] == r2);
            assert(self.mem_regions@ =~= old(self).mem_regions@.update(region_idx as int, r2));
            assert forall|i: int| #[trigger] self.live@.contains(i) implies sane(self.mem_regions@[i], i) by {}
            assert forall|i: int, j: int| #[trigger] self.live@.contains(i) && #[trigger] self.live@.contains(j) && i != j
                implies separate(self.mem_regions@[i], self.mem_regions@[j]) by {
                assert(separate(old(self).mem_regions@[i], old(self).mem_regions@[j]));
            }
        }
        self.update_page_info_range(r.start_addr, r.size, true, Owner::Nobody);
        proof { Self::lemma_cover_extent(old(self), self); }
        true
    }
}

/// The size `n` rounded up to whole default-size pages is `la`.
pub open spec fn rounds_to(n: usize, la: int) -> bool {
    la % 4096 == 0 && n <= la < n + 4096
}

impl TreeAllocator {
    /// Every region allocated in `o` is still there, unchanged.
    pub closed spec fn keeps_allocated(&self, o: &TreeAllocator) -> bool {
        forall|j: int| #[trigger] o.live@.contains(j) && !o.mem_regions@[j].is_free ==>
            self.live@.contains(j) && self.mem_regions@[j] == o.mem_regions@[j]
    }

    /// Every region allocated here was allocated in `o`, unchanged.
    pub closed spec fn allocated_from(&self, o: &TreeAllocator) -> bool {
        forall|j: int| #[trigger] self.live@.contains(j) && !self.mem_regions@[j].is_free ==>
            o.live@.contains(j) && o.mem_regions@[j] == self.mem_regions@[j]
    }

    /// Splits free region `orig_region_idx` in two free regions: the left
    /// keeps its slot and `new_left_size` rounded up to whole pages, the
    /// right, in the lowest available slot, the rest. Its pages are marked:
    /// the left ones allocated, the right ones free, both to nobody. None
    /// when nothing would remain for the right or no slot is available.
    #[verifier::spinoff_prover]
    #[verifier::rlimit(40)]
    fn split_free_region(&mut self, orig_region_idx: usize, new_left_size: usize) -> (r: Option<(usize, usize)>)
        requires
            old(self).inv(),
            old(self).live@.contains(orig_region_idx as int),
            old(self).mem_regions@[orig_region_idx as int].is_free,
            new_left_size > 0,
            new_left_size + 4095 <= usize::MAX,
            forall|la: int| #[trigger] rounds_to(new_left_size, la) ==> la <= old(self).mem_regions@[orig_region_idx as int].size,
        ensures
            final(self).inv(),
            final(self).free_sizes() == old(self).free_sizes(),
            final(self).keeps_setup(old(self)),
            final(self).keeps_allocated(old(self)),
            final(self).allocated_from(old(self)),
            final(self).same_cover(old(self)),
            final(self).dealloc_since_last_merge_free_count == old(self).dealloc_since_last_merge_free_count,
            final(self).mem_regions@.len() == old(self).mem_regions@.len(),
            match r {
                Some((li, ri)) => {
                    let o = old(self).mem_regions@[orig_region_idx as int];
                    let left = final(self).mem_regions@[li as int];
                    let right = final(self).mem_regions@[ri as int];
                    &&& li == orig_region_idx
                    &&& ri < old(self).capacity
                    &&& old(self).slot_free(ri as int)
                    &&& (forall|q: int| 0 <= q < ri ==> !#[trigger] old(self).slot_free(q))
                    &&& final(self).live@ == old(self).live@.insert(ri as int)
                    &&& rounds_to(new_left_size, left.size as int)
                    &&& left.size < o.size
                    &&& left.start_addr == o.start_addr && left.is_free && left.owner == Owner::Nobody && left.flags == o.flags
                    &&& right.start_addr.0 == o.start_addr.0 + left.size && right.size == o.size - left.size
                    &&& right.is_free && right.owner == Owner::Nobody
                    &&& right.flags == old(self).mem_regions@[ri as int].flags
                    &&& forall|j: int| 0 <= j < old(self).mem_regions@.len() && j != li && j != ri ==>
                        #[trigger] final(self).mem_regions@[j] == old(self).mem_regions@[j]
                    &&& exists|mid: Seq<PageInfo>| {
                        &&& pages_marked(old(self).page_info@, mid, o.start_addr.0, left.size, PageStatus::Alloc, Owner::Nobody)
                        &&& #[trigger] pages_marked(mid, final(self).page_info@, right.start_addr.0, right.size, PageStatus::Free, Owner::Nobody)
                    }
                },
                None => {
                    &&& (old(self).mem_regions@[orig_region_idx as int].size % 4096 == 0
                        && old(self).mem_regions@[orig_region_idx as int].size < new_left_size + 4096)
                        || forall|q: int| 0 <= q < old(self).capacity ==> !#[trigger] old(self).slot_free(q)
                    &&& *final(self) == *old(self)
                },
            },
    {
        proof { lemma_sizes_are_pow2(); }
        let new_left_aligned_size = align_up(new_left_size, MEMORY_DEFAULT_PAGE_USIZE);
        let left_region_idx = orig_region_idx;
        let orig = self.mem_regions[left_region_idx];
        let region_size = orig.size;
        let orig_region_start_addr = orig.start_addr;
        proof { assert(rounds_to(new_left_size, new_left_aligned_size as int)); }
        if region_size - new_left_aligned_size > 0 {
            let ghost a0 = *self;
            let new_right_region = self.alloc_internal_slot();
            match new_right_region {
                Some(right_region_idx) => {
                    let ghost l = self.live@;
                    proof {
                        assert(!l.contains(right_region_idx as int));
                        assert forall|j: int| #[trigger] l.contains(j) && 0 <= j < self.mem_regions@.len() && j != left_region_idx implies
                            self.mem_regions@[j].start_addr.0 != self.mem_regions@[left_region_idx as int].start_addr.0 by {
                            assert(separate(self.mem_regions@[j], self.mem_regions@[left_region_idx as int]));
                        }
                    }
                    self.remove_region_from_trunks(left_region_idx, Ghost(l));
                    let ghost a1 = *self;
                    let left = MemRegionDescr {
                        start_addr: orig_region_start_addr,
                        size: new_left_aligned_size,
                        is_free: true,
                        flags: orig.flags,
                        owner: Owner::Nobody,
                        idx: left_region_idx,
                        size_node: orig.size_node,
                        addr_node: orig.addr_node,
                    };
                    self.mem_regions.set(left_region_idx, left);
                    self.update_page_info_range(orig_region_start_addr, new_left_aligned_size, false, Owner::Nobody);
                    let ghost mid = self.page_info@;
                    let right_start = orig_region_start_addr.0 + new_left_aligned_size;
                    let right_size = region_size - new_left_aligned_size;
                    let old_right = self.mem_regions[right_region_idx];
                    let right = MemRegionDescr {
                        start_addr: PhysAddr(right_start),
                        size: right_size,
                        is_free: true,
                        flags: old_right.flags,
                        owner: Owner::Nobody,
                        idx: right_region_idx,
                        size_node: old_right.size_node,
                        addr_node: old_right.addr_node,
                    };
                    self.mem_regions.set(right_region_idx, right);
                    self.update_page_info_range(PhysAddr(right_start), right_size, true, Owner::Nobody);
                    let l1 = Ghost(l.remove(left_region_idx as int));
                    proof {
                        lemma_trunks_frame(&a1, self, l1@);
                        assert forall|j: int| #[trigger] l1@.contains(j) && 0 <= j < self.mem_regions@.len() implies
                            self.mem_regions@[j].start_addr.0 != self.mem_regions@[left_region_idx as int].start_addr.0 by {
                            assert(separate(a0.mem_regions@[j], a0.mem_regions@[left_region_idx as int]));
                        }
                    }
                    self.put_region_into_trunks(left_region_idx, l1);
                    proof {
                        assert(l1@.insert(left_region_idx as int) =~= l);
                        assert forall|j: int| #[trigger] l.contains(j) && 0 <= j < self.mem_regions@.len() implies
                            self.mem_regions@[j].start_addr.0 != self.mem_regions@[right_region_idx as int].start_addr.0 by {
                            if j != left_region_idx {
                                assert(separate(a0.mem_regions@[j], a0.mem_regions@[left_region_idx as int]));
                            }
                        }
                    }
                    self.put_region_into_trunks(right_region_idx, Ghost(l));
                    proof {
                        let bm = self.bitmap->0;
                        lemma_taken_bound(bm);
                        assert(l.insert(right_region_idx as int).subset_of(taken(bm)));
                        lemma_len_subset(l.insert(right_region_idx as int), taken(bm));
                        bm.lemma_bits_fit();
                    }
                    self.live = Ghost(l.insert(right_region_idx as int));
                    self.count = self.count + 1;
                    proof {
                        let li = left_region_idx as int;
                        let ri = right_region_idx as int;
                        assert forall|i: int| #[trigger] self.live@.contains(i) implies {
                            &&& 0 <= i < self.capacity
                            &&& !self.bitmap->0.bit(i)
                            &&& sane(self.mem_regions@[i], i)
                        } by {
                            if i != ri {
                                assert(l.contains(i));
                            }
                        }
                        assert forall|i: int, j: int| #[trigger] self.live@.contains(i) && #[trigger] self.live@.contains(j) && i != j
                            implies separate(self.mem_regions@[i], self.mem_regions@[j]) by {
                            if i != li && i != ri && j != li && j != ri {
                                assert(separate(a0.mem_regions@[i], a0.mem_regions@[j]));
                            } else if i == li && j != ri {
                                assert(separate(a0.mem_regions@[li], a0.mem_regions@[j]));
                            } else if j == li && i != ri {
                                assert(separate(a0.mem_regions@[li], a0.mem_regions@[i]));
                            } else if i == ri && j != li {
                                assert(separate(a0.mem_regions@[li], a0.mem_regions@[j]));
                            } else if j == ri && i != li {
                                assert(separate(a0.mem_regions@[li], a0.mem_regions@[i]));
                            }
                        }
                        assert forall|j: int| #[trigger] old(self).live@.contains(j) && !old(self).mem_regions@[j].is_free implies
                            self.live@.contains(j) && self.mem_regions@[j] == old(self).mem_regions@[j] by {
                            assert(j != li && j != ri);
                        }
                        assert(pages_marked(mid, self.page_info@, right_start, right_size, PageStatus::Free, Owner::Nobody));
                        assert(!old(self).live@.contains(ri));
                        Self::lemma_cover_split(old(self), self, li, ri);
                        assert forall|j: int| #[trigger] self.live@.contains(j) && !self.mem_regions@[j].is_free implies
                            old(self).live@.contains(j) && old(self).mem_regions@[j] == self.mem_regions@[j] by {
                            assert(j != li && j != ri);
                        }
                    }
                    Some((left_region_idx, right_region_idx))
                },
                None => None,
            }
        } else {
            None
        }
    }
}

/// `n` is `o` with some pages marked free to nobody.
pub open spec fn pages_freed_only(o: Seq<PageInfo>, n: Seq<PageInfo>) -> bool {
    &&& n.len() == o.len()
    &&& forall|i: int| 0 <= i < n.len() ==> #[trigger] n[i] == o[i]
        || n[i] == (PageInfo { status: PageStatus::Free, owner: Owner::Nobody, ..o[i] })
}

/// Marking pages free to nobody only marks pages free to nobody.
pub proof fn lemma_pages_freed_only(a: Seq<PageInfo>, b: Seq<PageInfo>, c: Seq<PageInfo>, start: usize, size: usize)
    requires
        pages_freed_only(a, b),
        pages_marked(b, c, start, size, PageStatus::Free, Owner::Nobody),
    ensures
        pages_freed_only(a, c),
{
    assert forall|i: int| 0 <= i < c.len() implies #[trigger] c[i] == a[i]
        || c[i] == (PageInfo { status: PageStatus::Free, owner: Owner::Nobody, ..a[i] }) by {
        assert(b[i] == a[i] || b[i] == (PageInfo { status: PageStatus::Free, owner: Owner::Nobody, ..a[i] }));
    }
}

impl TreeAllocator {
    /// Merges free region `right_region_idx` into free region
    /// `left_region_idx` when the right one starts where the left one ends:
    /// the left one grows by the right one's size, belongs to nobody, its
    /// pages are marked free, and the right one's slot is given back.
    /// None, changing nothing, otherwise.
    fn merge_free_regions(&mut self, left_region_idx: usize, right_region_idx: usize) -> (r: Option<usize>)
        requires
            old(self).inv(),
            old(self).live@.contains(left_region_idx as int),
            old(self).live@.contains(right_region_idx as int),
            left_region_idx != right_region_idx,
        ensures
            final(self).inv(),
            final(self).free_sizes() == old(self).free_sizes(),
            final(self).keeps_setup(old(self)),
            final(self).keeps_allocated(old(self)),
            final(self).allocated_from(old(self)),
            final(self).same_cover(old(self)),
            final(self).keeps_free_nobody(old(self)),
            final(self).dealloc_since_last_merge_free_count == old(self).dealloc_since_last_merge_free_count,
            final(self).mem_regions@.len() == old(self).mem_regions@.len(),
            ({
                let (lo, ro) = (old(self).mem_regions@[left_region_idx as int], old(self).mem_regions@[right_region_idx as int]);
                if lo.is_free && ro.is_free && lo.start_addr.0 + lo.size == ro.start_addr.0 {
                    let m = final(self).mem_regions@[left_region_idx as int];
                    &&& r == Some(left_region_idx)
                    &&& final(self).live@ == old(self).live@.remove(right_region_idx as int)
                    &&& final(self).count == old(self).count - 1
                    &&& m.start_addr == lo.start_addr && m.size == lo.size + ro.size && m.is_free
                    &&& m.owner == Owner::Nobody && m.flags == lo.flags
                    &&& forall|j: int| 0 <= j < old(self).mem_regions@.len() && j != left_region_idx && j != right_region_idx ==>
                        #[trigger] final(self).mem_regions@[j] == old(self).mem_regions@[j]
                    &&& final(self).rb_addr_free.entries().len() == old(self).rb_addr_free.entries().len() - 1
                    &&& pages_freed_only(old(self).page_info@, final(self).page_info@)
                } else {
                    &&& r.is_none()
                    &&& *final(self) == *old(self)
                }
            }),
    {
        let lr = self.mem_regions[left_region_idx];
        let rr = self.mem_regions[right_region_idx];
        if !lr.is_free || !rr.is_free {
            return None;
        }
        if lr.start_addr.0 + lr.size != rr.start_addr.0 {
            return None;
        }
        let ghost a0 = *self;
        let ghost l = self.live@;
        let (li, ri) = (left_region_idx, right_region_idx);
        proof {
            assert forall|j: int| #[trigger] l.contains(j) && 0 <= j < self.mem_regions@.len() && j != li implies
                self.mem_regions@[j].start_addr.0 != self.mem_regions@[li as int].start_addr.0 by {
                assert(separate(self.mem_regions@[j], self.mem_regions@[li as int]));
            }
        }
        self.remove_region_from_trunks(li, Ghost(l));
        let l1 = Ghost(l.remove(li as int));
        proof {
            assert forall|j: int| #[trigger] l1@.contains(j) && 0 <= j < self.mem_regions@.len() && j != ri implies
                self.mem_regions@[j].start_addr.0 != self.mem_regions@[ri as int].start_addr.0 by {
                assert(separate(self.mem_regions@[j], self.mem_regions@[ri as int]));
            }
        }
        self.remove_region_from_trunks(ri, l1);
        let ghost a1 = *self;
        let new_region_size = lr.size + rr.size;
        let merged = MemRegionDescr {
            start_addr: lr.start_addr,
            size: new_region_size,
            is_free: true,
            flags: lr.flags,
            owner: Owner::Nobody,
            idx: li,
            size_node: lr.size_node,
            addr_node: lr.addr_node,
        };
        self.mem_regions.set(li, merged);
        self.update_page_info_range(lr.start_addr, new_region_size, true, Owner::Nobody);
        let ghost mid = self.page_info@;
        self.update_page_info_range(rr.start_addr, rr.size, true, Owner::Nobody);
        let l2 = Ghost(l1@.remove(ri as int));
        proof {
            lemma_trunks_frame(&a1, self, l2@);
            assert forall|j: int| #[trigger] l2@.contains(j) && 0 <= j < self.mem_regions@.len() implies
                self.mem_regions@[j].start_addr.0 != self.mem_regions@[li as int].start_addr.0 by {
                assert(separate(a0.mem_regions@[j], a0.mem_regions@[li as int]));
            }
        }
        self.put_region_into_trunks(li, l2);
        proof {
            assert(l2@.insert(li as int) =~= l.remove(ri as int));
        }
        self.live = Ghost(l.remove(ri as int));
        self.count = self.count - 1;
        let ghost a2 = *self;
        self.dealloc_internal_slot(ri);
        proof {
            lemma_trunks_frame(&a2, self, self.live@);
            assert forall|i: int, j: int| #[trigger] self.live@.contains(i) && #[trigger] self.live@.contains(j) && i != j
                implies separate(self.mem_regions@[i], self.mem_regions@[j]) by {
                if i == li {
                    assert(separate(a0.mem_regions@[li as int], a0.mem_regions@[j]));
                    assert(separate(a0.mem_regions@[ri as int], a0.mem_regions@[j]));
                } else if j == li {
                    assert(separate(a0.mem_regions@[li as int], a0.mem_regions@[i]));
                    assert(separate(a0.mem_regions@[ri as int], a0.mem_regions@[i]));
                } else {
                    assert(separate(a0.mem_regions@[i], a0.mem_regions@[j]));
                }
            }
            assert forall|j: int| #[trigger] old(self).live@.contains(j) && !old(self).mem_regions@[j].is_free implies
                self.live@.contains(j) && self.mem_regions@[j] == old(self).mem_regions@[j] by {
                assert(j != li && j != ri);
            }
            assert forall|j: int| #[trigger] self.live@.contains(j) && !self.mem_regions@[j].is_free implies
                old(self).live@.contains(j) && old(self).mem_regions@[j] == self.mem_regions@[j] by {
                assert(j != li && j != ri);
            }
            assert(pages_freed_only(a0.page_info@, a0.page_info@));
            lemma_pages_freed_only(a0.page_info@, a0.page_info@, mid, lr.start_addr.0, new_region_size);
            lemma_pages_freed_only(a0.page_info@, mid, self.page_info@, rr.start_addr.0, rr.size);
            Self::lemma_cover_merge(old(self), self, li as int, ri as int);
            Self::lemma_nobody_merge(old(self), self, li as int, ri as int);
        }
        Some(li)
    }
}

/// By-address keys order regions by address first.
pub proof fn lemma_addr_key_order(s1: usize, z1: usize, s2: usize, z2: usize)
    ensures
        s1 < s2 ==> addr_key_of(s1, z1) < addr_key_of(s2, z2),
        addr_key_of(s1, z1) < addr_key_of(s2, z2) ==> s1 <= s2,
        addr_key_of(s1, z1) == addr_key_of(s2, z2) ==> s1 == s2,
        s1 + z1 <= usize::MAX ==> addr_key_of(s1, z1) < u128::MAX,
{
    lemma_key_fits(s1, z1);
    lemma_key_fits(s2, z2);
    let c: int = 0x1_0000_0000_0000_0000;
    assert(s1 < s2 ==> s1 * c + z1 < s2 * c + z2) by (nonlinear_arith)
        requires z1 < c, z2 < c, c == 0x1_0000_0000_0000_0000int;
    assert(s1 * c + z1 < s2 * c + z2 ==> s1 <= s2) by (nonlinear_arith)
        requires z1 < c, z2 < c, c == 0x1_0000_0000_0000_0000int;
    assert(s1 * c + z1 == s2 * c + z2 ==> s1 == s2) by (nonlinear_arith)
        requires z1 < c, z2 < c, c == 0x1_0000_0000_0000_0000int;
    assert(s1 + z1 <= usize::MAX ==> s1 * c + z1 < u128::MAX) by (nonlinear_arith)
        requires s1 <= 0xffff_ffff_ffff_ffffu64, c == 0x1_0000_0000_0000_0000int, usize::MAX <= 0xffff_ffff_ffff_ffffu64;
}

/// Region `a` ends where region `b` starts.
pub open spec fn touches(a: MemRegionDescr, b: MemRegionDescr) -> bool {
    a.start_addr.0 + a.size == b.start_addr.0
}

impl TreeAllocator {
    /// No free region ends where another free region starts.
    pub closed spec fn no_free_regions_touch(&self) -> bool {
        forall|i: int, j: int| #[trigger] self.live@.contains(i) && #[trigger] self.live@.contains(j) && i != j
            && self.mem_regions@[i].is_free && self.mem_regions@[j].is_free
            ==> !touches(self.mem_regions@[i], self.mem_regions@[j])
    }

    /// Touching free regions all start at or after `from`.
    closed spec fn touching_from(&self, from: int) -> bool {
        forall|i: int, j: int| #[trigger] self.live@.contains(i) && #[trigger] self.live@.contains(j) && i != j
            && self.mem_regions@[i].is_free && self.mem_regions@[j].is_free
            && touches(self.mem_regions@[i], self.mem_regions@[j])
            ==> self.mem_regions@[i].start_addr.0 >= from
    }

    /// Some region is free.
    closed spec fn has_free(&self) -> bool {
        exists|i: int| #[trigger] self.live@.contains(i) && self.mem_regions@[i].is_free
    }

    /// Walks the free regions in address order, merging each into the one
    /// before it when they touch; returns the number of merges. Afterwards
    /// no two free regions touch. When there is a free region the count of
    /// frees since the last merge starts over.
    fn coalesce_free_space(&mut self) -> (r: usize)
        requires
            old(self).inv(),
        ensures
            final(self).inv(),
            final(self).free_sizes() == old(self).free_sizes(),
            final(self).keeps_setup(old(self)),
            final(self).keeps_allocated(old(self)),
            final(self).allocated_from(old(self)),
            final(self).same_cover(old(self)),
            final(self).same_bytes(old(self)),
            final(self).keeps_free_nobody(old(self)),
            final(self).mem_regions@.len() == old(self).mem_regions@.len(),
            pages_freed_only(old(self).page_info@, final(self).page_info@),
            final(self).no_free_regions_touch(),
            final(self).count == old(self).count - r,
            final(self).dealloc_since_last_merge_free_count == (if old(self).has_free() { 0 } else {
                old(self).dealloc_since_last_merge_free_count
            }),
    {
        let first = self.rb_addr_free.ceiling_node(0);
        let f = match first {
            None => {
                proof {
                    assert(!self.has_free()) by {
                        if self.has_free() {
                            let i = choose|i: int| #[trigger] self.live@.contains(i) && self.mem_regions@[i].is_free;
                            assert(self.rb_addr_free@.contains_key(key_of(self.mem_regions@[i], false)));
                        }
                    }
                    assert(pages_freed_only(self.page_info@, self.page_info@));
                    Self::lemma_same_bytes(old(self), self);
                }
                return 0;
            },
            Some(f) => f,
        };
        proof {
            let i = f.value as int;
            assert(self.live@.contains(i) && self.mem_regions@[i].is_free);
            assert(self.has_free());
            assert(pages_freed_only(self.page_info@, self.page_info@));
            assert forall|i: int, j: int| #[trigger] self.live@.contains(i) && #[trigger] self.live@.contains(j) && i != j
                && self.mem_regions@[i].is_free && self.mem_regions@[j].is_free
                && touches(self.mem_regions@[i], self.mem_regions@[j])
                implies self.mem_regions@[i].start_addr.0 >= self.mem_regions@[f.value as int].start_addr.0 by {
                let ri = self.mem_regions@[i];
                let rf = self.mem_regions@[f.value as int];
                assert(self.rb_addr_free@.contains_key(key_of(ri, false)));
                lemma_addr_key_order(ri.start_addr.0, ri.size, rf.start_addr.0, rf.size);
            }
        }
        let mut cur_key: u128 = f.key;
        let mut cur_idx: usize = f.value;
        let mut merge_count: usize = 0;
        let ghost c0 = self.count;
        loop
            invariant
                self.inv(),
                self.keeps_setup(old(self)),
                self.keeps_allocated(old(self)),
                self.allocated_from(old(self)),
                self.same_cover(old(self)),
                self.keeps_free_nobody(old(self)),
                self.mem_regions@.len() == old(self).mem_regions@.len(),
                pages_freed_only(old(self).page_info@, self.page_info@),
                self.dealloc_since_last_merge_free_count == old(self).dealloc_since_last_merge_free_count,
                self.rb_addr_free@.contains_key(cur_key),
                self.rb_addr_free@[cur_key].value == cur_idx,
                merge_count + self.count == c0,
                c0 == old(self).count,
                old(self).has_free(),
                self.touching_from(self.mem_regions@[cur_idx as int].start_addr.0 as int),
                self.free_sizes() == old(self).free_sizes(),
            ensures
                self.inv(),
                self.keeps_setup(old(self)),
                self.keeps_allocated(old(self)),
                self.allocated_from(old(self)),
                self.same_cover(old(self)),
                self.keeps_free_nobody(old(self)),
                self.mem_regions@.len() == old(self).mem_regions@.len(),
                pages_freed_only(old(self).page_info@, self.page_info@),
                self.dealloc_since_last_merge_free_count == old(self).dealloc_since_last_merge_free_count,
                merge_count + self.count == c0,
                old(self).has_free(),
                self.no_free_regions_touch(),
                self.free_sizes() == old(self).free_sizes(),
            decreases self.rb_addr_free.entries().len(), u128::MAX - cur_key,
        {
            let ghost cr0 = self.mem_regions@[cur_idx as int];
            proof {
                lemma_addr_key_order(cr0.start_addr.0, cr0.size, cr0.start_addr.0, cr0.size);
            }
            let next = self.rb_addr_free.ceiling_node(cur_key + 1);
            match next {
                None => {
                    proof {
                        assert forall|i: int, j: int| #[trigger] self.live@.contains(i) && #[trigger] self.live@.contains(j) && i != j
                            && self.mem_regions@[i].is_free && self.mem_regions@[j].is_free
                            implies !touches(self.mem_regions@[i], self.mem_regions@[j]) by {
                            let ri = self.mem_regions@[i];
                            let rj = self.mem_regions@[j];
                            if touches(ri, rj) {
                                assert(self.rb_addr_free@.contains_key(key_of(ri, false)));
                                assert(self.rb_addr_free@.contains_key(key_of(rj, false)));
                                lemma_addr_key_order(ri.start_addr.0, ri.size, cr0.start_addr.0, cr0.size);
                                lemma_addr_key_order(cr0.start_addr.0, cr0.size, ri.start_addr.0, ri.size);
                                if i != cur_idx {
                                    assert(separate(ri, cr0));
                                }
                                assert(separate(ri, rj));
                                lemma_addr_key_order(cr0.start_addr.0, cr0.size, rj.start_addr.0, rj.size);
                            }
                        }
                    }
                    break;
                },
                Some(nx) => {
                    let cr = self.mem_regions[cur_idx];
                    let nr = self.mem_regions[nx.value];
                    proof {
                        assert(nx.value != cur_idx);
                        lemma_addr_key_order(cr.start_addr.0, cr.size, nr.start_addr.0, nr.size);
                        assert(separate(cr, nr));
                    }
                    if cr.start_addr.0 + cr.size == nr.start_addr.0 {
                        let ghost s1 = *self;
                        let merged = self.merge_free_regions(cur_idx, nx.value);
                        proof {
                            assert forall|i: int, j: int| #[trigger] self.live@.contains(i) && #[trigger] self.live@.contains(j) && i != j
                                && self.mem_regions@[i].is_free && self.mem_regions@[j].is_free
                                && touches(self.mem_regions@[i], self.mem_regions@[j])
                                implies self.mem_regions@[i].start_addr.0 >= self.mem_regions@[cur_idx as int].start_addr.0 by {
                                if i != cur_idx && j != cur_idx {
                                    assert(s1.live@.contains(i) && s1.live@.contains(j));
                                } else if j == cur_idx {
                                    assert(s1.live@.contains(i));
                                    assert(touches(s1.mem_regions@[i], s1.mem_regions@[cur_idx as int]));
                                }
                            }
                        }
                        cur_key = self.mem_regions[cur_idx].addr_node.key;
                        merge_count = merge_count + 1;
                    } else {
                        proof {
                            assert forall|i: int, j: int| #[trigger] self.live@.contains(i) && #[trigger] self.live@.contains(j) && i != j
                                && self.mem_regions@[i].is_free && self.mem_regions@[j].is_free
                                && touches(self.mem_regions@[i], self.mem_regions@[j])
                                implies self.mem_regions@[i].start_addr.0 >= nr.start_addr.0 by {
                                let ri = self.mem_regions@[i];
                                let rj = self.mem_regions@[j];
                                assert(self.rb_addr_free@.contains_key(key_of(ri, false)));
                                assert(self.rb_addr_free@.contains_key(key_of(rj, false)));
                                lemma_addr_key_order(ri.start_addr.0, ri.size, cr.start_addr.0, cr.size);
                                lemma_addr_key_order(cr.start_addr.0, cr.size, ri.start_addr.0, ri.size);
                                lemma_addr_key_order(ri.start_addr.0, ri.size, nr.start_addr.0, nr.size);
                                lemma_addr_key_order(nr.start_addr.0, nr.size, ri.start_addr.0, ri.size);
                                lemma_addr_key_order(cr.start_addr.0, cr.size, rj.start_addr.0, rj.size);
                                lemma_addr_key_order(nr.start_addr.0, nr.size, rj.start_addr.0, rj.size);
                                lemma_addr_key_order(rj.start_addr.0, rj.size, nr.start_addr.0, nr.size);
                                assert(separate(ri, rj));
                                if i != cur_idx {
                                    assert(separate(ri, cr));
                                } else {
                                    if j != nx.value {
                                        assert(separate(rj, nr));
                                    }
                                }
                            }
                        }
                        cur_key = nx.key;
                        cur_idx = nx.value;
                    }
                },
            }
        }
        let ghost s9 = *self;
        self.dealloc_since_last_merge_free_count = 0;
        proof {
            lemma_trunks_frame(self, self, self.live@);
            assert(self.same_cover(&s9));
            Self::lemma_same_bytes(old(self), self);
        }
        merge_count
    }
}

/// The range a by-address key names, `[hi, hi + lo)`, holds `a`.
pub open spec fn key_holds(k: u128, a: int) -> bool {
    hi64_spec(k) as int <= a < hi64_spec(k) as int + lo64_spec(k) as int
}

/// The range a by-address key names ends at or after `a`.
pub open spec fn key_reaches(k: u128, a: int) -> bool {
    a <= hi64_spec(k) as int + lo64_spec(k) as int
}

/// Entry `i` of `s` is the one a search for `a` finds: the first whose
/// range holds `a`, or, when none does, the first whose range ends at or
/// after `a`.
pub open spec fn picks(s: Seq<RBNode>, a: int, i: int) -> bool {
    &&& 0 <= i < s.len()
    &&& {
        ||| key_holds(s[i].key, a) && forall|j: int| 0 <= j < i ==> !key_holds(#[trigger] s[j].key, a)
        ||| (forall|j: int| 0 <= j < s.len() ==> !key_holds(#[trigger] s[j].key, a))
            && key_reaches(s[i].key, a) && forall|j: int| 0 <= j < i ==> !key_reaches(#[trigger] s[j].key, a)
    }
}

impl MemNode {
    /// Searches the by-address tree `addr_root` for the region that holds
    /// `addr`: the first, in address order, whose range `[start, start +
    /// size)` holds it, or, when none does, the first that ends at or after
    /// it (a region ending exactly at `addr` counts as reaching it). None
    /// when every region ends before `addr`.
    pub fn contains_addr<A: MemAddr + AsUsize>(&self, addr_root: &RBTree, addr: A) -> (r: Option<MemNode>)
        requires
            addr_root.wf(),
        ensures
            match r {
                Some(n) => exists|i: int| #[trigger] picks(addr_root.entries(), addr.usize_of() as int, i)
                    && addr_root.entries()[i].key == n.key_spec() && addr_root.entries()[i].value == n.value_spec(),
                None => forall|j: int| 0 <= j < addr_root.entries().len() ==>
                    !key_reaches(#[trigger] addr_root.entries()[j].key, addr.usize_of() as int),
            },
    {
        let a = addr.as_usize() as u128;
        let n = addr_root.size();
        proof { addr_root.lemma_view(); }
        let mut i: u128 = 0;
        while i < n
            invariant
                addr_root.wf(),
                n == addr_root.entries().len(),
                i <= n,
                a == addr.usize_of(),
                forall|j: int| 0 <= j < i ==> !key_holds(#[trigger] addr_root.entries()[j].key, a as int),
            decreases n - i,
        {
            let k = match addr_root.select(i) {
                Some(k) => k,
                None => { return None; },
            };
            let s = hi64(k) as u128;
            let z = lo64(k) as u128;
            if s <= a && a < s + z {
                let v = match addr_root.get(k) {
                    Some(v) => v,
                    None => { return None; },
                };
                proof {
                    addr_root.lemma_view();
                    assert(picks(addr_root.entries(), a as int, i as int));
                }
                return Some(MemNode { key: k, value: v });
            }
            i = i + 1;
        }
        let mut i: u128 = 0;
        while i < n
            invariant
                addr_root.wf(),
                n == addr_root.entries().len(),
                i <= n,
                a == addr.usize_of(),
                forall|j: int| 0 <= j < n ==> !key_holds(#[trigger] addr_root.entries()[j].key, a as int),
                forall|j: int| 0 <= j < i ==> !key_reaches(#[trigger] addr_root.entries()[j].key, a as int),
            decreases n - i,
        {
            let k = match addr_root.select(i) {
                Some(k) => k,
                None => { return None; },
            };
            let s = hi64(k) as u128;
            let z = lo64(k) as u128;
            if a <= s + z {
                let v = match addr_root.get(k) {
                    Some(v) => v,
                    None => { return None; },
                };
                proof {
                    addr_root.lemma_view();
                }
                proof {
                    assert(picks(addr_root.entries(), a as int, i as int));
                }
                return Some(MemNode { key: k, value: v });
            }
            i = i + 1;
        }
        None
    }
}

/// A size that is a whole number of pages is its own rounding.
pub proof fn lemma_round_exact(n: usize, la: int)
    requires
        n % 4096 == 0,
        rounds_to(n, la),
    ensures
        la == n,
{
    assert(n == 4096 * (n as int / 4096));
    assert(la == 4096 * (la / 4096));
}

/// The page sizes are whole numbers of default-size pages.
pub proof fn lemma_page_sizes(ps: PageSize)
    ensures
        ps.size() % 4096 == 0,
        ps.size() >= 4096,
        ps.size() <= 0x4000_0000,
{
}

impl TreeAllocator {
    /// Slot `i` holds a region allocated to `owner` with `size` bytes from
    /// `a`, which was not an allocated region of `o`, and the records of its
    /// pages show them allocated to `owner`.
    pub closed spec fn fresh_frame(&self, o: &TreeAllocator, a: usize, size: usize, owner: Owner) -> bool {
        &&& exists|i: int| #[trigger] self.live@.contains(i) && !(o.live@.contains(i) && !o.mem_regions@[i].is_free)
            && self.mem_regions@[i].start_addr.0 == a && self.mem_regions@[i].size == size
            && !self.mem_regions@[i].is_free && self.mem_regions@[i].owner == owner
        &&& pages_show_alloc(self.page_info@, a, size, owner)
    }

    /// Every free region is smaller than `n` bytes.
    pub closed spec fn no_free_region_of(&self, n: int) -> bool {
        forall|i: int| #[trigger] self.live@.contains(i) && self.mem_regions@[i].is_free ==> self.mem_regions@[i].size < n
    }

    /// No slot is available.
    pub closed spec fn no_slot_free(&self) -> bool {
        forall|q: int| 0 <= q < self.capacity ==> !#[trigger] self.slot_free(q)
    }

    /// Allocates a frame of one page of `page_size` to `owner` from the
    /// smallest free region that is large enough, splitting it when it is
    /// larger; larger-than-default pages first merge touching free regions.
    /// Returns the frame's address; none when no free region is large enough
    /// or no slot is left for the split.
    pub fn alloc_frame_single(&mut self, owner: Owner, page_size: PageSize) -> (r: Option<PhysAddr>)
        requires
            old(self).inv(),
        ensures
            final(self).inv(),
            final(self).free_sizes() == old(self).free_sizes() - (if r is Some { page_size.size() as int } else { 0 }),
            final(self).keeps_setup(old(self)),
            final(self).keeps_allocated(old(self)),
            match r {
                Some(a) => final(self).fresh_frame(old(self), a.0, page_size.size(), owner),
                None => final(self).no_free_region_of(page_size.size() as int) || final(self).no_slot_free(),
            },
    {
        let aligned_size = page_size.into_bits();
        proof { lemma_page_sizes(page_size); }
        if aligned_size > MEMORY_DEFAULT_PAGE_USIZE {
            self.coalesce_free_space();
        }
        let ghost s1 = *self;
        let size_key = make128(aligned_size, 0);
        proof { lemma_key_fits(aligned_size, 0); }
        let new_block = self.rb_size_free.ceiling_node(size_key);
        match new_block {
            None => {
                proof {
                    assert forall|i: int| #[trigger] self.live@.contains(i) && self.mem_regions@[i].is_free implies
                        self.mem_regions@[i].size < aligned_size by {
                        let ri = self.mem_regions@[i];
                        assert(self.rb_size_free@.contains_key(key_of(ri, true)));
                        lemma_addr_key_order(ri.size, ri.start_addr.0, aligned_size, 0);
                        lemma_addr_key_order(aligned_size, 0, ri.size, ri.start_addr.0);
                    }
                }
                None
            },
            Some(nb) => {
                let idx = nb.value;
                let block = self.mem_regions[idx];
                proof {
                    lemma_addr_key_order(block.size, block.start_addr.0, aligned_size, 0);
                    lemma_addr_key_order(aligned_size, 0, block.size, block.start_addr.0);
                    assert(block.size >= aligned_size);
                    assert forall|la: int| #[trigger] rounds_to(aligned_size, la) implies la <= block.size by {
                        lemma_round_exact(aligned_size, la);
                    }
                }
                if block.size - aligned_size > 0 {
                    match self.split_free_region(idx, aligned_size) {
                        Some((left, right)) => {
                            let ghost s2 = *self;
                            proof {
                                lemma_round_exact(aligned_size, self.mem_regions@[left as int].size as int);
                            }
                            self.mark_region_allocated(left, owner);
                            proof {
                                assert forall|j: int| #[trigger] old(self).live@.contains(j) && !old(self).mem_regions@[j].is_free implies
                                    self.live@.contains(j) && self.mem_regions@[j] == old(self).mem_regions@[j] by {
                                    assert(s1.live@.contains(j) && s1.mem_regions@[j] == old(self).mem_regions@[j]);
                                    assert(s2.live@.contains(j) && s2.mem_regions@[j] == old(self).mem_regions@[j]);
                                    assert(j != left);
                                }
                                assert(!(old(self).live@.contains(left as int) && !old(self).mem_regions@[left as int].is_free)) by {
                                    if old(self).live@.contains(left as int) && !old(self).mem_regions@[left as int].is_free {
                                        assert(s1.mem_regions@[left as int] == old(self).mem_regions@[left as int]);
                                    }
                                }
                                assert(self.live@.contains(left as int));
                            }
                            Some(self.mem_regions[left].start_addr)
                        },
                        None => {
                            proof {
                                assert(self.no_slot_free());
                            }
                            None
                        },
                    }
                } else {
                    self.mark_region_allocated(idx, owner);
                    proof {
                        assert forall|j: int| #[trigger] old(self).live@.contains(j) && !old(self).mem_regions@[j].is_free implies
                            self.live@.contains(j) && self.mem_regions@[j] == old(self).mem_regions@[j] by {
                            assert(s1.live@.contains(j) && s1.mem_regions@[j] == old(self).mem_regions@[j]);
                            assert(j != idx);
                        }
                        assert(!(old(self).live@.contains(idx as int) && !old(self).mem_regions@[idx as int].is_free)) by {
                            if old(self).live@.contains(idx as int) && !old(self).mem_regions@[idx as int].is_free {
                                assert(s1.mem_regions@[idx as int] == old(self).mem_regions@[idx as int]);
                            }
                        }
                        assert(self.live@.contains(idx as int));
                    }
                    Some(self.mem_regions[idx].start_addr)
                }
            },
        }
    }
}

/// The records that `pages` has of the pages of `[a, a + size)` show them
/// allocated to `ow`.
pub open spec fn pages_show_alloc(pages: Seq<PageInfo>, a: usize, size: usize, ow: Owner) -> bool {
    forall|q: int| page_span(a, size).0 <= q < page_span(a, size).1 && 0 <= q < pages.len() ==>
        (#[trigger] pages[q]).status == PageStatus::Alloc && pages[q].owner == ow
}

/// An allocation never hands out memory of a region that was allocated:
/// the fresh frame does not meet any region allocated before.
pub proof fn lemma_fresh_frame_apart(o: &TreeAllocator, n: &TreeAllocator, a: usize, size: usize, owner: Owner)
    requires
        n.inv(),
        n.keeps_allocated(o),
        n.fresh_frame(o, a, size, owner),
    ensures
        forall|j: int| #[trigger] o.live().contains(j) && !o.regions()[j].is_free ==>
            apart(a, size, o.regions()[j].start_addr.0, o.regions()[j].size),
{
    let i = choose|i: int| #[trigger] n.live@.contains(i) && !(o.live@.contains(i) && !o.mem_regions@[i].is_free)
        && n.mem_regions@[i].start_addr.0 == a && n.mem_regions@[i].size == size
        && !n.mem_regions@[i].is_free && n.mem_regions@[i].owner == owner;
    assert forall|j: int| #[trigger] o.live().contains(j) && !o.regions()[j].is_free implies
        apart(a, size, o.regions()[j].start_addr.0, o.regions()[j].size) by {
        assert(n.live@.contains(j) && n.mem_regions@[j] == o.mem_regions@[j]);
        assert(i != j);
        assert(separate(n.mem_regions@[i], n.mem_regions@[j]));
    }
}

/// A by-address key gives back the address and the size it was made of.
pub proof fn lemma_key_decode(s: usize, z: usize)
    ensures
        hi64_spec(addr_key_of(s, z)) == s as u64,
        lo64_spec(addr_key_of(s, z)) == z as u64,
{
    lemma_key_fits(s, z);
    let h = s as u128;
    let l = z as u128;
    let k = addr_key_of(s, z);
    assert(k == h * 0x1_0000_0000_0000_0000 + l);
    assert(hi64_spec(k) == h as u64 && lo64_spec(k) == l as u64) by (bit_vector)
        requires
            h < 0x1_0000_0000_0000_0000,
            l < 0x1_0000_0000_0000_0000,
            k == h * 0x1_0000_0000_0000_0000 + l;
}

/// A multiple of a multiple of the page size is a multiple of the page size.
pub proof fn lemma_mult_4k(x: int, c: int)
    requires
        x % c == 0,
        c % 4096 == 0,
        c > 0,
    ensures
        x % 4096 == 0,
{
    lemma_fundamental_div_mod(x, c);
    lemma_fundamental_div_mod(c, 4096);
    let k = (c / 4096) * (x / c);
    assert(x == k * 4096) by (nonlinear_arith)
        requires x == c * (x / c), c == 4096 * (c / 4096), k == (c / 4096) * (x / c);
    lemma_mod_multiples_basic(k, 4096);
}

/// The distance between two page boundaries is a whole number of pages.
pub proof fn lemma_sub_4k(a: int, b: int)
    requires
        a % 4096 == 0,
        b % 4096 == 0,
    ensures
        (a - b) % 4096 == 0,
{
    lemma_fundamental_div_mod(a, 4096);
    lemma_fundamental_div_mod(b, 4096);
    assert(a - b == (a / 4096 - b / 4096) * 4096);
    lemma_mod_multiples_basic(a / 4096 - b / 4096, 4096);
}

/// Two multiples of `m` less than `m` apart are equal.
pub proof fn lemma_round_mult(n: int, r: int, m: int)
    requires
        m > 0,
        n % m == 0,
        r % m == 0,
        n <= r < n + m,
    ensures
        r == n,
{
    lemma_fundamental_div_mod(n, m);
    lemma_fundamental_div_mod(r, m);
    let (qn, qr) = (n / m, r / m);
    assert(qn <= qr < qn + 1) by (nonlinear_arith)
        requires m > 0, n == m * qn, r == m * qr, n <= r < n + m;
}

/// A whole number of pages needs exactly that many pages.
pub proof fn lemma_pages_exact(size: int, ps: int)
    requires
        ps > 0,
        size >= 0,
        size % ps == 0,
    ensures
        ((size + ps - 1) / ps) * ps == size,
{
    lemma_fundamental_div_mod(size, ps);
    let q = size / ps;
    assert(size + ps - 1 == q * ps + (ps - 1)) by (nonlinear_arith)
        requires size == ps * q;
    lemma_fundamental_div_mod_converse(size + ps - 1, ps, q, ps - 1);
    assert(q * ps == size) by (nonlinear_arith)
        requires size == ps * q;
}

impl TreeAllocator {
    /// Some free region holds all of `[a, a + n)`.
    pub closed spec fn free_region_holds(&self, a: int, n: int) -> bool {
        exists|i: int| #[trigger] self.live@.contains(i) && self.mem_regions@[i].is_free
            && self.mem_regions@[i].start_addr.0 <= a && a + n <= self.mem_regions@[i].start_addr.0 + self.mem_regions@[i].size
    }

    /// After an operation that kept the allocated regions, a slot that holds
    /// no region, or a free one, did not hold an allocated region before.
    proof fn lemma_not_allocated_before(s1: &TreeAllocator, o: &TreeAllocator, i: int)
        requires
            s1.keeps_allocated(o),
            !s1.live@.contains(i) || s1.mem_regions@[i].is_free,
        ensures
            !(o.live@.contains(i) && !o.mem_regions@[i].is_free),
    {
    }

    /// Keeping the allocated regions carries over a sequence of operations.
    proof fn lemma_keeps_trans(a: &TreeAllocator, b: &TreeAllocator, c: &TreeAllocator)
        requires
            b.keeps_allocated(a),
            c.keeps_allocated(b),
        ensures
            c.keeps_allocated(a),
    {
    }
}


impl TreeAllocator {
    /// Some region holds byte `a`.
    pub closed spec fn covers(&self, a: int) -> bool {
        exists|i: int| #[trigger] self.live@.contains(i) && Self::holds_addr(self.mem_regions@[i], a)
    }

    /// Some free region holds byte `a`.
    pub closed spec fn free_byte(&self, a: int) -> bool {
        exists|i: int| #[trigger] self.live@.contains(i) && self.mem_regions@[i].is_free && Self::holds_addr(self.mem_regions@[i], a)
    }

    /// Some allocated region holds byte `a`.
    pub closed spec fn alloc_byte(&self, a: int) -> bool {
        exists|i: int| #[trigger] self.live@.contains(i) && !self.mem_regions@[i].is_free && Self::holds_addr(self.mem_regions@[i], a)
    }

    /// The regions of `self` hold the same bytes as those of `o`.
    pub open spec fn same_cover(&self, o: &TreeAllocator) -> bool {
        forall|a: int| #[trigger] self.covers(a) == o.covers(a)
    }

    /// The bytes of `self` are free, allocated or neither just as in `o`.
    pub open spec fn same_bytes(&self, o: &TreeAllocator) -> bool {
        &&& forall|a: int| #[trigger] self.free_byte(a) == o.free_byte(a)
        &&& forall|a: int| #[trigger] self.alloc_byte(a) == o.alloc_byte(a)
    }

    /// Every region allocated here was allocated in `o`, unchanged, except
    /// the one of `n` bytes from `a`.
    pub closed spec fn allocated_from_but(&self, o: &TreeAllocator, a: int, n: int) -> bool {
        forall|j: int| #[trigger] self.live@.contains(j) && !self.mem_regions@[j].is_free ==>
            (o.live@.contains(j) && o.mem_regions@[j] == self.mem_regions@[j])
            || (self.mem_regions@[j].start_addr.0 == a && self.mem_regions@[j].size == n)
    }

    /// Coverage is unchanged when region `li` of `o` is cut in two: `li`
    /// keeps its start, and a region in the slot `ri`, new in `f`, takes
    /// the rest.
    proof fn lemma_cover_split(o: &TreeAllocator, f: &TreeAllocator, li: int, ri: int)
        requires
            o.inv(),
            o.live@.contains(li),
            !o.live@.contains(ri),
            f.live@ == o.live@.insert(ri),
            f.mem_regions@.len() == o.mem_regions@.len(),
            f.mem_regions@[li].start_addr == o.mem_regions@[li].start_addr,
            f.mem_regions@[ri].start_addr.0 == o.mem_regions@[li].start_addr.0 + f.mem_regions@[li].size,
            f.mem_regions@[li].size + f.mem_regions@[ri].size == o.mem_regions@[li].size,
            forall|j: int| 0 <= j < o.mem_regions@.len() && j != li && j != ri ==> #[trigger] f.mem_regions@[j] == o.mem_regions@[j],
        ensures
            f.same_cover(o),
    {
        assert forall|a: int| #[trigger] f.covers(a) == o.covers(a) by {
            if o.covers(a) {
                let i = choose|i: int| #[trigger] o.live@.contains(i) && Self::holds_addr(o.mem_regions@[i], a);
                if i == li {
                    if a < f.mem_regions@[ri].start_addr.0 {
                        assert(f.live@.contains(li) && Self::holds_addr(f.mem_regions@[li], a));
                    } else {
                        assert(f.live@.contains(ri) && Self::holds_addr(f.mem_regions@[ri], a));
                    }
                } else {
                    assert(f.live@.contains(i) && Self::holds_addr(f.mem_regions@[i], a));
                }
            }
            if f.covers(a) {
                let i = choose|i: int| #[trigger] f.live@.contains(i) && Self::holds_addr(f.mem_regions@[i], a);
                if i == li || i == ri {
                    assert(o.live@.contains(li) && Self::holds_addr(o.mem_regions@[li], a));
                } else {
                    assert(o.live@.contains(i) && Self::holds_addr(o.mem_regions@[i], a));
                }
            }
        }
    }

    /// Coverage is unchanged when region `ri` of `o`, which starts where
    /// region `li` ends, is folded into `li`.
    proof fn lemma_cover_merge(o: &TreeAllocator, f: &TreeAllocator, li: int, ri: int)
        requires
            o.inv(),
            o.live@.contains(li),
            o.live@.contains(ri),
            li != ri,
            f.live@ == o.live@.remove(ri),
            f.mem_regions@.len() == o.mem_regions@.len(),
            f.mem_regions@[li].start_addr == o.mem_regions@[li].start_addr,
            o.mem_regions@[ri].start_addr.0 == o.mem_regions@[li].start_addr.0 + o.mem_regions@[li].size,
            f.mem_regions@[li].size == o.mem_regions@[li].size + o.mem_regions@[ri].size,
            forall|j: int| 0 <= j < o.mem_regions@.len() && j != li && j != ri ==> #[trigger] f.mem_regions@[j] == o.mem_regions@[j],
        ensures
            f.same_cover(o),
    {
        assert forall|a: int| #[trigger] f.covers(a) == o.covers(a) by {
            if o.covers(a) {
                let i = choose|i: int| #[trigger] o.live@.contains(i) && Self::holds_addr(o.mem_regions@[i], a);
                if i == li || i == ri {
                    assert(f.live@.contains(li) && Self::holds_addr(f.mem_regions@[li], a));
                } else {
                    assert(f.live@.contains(i) && Self::holds_addr(f.mem_regions@[i], a));
                }
            }
            if f.covers(a) {
                let i = choose|i: int| #[trigger] f.live@.contains(i) && Self::holds_addr(f.mem_regions@[i], a);
                if i == li {
                    if a < o.mem_regions@[ri].start_addr.0 {
                        assert(o.live@.contains(li) && Self::holds_addr(o.mem_regions@[li], a));
                    } else {
                        assert(o.live@.contains(ri) && Self::holds_addr(o.mem_regions@[ri], a));
                    }
                } else {
                    assert(o.live@.contains(i) && Self::holds_addr(o.mem_regions@[i], a));
                }
            }
        }
    }

    /// Coverage is unchanged when the same slots hold regions with the same
    /// starts and sizes.
    proof fn lemma_cover_extent(o: &TreeAllocator, f: &TreeAllocator)
        requires
            f.live@ == o.live@,
            forall|j: int| #[trigger] o.live@.contains(j) ==> f.mem_regions@[j].start_addr == o.mem_regions@[j].start_addr
                && f.mem_regions@[j].size == o.mem_regions@[j].size,
        ensures
            f.same_cover(o),
    {
        assert forall|a: int| #[trigger] f.covers(a) == o.covers(a) by {
            if o.covers(a) {
                let i = choose|i: int| #[trigger] o.live@.contains(i) && Self::holds_addr(o.mem_regions@[i], a);
                assert(f.live@.contains(i) && Self::holds_addr(f.mem_regions@[i], a));
            }
            if f.covers(a) {
                let i = choose|i: int| #[trigger] f.live@.contains(i) && Self::holds_addr(f.mem_regions@[i], a);
                assert(o.live@.contains(i) && Self::holds_addr(o.mem_regions@[i], a));
            }
        }
    }

    /// Allocated regions carried over unchanged twice are carried over.
    proof fn lemma_from_trans(o: &TreeAllocator, m: &TreeAllocator, f: &TreeAllocator)
        requires
            m.allocated_from(o),
            f.allocated_from(m),
        ensures
            f.allocated_from(o),
    {
    }

    /// An allocation after operations that made no allocated region.
    proof fn lemma_from_but_trans(o: &TreeAllocator, m: &TreeAllocator, f: &TreeAllocator, a: int, n: int)
        requires
            m.allocated_from(o),
            f.allocated_from_but(m, a, n),
        ensures
            f.allocated_from_but(o, a, n),
    {
    }

    /// The bytes of `[a, a + n)` were free in `o` and are allocated here;
    /// every other byte is free, allocated or neither here just as in `o`.
    pub open spec fn took_bytes(&self, o: &TreeAllocator, a: int, n: int) -> bool {
        &&& forall|b: int| a <= b < a + n ==> #[trigger] o.free_byte(b) && self.alloc_byte(b)
        &&& forall|b: int| #![trigger self.free_byte(b)] #![trigger self.alloc_byte(b)]
            !(a <= b < a + n) ==> self.free_byte(b) == o.free_byte(b) && self.alloc_byte(b) == o.alloc_byte(b)
    }

    /// A fresh frame that kept the coverage and made no other allocated
    /// region took exactly its bytes from the free ones.
    proof fn lemma_took_bytes(o: &TreeAllocator, f: &TreeAllocator, a: usize, n: usize, owner: Owner)
        requires
            o.inv(),
            f.inv(),
            f.same_cover(o),
            f.keeps_allocated(o),
            f.allocated_from_but(o, a as int, n as int),
            f.fresh_frame(o, a, n, owner),
        ensures
            f.took_bytes(o, a as int, n as int),
    {
        let i = choose|i: int| #[trigger] f.live@.contains(i) && !(o.live@.contains(i) && !o.mem_regions@[i].is_free)
            && f.mem_regions@[i].start_addr.0 == a && f.mem_regions@[i].size == n
            && !f.mem_regions@[i].is_free && f.mem_regions@[i].owner == owner;
        assert forall|b: int| a <= b < a + n implies #[trigger] o.free_byte(b) && f.alloc_byte(b) by {
            assert(f.live@.contains(i) && !f.mem_regions@[i].is_free && Self::holds_addr(f.mem_regions@[i], b));
            assert(f.covers(b));
            assert(o.covers(b));
            let j = choose|j: int| #[trigger] o.live@.contains(j) && Self::holds_addr(o.mem_regions@[j], b);
            if !o.mem_regions@[j].is_free {
                assert(f.live@.contains(j) && f.mem_regions@[j] == o.mem_regions@[j]);
                assert(separate(f.mem_regions@[i], f.mem_regions@[j]));
            }
            assert(o.live@.contains(j) && o.mem_regions@[j].is_free && Self::holds_addr(o.mem_regions@[j], b));
        }
        Self::lemma_free_is_covered_not_alloc(o);
        Self::lemma_free_is_covered_not_alloc(f);
        assert forall|b: int| !(a <= b < a + n) implies #[trigger] f.free_byte(b) == o.free_byte(b)
            && f.alloc_byte(b) == o.alloc_byte(b) by {
            if o.alloc_byte(b) {
                let j = choose|j: int| #[trigger] o.live@.contains(j) && !o.mem_regions@[j].is_free && Self::holds_addr(o.mem_regions@[j], b);
                assert(f.live@.contains(j) && !f.mem_regions@[j].is_free && Self::holds_addr(f.mem_regions@[j], b));
            }
            if f.alloc_byte(b) {
                let j = choose|j: int| #[trigger] f.live@.contains(j) && !f.mem_regions@[j].is_free && Self::holds_addr(f.mem_regions@[j], b);
                assert(o.live@.contains(j) && !o.mem_regions@[j].is_free && Self::holds_addr(o.mem_regions@[j], b));
            }
            assert(f.covers(b) == o.covers(b));
        }
    }

    /// Two steps that each allocated at most the same frame allocated at
    /// most that frame.
    proof fn lemma_but_but_trans(o: &TreeAllocator, m: &TreeAllocator, f: &TreeAllocator, a: int, n: int)
        requires
            m.allocated_from_but(o, a, n),
            f.allocated_from_but(m, a, n),
        ensures
            f.allocated_from_but(o, a, n),
    {
    }

    /// The bytes of `[a, a + n)` were allocated in `o` and are free here;
    /// every other byte is free, allocated or neither here just as in `o`.
    pub open spec fn gave_bytes(&self, o: &TreeAllocator, a: int, n: int) -> bool {
        &&& forall|b: int| a <= b < a + n ==> #[trigger] o.alloc_byte(b) && self.free_byte(b) && !self.alloc_byte(b)
        &&& forall|b: int| #![trigger self.free_byte(b)] #![trigger self.alloc_byte(b)]
            !(a <= b < a + n) ==> self.free_byte(b) == o.free_byte(b) && self.alloc_byte(b) == o.alloc_byte(b)
    }

    /// Marking allocated region `i` free gives back exactly its bytes.
    proof fn lemma_gave_bytes(o: &TreeAllocator, f: &TreeAllocator, i: int)
        requires
            o.inv(),
            o.live@.contains(i),
            !o.mem_regions@[i].is_free,
            f.live@ == o.live@,
            f.mem_regions@.len() == o.mem_regions@.len(),
            f.mem_regions@[i].is_free,
            f.mem_regions@[i].start_addr == o.mem_regions@[i].start_addr,
            f.mem_regions@[i].size == o.mem_regions@[i].size,
            forall|j: int| 0 <= j < o.mem_regions@.len() && j != i ==> #[trigger] f.mem_regions@[j] == o.mem_regions@[j],
        ensures
            f.gave_bytes(o, o.mem_regions@[i].start_addr.0 as int, o.mem_regions@[i].size as int),
    {
        let ri = o.mem_regions@[i];
        assert forall|b: int| ri.start_addr.0 <= b < ri.start_addr.0 + ri.size implies #[trigger] o.alloc_byte(b)
            && f.free_byte(b) && !f.alloc_byte(b) by {
            assert(o.live@.contains(i) && !o.mem_regions@[i].is_free && Self::holds_addr(o.mem_regions@[i], b));
            assert(f.live@.contains(i) && f.mem_regions@[i].is_free && Self::holds_addr(f.mem_regions@[i], b));
            if f.alloc_byte(b) {
                let j = choose|j: int| #[trigger] f.live@.contains(j) && !f.mem_regions@[j].is_free && Self::holds_addr(f.mem_regions@[j], b);
                assert(separate(o.mem_regions@[i], o.mem_regions@[j]));
            }
        }
        assert forall|b: int| !(ri.start_addr.0 <= b < ri.start_addr.0 + ri.size) implies #[trigger] f.free_byte(b) == o.free_byte(b)
            && f.alloc_byte(b) == o.alloc_byte(b) by {
            if o.alloc_byte(b) {
                let j = choose|j: int| #[trigger] o.live@.contains(j) && !o.mem_regions@[j].is_free && Self::holds_addr(o.mem_regions@[j], b);
                assert(f.live@.contains(j) && !f.mem_regions@[j].is_free && Self::holds_addr(f.mem_regions@[j], b));
            }
            if f.alloc_byte(b) {
                let j = choose|j: int| #[trigger] f.live@.contains(j) && !f.mem_regions@[j].is_free && Self::holds_addr(f.mem_regions@[j], b);
                assert(o.live@.contains(j) && !o.mem_regions@[j].is_free && Self::holds_addr(o.mem_regions@[j], b));
            }
            if o.free_byte(b) {
                let j = choose|j: int| #[trigger] o.live@.contains(j) && o.mem_regions@[j].is_free && Self::holds_addr(o.mem_regions@[j], b);
                assert(f.live@.contains(j) && f.mem_regions@[j].is_free && Self::holds_addr(f.mem_regions@[j], b));
            }
            if f.free_byte(b) {
                let j = choose|j: int| #[trigger] f.live@.contains(j) && f.mem_regions@[j].is_free && Self::holds_addr(f.mem_regions@[j], b);
                assert(o.live@.contains(j) && o.mem_regions@[j].is_free && Self::holds_addr(o.mem_regions@[j], b));
            }
        }
    }

    /// Some free region owned by nobody holds byte `a`.
    pub closed spec fn free_nobody_byte(&self, a: int) -> bool {
        exists|i: int| #[trigger] self.live@.contains(i) && self.mem_regions@[i].is_free
            && self.mem_regions@[i].owner == Owner::Nobody && Self::holds_addr(self.mem_regions@[i], a)
    }

    /// Every byte that a free region owned by nobody held in `o` one still holds.
    pub open spec fn keeps_free_nobody(&self, o: &TreeAllocator) -> bool {
        forall|a: int| #[trigger] o.free_nobody_byte(a) ==> self.free_nobody_byte(a)
    }

    /// Folding region `ri` into region `li`, the result free and owned by
    /// nobody, keeps every byte of a free region owned by nobody in one.
    proof fn lemma_nobody_merge(o: &TreeAllocator, f: &TreeAllocator, li: int, ri: int)
        requires
            o.inv(),
            o.live@.contains(li),
            o.live@.contains(ri),
            li != ri,
            f.live@ == o.live@.remove(ri),
            f.mem_regions@.len() == o.mem_regions@.len(),
            0 <= li < o.mem_regions@.len(),
            f.mem_regions@[li].start_addr == o.mem_regions@[li].start_addr,
            o.mem_regions@[ri].start_addr.0 == o.mem_regions@[li].start_addr.0 + o.mem_regions@[li].size,
            f.mem_regions@[li].size == o.mem_regions@[li].size + o.mem_regions@[ri].size,
            f.mem_regions@[li].is_free,
            f.mem_regions@[li].owner == Owner::Nobody,
            forall|j: int| 0 <= j < o.mem_regions@.len() && j != li && j != ri ==> #[trigger] f.mem_regions@[j] == o.mem_regions@[j],
        ensures
            f.keeps_free_nobody(o),
    {
        assert forall|a: int| #[trigger] o.free_nobody_byte(a) implies f.free_nobody_byte(a) by {
            let i = choose|i: int| #[trigger] o.live@.contains(i) && o.mem_regions@[i].is_free
                && o.mem_regions@[i].owner == Owner::Nobody && Self::holds_addr(o.mem_regions@[i], a);
            if i == li || i == ri {
                assert(f.live@.contains(li) && Self::holds_addr(f.mem_regions@[li], a));
            } else {
                assert(f.live@.contains(i) && f.mem_regions@[i] == o.mem_regions@[i]);
            }
        }
    }

    /// With the same coverage and the same allocated regions, the same bytes
    /// are free and the same allocated.
    proof fn lemma_same_bytes(o: &TreeAllocator, f: &TreeAllocator)
        requires
            o.inv(),
            f.inv(),
            f.same_cover(o),
            f.keeps_allocated(o),
            f.allocated_from(o),
        ensures
            f.same_bytes(o),
    {
        assert forall|a: int| #[trigger] f.alloc_byte(a) == o.alloc_byte(a) by {
            if o.alloc_byte(a) {
                let i = choose|i: int| #[trigger] o.live@.contains(i) && !o.mem_regions@[i].is_free && Self::holds_addr(o.mem_regions@[i], a);
                assert(f.live@.contains(i) && !f.mem_regions@[i].is_free && Self::holds_addr(f.mem_regions@[i], a));
            }
            if f.alloc_byte(a) {
                let i = choose|i: int| #[trigger] f.live@.contains(i) && !f.mem_regions@[i].is_free && Self::holds_addr(f.mem_regions@[i], a);
                assert(o.live@.contains(i) && !o.mem_regions@[i].is_free && Self::holds_addr(o.mem_regions@[i], a));
            }
        }
        Self::lemma_free_is_covered_not_alloc(o);
        Self::lemma_free_is_covered_not_alloc(f);
        assert forall|a: int| #[trigger] f.free_byte(a) == o.free_byte(a) by {
            assert(f.covers(a) == o.covers(a));
            assert(f.alloc_byte(a) == o.alloc_byte(a));
        }
    }

    /// A byte is free exactly when some region holds it and no allocated
    /// region does.
    proof fn lemma_free_is_covered_not_alloc(t: &TreeAllocator)
        requires
            t.inv(),
        ensures
            forall|a: int| #[trigger] t.free_byte(a) == (t.covers(a) && !t.alloc_byte(a)),
    {
        assert forall|a: int| #[trigger] t.free_byte(a) == (t.covers(a) && !t.alloc_byte(a)) by {
            if t.free_byte(a) {
                let i = choose|i: int| #[trigger] t.live@.contains(i) && t.mem_regions@[i].is_free && Self::holds_addr(t.mem_regions@[i], a);
                assert(t.covers(a));
                if t.alloc_byte(a) {
                    let j = choose|j: int| #[trigger] t.live@.contains(j) && !t.mem_regions@[j].is_free && Self::holds_addr(t.mem_regions@[j], a);
                    assert(separate(t.mem_regions@[i], t.mem_regions@[j]));
                }
            }
            if t.covers(a) && !t.alloc_byte(a) {
                let i = choose|i: int| #[trigger] t.live@.contains(i) && Self::holds_addr(t.mem_regions@[i], a);
                assert(t.mem_regions@[i].is_free);
            }
        }
    }
}

impl TreeAllocator {
    /// Entry `k` of the by-address tree of state `free` is the one a search
    /// for `addr` finds, and it names region `i`.
    pub closed spec fn picked(&self, addr: int, free: bool, i: int) -> bool {
        if free {
            exists|k: int| #[trigger] picks(self.rb_addr_free.entries(), addr, k) && self.rb_addr_free.entries()[k].value == i
        } else {
            exists|k: int| #[trigger] picks(self.rb_addr_alloc.entries(), addr, k) && self.rb_addr_alloc.entries()[k].value == i
        }
    }

    /// Region `i` holds `addr`.
    pub open spec fn holds_addr(r: MemRegionDescr, addr: int) -> bool {
        r.start_addr.0 <= addr < r.start_addr.0 + r.size
    }

    /// Searches the regions of state `free` for the one holding `addr`
    /// (see `MemNode::contains_addr`).
    fn find_region_at(&self, addr: PhysAddr, free: bool) -> (r: Option<usize>)
        requires
            self.inv(),
        ensures
            match r {
                Some(i) => {
                    let ri = self.mem_regions@[i as int];
                    &&& self.picked(addr.0 as int, free, i as int)
                    &&& self.live@.contains(i as int)
                    &&& ri.is_free == free
                    &&& addr.0 <= ri.start_addr.0 + ri.size
                    &&& Self::holds_addr(ri, addr.0 as int) || forall|j: int| #[trigger] self.live@.contains(j)
                        && self.mem_regions@[j].is_free == free ==> !Self::holds_addr(self.mem_regions@[j], addr.0 as int)
                    &&& forall|j: int| #[trigger] self.live@.contains(j) && self.mem_regions@[j].is_free == free && j != i
                        ==> !Self::holds_addr(self.mem_regions@[j], addr.0 as int)
                },
                None => forall|j: int| #[trigger] self.live@.contains(j) && self.mem_regions@[j].is_free == free ==>
                    self.mem_regions@[j].start_addr.0 + self.mem_regions@[j].size < addr.0,
            },
    {
        let t = if free { &self.rb_addr_free } else { &self.rb_addr_alloc };
        let ghost tm = if free { self.rb_addr_free@ } else { self.rb_addr_alloc@ };
        proof { t.lemma_view(); }
        let containing = MemNode::new().contains_addr(t, addr);
        match containing {
            None => {
                proof {
                    assert forall|j: int| #[trigger] self.live@.contains(j) && self.mem_regions@[j].is_free == free implies
                        self.mem_regions@[j].start_addr.0 + self.mem_regions@[j].size < addr.0 by {
                        let rj = self.mem_regions@[j];
                        let k = key_of(rj, false);
                        assert(tm.contains_key(k));
                        assert(seq_has(t.entries(), k));
                        let q = choose|q: int| 0 <= q < t.entries().len() && #[trigger] t.entries()[q].key == k;
                        lemma_key_decode(rj.start_addr.0, rj.size);
                        assert(!key_reaches(t.entries()[q].key, addr.0 as int));
                    }
                }
                None
            },
            Some(node) => {
                let idx = node.value();
                proof {
                    let pick = choose|k: int| #[trigger] picks(t.entries(), addr.0 as int, k)
                        && t.entries()[k].key == node.key_spec() && t.entries()[k].value == node.value_spec();
                    let e = t.entries()[pick];
                    assert(tm.contains_key(e.key) && tm[e.key] == e);
                    let ri = self.mem_regions@[idx as int];
                    assert(self.live@.contains(idx as int) && ri.is_free == free && key_of(ri, false) == e.key);
                    lemma_key_decode(ri.start_addr.0, ri.size);
                    assert forall|j: int| #[trigger] self.live@.contains(j) && self.mem_regions@[j].is_free == free && j != idx implies
                        !Self::holds_addr(self.mem_regions@[j], addr.0 as int) by {
                        let rj = self.mem_regions@[j];
                        assert(separate(rj, ri));
                        if Self::holds_addr(rj, addr.0 as int) {
                            let k = key_of(rj, false);
                            assert(tm.contains_key(k));
                            let q = choose|q: int| 0 <= q < t.entries().len() && #[trigger] t.entries()[q].key == k;
                            lemma_key_decode(rj.start_addr.0, rj.size);
                            assert(key_holds(t.entries()[q].key, addr.0 as int));
                        }
                    }
                    if !Self::holds_addr(ri, addr.0 as int) {
                        assert forall|j: int| #[trigger] self.live@.contains(j) && self.mem_regions@[j].is_free == free implies
                            !Self::holds_addr(self.mem_regions@[j], addr.0 as int) by {
                            let rj = self.mem_regions@[j];
                            if Self::holds_addr(rj, addr.0 as int) {
                                let k = key_of(rj, false);
                                assert(tm.contains_key(k));
                                let q = choose|q: int| 0 <= q < t.entries().len() && #[trigger] t.entries()[q].key == k;
                                lemma_key_decode(rj.start_addr.0, rj.size);
                                assert(key_holds(t.entries()[q].key, addr.0 as int));
                            }
                        }
                    }
                }
                Some(idx)
            },
        }
    }
}

impl TreeAllocator {
    /// Allocates the frame of `size` bytes at `phys_addr` to `owner`: after
    /// merging touching free regions, the free region that holds the address
    /// is split so that the frame becomes a region of its own, which is
    /// allocated. Returns `phys_addr`; none when no free region holds the
    /// whole frame or no slot is left for a split. Address and size are whole
    /// pages of `page_size`.
    #[verifier::spinoff_prover]
    #[verifier::rlimit(50)]
    pub fn alloc_frame_fixed(&mut self, phys_addr: PhysAddr, size: usize, owner: Owner, page_size: PageSize) -> (r: Option<PhysAddr>)
        requires
            old(self).inv(),
            size > 0,
            phys_addr.0 % page_size.size() == 0,
            size % page_size.size() == 0,
            size + page_size.size() - 1 <= usize::MAX,
        ensures
            final(self).inv(),
            final(self).free_sizes() == old(self).free_sizes() - (if r is Some { size as int } else { 0 }),
            final(self).keeps_setup(old(self)),
            final(self).keeps_allocated(old(self)),
            match r {
                Some(a) => a == phys_addr && final(self).fresh_frame(old(self), phys_addr.0, size, owner)
                    && final(self).took_bytes(old(self), phys_addr.0 as int, size as int),
                None => !final(self).free_region_holds(phys_addr.0 as int, size as int) || final(self).no_slot_free(),
            },
    {
        let ps = page_size.into_bits();
        proof {
            lemma_sizes_are_pow2();
            lemma_page_sizes(page_size);
        }
        let aligned_size = align_up(size, ps);
        proof { lemma_round_mult(size as int, aligned_size as int, ps as int); }
        let size_in_pages = calc_pages_reqd(aligned_size, page_size);
        proof { lemma_pages_exact(size as int, ps as int); }
        let size_in_bytes = pages_to_bytes(size_in_pages, page_size);
        assert(size_in_bytes == size);
        proof {
            lemma_mult_4k(size as int, ps as int);
            lemma_mult_4k(phys_addr.0 as int, ps as int);
        }
        self.coalesce_free_space();
        let ghost s1 = *self;
        if self.rb_addr_free.size() == 0 {
            proof {
                self.rb_addr_free.lemma_view();
                assert(!self.free_region_holds(phys_addr.0 as int, size as int)) by {
                    if self.free_region_holds(phys_addr.0 as int, size as int) {
                        let i = choose|i: int| #[trigger] self.live@.contains(i) && self.mem_regions@[i].is_free
                            && self.mem_regions@[i].start_addr.0 <= phys_addr.0
                            && phys_addr.0 + size <= self.mem_regions@[i].start_addr.0 + self.mem_regions@[i].size;
                        assert(self.rb_addr_free@.contains_key(key_of(self.mem_regions@[i], false)));
                        assert(seq_has(self.rb_addr_free.entries(), key_of(self.mem_regions@[i], false)));
                    }
                }
            }
            return None;
        }
        let idx = match self.find_region_at(phys_addr, true) {
            None => {
                proof {
                    assert(!self.free_region_holds(phys_addr.0 as int, size as int)) by {
                        if self.free_region_holds(phys_addr.0 as int, size as int) {
                            let i = choose|i: int| #[trigger] self.live@.contains(i) && self.mem_regions@[i].is_free
                                && self.mem_regions@[i].start_addr.0 <= phys_addr.0
                                && phys_addr.0 + size <= self.mem_regions@[i].start_addr.0 + self.mem_regions@[i].size;
                        }
                    }
                }
                return None;
            },
            Some(i) => i,
        };
        let region = self.mem_regions[idx];
        proof {
            assert(!self.free_region_holds(phys_addr.0 as int, size as int)
                || (Self::holds_addr(region, phys_addr.0 as int) && phys_addr.0 + size <= region.start_addr.0 + region.size)) by {
                if self.free_region_holds(phys_addr.0 as int, size as int) {
                    let i = choose|i: int| #[trigger] self.live@.contains(i) && self.mem_regions@[i].is_free
                        && self.mem_regions@[i].start_addr.0 <= phys_addr.0
                        && phys_addr.0 + size <= self.mem_regions@[i].start_addr.0 + self.mem_regions@[i].size;
                    assert(Self::holds_addr(self.mem_regions@[i], phys_addr.0 as int));
                }
            }
        }
        if phys_addr.0 < region.start_addr.0 {
            return None;
        }
        let offset = phys_addr.0 - region.start_addr.0;
        if region.size - offset < size_in_bytes {
            return None;
        }
        proof {
            lemma_sub_4k(phys_addr.0 as int, region.start_addr.0 as int);
            Self::lemma_not_allocated_before(&s1, old(self), idx as int);
        }
        if offset == 0 {
            if region.size - size_in_bytes > 0 {
                proof {
                    assert forall|la: int| #[trigger] rounds_to(size_in_bytes, la) implies la <= region.size by {
                        lemma_round_exact(size_in_bytes, la);
                    }
                }
                match self.split_free_region(idx, size_in_bytes) {
                    Some((left, _right)) => {
                        let ghost s2 = *self;
                        proof { lemma_round_exact(size_in_bytes, self.mem_regions@[left as int].size as int); }
                        self.mark_region_allocated(left, owner);
                        proof {
                            Self::lemma_keeps_trans(old(self), &s1, &s2);
                            Self::lemma_keeps_trans(old(self), &s2, self);
                            Self::lemma_from_trans(old(self), &s1, &s2);
                            Self::lemma_from_but_trans(old(self), &s2, self, phys_addr.0 as int, size as int);
                        }
                    },
                    None => {
                        return None;
                    },
                }
            } else {
                self.mark_region_allocated(idx, owner);
                proof {
                    Self::lemma_keeps_trans(old(self), &s1, self);
                    Self::lemma_from_but_trans(old(self), &s1, self, phys_addr.0 as int, size as int);
                }
            }
            let ghost s3 = *self;
            self.mark_region_allocated(idx, owner);
            proof {
                Self::lemma_keeps_trans(old(self), &s3, self);
                assert(self.live@.contains(idx as int));
                Self::lemma_but_but_trans(old(self), &s3, self, phys_addr.0 as int, size as int);
                Self::lemma_took_bytes(old(self), self, phys_addr.0, size, owner);
            }
            Some(phys_addr)
        } else {
            proof { Self::lemma_keeps_trans(old(self), &s1, self); }
            if self.alloc_at_offset(idx, offset, size_in_bytes, owner, Ghost(*old(self))) {
                proof {
                    Self::lemma_from_but_trans(old(self), &s1, self, phys_addr.0 as int, size as int);
                    Self::lemma_took_bytes(old(self), self, phys_addr.0, size, owner);
                }
                Some(phys_addr)
            } else {
                None
            }
        }
    }

    /// The part of a fixed allocation inside free region `idx` that starts
    /// `offset` bytes in: a slot is first taken and kept in reserve, then the
    /// region is split at the offset and the right
    /// part split again after `bytes`; the frame is allocated. False when no
    /// slot is left.
    fn alloc_at_offset(&mut self, idx: usize, offset: usize, bytes: usize, owner: Owner, Ghost(o): Ghost<TreeAllocator>) -> (ok: bool)
        requires
            old(self).inv(),
            old(self).live@.contains(idx as int),
            old(self).mem_regions@[idx as int].is_free,
            offset > 0,
            offset % 4096 == 0,
            bytes > 0,
            bytes % 4096 == 0,
            offset + bytes <= old(self).mem_regions@[idx as int].size,
            old(self).keeps_allocated(&o),
        ensures
            final(self).inv(),
            final(self).keeps_setup(old(self)),
            final(self).keeps_allocated(&o),
            ok ==> final(self).fresh_frame(&o, (old(self).mem_regions@[idx as int].start_addr.0 + offset) as usize, bytes, owner),
            final(self).free_sizes() == old(self).free_sizes() - (if ok { bytes as int } else { 0 }),
            !ok ==> final(self).no_slot_free(),
            final(self).same_cover(old(self)),
            ok ==> final(self).allocated_from_but(old(self), old(self).mem_regions@[idx as int].start_addr.0 + offset, bytes as int),
            !ok ==> final(self).allocated_from(old(self)),
    {
        let ghost s0 = *self;
        let new_region = self.alloc_internal_slot();
        if new_region.is_none() {
            return false;
        }
        let ghost s1 = *self;
        proof {
            lemma_trunks_frame(&s0, self, self.live@);
            assert forall|la: int| #[trigger] rounds_to(offset, la) implies la <= self.mem_regions@[idx as int].size by {
                lemma_round_mult(offset as int, la, 4096);
            }
        }
        match self.split_free_region(idx, offset) {
            Some((_left, right)) => {
                let ghost s2 = *self;
                proof {
                    lemma_round_mult(offset as int, self.mem_regions@[idx as int].size as int, 4096);
                    Self::lemma_not_allocated_before(&s1, &o, right as int);
                    Self::lemma_keeps_trans(&o, &s0, &s1);
                }
                let new_region_size = self.mem_regions[right].size;
                if new_region_size - bytes > 0 {
                    proof {
                        assert forall|la: int| #[trigger] rounds_to(bytes, la) implies la <= new_region_size by {
                            lemma_round_exact(bytes, la);
                        }
                    }
                    match self.split_free_region(right, bytes) {
                        Some((left2, _right2)) => {
                            let ghost s3 = *self;
                            proof { lemma_round_exact(bytes, self.mem_regions@[left2 as int].size as int); }
                            self.mark_region_allocated(left2, owner);
                            proof {
                                Self::lemma_keeps_trans(&o, &s1, &s2);
                                Self::lemma_keeps_trans(&o, &s2, &s3);
                                Self::lemma_keeps_trans(&o, &s3, self);
                                assert(self.live@.contains(right as int));
                            }
                            true
                        },
                        None => false,
                    }
                } else {
                    self.mark_region_allocated(right, owner);
                    proof {
                        Self::lemma_keeps_trans(&o, &s1, &s2);
                        Self::lemma_keeps_trans(&o, &s2, self);
                        assert(self.live@.contains(right as int));
                    }
                    true
                }
            },
            None => false,
        }
    }
}

/// `a` is a multiple of `m`.
pub open spec fn is_mult(a: int, m: int) -> bool {
    a % m == 0
}

/// Region `r` holds `n` bytes from some multiple of `m`.
pub open spec fn hosts(r: MemRegionDescr, m: int, n: int) -> bool {
    exists|a: int| #[trigger] is_mult(a, m) && r.start_addr.0 <= a && a + n <= r.start_addr.0 + r.size
}

/// The smallest multiple of `m` at or above `x`.
pub open spec fn ceil_mult(x: int, m: int) -> int {
    ((x + m - 1) / m) * m
}

/// The smallest multiple of `m` at or above `x` is less than `m` above it.
pub proof fn lemma_ceil_basic(x: int, m: int)
    requires
        m > 0,
        x >= 0,
    ensures
        x <= ceil_mult(x, m) < x + m,
        ceil_mult(x, m) % m == 0,
{
    lemma_fundamental_div_mod(x + m - 1, m);
    let qc = (x + m - 1) / m;
    assert(qc * m == m * qc) by (nonlinear_arith);
    assert(x <= qc * m < x + m) by (nonlinear_arith)
        requires x + m - 1 == m * qc + (x + m - 1) % m, 0 <= (x + m - 1) % m < m;
    lemma_mod_multiples_basic(qc, m);
}

/// Every multiple of `m` at or above `x` is at or above the smallest one.
pub proof fn lemma_ceil_min(x: int, m: int, a: int)
    requires
        m > 0,
        x >= 0,
        a % m == 0,
        a >= x,
    ensures
        ceil_mult(x, m) <= a,
{
    lemma_fundamental_div_mod(a, m);
    let qa = a / m;
    assert(a + m - 1 == qa * m + (m - 1)) by (nonlinear_arith)
        requires a == m * qa;
    lemma_fundamental_div_mod_converse(a + m - 1, m, qa, m - 1);
    lemma_div_is_ordered(x + m - 1, a + m - 1, m);
    let qc = (x + m - 1) / m;
    assert(qc * m <= qa * m) by (nonlinear_arith)
        requires qc <= qa, m > 0;
    assert(qa * m == a) by (nonlinear_arith)
        requires a == m * qa;
}

/// A by-size key is the size above the start.
proof fn lemma_size_key_value(st: usize, z: usize)
    ensures
        size_key_of(st, z) as int == z as int * 0x1_0000_0000_0000_0000 + st as int,
{
    let c: int = 0x1_0000_0000_0000_0000;
    assert(0 <= z as int * c + st as int <= u128::MAX) by (nonlinear_arith)
        requires 0 <= st < c, 0 <= z < c, c == 0x1_0000_0000_0000_0000int;
}

/// By-size keys order regions by size, then by start.
proof fn lemma_size_key_order(s1: usize, z1: usize, s2: usize, z2: usize)
    ensures
        size_key_of(s1, z1) <= size_key_of(s2, z2) ==> z1 < z2 || (z1 == z2 && s1 <= s2),
{
    lemma_size_key_value(s1, z1);
    lemma_size_key_value(s2, z2);
    let c: int = 0x1_0000_0000_0000_0000;
    assert(z1 * c + s1 <= z2 * c + s2 ==> z1 < z2 || (z1 == z2 && s1 <= s2)) by (nonlinear_arith)
        requires 0 <= s1 < c, 0 <= s2 < c, c == 0x1_0000_0000_0000_0000int;
}

/// Region `j` of `c` is the best fit for `n` bytes from a multiple of `m`:
/// a free region that holds such a frame, and no free region that holds
/// one is smaller than it, or as large and lower.
pub open spec fn best_fit(c: TreeAllocator, j: int, m: int, n: int) -> bool {
    &&& c.live().contains(j)
    &&& c.regions()[j].is_free
    &&& hosts(c.regions()[j], m, n)
    &&& forall|k: int| #[trigger] c.live().contains(k) && c.regions()[k].is_free && hosts(c.regions()[k], m, n) ==>
        c.regions()[j].size < c.regions()[k].size
        || (c.regions()[j].size == c.regions()[k].size && c.regions()[j].start_addr.0 <= c.regions()[k].start_addr.0)
}

impl TreeAllocator {
    /// The region under by-size key `ck` is the best fit when no region
    /// under a key from `n` bytes up to `ck` holds such a frame.
    proof fn lemma_best_fit(c: &TreeAllocator, ck: u128, m: int, n: usize)
        requires
            c.inv(),
            c.rb_size_free@.contains_key(ck),
            n as int * 0x1_0000_0000_0000_0000int <= ck,
            forall|k: u128| #[trigger] c.rb_size_free@.contains_key(k) && n as int * 0x1_0000_0000_0000_0000int <= k && k < ck ==>
                !hosts(c.mem_regions@[c.rb_size_free@[k].value as int], m, n as int),
            hosts(c.mem_regions@[c.rb_size_free@[ck].value as int], m, n as int),
        ensures
            best_fit(*c, c.rb_size_free@[ck].value as int, m, n as int),
    {
        let j = c.rb_size_free@[ck].value as int;
        let rj = c.mem_regions@[j];
        assert(c.live@.contains(j) && rj.is_free && key_of(rj, true) == ck);
        assert forall|k: int| #[trigger] c.live().contains(k) && c.regions()[k].is_free && hosts(c.regions()[k], m, n as int) implies
            c.regions()[j].size < c.regions()[k].size
            || (c.regions()[j].size == c.regions()[k].size && c.regions()[j].start_addr.0 <= c.regions()[k].start_addr.0) by {
            let rk = c.mem_regions@[k];
            let kk = key_of(rk, true);
            assert(c.rb_size_free@.contains_key(kk) && c.rb_size_free@[kk].value == k);
            lemma_size_key_value(rk.start_addr.0, rk.size);
            lemma_size_key_order(rj.start_addr.0, rj.size, rk.start_addr.0, rk.size);
            if kk < ck {
                if n as int * 0x1_0000_0000_0000_0000int <= kk {
                    assert(!hosts(c.mem_regions@[k], m, n as int));
                } else {
                    let cc: int = 0x1_0000_0000_0000_0000;
                    assert(rk.size < n) by (nonlinear_arith)
                        requires rk.size * cc + rk.start_addr.0 < n * cc, 0 <= rk.start_addr.0, cc > 0;
                    let a = choose|a: int| #[trigger] is_mult(a, m) && rk.start_addr.0 <= a && a + n <= rk.start_addr.0 + rk.size;
                }
            }
        }
    }
}

impl TreeAllocator {
    /// Some free region holds `n` bytes from a multiple of `m`.
    pub closed spec fn free_region_hosts(&self, m: int, n: int) -> bool {
        exists|i: int| #[trigger] self.live@.contains(i) && self.mem_regions@[i].is_free && hosts(self.mem_regions@[i], m, n)
    }

    /// Allocates `size` bytes aligned to `page_size` to `owner`: free regions
    /// are tried from the smallest large enough upward; the first that holds
    /// such an aligned frame is split around it as needed and the frame
    /// allocated. Larger-than-default pages first merge touching free
    /// regions. None when no free region holds such a frame, or no slot is
    /// left for a split.
    #[verifier::spinoff_prover]
    #[verifier::rlimit(50)]
    pub fn alloc_frame(&mut self, size: usize, page_size: PageSize, owner: Owner) -> (r: Option<PhysAddr>)
        requires
            old(self).inv(),
            size > 0,
            size % page_size.size() == 0,
            size + page_size.size() - 1 <= usize::MAX,
        ensures
            final(self).inv(),
            final(self).free_sizes() == old(self).free_sizes() - (if r is Some { size as int } else { 0 }),
            final(self).keeps_setup(old(self)),
            final(self).keeps_allocated(old(self)),
            match r {
                Some(a) => {
                    &&& a.0 % page_size.size() == 0
                    &&& final(self).fresh_frame(old(self), a.0, size, owner)
                    &&& final(self).took_bytes(old(self), a.0 as int, size as int)
                    &&& exists|c: TreeAllocator, j: int| #[trigger] best_fit(c, j, page_size.size() as int, size as int)
                        && c.same_bytes(old(self)) && (page_size.size() == 4096 ==> c == *old(self))
                        && a.0 == ceil_mult(c.regions()[j].start_addr.0 as int, page_size.size() as int)
                },
                None => !final(self).free_region_hosts(page_size.size() as int, size as int) || final(self).no_slot_free(),
            },
    {
        let ps = page_size.into_bits();
        proof {
            lemma_sizes_are_pow2();
            lemma_page_sizes(page_size);
            lemma_mult_4k(size as int, ps as int);
        }
        if ps > MEMORY_DEFAULT_PAGE_USIZE {
            self.coalesce_free_space();
        }
        let ghost s1 = *self;
        proof {
            if ps <= MEMORY_DEFAULT_PAGE_USIZE {
                assert(s1.same_bytes(old(self)));
            }
        }
        let aligned_size = align_up(size, ps);
        proof { lemma_round_mult(size as int, aligned_size as int, ps as int); }
        let size_key = make128(aligned_size, 0);
        proof { lemma_key_fits(aligned_size, 0); }
        let mut comp = self.rb_size_free.ceiling_node(size_key);
        loop
            invariant
                *self == s1,
                s1.inv(),
                s1.keeps_setup(old(self)),
                s1.keeps_allocated(old(self)),
                s1.allocated_from(old(self)),
                s1.same_cover(old(self)),
                s1.same_bytes(old(self)),
                ps == 4096 ==> s1 == *old(self),
                old(self).inv(),
                s1.free_sizes() == old(self).free_sizes(),
                aligned_size == size,
                size > 0,
                size % 4096 == 0,
                size % ps == 0,
                ps == page_size.size(),
                ps % 4096 == 0,
                ps >= 4096,
                size_key == size * 0x1_0000_0000_0000_0000int,
                match comp {
                    Some(c) => self.rb_size_free@.contains_key(c.key) && self.rb_size_free@[c.key] == c && size_key <= c.key
                        && forall|k: u128| #[trigger] self.rb_size_free@.contains_key(k) && size_key <= k && k < c.key ==>
                            !hosts(self.mem_regions@[self.rb_size_free@[k].value as int], ps as int, size as int),
                    None => forall|k: u128| #[trigger] self.rb_size_free@.contains_key(k) && size_key <= k ==>
                            !hosts(self.mem_regions@[self.rb_size_free@[k].value as int], ps as int, size as int),
                },
            ensures
                *self == s1,
                comp.is_none(),
                forall|k: u128| #[trigger] self.rb_size_free@.contains_key(k) && size_key <= k ==>
                    !hosts(self.mem_regions@[self.rb_size_free@[k].value as int], ps as int, size as int),
            decreases
                match comp { Some(c) => u128::MAX - c.key + 1, None => 0 },
        {
            let c = match comp {
                Some(c) => c,
                None => { break; },
            };
            let block_idx = c.value;
            let block = self.mem_regions[block_idx];
            proof {
                let k = c.key;
                assert(self.live@.contains(block_idx as int) && block.is_free && key_of(block, true) == k);
                lemma_addr_key_order(block.size, block.start_addr.0, aligned_size, 0);
                lemma_addr_key_order(aligned_size, 0, block.size, block.start_addr.0);
                lemma_addr_key_order(block.size, block.start_addr.0, block.size, block.start_addr.0);
                lemma_key_decode(block.size, block.start_addr.0);
            }
            let addr = lo64(c.key) as usize;
            let sz = hi64(c.key) as usize;
            if addr % ps == 0 && sz >= aligned_size {
                proof {
                    assert(is_mult(addr as int, ps as int));
                    assert(hosts(block, ps as int, size as int));
                    Self::lemma_best_fit(&s1, c.key, ps as int, size);
                    lemma_ceil_basic(addr as int, ps as int);
                    lemma_ceil_min(addr as int, ps as int, addr as int);
                }
                let r = self.alloc_in_block(block_idx, 0, aligned_size, page_size, owner, Ghost(*old(self)));
                proof {
                    assert(best_fit(s1, block_idx as int, ps as int, size as int));
                    if let Some(a) = r {
                        assert(a.0 == ceil_mult(s1.regions()[block_idx as int].start_addr.0 as int, ps as int));
                        assert(best_fit(s1, block_idx as int, ps as int, size as int) && s1.same_bytes(old(self))
                            && (ps == 4096 ==> s1 == *old(self))
                            && a.0 == ceil_mult(s1.regions()[block_idx as int].start_addr.0 as int, ps as int));
                        Self::lemma_from_but_trans(old(self), &s1, self, a.0 as int, size as int);
                        Self::lemma_took_bytes(old(self), self, a.0, size, owner);
                    }
                }
                return r;
            }
            let q: u128 = (addr as u128 + ps as u128 - 1) / ps as u128;
            proof {
                lemma_ceil_basic(addr as int, ps as int);
                assert(q * ps == ceil_mult(addr as int, ps as int));
            }
            let aligned_addr: u128 = q * ps as u128;
            if aligned_addr + (aligned_size as u128) <= (addr as u128) + (sz as u128) {
                let diff = (aligned_addr - addr as u128) as usize;
                proof {
                    lemma_mult_4k(aligned_addr as int, ps as int);
                    lemma_sub_4k(aligned_addr as int, addr as int);
                }
                proof {
                    assert(is_mult(aligned_addr as int, ps as int));
                    assert(hosts(block, ps as int, size as int));
                    Self::lemma_best_fit(&s1, c.key, ps as int, size);
                }
                let r = self.alloc_in_block(block_idx, diff, aligned_size, page_size, owner, Ghost(*old(self)));
                proof {
                    assert(best_fit(s1, block_idx as int, ps as int, size as int));
                    if let Some(a) = r {
                        assert(a.0 == ceil_mult(s1.regions()[block_idx as int].start_addr.0 as int, ps as int));
                        assert(best_fit(s1, block_idx as int, ps as int, size as int) && s1.same_bytes(old(self))
                            && (ps == 4096 ==> s1 == *old(self))
                            && a.0 == ceil_mult(s1.regions()[block_idx as int].start_addr.0 as int, ps as int));
                        Self::lemma_from_but_trans(old(self), &s1, self, a.0 as int, size as int);
                        Self::lemma_took_bytes(old(self), self, a.0, size, owner);
                    }
                }
                return r;
            }
            proof {
                assert(!hosts(block, ps as int, size as int)) by {
                    if hosts(block, ps as int, size as int) {
                        let a = choose|a: int| #[trigger] is_mult(a, ps as int) && block.start_addr.0 <= a && a + size <= block.start_addr.0 + block.size;
                        lemma_ceil_min(addr as int, ps as int, a);
                    }
                }
                lemma_addr_key_order(block.size, block.start_addr.0, block.size, block.start_addr.0);
            }
            comp = self.rb_size_free.ceiling_node(c.key + 1);
        }
        proof {
            assert(!self.free_region_hosts(ps as int, size as int)) by {
                if self.free_region_hosts(ps as int, size as int) {
                    let i = choose|i: int| #[trigger] self.live@.contains(i) && self.mem_regions@[i].is_free && hosts(self.mem_regions@[i], ps as int, size as int);
                    let ri = self.mem_regions@[i];
                    let k = key_of(ri, true);
                    assert(self.rb_size_free@.contains_key(k));
                    lemma_addr_key_order(ri.size, ri.start_addr.0, aligned_size, 0);
                    if k < size_key {
                        let a = choose|a: int| #[trigger] is_mult(a, ps as int) && ri.start_addr.0 <= a && a + size <= ri.start_addr.0 + ri.size;
                    }
                }
            }
        }
        None
    }

    /// Allocates `size` bytes at `offset` bytes into free block `block_idx`
    /// (a whole number of pages), splitting off what lies before and after.
    fn alloc_in_block(&mut self, block_idx: usize, offset: usize, size: usize, page_size: PageSize, owner: Owner,
        Ghost(o): Ghost<TreeAllocator>) -> (r: Option<PhysAddr>)
        requires
            old(self).inv(),
            old(self).live@.contains(block_idx as int),
            old(self).mem_regions@[block_idx as int].is_free,
            offset % 4096 == 0,
            size > 0,
            size % 4096 == 0,
            offset + size <= old(self).mem_regions@[block_idx as int].size,
            (old(self).mem_regions@[block_idx as int].start_addr.0 + offset) % (page_size.size() as int) == 0,
            old(self).keeps_allocated(&o),
            o.keeps_setup(&o),
        ensures
            final(self).inv(),
            final(self).keeps_setup(old(self)),
            final(self).keeps_allocated(&o),
            final(self).same_cover(old(self)),
            match r {
                Some(a) => a.0 % page_size.size() == 0 && final(self).fresh_frame(&o, a.0, size, owner)
                    && final(self).allocated_from_but(old(self), a.0 as int, size as int)
                    && a.0 == old(self).mem_regions@[block_idx as int].start_addr.0 + offset,
                None => final(self).no_slot_free() && final(self).allocated_from(old(self)),
            },
            final(self).free_sizes() == old(self).free_sizes() - (if r is Some { size as int } else { 0 }),
    {
        let block = self.mem_regions[block_idx];
        let ghost s0 = *self;
        proof { Self::lemma_not_allocated_before(&s0, &o, block_idx as int); }
        if offset == 0 {
            if block.size == size {
                self.mark_region_allocated(block_idx, owner);
                proof {
                    Self::lemma_keeps_trans(&o, &s0, self);
                    assert(self.live@.contains(block_idx as int));
                }
                Some(self.mem_regions[block_idx].start_addr)
            } else {
                proof {
                    assert forall|la: int| #[trigger] rounds_to(size, la) implies la <= block.size by {
                        lemma_round_exact(size, la);
                    }
                }
                match self.split_free_region(block_idx, size) {
                    Some((left, _right)) => {
                        let ghost s2 = *self;
                        proof { lemma_round_exact(size, self.mem_regions@[left as int].size as int); }
                        self.mark_region_allocated(left, owner);
                        proof {
                            Self::lemma_keeps_trans(&o, &s0, &s2);
                            Self::lemma_keeps_trans(&o, &s2, self);
                            assert(self.live@.contains(left as int));
                        }
                        Some(self.mem_regions[left].start_addr)
                    },
                    None => None,
                }
            }
        } else {
            proof {
                assert forall|la: int| #[trigger] rounds_to(offset, la) implies la <= block.size by {
                    lemma_round_mult(offset as int, la, 4096);
                }
            }
            match self.split_free_region(block_idx, offset) {
                Some((_left, right)) => {
                    let ghost s2 = *self;
                    proof {
                        lemma_round_mult(offset as int, self.mem_regions@[block_idx as int].size as int, 4096);
                        Self::lemma_not_allocated_before(&s0, &o, right as int);
                        Self::lemma_keeps_trans(&o, &s0, &s2);
                    }
                    if self.mem_regions[right].size - size > 0 {
                        proof {
                            assert forall|la: int| #[trigger] rounds_to(size, la) implies la <= self.mem_regions@[right as int].size by {
                                lemma_round_exact(size, la);
                            }
                        }
                        match self.split_free_region(right, size) {
                            Some((left2, _right2)) => {
                                let ghost s3 = *self;
                                proof { lemma_round_exact(size, self.mem_regions@[left2 as int].size as int); }
                                self.mark_region_allocated(left2, owner);
                                proof {
                                    Self::lemma_keeps_trans(&o, &s2, &s3);
                                    Self::lemma_keeps_trans(&o, &s3, self);
                                    assert(self.live@.contains(right as int));
                                }
                                Some(self.mem_regions[left2].start_addr)
                            },
                            None => None,
                        }
                    } else {
                        self.mark_region_allocated(right, owner);
                        proof {
                            Self::lemma_keeps_trans(&o, &s2, self);
                            assert(self.live@.contains(right as int));
                        }
                        Some(self.mem_regions[right].start_addr)
                    }
                },
                None => None,
            }
        }
    }
}

/// The search finds one entry at most.
pub proof fn lemma_picks_unique(s: Seq<RBNode>, a: int, k1: int, k2: int)
    requires
        picks(s, a, k1),
        picks(s, a, k2),
    ensures
        k1 == k2,
{
}

/// The sum of the sizes the by-size keys of `s` carry.
pub open spec fn sizes_sum(s: Seq<RBNode>) -> int
    decreases s.len(),
{
    if s.len() == 0 {
        0
    } else {
        sizes_sum(s.drop_last()) + (hi64_spec(s.last().key) as usize)
    }
}

/// Inserting an entry adds its size to the sum.
proof fn lemma_sizes_sum_insert(s: Seq<RBNode>, p: int, x: RBNode)
    requires
        0 <= p <= s.len(),
    ensures
        sizes_sum(s.insert(p, x)) == sizes_sum(s) + (hi64_spec(x.key) as usize),
    decreases s.len(),
{
    if p == s.len() {
        assert(s.insert(p, x).drop_last() =~= s);
    } else {
        lemma_sizes_sum_insert(s.drop_last(), p, x);
        assert(s.insert(p, x).drop_last() =~= s.drop_last().insert(p, x));
    }
}

/// Removing an entry takes its size off the sum.
proof fn lemma_sizes_sum_remove(s: Seq<RBNode>, p: int)
    requires
        0 <= p < s.len(),
    ensures
        sizes_sum(s.remove(p)) == sizes_sum(s) - (hi64_spec(s[p].key) as usize),
{
    lemma_sizes_sum_insert(s.remove(p), p, s[p]);
    assert(s.remove(p).insert(p, s[p]) =~= s);
}

impl TreeAllocator {
    /// The allocated region a search for `addr` finds, when there is one.
    pub closed spec fn picked_region(&self, addr: int) -> int {
        choose|i: int| self.picked(addr, false, i)
    }

    /// A search for `addr` among the allocated regions finds one, and
    /// `owner` owns it.
    pub closed spec fn deallocatable(&self, addr: int, owner: Owner) -> bool {
        &&& exists|i: int| self.picked(addr, false, i)
        &&& self.mem_regions@[self.picked_region(addr)].owner == owner
    }

    /// Whether `dealloc_frame(page_base, owner)` may be called: a search for
    /// `page_base` among the allocated regions finds one, and `owner` owns it.
    pub fn is_deallocatable(&self, page_base: PhysAddr, owner: Owner) -> (r: bool)
        requires
            self.inv(),
        ensures
            r == self.deallocatable(page_base.0 as int, owner),
    {
        match self.find_region_at(page_base, false) {
            None => {
                proof {
                    if exists|i: int| self.picked(page_base.0 as int, false, i) {
                        let pi = choose|i: int| self.picked(page_base.0 as int, false, i);
                        let k = choose|k: int| #[trigger] picks(self.rb_addr_alloc.entries(), page_base.0 as int, k)
                            && self.rb_addr_alloc.entries()[k].value == pi;
                        let e = self.rb_addr_alloc.entries()[k];
                        self.rb_addr_alloc.lemma_view();
                        assert(self.rb_addr_alloc@.contains_key(e.key) && self.rb_addr_alloc@[e.key] == e);
                        let rj = self.mem_regions@[e.value as int];
                        lemma_key_decode(rj.start_addr.0, rj.size);
                        assert(self.live@.contains(e.value as int));
                    }
                }
                false
            },
            Some(i) => {
                proof {
                    let pi = self.picked_region(page_base.0 as int);
                    assert(self.picked(page_base.0 as int, false, i as int));
                    let k1 = choose|k: int| #[trigger] picks(self.rb_addr_alloc.entries(), page_base.0 as int, k)
                        && self.rb_addr_alloc.entries()[k].value == pi;
                    let k2 = choose|k: int| #[trigger] picks(self.rb_addr_alloc.entries(), page_base.0 as int, k)
                        && self.rb_addr_alloc.entries()[k].value == i;
                    lemma_picks_unique(self.rb_addr_alloc.entries(), page_base.0 as int, k1, k2);
                }
                self.mem_regions[i].owner == owner
            },
        }
    }

    /// Frees the allocated frame that holds `page_base` (the region a search
    /// for it finds, which `owner` must own): the region becomes free and its
    /// pages are marked free; every interval of frees merges touching free
    /// regions.
    pub fn dealloc_frame(&mut self, page_base: PhysAddr, owner: Owner)
        requires
            old(self).inv(),
            old(self).deallocatable(page_base.0 as int, owner),
        ensures
            final(self).inv(),
            final(self).free_sizes() == old(self).free_sizes() + old(self).regions()[old(self).picked_region(page_base.0 as int)].size,
            final(self).keeps_setup(old(self)),
            ({
                let i = old(self).picked_region(page_base.0 as int);
                let ri = old(self).regions()[i];
                &&& old(self).live().contains(i) && !ri.is_free
                &&& !(final(self).live().contains(i) && !final(self).regions()[i].is_free)
                &&& forall|j: int| #[trigger] old(self).live().contains(j) && !old(self).regions()[j].is_free && j != i ==>
                    final(self).live().contains(j) && final(self).regions()[j] == old(self).regions()[j]
                &&& exists|mid: Seq<PageInfo>| pages_freed_only(old(self).pages(), mid)
                    && #[trigger] pages_marked(mid, final(self).pages(), ri.start_addr.0, ri.size, PageStatus::Free, Owner::Nobody)
                &&& old(self).alloc_byte(page_base.0 as int) ==> Self::holds_addr(ri, page_base.0 as int)
                &&& final(self).gave_bytes(old(self), ri.start_addr.0 as int, ri.size as int)
                &&& forall|b: int| ri.start_addr.0 <= b < ri.start_addr.0 + ri.size ==> #[trigger] final(self).free_nobody_byte(b)
                &&& !final(self).alloc_byte(page_base.0 as int)
            }),
            final(self).frees_since_merge() == (if old(self).frees_since_merge() >= old(self).merge_interval() { 0 } else {
                old(self).frees_since_merge() + 1
            }),
    {
        let ghost pi = self.picked_region(page_base.0 as int);
        let found = self.find_region_at(page_base, false);
        let region_to_dealloc_idx = match found {
            Some(i) => i,
            None => {
                proof {
                    let k = choose|k: int| #[trigger] picks(self.rb_addr_alloc.entries(), page_base.0 as int, k)
                        && self.rb_addr_alloc.entries()[k].value == pi;
                    let e = self.rb_addr_alloc.entries()[k];
                    self.rb_addr_alloc.lemma_view();
                    assert(self.rb_addr_alloc@.contains_key(e.key) && self.rb_addr_alloc@[e.key] == e);
                    let rj = self.mem_regions@[e.value as int];
                    lemma_key_decode(rj.start_addr.0, rj.size);
                    assert(self.live@.contains(e.value as int));
                }
                return;
            },
        };
        proof {
            let k1 = choose|k: int| #[trigger] picks(self.rb_addr_alloc.entries(), page_base.0 as int, k)
                && self.rb_addr_alloc.entries()[k].value == pi;
            let k2 = choose|k: int| #[trigger] picks(self.rb_addr_alloc.entries(), page_base.0 as int, k)
                && self.rb_addr_alloc.entries()[k].value == region_to_dealloc_idx;
            lemma_picks_unique(self.rb_addr_alloc.entries(), page_base.0 as int, k1, k2);
            assert(pi == region_to_dealloc_idx);
        }
        let region = self.mem_regions[region_to_dealloc_idx];
        let ghost s0 = *self;
        self.mark_region_free(region_to_dealloc_idx, owner);
        let ghost s1 = *self;
        proof {
            Self::lemma_gave_bytes(&s0, &s1, region_to_dealloc_idx as int);
        }
        if self.dealloc_since_last_merge_free_count >= self.merge_free_dealloc_interval {
            self.coalesce_free_space();
            self.dealloc_since_last_merge_free_count = 0;
            proof { lemma_trunks_frame(self, self, self.live@); }
        } else {
            self.dealloc_since_last_merge_free_count = self.dealloc_since_last_merge_free_count + 1;
            proof { lemma_trunks_frame(self, self, self.live@); }
        }
        let ghost s2 = *self;
        self.update_page_info_range(region.start_addr, region.size, true, Owner::Nobody);
        proof {
            let i = region_to_dealloc_idx as int;
            lemma_trunks_frame(&s2, self, self.live@);
            assert forall|j: int| #[trigger] old(self).live().contains(j) && !old(self).regions()[j].is_free && j != i implies
                self.live().contains(j) && self.regions()[j] == old(self).regions()[j] by {
                assert(s1.live@.contains(j) && s1.mem_regions@[j] == old(self).mem_regions@[j]);
            }
            assert(!(s1.live@.contains(i) && !s1.mem_regions@[i].is_free));
            assert(!(s2.live@.contains(i) && !s2.mem_regions@[i].is_free)) by {
                if s2.live@.contains(i) && !s2.mem_regions@[i].is_free {
                    assert(s1.live@.contains(i) && s1.mem_regions@[i] == s2.mem_regions@[i]);
                }
            }
            assert(pages_freed_only(old(self).page_info@, s1.page_info@));
            assert(pages_freed_only(old(self).page_info@, s2.page_info@)) by {
                if s2.page_info@ != s1.page_info@ {
                    assert forall|q: int| 0 <= q < s2.page_info@.len() implies #[trigger] s2.page_info@[q] == old(self).page_info@[q]
                        || s2.page_info@[q] == (PageInfo { status: PageStatus::Free, owner: Owner::Nobody, ..old(self).page_info@[q] }) by {
                        assert(s2.page_info@[q] == s1.page_info@[q]
                            || s2.page_info@[q] == (PageInfo { status: PageStatus::Free, owner: Owner::Nobody, ..s1.page_info@[q] }));
                    }
                }
            }
            assert(pages_marked(s2.page_info@, self.page_info@, region.start_addr.0, region.size, PageStatus::Free, Owner::Nobody));
            assert(old(self).picked_region(page_base.0 as int) == i);
            assert(old(self).regions()[i] == region);
            assert(old(self).live().contains(i) && !region.is_free);
            assert(!(self.live().contains(i) && !self.regions()[i].is_free));
            assert(pages_freed_only(old(self).pages(), s2.page_info@));
            assert(pages_marked(s2.page_info@, self.pages(), region.start_addr.0, region.size, PageStatus::Free, Owner::Nobody));
            assert(s2.same_bytes(&s1));
            assert(self.live@ == s2.live@ && self.mem_regions@ == s2.mem_regions@);
            assert forall|b: int| #[trigger] self.free_byte(b) == s1.free_byte(b) && self.alloc_byte(b) == s1.alloc_byte(b) by {
                assert(s2.free_byte(b) == s1.free_byte(b) && s2.alloc_byte(b) == s1.alloc_byte(b));
            }
            assert(self.gave_bytes(old(self), region.start_addr.0 as int, region.size as int));
            assert forall|b: int| region.start_addr.0 <= b < region.start_addr.0 + region.size implies #[trigger] self.free_nobody_byte(b) by {
                assert(s1.live@.contains(i) && s1.mem_regions@[i].is_free && s1.mem_regions@[i].owner == Owner::Nobody
                    && Self::holds_addr(s1.mem_regions@[i], b));
                assert(s1.free_nobody_byte(b));
                assert(s2.free_nobody_byte(b));
            }
        }
    }

    /// The sum of the sizes of the free regions, or the largest word when it
    /// does not fit one.
    pub fn free_mem_count(&mut self) -> (r: usize)
        requires
            old(self).inv(),
        ensures
            *final(self) == *old(self),
            r == (if old(self).free_sizes() > usize::MAX { usize::MAX as int } else { old(self).free_sizes() }),
    {
        let n = self.rb_size_free.size();
        let mut acc: usize = 0;
        let mut i: u128 = 0;
        while i < n
            invariant
                n == self.rb_size_free.entries().len(),
                i <= n,
                acc == (if sizes_sum(self.rb_size_free.entries().take(i as int)) > usize::MAX { usize::MAX as int } else {
                    sizes_sum(self.rb_size_free.entries().take(i as int))
                }),
            decreases n - i,
        {
            let k = match self.rb_size_free.select(i) {
                Some(k) => k,
                None => { return acc; },
            };
            let z = hi64(k) as usize;
            proof {
                let e = self.rb_size_free.entries();
                assert(e.take(i + 1).drop_last() =~= e.take(i as int));
            }
            acc = acc.saturating_add(z);
            i = i + 1;
            proof {
                let e = self.rb_size_free.entries();
                assert(sizes_sum(e.take(i as int)) >= sizes_sum(e.take(i - 1)));
            }
        }
        proof {
            assert(self.rb_size_free.entries().take(n as int) =~= self.rb_size_free.entries());
        }
        acc
    }

    /// The sum of the sizes of the free regions.
    pub closed spec fn free_sizes(&self) -> int {
        sizes_sum(self.rb_size_free.entries())
    }

    /// Free memory in default-size pages.
    pub fn free_page_count(&mut self) -> (r: usize)
        requires
            old(self).inv(),
        ensures
            *final(self) == *old(self),
            r == (if old(self).free_sizes() > usize::MAX { usize::MAX as int } else { old(self).free_sizes() }) / 4096,
    {
        self.free_mem_count() / MEMORY_DEFAULT_PAGE_USIZE
    }

    /// The number of pages of physical memory.
    pub fn page_count(&self) -> (r: usize)
        ensures
            r == self.totals().0,
    {
        self.total_pages
    }

    /// The top of physical memory.
    pub fn mem_count(&self) -> (r: usize)
        ensures
            r == self.totals().1,
    {
        self.phys_mem_max
    }

    /// Whether the region slot numbered like the page at `page_base` is
    /// marked free.
    pub fn is_memory_frame_free(&self, page_base: PhysAddr) -> (r: bool)
        requires
            self.inv(),
            page_base.0 / 4096 < self.cap(),
        ensures
            r == self.regions()[(page_base.0 / 4096) as int].is_free,
    {
        let page_index = addr_to_page_index(page_base);
        self.mem_regions[page_index].is_free
    }

    /// Whether region slot `page_idx` is marked free.
    pub fn is_frame_index_free(&self, page_idx: usize) -> (r: bool)
        requires
            self.inv(),
            page_idx < self.cap(),
        ensures
            r == self.regions()[page_idx as int].is_free,
    {
        self.mem_regions[page_idx].is_free
    }
}

impl TreeAllocator {
    /// Everything but the page bookkeeping is as in `o`.
    pub closed spec fn only_pages_differ(&self, o: &TreeAllocator) -> bool {
        &&& self.mem_regions == o.mem_regions
        &&& self.rb_size_free == o.rb_size_free
        &&& self.rb_addr_free == o.rb_addr_free
        &&& self.rb_size_alloc == o.rb_size_alloc
        &&& self.rb_addr_alloc == o.rb_addr_alloc
        &&& self.bitmap == o.bitmap
        &&& self.live == o.live
        &&& self.count == o.count
        &&& self.capacity == o.capacity
        &&& self.phys_base == o.phys_base
        &&& self.total_pages == o.total_pages
        &&& self.phys_mem_max == o.phys_mem_max
        &&& self.dealloc_since_last_merge_free_count == o.dealloc_since_last_merge_free_count
        &&& self.merge_free_dealloc_interval == o.merge_free_dealloc_interval
    }

    /// The number of page records.
    pub fn page_record_count(&self) -> (r: usize)
        ensures
            r == self.pages().len(),
    {
        self.page_info.len()
    }

    /// The record of page `page`.
    pub fn page_record(&self, page: usize) -> (r: PageInfo)
        requires
            page < self.pages().len(),
        ensures
            r == self.pages()[page as int],
    {
        self.page_info[page]
    }

    /// Records `owner` as the owner of page `page`.
    pub fn set_page_owner(&mut self, page: usize, owner: Owner)
        requires
            page < old(self).pages().len(),
        ensures
            final(self).only_pages_differ(old(self)),
            final(self).pages() == old(self).pages().update(page as int, PageInfo { owner, ..old(self).pages()[page as int] }),
            old(self).inv() ==> final(self).inv(),
    {
        let mut info = self.page_info[page];
        info.owner = owner;
        self.page_info.set(page, info);
    }

    /// Marks the `count` page records from page `page` free and unowned.
    pub fn clear_page_records(&mut self, page: usize, count: usize)
        requires
            page + count <= old(self).pages().len(),
        ensures
            final(self).only_pages_differ(old(self)),
            final(self).pages().len() == old(self).pages().len(),
            forall|q: int| 0 <= q < old(self).pages().len() ==> #[trigger] final(self).pages()[q] == if page <= q < page + count {
                PageInfo { status: PageStatus::Free, owner: Owner::Nobody, ..old(self).pages()[q] }
            } else {
                old(self).pages()[q]
            },
            old(self).inv() ==> final(self).inv(),
    {
        let n = self.page_info.len();
        let mut i: usize = 0;
        while i < count
            invariant
                i <= count,
                page + count <= n,
                n == old(self).pages().len(),
                self.only_pages_differ(old(self)),
                self.pages().len() == old(self).pages().len(),
                forall|q: int| 0 <= q < old(self).pages().len() ==> #[trigger] self.pages()[q] == if page <= q < page + i {
                    PageInfo { status: PageStatus::Free, owner: Owner::Nobody, ..old(self).pages()[q] }
                } else {
                    old(self).pages()[q]
                },
            decreases count - i,
        {
            let mut info = self.page_info[page + i];
            info.owner = Owner::Nobody;
            info.status = PageStatus::Free;
            self.page_info.set(page + i, info);
            i = i + 1;
        }
    }
}

impl TreeAllocator {
    /// A frame just allocated can be given back by its owner: a search for
    /// its address finds its region, and freeing it frees exactly its size.
    pub proof fn lemma_fresh_frame_deallocatable(&self, o: &TreeAllocator, a: usize, size: usize, owner: Owner)
        requires
            self.inv(),
            self.fresh_frame(o, a, size, owner),
            size > 0,
        ensures
            self.deallocatable(a as int, owner),
            self.regions()[self.picked_region(a as int)].size == size,
            self.regions()[self.picked_region(a as int)].start_addr.0 == a,
    {
        let i = choose|i: int| #[trigger] self.live@.contains(i) && !(o.live@.contains(i) && !o.mem_regions@[i].is_free)
            && self.mem_regions@[i].start_addr.0 == a && self.mem_regions@[i].size == size
            && !self.mem_regions@[i].is_free && self.mem_regions@[i].owner == owner;
        let ri = self.mem_regions@[i];
        let t = &self.rb_addr_alloc;
        let e = t.entries();
        t.lemma_view();
        let key = key_of(ri, false);
        assert(t@.contains_key(key) && t@[key].value == i);
        let k = choose|k: int| 0 <= k < e.len() && #[trigger] e[k].key == key;
        assert(t@[e[k].key] == e[k]);
        lemma_key_decode(a, size);
        assert(key_holds(e[k].key, a as int));
        assert forall|j: int| 0 <= j < k implies !key_holds(#[trigger] e[j].key, a as int) by {
            assert(t@.contains_key(e[j].key) && t@[e[j].key] == e[j]);
            let rj = self.mem_regions@[e[j].value as int];
            lemma_key_decode(rj.start_addr.0, rj.size);
            if e[j].value as int == i {
                assert(e[j].key == e[k].key);
            } else {
                assert(separate(ri, rj));
            }
        }
        assert(picks(e, a as int, k));
        assert(self.picked(a as int, false, i));
        let p = self.picked_region(a as int);
        assert(self.picked(a as int, false, p));
        let kp = choose|kp: int| #[trigger] picks(e, a as int, kp) && e[kp].value == p;
        lemma_picks_unique(e, a as int, k, kp);
    }
}

/// The slot each key of a tree names.
pub open spec fn tree_index(m: Map<u128, RBNode>) -> Map<u128, usize> {
    m.map_values(|n: RBNode| n.value)
}

/// Two trees that index the same regions in the same state name the same
/// slots under the same keys.
proof fn lemma_trunk_determined(m1: Map<u128, RBNode>, m2: Map<u128, RBNode>, r1: Seq<MemRegionDescr>, r2: Seq<MemRegionDescr>,
    live: Set<int>, free: bool, by_size: bool)
    requires
        trunk_ok(m1, r1, live, free, by_size),
        trunk_ok(m2, r2, live, free, by_size),
        r1.len() == r2.len(),
        forall|i: int| #[trigger] live.contains(i) && 0 <= i < r1.len() ==> r1[i] == r2[i],
    ensures
        tree_index(m1) == tree_index(m2),
{
    assert forall|k: u128| #[trigger] m1.contains_key(k) implies m2.contains_key(k) && m2[k].value == m1[k].value by {
        let i = m1[k].value as int;
        assert(live.contains(i) && 0 <= i < r1.len() && r1[i].is_free == free);
        assert(r2[i] == r1[i]);
    }
    assert forall|k: u128| #[trigger] m2.contains_key(k) implies m1.contains_key(k) by {
        let i = m2[k].value as int;
        assert(live.contains(i) && 0 <= i < r2.len() && r2[i].is_free == free);
        assert(r2[i] == r1[i]);
    }
    assert(tree_index(m1) =~= tree_index(m2));
}

impl TreeAllocator {
    /// A slot in use lies within the slots and the region sequence.
    pub proof fn lemma_live_in_bounds(&self, i: int)
        requires
            self.inv(),
            self.live().contains(i),
        ensures
            0 <= i < self.cap(),
            self.cap() == self.regions().len(),
            !self.slot_free(i),
    {
    }

    /// The slots the four trees name under each key: free regions by size
    /// and by address, allocated regions by size and by address.
    pub closed spec fn trunk_indexes(&self) -> (Map<u128, usize>, Map<u128, usize>, Map<u128, usize>, Map<u128, usize>) {
        (tree_index(self.rb_size_free@), tree_index(self.rb_addr_free@), tree_index(self.rb_size_alloc@), tree_index(self.rb_addr_alloc@))
    }
}

/// Marking a free region owned by nobody allocated to `owner`, then free
/// again for `owner`, restores the regions and the four trees: `s1` is what
/// `mark_region_allocated(i, owner)` made of `s0`, and `s2` what
/// `mark_region_free(i, owner)` made of `s1`.
pub proof fn lemma_mark_round_trip(s0: &TreeAllocator, s1: &TreeAllocator, s2: &TreeAllocator, i: int, owner: Owner)
    requires
        s0.inv(),
        s1.inv(),
        s2.inv(),
        s0.live().contains(i),
        s0.regions()[i].is_free,
        s0.regions()[i].owner == Owner::Nobody,
        s1.live() == s0.live(),
        s1.regions() == s0.regions().update(i, MemRegionDescr { is_free: false, owner: owner, ..s0.regions()[i] }),
        s2.live() == s1.live(),
        s2.regions() == s1.regions().update(i, MemRegionDescr { is_free: true, owner: Owner::Nobody, ..s1.regions()[i] }),
    ensures
        s1.regions()[i].owner == owner,
        s2.regions() == s0.regions(),
        s2.live() == s0.live(),
        s2.trunk_indexes() == s0.trunk_indexes(),
{
    assert(s2.regions() =~= s0.regions());
    lemma_trunk_determined(s2.rb_size_free@, s0.rb_size_free@, s0.mem_regions@, s0.mem_regions@, s0.live@, true, true);
    lemma_trunk_determined(s2.rb_addr_free@, s0.rb_addr_free@, s0.mem_regions@, s0.mem_regions@, s0.live@, true, false);
    lemma_trunk_determined(s2.rb_size_alloc@, s0.rb_size_alloc@, s0.mem_regions@, s0.mem_regions@, s0.live@, false, true);
    lemma_trunk_determined(s2.rb_addr_alloc@, s0.rb_addr_alloc@, s0.mem_regions@, s0.mem_regions@, s0.live@, false, false);
}

/// Adding a region and removing it again restores the slots in use, the
/// region count, every slot's availability and the four trees, and leaves
/// every other slot's region as it was: `s1` is what `add_region` made of
/// `s0` when it returned slot `i`, and `s2` what `remove_region(i)` made
/// of `s1`.
pub proof fn lemma_add_remove_round_trip(s0: &TreeAllocator, s1: &TreeAllocator, s2: &TreeAllocator, i: int)
    requires
        s0.inv(),
        s1.inv(),
        s2.inv(),
        0 <= i < s0.cap(),
        s0.slot_free(i),
        s1.live() == s0.live().insert(i),
        s1.region_count() == s0.region_count() + 1,
        s1.cap() == s0.cap(),
        s1.regions().len() == s0.regions().len(),
        forall|j: int| 0 <= j < s0.regions().len() && j != i ==> #[trigger] s1.regions()[j] == s0.regions()[j],
        forall|q: int| 0 <= q < s0.cap() && q != i ==> #[trigger] s1.slot_free(q) == s0.slot_free(q),
        s2.live() == s1.live().remove(i),
        s2.region_count() == s1.region_count() - 1,
        s2.slot_free(i),
        forall|q: int| 0 <= q < s1.cap() && q != i ==> #[trigger] s2.slot_free(q) == s1.slot_free(q),
        s2.regions().len() == s1.regions().len(),
        forall|j: int| 0 <= j < s1.regions().len() && j != i ==> #[trigger] s2.regions()[j] == s1.regions()[j],
    ensures
        s2.live() == s0.live(),
        s2.region_count() == s0.region_count(),
        forall|q: int| 0 <= q < s0.cap() ==> #[trigger] s2.slot_free(q) == s0.slot_free(q),
        forall|j: int| 0 <= j < s0.regions().len() && j != i ==> #[trigger] s2.regions()[j] == s0.regions()[j],
        s2.trunk_indexes() == s0.trunk_indexes(),
{
    assert(!s0.live@.contains(i));
    assert(s2.live@ =~= s0.live@);
    assert forall|j: int| #[trigger] s0.live@.contains(j) && 0 <= j < s2.mem_regions@.len() implies s2.mem_regions@[j] == s0.mem_regions@[j] by {
        assert(j != i);
        assert(s1.mem_regions@[j] == s0.mem_regions@[j]);
    }
    lemma_trunk_determined(s2.rb_size_free@, s0.rb_size_free@, s2.mem_regions@, s0.mem_regions@, s0.live@, true, true);
    lemma_trunk_determined(s2.rb_addr_free@, s0.rb_addr_free@, s2.mem_regions@, s0.mem_regions@, s0.live@, true, false);
    lemma_trunk_determined(s2.rb_size_alloc@, s0.rb_size_alloc@, s2.mem_regions@, s0.mem_regions@, s0.live@, false, true);
    lemma_trunk_determined(s2.rb_addr_alloc@, s0.rb_addr_alloc@, s2.mem_regions@, s0.mem_regions@, s0.live@, false, false);
}

/// Freeing a frame that was just allocated leaves every byte free,
/// allocated or neither just as before the allocation: `s1` took the bytes
/// of `[a, a + size)` from `s0`, and `s2` gave the picked region's bytes back.
pub proof fn lemma_alloc_dealloc_bytes(s0: &TreeAllocator, s1: &TreeAllocator, s2: &TreeAllocator, a: usize, size: usize, owner: Owner)
    requires
        s0.inv(),
        s1.inv(),
        s1.fresh_frame(s0, a, size, owner),
        size > 0,
        s1.took_bytes(s0, a as int, size as int),
        s2.gave_bytes(s1, s1.regions()[s1.picked_region(a as int)].start_addr.0 as int,
            s1.regions()[s1.picked_region(a as int)].size as int),
    ensures
        s1.deallocatable(a as int, owner),
        s2.same_bytes(s0),
{
    s1.lemma_fresh_frame_deallocatable(s0, a, size, owner);
    TreeAllocator::lemma_free_is_covered_not_alloc(s0);
    assert forall|b: int| s2.free_byte(b) == s0.free_byte(b) && s2.alloc_byte(b) == s0.alloc_byte(b) by {
        if a <= b < a + size {
            assert(s0.free_byte(b));
            assert(s1.alloc_byte(b));
            assert(s2.free_byte(b) && !s2.alloc_byte(b));
        } else {
            assert(s1.free_byte(b) == s0.free_byte(b) && s1.alloc_byte(b) == s0.alloc_byte(b));
        }
    }
    assert forall|b: int| #[trigger] s2.free_byte(b) == s0.free_byte(b) by {
        assert(s2.free_byte(b) == s0.free_byte(b) && s2.alloc_byte(b) == s0.alloc_byte(b));
    }
    assert forall|b: int| #[trigger] s2.alloc_byte(b) == s0.alloc_byte(b) by {
        assert(s2.free_byte(b) == s0.free_byte(b) && s2.alloc_byte(b) == s0.alloc_byte(b));
    }
}

/// Freeing a frame that was just allocated gives back all the free memory
/// the allocation took: `s1` is what an allocation of `size` bytes at `a`
/// made of `s0`, and `s2` what freeing `a` made of `s1`.
pub proof fn lemma_alloc_dealloc_restores(s0: &TreeAllocator, s1: &TreeAllocator, s2: &TreeAllocator, a: usize, size: usize, owner: Owner)
    requires
        s1.inv(),
        s1.fresh_frame(s0, a, size, owner),
        size > 0,
        s1.free_sizes() == s0.free_sizes() - size,
        s2.free_sizes() == s1.free_sizes() + s1.regions()[s1.picked_region(a as int)].size,
    ensures
        s1.deallocatable(a as int, owner),
        s2.free_sizes() == s0.free_sizes(),
{
    s1.lemma_fresh_frame_deallocatable(s0, a, size, owner);
}

/// Every entry of the by-address tree `t` names a range apart from
/// `[start, start + size)`.
pub open spec fn tree_apart(t: Seq<RBNode>, start: usize, size: usize) -> bool {
    forall|i: int| 0 <= i < t.len() ==>
        apart(start, size, #[trigger] hi64_spec(t[i].key) as usize, lo64_spec(t[i].key) as usize)
}

/// Whether every entry of the by-address tree `t` names a range apart from
/// `[start, start + size)`.
fn check_tree_apart(t: &RBTree, start: usize, size: usize) -> (r: bool)
    ensures
        r == tree_apart(t.entries(), start, size),
{
    let n = t.size();
    let mut i: u128 = 0;
    while i < n
        invariant
            n == t.entries().len(),
            i <= n,
            forall|j: int| 0 <= j < i ==> apart(start, size, #[trigger] hi64_spec(t.entries()[j].key) as usize, lo64_spec(t.entries()[j].key) as usize),
        decreases n - i,
    {
        let k = match t.select(i) {
            Some(k) => k,
            None => { return false; },
        };
        let s = hi64(k) as usize;
        let z = lo64(k) as usize;
        let ok = start != s && ((start as u128) + (size as u128) <= (s as u128) || (s as u128) + (z as u128) <= (start as u128));
        if !ok {
            return false;
        }
        i = i + 1;
    }
    true
}

impl TreeAllocator {
    /// Whether a region from `start` of `size` bytes would start on a page
    /// boundary and meet no region held (see `fits_apart`).
    pub fn region_fits(&self, start: usize, size: usize) -> (r: bool)
        requires
            self.inv(),
        ensures
            r == self.fits_apart(start, size),
    {
        if size > usize::MAX - start || start % MEMORY_DEFAULT_PAGE_USIZE != 0 {
            return false;
        }
        let a = check_tree_apart(&self.rb_addr_free, start, size);
        let b = check_tree_apart(&self.rb_addr_alloc, start, size);
        proof {
            self.rb_addr_free.lemma_view();
            self.rb_addr_alloc.lemma_view();
            if a && b {
                assert forall|j: int| #[trigger] self.live@.contains(j) implies apart(
                    start, size, self.mem_regions@[j].start_addr.0, self.mem_regions@[j].size) by {
                    let rj = self.mem_regions@[j];
                    let key = key_of(rj, false);
                    lemma_key_decode(rj.start_addr.0, rj.size);
                    let e = if rj.is_free { self.rb_addr_free.entries() } else { self.rb_addr_alloc.entries() };
                    assert(seq_has(e, key));
                    let i = choose|i: int| 0 <= i < e.len() && #[trigger] e[i].key == key;
                    assert(apart(start, size, hi64_spec(e[i].key) as usize, lo64_spec(e[i].key) as usize));
                }
            } else {
                let e = if !a { self.rb_addr_free.entries() } else { self.rb_addr_alloc.entries() };
                let t = if !a { self.rb_addr_free@ } else { self.rb_addr_alloc@ };
                let i = choose|i: int| 0 <= i < e.len() && !apart(start, size, #[trigger] hi64_spec(e[i].key) as usize, lo64_spec(e[i].key) as usize);
                assert(t.contains_key(e[i].key) && t[e[i].key] == e[i]);
                let j = e[i].value as int;
                let rj = self.mem_regions@[j];
                lemma_key_decode(rj.start_addr.0, rj.size);
                assert(self.live@.contains(j));
            }
        }
        a && b
    }
}

/// `n` is `o` with the records of pages `first .. first + count` that it
/// has marked reserved for the kernel, with the memory type and attributes
/// of entry `e`.
pub open spec fn reserved_marked(o: Seq<PageInfo>, n: Seq<PageInfo>, first: int, count: int, e: MemMapEntry) -> bool {
    &&& n.len() == o.len()
    &&& forall|q: int| 0 <= q < n.len() ==> #[trigger] n[q] == if first <= q < first + count {
        PageInfo { status: PageStatus::Reserved, owner: Owner::Kernel, purpose: e.ty, uefi_flags: e.att as usize, ..o[q] }
    } else {
        o[q]
    }
}

/// The region a memory-map entry describes: its block, free when
/// conventional and then owned by nobody, otherwise held by the kernel.
pub open spec fn entry_region_ok(r: MemRegionDescr, e: MemMapEntry) -> bool {
    &&& r.start_addr.0 == e.phys_start as usize
    &&& r.size == (e.page_count as usize) * 4096
    &&& r.is_free == (e.ty == MEMORY_TYPE_CONVENTIONAL)
    &&& r.flags == 0
    &&& r.owner == if e.ty == MEMORY_TYPE_CONVENTIONAL { Owner::Nobody } else { Owner::Kernel }
}

/// Entry `k` of `entries` is taken in when every entry up to it starts
/// below `phys_mem_max`, and then, when it is not conventional, it
/// reserves the record of page `q`, one of its pages.
pub open spec fn reserves_page(entries: Seq<MemMapEntry>, phys_mem_max: usize, k: int, q: int) -> bool {
    &&& 0 <= k < entries.len()
    &&& forall|i: int| 0 <= i <= k ==> (#[trigger] entries[i].phys_start as usize) < phys_mem_max
    &&& entries[k].ty != MEMORY_TYPE_CONVENTIONAL
    &&& (entries[k].phys_start as usize) / 4096 <= q < (entries[k].phys_start as usize) / 4096 + (entries[k].page_count as usize)
}

impl TreeAllocator {
    /// Marks the records of pages `first .. first + count` reserved for the
    /// kernel with memory type `e.ty` and attributes `e.att`; pages past the
    /// records are left alone.
    fn mark_reserved(&mut self, first: usize, count: usize, e: MemMapEntry)
        requires
            first + count <= usize::MAX,
        ensures
            final(self).only_pages_differ(old(self)),
            reserved_marked(old(self).pages(), final(self).pages(), first as int, count as int, e),
    {
        let n = self.page_info.len();
        let mut i: usize = 0;
        while i < count
            invariant
                i <= count,
                first + count <= usize::MAX,
                n == old(self).pages().len(),
                self.only_pages_differ(old(self)),
                self.pages().len() == n,
                forall|q: int| 0 <= q < n ==> #[trigger] self.pages()[q] == if first <= q < first + i {
                    PageInfo { status: PageStatus::Reserved, owner: Owner::Kernel, purpose: e.ty, uefi_flags: e.att as usize, ..old(self).pages()[q] }
                } else {
                    old(self).pages()[q]
                },
            decreases count - i,
        {
            let q = first + i;
            if q < n {
                let mut info = self.page_info[q];
                info.status = PageStatus::Reserved;
                info.owner = Owner::Kernel;
                info.purpose = e.ty;
                info.uefi_flags = e.att as usize;
                self.page_info.set(q, info);
            }
            i = i + 1;
        }
    }

    /// Takes in one memory-map entry: conventional memory becomes a free
    /// region; any other memory has the records of its pages marked reserved
    /// for the kernel and becomes a region the kernel holds. A block that does
    /// not start on a page boundary or meets a region already held is not
    /// added, nor is any block when no slot is available.
    pub fn add_map_entry(&mut self, e: MemMapEntry) -> (r: Option<usize>)
        requires
            old(self).inv(),
            entry_fits(e),
        ensures
            final(self).inv(),
            final(self).keeps_setup(old(self)),
            final(self).frees_since_merge() == old(self).frees_since_merge(),
            e.ty == MEMORY_TYPE_CONVENTIONAL ==> final(self).pages() == old(self).pages(),
            e.ty != MEMORY_TYPE_CONVENTIONAL ==> reserved_marked(old(self).pages(), final(self).pages(),
                ((e.phys_start as usize) / 4096) as int, e.page_count as usize as int, e),
            match r {
                Some(i) => {
                    &&& old(self).fits_apart(e.phys_start as usize, ((e.page_count as usize) * 4096) as usize)
                    &&& final(self).live() == old(self).live().insert(i as int)
                    &&& !old(self).live().contains(i as int)
                    &&& entry_region_ok(final(self).regions()[i as int], e)
                    &&& forall|j: int| #[trigger] old(self).live().contains(j) ==> final(self).regions()[j] == old(self).regions()[j]
                    &&& final(self).free_sizes() == old(self).free_sizes() + (if e.ty == MEMORY_TYPE_CONVENTIONAL { (e.page_count as usize) * 4096 } else { 0int })
                },
                None => {
                    &&& !old(self).fits_apart(e.phys_start as usize, ((e.page_count as usize) * 4096) as usize)
                        || forall|q: int| 0 <= q < old(self).cap() ==> !#[trigger] old(self).slot_free(q)
                    &&& final(self).live() == old(self).live()
                    &&& final(self).regions() == old(self).regions()
                    &&& final(self).free_sizes() == old(self).free_sizes()
                },
            },
    {
        let start = e.phys_start as usize;
        let size = (e.page_count as usize) * MEMORY_DEFAULT_PAGE_USIZE;
        let conventional = e.ty == MEMORY_TYPE_CONVENTIONAL;
        if !conventional {
            let ghost s0 = *self;
            self.mark_reserved(start / MEMORY_DEFAULT_PAGE_USIZE, e.page_count as usize, e);
            proof {
                assert(start / 4096 + (e.page_count as usize) <= usize::MAX) by (nonlinear_arith)
                    requires start + (e.page_count as usize) * 4096 <= usize::MAX;
                assert(self.inv() == s0.inv());
                assert(self.fits_apart(start, size) == s0.fits_apart(start, size));
            }
        }
        if !self.region_fits(start, size) {
            return None;
        }
        let owner = if conventional { Owner::Nobody } else { Owner::Kernel };
        let ghost s1 = *self;
        let r = self.add_region(PhysAddr(start), size, conventional, 0, owner);
        proof {
            if r is None {
                assert forall|q: int| 0 <= q < old(self).cap() implies !#[trigger] old(self).slot_free(q) by {
                    assert(s1.slot_free(q) == old(self).slot_free(q));
                    assert(q < s1.cap());
                }
            }
        }
        r
    }

    /// Takes in the entries of a memory map in order, up to the first that
    /// starts at or above `phys_mem_max` (see `add_map_entry`): the records
    /// of the pages of every other-than-conventional entry taken in are
    /// reserved for the kernel, and no other record changes.
    pub fn add_memory_map(&mut self, entries: &[MemMapEntry], phys_mem_max: usize)
        requires
            old(self).inv(),
            forall|k: int| 0 <= k < entries@.len() ==> #[trigger] entry_fits(entries@[k]),
        ensures
            final(self).inv(),
            final(self).keeps_setup(old(self)),
            final(self).pages().len() == old(self).pages().len(),
            forall|k: int, q: int| #[trigger] reserves_page(entries@, phys_mem_max, k, q) && q < final(self).pages().len()
                ==> final(self).pages()[q].status == PageStatus::Reserved && final(self).pages()[q].owner == Owner::Kernel,
            forall|q: int| 0 <= q < final(self).pages().len() && (forall|k: int| !#[trigger] reserves_page(entries@, phys_mem_max, k, q))
                ==> final(self).pages()[q] == old(self).pages()[q],
            forall|j: int| #[trigger] old(self).live().contains(j) ==> final(self).live().contains(j)
                && final(self).regions()[j] == old(self).regions()[j],
            forall|j: int| #[trigger] final(self).live().contains(j) && !old(self).live().contains(j) ==>
                exists|k: int| 0 <= k < entries@.len() && (entries@[k].phys_start as usize) < phys_mem_max
                    && #[trigger] entry_region_ok(final(self).regions()[j], entries@[k]),
    {
        let mut i: usize = 0;
        while i < entries.len()
            invariant
                i <= entries@.len(),
                forall|k: int| 0 <= k < entries@.len() ==> #[trigger] entry_fits(entries@[k]),
                self.inv(),
                self.keeps_setup(old(self)),
                forall|k: int| 0 <= k < i ==> (#[trigger] entries@[k].phys_start as usize) < phys_mem_max,
                self.pages().len() == old(self).pages().len(),
                forall|k: int, q: int| #[trigger] reserves_page(entries@, phys_mem_max, k, q) && k < i && q < self.pages().len()
                    ==> self.pages()[q].status == PageStatus::Reserved && self.pages()[q].owner == Owner::Kernel,
                forall|q: int| 0 <= q < self.pages().len() && (forall|k: int| k < i ==> !#[trigger] reserves_page(entries@, phys_mem_max, k, q))
                    ==> self.pages()[q] == old(self).pages()[q],
                forall|j: int| #[trigger] old(self).live().contains(j) ==> self.live().contains(j)
                    && self.regions()[j] == old(self).regions()[j],
                forall|j: int| #[trigger] self.live().contains(j) && !old(self).live().contains(j) ==>
                    exists|k: int| 0 <= k < i && (entries@[k].phys_start as usize) < phys_mem_max
                        && #[trigger] entry_region_ok(self.regions()[j], entries@[k]),
            decreases entries@.len() - i,
        {
            let e = entries[i];
            if e.phys_start as usize >= phys_mem_max {
                proof {
                    assert forall|k: int, q: int| #[trigger] reserves_page(entries@, phys_mem_max, k, q) implies k < i by {
                        if k >= i {
                            assert((entries@[i as int].phys_start as usize) < phys_mem_max);
                        }
                    }
                }
                return;
            }
            let ghost s0 = *self;
            proof { assert(entry_fits(entries@[i as int])); }
            let added = self.add_map_entry(e);
            proof {
                assert forall|k: int, q: int| #[trigger] reserves_page(entries@, phys_mem_max, k, q) && k < i + 1 && q < self.pages().len()
                    implies self.pages()[q].status == PageStatus::Reserved && self.pages()[q].owner == Owner::Kernel by {
                    if k == i {
                    } else if e.ty != MEMORY_TYPE_CONVENTIONAL {
                        assert(s0.pages()[q].status == PageStatus::Reserved);
                    }
                }
                assert forall|q: int| 0 <= q < self.pages().len() && (forall|k: int| k < i + 1 ==> !#[trigger] reserves_page(entries@, phys_mem_max, k, q))
                    implies self.pages()[q] == old(self).pages()[q] by {
                    assert(!reserves_page(entries@, phys_mem_max, i as int, q));
                    assert forall|k: int| k < i implies !#[trigger] reserves_page(entries@, phys_mem_max, k, q) by {
                        assert(k < i + 1);
                    }
                }
                assert forall|j: int| #[trigger] old(self).live().contains(j) implies self.live().contains(j)
                    && self.regions()[j] == old(self).regions()[j] by {
                    assert(s0.live().contains(j));
                }
                assert forall|j: int| #[trigger] self.live().contains(j) && !old(self).live().contains(j) implies
                    exists|k: int| 0 <= k < i + 1 && (entries@[k].phys_start as usize) < phys_mem_max
                        && #[trigger] entry_region_ok(self.regions()[j], entries@[k]) by {
                    if s0.live().contains(j) {
                        let k = choose|k: int| 0 <= k < i && (entries@[k].phys_start as usize) < phys_mem_max
                            && #[trigger] entry_region_ok(s0.regions()[j], entries@[k]);
                        assert(entry_region_ok(self.regions()[j], entries@[k]));
                    } else {
                        assert(entry_region_ok(self.regions()[j], entries@[i as int]));
                    }
                }
            }
            i = i + 1;
        }
    }
}

/// Region `r` starts at `start`, spans `size` bytes, is free or not as
/// `is_free` says, carries no flags and is owned by `owner`.
pub open spec fn region_is(r: MemRegionDescr, start: int, size: int, is_free: bool, owner: Owner) -> bool {
    &&& r.start_addr.0 == start
    &&& r.size == size
    &&& r.is_free == is_free
    &&& r.flags == 0
    &&& r.owner == owner
}

/// Where the genesis block's page goes in entry `e` when the block is at
/// `g`: the first page of the entry when `g` is its start, else its last.
pub open spec fn genesis_page_start(e: MemMapEntry, g: usize) -> int {
    let start = e.phys_start as usize;
    if g == start { start as int } else { start + (e.page_count as usize) * 4096 - 4096 }
}

/// Where the rest of entry `e` starts once the genesis page is split off.
pub open spec fn genesis_rest_start(e: MemMapEntry, g: usize) -> int {
    let start = e.phys_start as usize;
    if g == start { start + 4096 } else { start as int }
}

/// Region `r` is one that boot makes of entry `e`: for the entry that holds
/// the genesis block at `g`, its genesis page (held by the kernel) or the
/// rest (free); for any other entry, its block, free and owned by nobody
/// when conventional, otherwise reserved.
pub open spec fn boot_region_ok(r: MemRegionDescr, e: MemMapEntry, g: usize) -> bool {
    let size = (e.page_count as usize) * 4096;
    if entry_holds(e, g as int) {
        ||| region_is(r, genesis_page_start(e, g), 4096, false, Owner::Kernel)
        ||| region_is(r, genesis_rest_start(e, g), size - 4096, true, Owner::Nobody)
    } else {
        region_is(r, e.phys_start as usize as int, size, e.ty == MEMORY_TYPE_CONVENTIONAL,
            if e.ty == MEMORY_TYPE_CONVENTIONAL { Owner::Nobody } else { Owner::Reserved })
    }
}

/// Entry `k` comes before the first entry with no pages, which ends the map.
pub open spec fn before_end(entries: Seq<MemMapEntry>, k: int) -> bool {
    &&& 0 <= k < entries.len()
    &&& forall|i: int| 0 <= i <= k ==> #[trigger] entries[i].page_count != 0
}

/// Some region held by `t` is as `region_is` describes.
pub open spec fn holds_region(t: TreeAllocator, start: int, size: int, is_free: bool, owner: Owner) -> bool {
    exists|j: int| #[trigger] t.live().contains(j) && region_is(t.regions()[j], start, size, is_free, owner)
}

/// Both parts of entry `e` that hold the genesis block at `g` are held.
pub open spec fn genesis_split(t: TreeAllocator, e: MemMapEntry, g: usize) -> bool {
    &&& holds_region(t, genesis_page_start(e, g), 4096, false, Owner::Kernel)
    &&& holds_region(t, genesis_rest_start(e, g), (e.page_count as usize) * 4096 - 4096, true, Owner::Nobody)
}

impl TreeAllocator {
    /// Adds the regions of a memory map, in order, up to the first entry with
    /// no pages. The entry that holds the genesis block at `genesis_base`
    /// is split in two: the genesis page, held by the kernel, and the rest,
    /// free. Every other entry becomes one region, free when conventional
    /// and reserved otherwise, where it fits a free slot apart from the
    /// regions already held, and is skipped where it does not. False when
    /// a part of the genesis entry could not be added; its parts must be.
    pub fn add_boot_regions(&mut self, entries: &[MemMapEntry], genesis_base: usize) -> (r: bool)
        requires
            old(self).inv(),
            forall|k: int| 0 <= k < entries@.len() ==> #[trigger] entry_fits(entries@[k]),
        ensures
            final(self).inv(),
            final(self).keeps_setup(old(self)),
            final(self).pages() == old(self).pages(),
            final(self).frees_since_merge() == old(self).frees_since_merge(),
            forall|j: int| #[trigger] old(self).live().contains(j) ==> final(self).live().contains(j)
                && final(self).regions()[j] == old(self).regions()[j],
            forall|j: int| #[trigger] final(self).live().contains(j) && !old(self).live().contains(j) ==>
                exists|k: int| before_end(entries@, k) && #[trigger] boot_region_ok(final(self).regions()[j], entries@[k], genesis_base),
            r ==> forall|k: int| #[trigger] before_end(entries@, k) && entry_holds(entries@[k], genesis_base as int)
                ==> genesis_split(*final(self), entries@[k], genesis_base),
            !r ==> exists|k: int| #[trigger] before_end(entries@, k) && entry_holds(entries@[k], genesis_base as int),
    {
        let mut i: usize = 0;
        while i < entries.len()
            invariant
                i <= entries@.len(),
                forall|k: int| 0 <= k < entries@.len() ==> #[trigger] entry_fits(entries@[k]),
                forall|k: int| 0 <= k < i ==> #[trigger] entries@[k].page_count != 0,
                self.inv(),
                self.keeps_setup(old(self)),
                self.pages() == old(self).pages(),
                self.frees_since_merge() == old(self).frees_since_merge(),
                forall|j: int| #[trigger] old(self).live().contains(j) ==> self.live().contains(j)
                    && self.regions()[j] == old(self).regions()[j],
                forall|j: int| #[trigger] self.live().contains(j) && !old(self).live().contains(j) ==>
                    exists|k: int| 0 <= k < i && before_end(entries@, k) && #[trigger] boot_region_ok(self.regions()[j], entries@[k], genesis_base),
                forall|k: int| 0 <= k < i && #[trigger] entry_holds(entries@[k], genesis_base as int)
                    ==> genesis_split(*self, entries@[k], genesis_base),
            decreases entries@.len() - i,
        {
            let e = entries[i];
            if e.page_count == 0 {
                proof {
                    assert forall|k: int| #[trigger] before_end(entries@, k) implies k < i by {
                        if k >= i {
                            assert(entries@[i as int].page_count != 0);
                        }
                    }
                }
                return true;
            }
            proof {
                assert(entry_fits(entries@[i as int]));
                assert(before_end(entries@, i as int));
            }
            let ghost s0 = *self;
            let start = e.phys_start as usize;
            let size = (e.page_count as usize) * MEMORY_DEFAULT_PAGE_USIZE;
            if genesis_base >= start && genesis_base - start < size {
                let page = if genesis_base == start { start } else { start + size - MEMORY_DEFAULT_PAGE_USIZE };
                let rest = if genesis_base == start { start + MEMORY_DEFAULT_PAGE_USIZE } else { start };
                if !self.region_fits(page, MEMORY_DEFAULT_PAGE_USIZE) {
                    return false;
                }
                let a = self.add_region(PhysAddr(page), MEMORY_DEFAULT_PAGE_USIZE, false, 0, Owner::Kernel);
                if a.is_none() {
                    return false;
                }
                let ghost s1 = *self;
                proof {
                    let ia = a.unwrap() as int;
                    assert(boot_region_ok(self.regions()[ia], entries@[i as int], genesis_base));
                    assert forall|j: int| #[trigger] self.live().contains(j) && !old(self).live().contains(j) implies
                        exists|k: int| before_end(entries@, k) && #[trigger] boot_region_ok(self.regions()[j], entries@[k], genesis_base) by {
                        if j == ia {
                            assert(boot_region_ok(self.regions()[j], entries@[i as int], genesis_base));
                        } else {
                            assert(s0.live().contains(j));
                            let k = choose|k: int| 0 <= k < i && before_end(entries@, k) && #[trigger] boot_region_ok(s0.regions()[j], entries@[k], genesis_base);
                            assert(boot_region_ok(self.regions()[j], entries@[k], genesis_base));
                        }
                    }
                }
                if !self.region_fits(rest, size - MEMORY_DEFAULT_PAGE_USIZE) {
                    return false;
                }
                let b = self.add_region(PhysAddr(rest), size - MEMORY_DEFAULT_PAGE_USIZE, true, 0, Owner::Nobody);
                if b.is_none() {
                    return false;
                }
                proof {
                    let ia = a.unwrap() as int;
                    let ib = b.unwrap() as int;
                    assert(boot_region_ok(self.regions()[ia], entries@[i as int], genesis_base));
                    assert(boot_region_ok(self.regions()[ib], entries@[i as int], genesis_base));
                    assert(self.live().contains(ia));
                    assert(self.live().contains(ib));
                    assert(region_is(self.regions()[ib], genesis_rest_start(e, genesis_base), size - 4096, true, Owner::Nobody));
                    assert(holds_region(*self, genesis_page_start(e, genesis_base), 4096, false, Owner::Kernel));
                    assert(holds_region(*self, genesis_rest_start(e, genesis_base), size - 4096, true, Owner::Nobody));
                    assert forall|k: int| 0 <= k < i + 1 && #[trigger] entry_holds(entries@[k], genesis_base as int)
                        implies genesis_split(*self, entries@[k], genesis_base) by {
                        if k < i {
                            let e2 = entries@[k];
                            assert(genesis_split(s0, e2, genesis_base));
                            let j1 = choose|j: int| #[trigger] s0.live().contains(j) && region_is(s0.regions()[j],
                                genesis_page_start(e2, genesis_base), 4096, false, Owner::Kernel);
                            let j2 = choose|j: int| #[trigger] s0.live().contains(j) && region_is(s0.regions()[j],
                                genesis_rest_start(e2, genesis_base), (e2.page_count as usize) * 4096 - 4096, true, Owner::Nobody);
                            assert(s1.live().contains(j1) && s1.regions()[j1] == s0.regions()[j1]);
                            assert(s1.live().contains(j2) && s1.regions()[j2] == s0.regions()[j2]);
                            assert(self.live().contains(j1) && self.regions()[j1] == s1.regions()[j1]);
                            assert(self.live().contains(j2) && self.regions()[j2] == s1.regions()[j2]);
                        }
                    }
                    assert forall|j: int| #[trigger] old(self).live().contains(j) implies self.live().contains(j)
                        && self.regions()[j] == old(self).regions()[j] by {
                        assert(s0.live().contains(j));
                        assert(s1.live().contains(j));
                    }
                    assert forall|j: int| #[trigger] self.live().contains(j) && !old(self).live().contains(j) implies
                        exists|k: int| 0 <= k < i + 1 && before_end(entries@, k) && #[trigger] boot_region_ok(self.regions()[j], entries@[k], genesis_base) by {
                        if j == ia || j == ib {
                            assert(boot_region_ok(self.regions()[j], entries@[i as int], genesis_base));
                        } else {
                            assert(s1.live().contains(j));
                            assert(s0.live().contains(j));
                            let k = choose|k: int| 0 <= k < i && before_end(entries@, k) && #[trigger] boot_region_ok(s0.regions()[j], entries@[k], genesis_base);
                            assert(boot_region_ok(self.regions()[j], entries@[k], genesis_base));
                        }
                    }
                }
            } else {
                let conventional = e.ty == MEMORY_TYPE_CONVENTIONAL;
                if self.region_fits(start, size) {
                    let owner = if conventional { Owner::Nobody } else { Owner::Reserved };
                    let a = self.add_region(PhysAddr(start), size, conventional, 0, owner);
                    proof {
                        if a is Some {
                            let ia = a.unwrap() as int;
                            assert(boot_region_ok(self.regions()[ia], entries@[i as int], genesis_base));
                        }
                        assert forall|k: int| 0 <= k < i + 1 && #[trigger] entry_holds(entries@[k], genesis_base as int)
                            implies genesis_split(*self, entries@[k], genesis_base) by {
                            let e2 = entries@[k];
                            assert(genesis_split(s0, e2, genesis_base));
                            let j1 = choose|j: int| #[trigger] s0.live().contains(j) && region_is(s0.regions()[j],
                                genesis_page_start(e2, genesis_base), 4096, false, Owner::Kernel);
                            let j2 = choose|j: int| #[trigger] s0.live().contains(j) && region_is(s0.regions()[j],
                                genesis_rest_start(e2, genesis_base), (e2.page_count as usize) * 4096 - 4096, true, Owner::Nobody);
                            assert(self.live().contains(j1) && self.regions()[j1] == s0.regions()[j1]);
                            assert(self.live().contains(j2) && self.regions()[j2] == s0.regions()[j2]);
                        }
                        assert forall|j: int| #[trigger] old(self).live().contains(j) implies self.live().contains(j)
                            && self.regions()[j] == old(self).regions()[j] by {
                            assert(s0.live().contains(j));
                        }
                        assert forall|j: int| #[trigger] self.live().contains(j) && !old(self).live().contains(j) implies
                            exists|k: int| 0 <= k < i + 1 && before_end(entries@, k) && #[trigger] boot_region_ok(self.regions()[j], entries@[k], genesis_base) by {
                            if a is Some && j == a.unwrap() as int {
                                assert(boot_region_ok(self.regions()[j], entries@[i as int], genesis_base));
                            } else {
                                assert(s0.live().contains(j));
                                let k = choose|k: int| 0 <= k < i && before_end(entries@, k) && #[trigger] boot_region_ok(s0.regions()[j], entries@[k], genesis_base);
                                assert(boot_region_ok(self.regions()[j], entries@[k], genesis_base));
                            }
                        }
                    }
                }
            }
            i = i + 1;
        }
        true
    }
}

} // verus!
