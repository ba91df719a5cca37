//! The ISAAC-64 generator over a 256-word result buffer and a 256-word state
//! buffer, with 8-, 16- and 32-bit draws banked from 64-bit results.
use vstd::prelude::*;
use vstd::wrapping::u64_specs::{wrapping_add as wadd, wrapping_sub as wsub};
use crate::memory::address::{PhysAddr, MemAddr, Align};
use crate::common::{BYTE0_U64, BYTE1_U64, BYTE2_U64, BYTE3_U64, BYTE4_U64, BYTE5_U64, BYTE6_U64, BYTE7_U64,
    WORD0_U64, WORD1_U64, WORD2_U64, WORD3_U64, DWORD0_U64, DWORD1_U64};

verus! {

/// Words in each buffer.
pub const ISAAC64_SZ_64: usize = 256;
/// Bytes in a seed given as bytes.
pub const ISAAC64_SZ_8: usize = 2048;
/// Mask that picks a state index (times eight) out of a result word.
pub const IND_MASK: u64 = 0x7F8;

/// The state word a value points at.
pub open spec fn ind(mem: Seq<u64>, x: u64) -> u64 {
    mem[((x & IND_MASK) >> 3u64) as int]
}

/// How the accumulator is stirred before step `i`.
pub open spec fn stir(a: u64, i: int) -> u64 {
    if i % 4 == 0 {
        !(a ^ (a << 21u64))
    } else if i % 4 == 1 {
        a ^ (a >> 5u64)
    } else if i % 4 == 2 {
        a ^ (a << 12u64)
    } else {
        a ^ (a >> 33u64)
    }
}

/// One generation step at index `i`, on (state, results, a, b).
pub open spec fn isaac_step(st: (Seq<u64>, Seq<u64>, u64, u64), i: int) -> (Seq<u64>, Seq<u64>, u64, u64) {
    let (mem, rsl, a, b) = st;
    let x = mem[i];
    let a1 = wadd(stir(a, i), mem[(i + 128) % 256]);
    let y = wadd(wadd(ind(mem, x), a1), b);
    let mem1 = mem.update(i, y);
    let b1 = wadd(ind(mem1, y >> 8u64), x);
    (mem1, rsl.update(i, b1), a1, b1)
}

/// The generation steps `i..256`.
pub open spec fn isaac_rounds(st: (Seq<u64>, Seq<u64>, u64, u64), i: int) -> (Seq<u64>, Seq<u64>, u64, u64)
    decreases 256 - i,
{
    if i >= 256 || i < 0 {
        st
    } else {
        isaac_rounds(isaac_step(st, i), i + 1)
    }
}

/// A full refill of the results: (state, results, aa, bb, cc) before and after.
pub open spec fn isaac_refill(st: (Seq<u64>, Seq<u64>, u64, u64, u64)) -> (Seq<u64>, Seq<u64>, u64, u64, u64) {
    let (mem, rsl, aa, bb, cc) = st;
    let cc1 = wadd(cc, 1);
    let r = isaac_rounds((mem, rsl, aa, wadd(bb, cc1)), 0);
    (r.0, r.1, r.2, r.3, cc1)
}

/// The mixing shift at position `i`.
pub open spec fn mix_shift(i: int) -> u64 {
    if i == 0 || i == 1 {
        9
    } else if i == 2 {
        23
    } else if i == 3 {
        15
    } else if i == 4 || i == 7 {
        14
    } else if i == 5 {
        20
    } else {
        17
    }
}

/// One mixing update at position `i` of an eight-word block.
pub open spec fn mix_one(x: Seq<u64>, i: int) -> Seq<u64> {
    let x1 = x.update(i, wsub(x[i], x[(i + 4) % 8]));
    let v = if i % 2 == 0 { x1[(i + 7) % 8] >> mix_shift(i) } else { x1[(i + 7) % 8] << mix_shift(i) };
    let x2 = x1.update((i + 5) % 8, x1[(i + 5) % 8] ^ v);
    x2.update((i + 7) % 8, wadd(x2[(i + 7) % 8], x2[i]))
}

/// The mixing updates at positions `i..8`.
pub open spec fn mix_from(x: Seq<u64>, i: int) -> Seq<u64>
    decreases 8 - i,
{
    if i >= 8 || i < 0 {
        x
    } else {
        mix_from(mix_one(x, i), i + 1)
    }
}

/// `mem` with `blk` written at positions `base..base + 8`.
pub open spec fn write8(mem: Seq<u64>, base: int, blk: Seq<u64>) -> Seq<u64> {
    Seq::new(mem.len(), |k: int| if base <= k < base + 8 { blk[k - base] } else { mem[k] })
}

/// One seeding pass over blocks `blk..32`: each block of `src` is added into
/// the running mix (when `add` holds), mixed, and written to the state.
pub open spec fn seed_pass(x: Seq<u64>, src: Seq<u64>, mem: Seq<u64>, blk: int, add: bool) -> (Seq<u64>, Seq<u64>)
    decreases 32 - blk,
{
    if blk >= 32 || blk < 0 {
        (x, mem)
    } else {
        let x1 = if add { Seq::new(8, |j: int| wadd(x[j], src[blk * 8 + j])) } else { x };
        let x2 = mix_from(x1, 0);
        seed_pass(x2, src, write8(mem, blk * 8, x2), blk + 1, add)
    }
}

/// The starting mix.
pub open spec fn golden_mix() -> Seq<u64> {
    seq![
        0x647c4677a2884b7c, 0xb9f8b322c73ac862, 0x8c0ea5053d4712a0, 0xb29b2e824a595524,
        0x82f053db8355e0ce, 0x48fe4a0fa5a09315, 0xae985bf2cbfc89ed, 0x98f5704f6c44c0ab
    ]
}

/// The (state, results, aa, bb, cc) that seeding with results `rsl` and
/// state `mem` produces; with `zero` the results are not mixed in and there
/// is no second pass.
pub open spec fn seeded(rsl: Seq<u64>, mem: Seq<u64>, zero: bool) -> (Seq<u64>, Seq<u64>, u64, u64, u64) {
    let p1 = seed_pass(golden_mix(), rsl, mem, 0, !zero);
    let p2 = if zero { p1 } else { seed_pass(p1.0, p1.1, p1.1, 0, true) };
    isaac_refill((p2.1, rsl, 0, 0, 0))
}

/// The 64-bit word made of bytes `8k..8k + 8` of `b`, least significant first.
pub open spec fn le_word(b: Seq<u8>, k: int) -> u64 {
    (b[8 * k] as u64) | ((b[8 * k + 1] as u64) << 8u64) | ((b[8 * k + 2] as u64) << 16u64)
        | ((b[8 * k + 3] as u64) << 24u64) | ((b[8 * k + 4] as u64) << 32u64)
        | ((b[8 * k + 5] as u64) << 40u64) | ((b[8 * k + 6] as u64) << 48u64)
        | ((b[8 * k + 7] as u64) << 56u64)
}

/// The 64-bit word made of halves `2k` (low) and `2k + 1` (high) of `h`.
pub open spec fn le_dword(h: Seq<u32>, k: int) -> u64 {
    (h[2 * k] as u64) | ((h[2 * k + 1] as u64) << 32u64)
}

/// `v` reduced to `0..=max`, except that a bound of zero or of the type's
/// maximum leaves `v` as it is.
pub open spec fn bounded(v: int, max: int, type_max: int) -> int {
    if max == 0 || max == type_max { v } else { v % (max + 1) }
}

/// A snapshot of a generator: where its buffers live, their contents and
/// its counters.
pub struct Isaac64RngState {
    base_addr: PhysAddr,
    rng_buf: Vec<u64>,
    rng_state_buf: Vec<u64>,
    aa: u64,
    bb: u64,
    cc: u64,
    rng_buf_cur_idx: usize,
    banked8: [u8; 8],
    banked16: [u16; 4],
    banked32: [u32; 2],
}

/// An ISAAC-64 generator.
pub struct Isaac64Rng {
    base_addr: PhysAddr,
    rng_buf: Vec<u64>,
    rng_state_buf: Vec<u64>,
    aa: u64,
    bb: u64,
    cc: u64,
    rng_buf_cur_idx: usize,
    banked8: [u8; 8],
    banked16: [u16; 4],
    banked32: [u32; 2],
}

impl Isaac64RngState {
    /// The snapshot's buffer address.
    pub closed spec fn base(&self) -> PhysAddr {
        self.base_addr
    }

    /// The snapshot's (state, results, aa, bb, cc).
    pub closed spec fn engine(&self) -> (Seq<u64>, Seq<u64>, u64, u64, u64) {
        (self.rng_state_buf@, self.rng_buf@, self.aa, self.bb, self.cc)
    }

    /// The snapshot's read position.
    pub closed spec fn idx(&self) -> int {
        self.rng_buf_cur_idx as int
    }

    /// The snapshot's banks.
    pub closed spec fn banks(&self) -> (Seq<u8>, Seq<u16>, Seq<u32>) {
        (self.banked8@, self.banked16@, self.banked32@)
    }
}

impl Isaac64Rng {
    /// The buffer address.
    pub closed spec fn base(&self) -> PhysAddr {
        self.base_addr
    }

    /// The (state, results, aa, bb, cc).
    pub closed spec fn engine(&self) -> (Seq<u64>, Seq<u64>, u64, u64, u64) {
        (self.rng_state_buf@, self.rng_buf@, self.aa, self.bb, self.cc)
    }

    /// The read position: results below it are still to be handed out, from
    /// the top down.
    pub closed spec fn idx(&self) -> int {
        self.rng_buf_cur_idx as int
    }

    /// The 8-, 16- and 32-bit banks; element 0 of each is the count held.
    pub closed spec fn banks(&self) -> (Seq<u8>, Seq<u16>, Seq<u32>) {
        (self.banked8@, self.banked16@, self.banked32@)
    }

    /// Both buffers hold 256 words, the read position lies within the
    /// results, and each bank's count fits the bank.
    pub closed spec fn wf(&self) -> bool {
        &&& self.rng_buf@.len() == 256
        &&& self.rng_state_buf@.len() == 256
        &&& self.rng_buf_cur_idx <= 256
        &&& self.banked8[0] <= 7
        &&& self.banked16[0] <= 3
        &&& self.banked32[0] <= 1
    }

    /// The (state, results, aa, bb, cc) after taking one result: refilled
    /// first when the read position is at the bottom.
    pub open spec fn next_engine(&self) -> (Seq<u64>, Seq<u64>, u64, u64, u64) {
        if self.idx() == 0 { isaac_refill(self.engine()) } else { self.engine() }
    }

    /// The read position after taking one result.
    pub open spec fn next_idx(&self) -> int {
        if self.idx() == 0 { 255 } else { self.idx() - 1 }
    }

    /// The result taken next.
    pub open spec fn next_value(&self) -> u64 {
        self.next_engine().1[self.next_idx()]
    }

    /// `n` is `o` after one result was taken, banks untouched.
    pub open spec fn took_one(o: &Isaac64Rng, n: &Isaac64Rng) -> bool {
        &&& n.wf()
        &&& n.engine() == o.next_engine()
        &&& n.idx() == o.next_idx()
        &&& n.base() == o.base()
    }

    /// `n` and `o` agree on everything but the banks.
    pub open spec fn same_but_banks(o: &Isaac64Rng, n: &Isaac64Rng) -> bool {
        &&& n.wf()
        &&& n.engine() == o.engine()
        &&& n.idx() == o.idx()
        &&& n.base() == o.base()
    }

    /// What one 64-bit draw with bound `max` does.
    pub open spec fn rand64_post(o: &Isaac64Rng, n: &Isaac64Rng, max: u64, r: u64) -> bool {
        &&& Isaac64Rng::took_one(o, n)
        &&& n.banks() == o.banks()
        &&& r == bounded(o.next_value() as int, max as int, u64::MAX as int)
    }

    /// What one 32-bit draw with bound `max` does: a banked value is used
    /// first; otherwise a 64-bit result is taken, its low half returned and
    /// its high half banked.
    pub open spec fn rand32_post(o: &Isaac64Rng, n: &Isaac64Rng, max: u32, r: u32) -> bool {
        let b = o.banks().2;
        if b[0] > 0 {
            &&& Isaac64Rng::same_but_banks(o, n)
            &&& n.banks().0 == o.banks().0
            &&& n.banks().1 == o.banks().1
            &&& n.banks().2 == b.update(b[0] as int, 0).update(0, (b[0] - 1) as u32)
            &&& r == bounded(b[b[0] as int] as int, max as int, u32::MAX as int)
        } else {
            let v = o.next_value();
            &&& Isaac64Rng::took_one(o, n)
            &&& n.banks().0 == o.banks().0
            &&& n.banks().1 == o.banks().1
            &&& n.banks().2 == seq![1u32, ((v & DWORD1_U64) >> 32u64) as u32]
            &&& r == bounded((v & DWORD0_U64) as u32 as int, max as int, u32::MAX as int)
        }
    }

    /// What one 16-bit draw with bound `max` does: a banked value is used
    /// first; otherwise a 64-bit result is taken, its lowest quarter
    /// returned and the other three banked.
    pub open spec fn rand16_post(o: &Isaac64Rng, n: &Isaac64Rng, max: u16, r: u16) -> bool {
        let b = o.banks().1;
        if b[0] > 0 {
            &&& Isaac64Rng::same_but_banks(o, n)
            &&& n.banks().0 == o.banks().0
            &&& n.banks().2 == o.banks().2
            &&& n.banks().1 == b.update(b[0] as int, 0).update(0, (b[0] - 1) as u16)
            &&& r == bounded(b[b[0] as int] as int, max as int, u16::MAX as int)
        } else {
            let v = o.next_value();
            &&& Isaac64Rng::took_one(o, n)
            &&& n.banks().0 == o.banks().0
            &&& n.banks().2 == o.banks().2
            &&& n.banks().1 == seq![3u16, ((v & WORD1_U64) >> 16u64) as u16, ((v & WORD2_U64) >> 32u64) as u16,
                ((v & WORD3_U64) >> 48u64) as u16]
            &&& r == bounded((v & WORD0_U64) as u16 as int, max as int, u16::MAX as int)
        }
    }

    /// What one 8-bit draw with bound `max` does: a banked value is used
    /// first; otherwise a 64-bit result is taken, its lowest byte returned
    /// and the other seven banked.
    pub open spec fn rand8_post(o: &Isaac64Rng, n: &Isaac64Rng, max: u8, r: u8) -> bool {
        let b = o.banks().0;
        if b[0] > 0 {
            &&& Isaac64Rng::same_but_banks(o, n)
            &&& n.banks().1 == o.banks().1
            &&& n.banks().2 == o.banks().2
            &&& n.banks().0 == b.update(b[0] as int, 0).update(0, (b[0] - 1) as u8)
            &&& r == bounded(b[b[0] as int] as int, max as int, u8::MAX as int)
        } else {
            let v = o.next_value();
            &&& Isaac64Rng::took_one(o, n)
            &&& n.banks().1 == o.banks().1
            &&& n.banks().2 == o.banks().2
            &&& n.banks().0 == seq![7u8, ((v & BYTE1_U64) >> 8u64) as u8, ((v & BYTE2_U64) >> 16u64) as u8,
                ((v & BYTE3_U64) >> 24u64) as u8, ((v & BYTE4_U64) >> 32u64) as u8, ((v & BYTE5_U64) >> 40u64) as u8,
                ((v & BYTE6_U64) >> 48u64) as u8, ((v & BYTE7_U64) >> 56u64) as u8]
            &&& r == bounded((v & BYTE0_U64) as u8 as int, max as int, u8::MAX as int)
        }
    }
}

/// 256 zero words.
pub open spec fn zeros256() -> Seq<u64> {
    Seq::new(256, |i: int| 0u64)
}

/// The stir of the accumulator before step `i`.
fn stir_exec(a: u64, i: usize) -> (r: u64)
    ensures
        r == stir(a, i as int),
{
    let m = i % 4;
    if m == 0 {
        !(a ^ (a << 21u64))
    } else if m == 1 {
        a ^ (a >> 5u64)
    } else if m == 2 {
        a ^ (a << 12u64)
    } else {
        a ^ (a >> 33u64)
    }
}

/// The mixing shift at position `i`.
fn mix_shift_exec(i: usize) -> (r: u64)
    requires
        i < 8,
    ensures
        r == mix_shift(i as int),
{
    if i == 0 || i == 1 {
        9
    } else if i == 2 {
        23
    } else if i == 3 {
        15
    } else if i == 4 || i == 7 {
        14
    } else if i == 5 {
        20
    } else {
        17
    }
}

impl Isaac64Rng {
    /// Mixes an eight-word block in place.
    fn mix(x: &mut [u64; 8])
        ensures
            final(x)@ == mix_from(old(x)@, 0),
    {
        let ghost target = mix_from(old(x)@, 0);
        let mut i: usize = 0;
        while i < 8
            invariant
                i <= 8,
                target == mix_from(x@, i as int),
            decreases 8 - i,
        {
            let ghost x0 = x@;
            let a4 = (i + 4) % 8;
            let a5 = (i + 5) % 8;
            let a7 = (i + 7) % 8;
            x[i] = x[i].wrapping_sub(x[a4]);
            let sh = mix_shift_exec(i);
            let v = if i % 2 == 0 { x[a7] >> sh } else { x[a7] << sh };
            x[a5] = x[a5] ^ v;
            x[a7] = x[a7].wrapping_add(x[i]);
            assert(x@ =~= mix_one(x0, i as int));
            i = i + 1;
        }
    }

    /// The state word `x` points at.
    fn ind_exec(&self, x: u64) -> (r: u64)
        requires
            self.wf(),
        ensures
            r == ind(self.engine().0, x),
    {
        let k = (x & IND_MASK) >> 3u64;
        assert(k < 256) by (bit_vector)
            requires k == (x & 0x7F8u64) >> 3u64;
        self.rng_state_buf[k as usize]
    }

    /// Refills the results.
    fn isaac64(&mut self)
        requires
            old(self).wf(),
        ensures
            final(self).wf(),
            final(self).engine() == isaac_refill(old(self).engine()),
            final(self).idx() == old(self).idx(),
            final(self).banks() == old(self).banks(),
            final(self).base() == old(self).base(),
    {
        let ghost target = isaac_refill(self.engine());
        let mut a: u64 = self.aa;
        self.cc = self.cc.wrapping_add(1);
        let mut b: u64 = self.bb.wrapping_add(self.cc);
        let mut i: usize = 0;
        while i < ISAAC64_SZ_64
            invariant
                self.wf(),
                i <= 256,
                target.4 == self.cc,
                (target.0, target.1, target.2, target.3) == isaac_rounds((self.rng_state_buf@, self.rng_buf@, a, b), i as int),
                self.idx() == old(self).idx(),
                self.banks() == old(self).banks(),
                self.base() == old(self).base(),
            decreases 256 - i,
        {
            let x = self.rng_state_buf[i];
            a = stir_exec(a, i).wrapping_add(self.rng_state_buf[(i + 128) % 256]);
            let y = self.ind_exec(x).wrapping_add(a).wrapping_add(b);
            self.rng_state_buf.set(i, y);
            b = self.ind_exec(y >> 8u64).wrapping_add(x);
            self.rng_buf.set(i, b);
            i = i + 1;
        }
        self.bb = b;
        self.aa = a;
    }

    /// Seeds the state from the results (unless `init_zero_state`), then
    /// fills the results.
    fn init(&mut self, init_zero_state: bool)
        requires
            old(self).wf(),
        ensures
            final(self).wf(),
            final(self).engine() == seeded(old(self).engine().1, old(self).engine().0, init_zero_state),
            final(self).idx() == 256,
            final(self).banks() == old(self).banks(),
            final(self).base() == old(self).base(),
    {
        let mut x: [u64; 8] = [
            0x647c4677a2884b7c, 0xb9f8b322c73ac862,
            0x8c0ea5053d4712a0, 0xb29b2e824a595524,
            0x82f053db8355e0ce, 0x48fe4a0fa5a09315,
            0xae985bf2cbfc89ed, 0x98f5704f6c44c0ab,
        ];
        assert(x@ =~= golden_mix());
        self.aa = 0;
        self.bb = 0;
        self.cc = 0;
        let ghost rsl = self.rng_buf@;
        let ghost p1 = seed_pass(golden_mix(), rsl, self.rng_state_buf@, 0, !init_zero_state);
        let mut blk: usize = 0;
        while blk < 32
            invariant
                self.wf(),
                blk <= 32,
                self.rng_buf@ == rsl,
                p1 == seed_pass(x@, rsl, self.rng_state_buf@, blk as int, !init_zero_state),
                self.aa == 0 && self.bb == 0 && self.cc == 0,
                self.idx() == old(self).idx(),
                self.banks() == old(self).banks(),
                self.base() == old(self).base(),
            decreases 32 - blk,
        {
            let ghost x0 = x@;
            if !init_zero_state {
                let mut j: usize = 0;
                while j < 8
                    invariant
                        self.wf(),
                        blk < 32,
                        j <= 8,
                        self.rng_buf@ == rsl,
                        forall|k: int| 0 <= k < j ==> x@[k] == wadd(x0[k], rsl[blk * 8 + k]),
                        forall|k: int| j <= k < 8 ==> x@[k] == x0[k],
                    decreases 8 - j,
                {
                    x[j] = x[j].wrapping_add(self.rng_buf[blk * 8 + j]);
                    j = j + 1;
                }
                assert(x@ =~= Seq::new(8, |k: int| wadd(x0[k], rsl[blk * 8 + k])));
            }
            Self::mix(&mut x);
            let ghost m0 = self.rng_state_buf@;
            let mut j: usize = 0;
            while j < 8
                invariant
                    self.wf(),
                    blk < 32,
                    j <= 8,
                    self.rng_buf@ == rsl,
                    self.rng_state_buf@.len() == 256,
                    forall|k: int| 0 <= k < 256 ==> #[trigger] self.rng_state_buf@[k]
                        == (if blk * 8 <= k < blk * 8 + j { x@[k - blk * 8] } else { m0[k] }),
                    self.aa == 0 && self.bb == 0 && self.cc == 0,
                    self.idx() == old(self).idx(),
                    self.banks() == old(self).banks(),
                    self.base() == old(self).base(),
                decreases 8 - j,
            {
                self.rng_state_buf.set(blk * 8 + j, x[j]);
                j = j + 1;
            }
            assert(self.rng_state_buf@ =~= write8(m0, blk * 8, x@));
            blk = blk + 1;
        }
        if !init_zero_state {
            let ghost src = self.rng_state_buf@;
            let ghost p2 = seed_pass(x@, src, src, 0, true);
            let mut blk: usize = 0;
            while blk < 32
                invariant
                    self.wf(),
                    blk <= 32,
                    self.rng_buf@ == rsl,
                    p2 == seed_pass(x@, src, self.rng_state_buf@, blk as int, true),
                    forall|k: int| blk * 8 <= k < 256 ==> #[trigger] self.rng_state_buf@[k] == src[k],
                    self.aa == 0 && self.bb == 0 && self.cc == 0,
                    self.idx() == old(self).idx(),
                    self.banks() == old(self).banks(),
                    self.base() == old(self).base(),
                decreases 32 - blk,
            {
                let ghost x0 = x@;
                let mut j: usize = 0;
                while j < 8
                    invariant
                        self.wf(),
                        blk < 32,
                        j <= 8,
                        forall|k: int| blk * 8 <= k < 256 ==> #[trigger] self.rng_state_buf@[k] == src[k],
                        forall|k: int| 0 <= k < j ==> x@[k] == wadd(x0[k], src[blk * 8 + k]),
                        forall|k: int| j <= k < 8 ==> x@[k] == x0[k],
                    decreases 8 - j,
                {
                    x[j] = x[j].wrapping_add(self.rng_state_buf[blk * 8 + j]);
                    j = j + 1;
                }
                assert(x@ =~= Seq::new(8, |k: int| wadd(x0[k], src[blk * 8 + k])));
                Self::mix(&mut x);
                let ghost m0 = self.rng_state_buf@;
                let mut j: usize = 0;
                while j < 8
                    invariant
                        self.wf(),
                        blk < 32,
                        j <= 8,
                        self.rng_buf@ == rsl,
                        self.rng_state_buf@.len() == 256,
                        forall|k: int| 0 <= k < 256 ==> #[trigger] self.rng_state_buf@[k]
                            == (if blk * 8 <= k < blk * 8 + j { x@[k - blk * 8] } else { m0[k] }),
                        self.aa == 0 && self.bb == 0 && self.cc == 0,
                        self.idx() == old(self).idx(),
                        self.banks() == old(self).banks(),
                        self.base() == old(self).base(),
                    decreases 8 - j,
                {
                    self.rng_state_buf.set(blk * 8 + j, x[j]);
                    j = j + 1;
                }
                assert(self.rng_state_buf@ =~= write8(m0, blk * 8, x@));
                blk = blk + 1;
            }
        }
        self.isaac64();
        self.reset_cur_idx();
    }

    /// Zeroes the state buffer.
    fn clear_state(&mut self)
        requires
            old(self).wf(),
        ensures
            final(self).wf(),
            final(self).engine() == (zeros256(), old(self).engine().1, old(self).engine().2, old(self).engine().3,
                old(self).engine().4),
            final(self).idx() == old(self).idx(),
            final(self).banks() == old(self).banks(),
            final(self).base() == old(self).base(),
    {
        let mut i: usize = 0;
        while i < ISAAC64_SZ_64
            invariant
                self.wf(),
                i <= 256,
                forall|k: int| 0 <= k < i ==> #[trigger] self.rng_state_buf@[k] == 0,
                self.rng_buf@ == old(self).rng_buf@,
                self.aa == old(self).aa && self.bb == old(self).bb && self.cc == old(self).cc,
                self.idx() == old(self).idx(),
                self.banks() == old(self).banks(),
                self.base() == old(self).base(),
            decreases 256 - i,
        {
            self.rng_state_buf.set(i, 0);
            i = i + 1;
        }
        assert(self.rng_state_buf@ =~= zeros256());
    }

    /// Moves the read position to the top of the results.
    fn reset_cur_idx(&mut self)
        requires
            old(self).wf(),
        ensures
            final(self).wf(),
            final(self).engine() == old(self).engine(),
            final(self).idx() == 256,
            final(self).banks() == old(self).banks(),
            final(self).base() == old(self).base(),
    {
        self.rng_buf_cur_idx = ISAAC64_SZ_64;
    }

    /// Steps the read position down by one, refilling first when it is at
    /// the bottom.
    fn dec_cur_idx(&mut self)
        requires
            old(self).wf(),
        ensures
            Isaac64Rng::took_one(old(self), final(self)),
            final(self).banks() == old(self).banks(),
    {
        if self.rng_buf_cur_idx == 0 {
            self.shuffle();
        }
        self.rng_buf_cur_idx = self.rng_buf_cur_idx - 1;
    }

    /// Refills the results and moves the read position to the top.
    pub fn shuffle(&mut self)
        requires
            old(self).wf(),
        ensures
            final(self).wf(),
            final(self).engine() == isaac_refill(old(self).engine()),
            final(self).idx() == 256,
            final(self).banks() == old(self).banks(),
            final(self).base() == old(self).base(),
    {
        self.isaac64();
        self.reset_cur_idx();
    }

    /// A 64-bit draw: the next result, reduced to `0..=max` unless `max` is
    /// zero or the largest value.
    pub fn rand64(&mut self, max: u64) -> (r: u64)
        requires
            old(self).wf(),
        ensures
            Isaac64Rng::rand64_post(old(self), final(self), max, r),
    {
        let maxval = if max == u64::MAX { 0 } else { max };
        self.dec_cur_idx();
        let rval = self.rng_buf[self.rng_buf_cur_idx];
        if maxval == 0 { rval } else { rval % (maxval + 1) }
    }

    /// A 32-bit draw (see `rand32_post`).
    pub fn rand32(&mut self, max: u32) -> (r: u32)
        requires
            old(self).wf(),
        ensures
            Isaac64Rng::rand32_post(old(self), final(self), max, r),
    {
        let maxval = if max == u32::MAX { 0 } else { max };
        if self.banked32[0] > 0 {
            let k = self.banked32[0] as usize;
            let rval = self.banked32[k];
            self.banked32[k] = 0;
            self.banked32[0] = self.banked32[0] - 1;
            return if maxval == 0 { rval } else { rval % (maxval + 1) };
        }
        self.dec_cur_idx();
        let nextval = self.rng_buf[self.rng_buf_cur_idx];
        assert(nextval == old(self).next_value());
        self.banked32[0] = 1;
        self.banked32[1] = ((nextval & DWORD1_U64) >> 32u64) as u32;
        assert(self.banked32@ =~= seq![1u32, ((nextval & DWORD1_U64) >> 32u64) as u32]);
        if maxval == 0 {
            (nextval & DWORD0_U64) as u32
        } else {
            ((nextval & DWORD0_U64) as u32) % (maxval + 1)
        }
    }

    /// A 16-bit draw (see `rand16_post`).
    pub fn rand16(&mut self, max: u16) -> (r: u16)
        requires
            old(self).wf(),
        ensures
            Isaac64Rng::rand16_post(old(self), final(self), max, r),
    {
        let maxval = if max == u16::MAX { 0 } else { max };
        if self.banked16[0] > 0 {
            let k = self.banked16[0] as usize;
            let rval = self.banked16[k];
            self.banked16[k] = 0;
            self.banked16[0] = self.banked16[0] - 1;
            return if maxval == 0 { rval } else { rval % (maxval + 1) };
        }
        self.dec_cur_idx();
        let nextval = self.rng_buf[self.rng_buf_cur_idx];
        assert(nextval == old(self).next_value());
        self.banked16[0] = 3;
        self.banked16[1] = ((nextval & WORD1_U64) >> 16u64) as u16;
        self.banked16[2] = ((nextval & WORD2_U64) >> 32u64) as u16;
        self.banked16[3] = ((nextval & WORD3_U64) >> 48u64) as u16;
        assert(self.banked16@ =~= seq![3u16, ((nextval & WORD1_U64) >> 16u64) as u16, ((nextval & WORD2_U64) >> 32u64) as u16, ((nextval & WORD3_U64) >> 48u64) as u16]);
        if maxval == 0 {
            (nextval & WORD0_U64) as u16
        } else {
            ((nextval & WORD0_U64) as u16) % (maxval + 1)
        }
    }

    /// An 8-bit draw (see `rand8_post`).
    pub fn rand8(&mut self, max: u8) -> (r: u8)
        requires
            old(self).wf(),
        ensures
            Isaac64Rng::rand8_post(old(self), final(self), max, r),
    {
        let maxval = if max == u8::MAX { 0 } else { max };
        if self.banked8[0] > 0 {
            let k = self.banked8[0] as usize;
            let rval = self.banked8[k];
            self.banked8[k] = 0;
            self.banked8[0] = self.banked8[0] - 1;
            return if maxval == 0 { rval } else { rval % (maxval + 1) };
        }
        self.dec_cur_idx();
        let nextval = self.rng_buf[self.rng_buf_cur_idx];
        assert(nextval == old(self).next_value());
        self.banked8[0] = 7;
        self.banked8[1] = ((nextval & BYTE1_U64) >> 8u64) as u8;
        self.banked8[2] = ((nextval & BYTE2_U64) >> 16u64) as u8;
        self.banked8[3] = ((nextval & BYTE3_U64) >> 24u64) as u8;
        self.banked8[4] = ((nextval & BYTE4_U64) >> 32u64) as u8;
        self.banked8[5] = ((nextval & BYTE5_U64) >> 40u64) as u8;
        self.banked8[6] = ((nextval & BYTE6_U64) >> 48u64) as u8;
        self.banked8[7] = ((nextval & BYTE7_U64) >> 56u64) as u8;
        assert(self.banked8@ =~= seq![7u8, ((nextval & BYTE1_U64) >> 8u64) as u8, ((nextval & BYTE2_U64) >> 16u64) as u8, ((nextval & BYTE3_U64) >> 24u64) as u8, ((nextval & BYTE4_U64) >> 32u64) as u8, ((nextval & BYTE5_U64) >> 40u64) as u8, ((nextval & BYTE6_U64) >> 48u64) as u8, ((nextval & BYTE7_U64) >> 56u64) as u8]);
        if maxval == 0 {
            (nextval & BYTE0_U64) as u8
        } else {
            ((nextval & BYTE0_U64) as u8) % (maxval + 1)
        }
    }
}

impl Isaac64Rng {
    /// `n` is `o`, unchanged.
    pub open spec fn unchanged(o: &Isaac64Rng, n: &Isaac64Rng) -> bool {
        &&& n.wf()
        &&& n.engine() == o.engine()
        &&& n.idx() == o.idx()
        &&& n.banks() == o.banks()
        &&& n.base() == o.base()
    }

    /// What a ranged 64-bit draw between `min` and `max` does: nothing when
    /// they are equal (the result is `min`); otherwise a 64-bit draw bounded
    /// by the width of the interval, shifted up to its lower end.
    pub open spec fn ranged64_post(o: &Isaac64Rng, n: &Isaac64Rng, min: u64, max: u64, r: u64) -> bool {
        if min == max {
            Isaac64Rng::unchanged(o, n) && r == min
        } else {
            let lo = if max < min { max } else { min };
            let hi = if max < min { min } else { max };
            lo <= r <= hi && Isaac64Rng::rand64_post(o, n, (hi - lo) as u64, (r - lo) as u64)
        }
    }

    /// What a ranged 32-bit draw between `min` and `max` does.
    pub open spec fn ranged32_post(o: &Isaac64Rng, n: &Isaac64Rng, min: u32, max: u32, r: u32) -> bool {
        if min == max {
            Isaac64Rng::unchanged(o, n) && r == min
        } else {
            let lo = if max < min { max } else { min };
            let hi = if max < min { min } else { max };
            lo <= r <= hi && Isaac64Rng::rand32_post(o, n, (hi - lo) as u32, (r - lo) as u32)
        }
    }

    /// What a ranged 16-bit draw between `min` and `max` does.
    pub open spec fn ranged16_post(o: &Isaac64Rng, n: &Isaac64Rng, min: u16, max: u16, r: u16) -> bool {
        if min == max {
            Isaac64Rng::unchanged(o, n) && r == min
        } else {
            let lo = if max < min { max } else { min };
            let hi = if max < min { min } else { max };
            lo <= r <= hi && Isaac64Rng::rand16_post(o, n, (hi - lo) as u16, (r - lo) as u16)
        }
    }

    /// What a ranged 8-bit draw between `min` and `max` does.
    pub open spec fn ranged8_post(o: &Isaac64Rng, n: &Isaac64Rng, min: u8, max: u8, r: u8) -> bool {
        if min == max {
            Isaac64Rng::unchanged(o, n) && r == min
        } else {
            let lo = if max < min { max } else { min };
            let hi = if max < min { min } else { max };
            lo <= r <= hi && Isaac64Rng::rand8_post(o, n, (hi - lo) as u8, (r - lo) as u8)
        }
    }

    /// A draw between `min` and `max` inclusive, in either order.
    pub fn ranged_rand64(&mut self, min: u64, max: u64) -> (r: u64)
        requires
            old(self).wf(),
        ensures
            Isaac64Rng::ranged64_post(old(self), final(self), min, max, r),
    {
        if min == max {
            return min;
        }
        let (minval, maxval) = if max < min { (max, min) } else { (min, max) };
        let max_rval = maxval - minval;
        let rval = self.rand64(max_rval);
        rval + minval
    }

    /// A ranged draw on the signed values: their bit patterns are drawn
    /// between as unsigned values, and the result read back as signed.
    pub fn ranged_rand64_signed(&mut self, min: i64, max: i64) -> (r: i64)
        requires
            old(self).wf(),
        ensures
            min == max ==> Isaac64Rng::unchanged(old(self), final(self)) && r == min,
            min != max ==> Isaac64Rng::ranged64_post(old(self), final(self), min as u64, max as u64, r as u64),
    {
        if min == max {
            return min;
        }
        assert(min as u64 != max as u64) by (bit_vector)
            requires min != max;
        let rval = self.ranged_rand64(min as u64, max as u64);
        assert((rval as i64) as u64 == rval) by (bit_vector);
        rval as i64
    }

    /// A draw between `min` and `max` inclusive, in either order.
    pub fn ranged_rand32(&mut self, min: u32, max: u32) -> (r: u32)
        requires
            old(self).wf(),
        ensures
            Isaac64Rng::ranged32_post(old(self), final(self), min, max, r),
    {
        if min == max {
            return min;
        }
        let (minval, maxval) = if max < min { (max, min) } else { (min, max) };
        let max_rval = maxval - minval;
        let rval = self.rand32(max_rval);
        rval + minval
    }

    /// A ranged draw on the signed values: their bit patterns are drawn
    /// between as unsigned values, and the result read back as signed.
    pub fn ranged_rand32_signed(&mut self, min: i32, max: i32) -> (r: i32)
        requires
            old(self).wf(),
        ensures
            min == max ==> Isaac64Rng::unchanged(old(self), final(self)) && r == min,
            min != max ==> Isaac64Rng::ranged32_post(old(self), final(self), min as u32, max as u32, r as u32),
    {
        if min == max {
            return min;
        }
        assert(min as u32 != max as u32) by (bit_vector)
            requires min != max;
        let rval = self.ranged_rand32(min as u32, max as u32);
        assert((rval as i32) as u32 == rval) by (bit_vector);
        rval as i32
    }

    /// A draw between `min` and `max` inclusive, in either order.
    pub fn ranged_rand16(&mut self, min: u16, max: u16) -> (r: u16)
        requires
            old(self).wf(),
        ensures
            Isaac64Rng::ranged16_post(old(self), final(self), min, max, r),
    {
        if min == max {
            return min;
        }
        let (minval, maxval) = if max < min { (max, min) } else { (min, max) };
        let max_rval = maxval - minval;
        let rval = self.rand16(max_rval);
        rval + minval
    }

    /// A ranged draw on the signed values: their bit patterns are drawn
    /// between as unsigned values, and the result read back as signed.
    pub fn ranged_rand16_signed(&mut self, min: i16, max: i16) -> (r: i16)
        requires
            old(self).wf(),
        ensures
            min == max ==> Isaac64Rng::unchanged(old(self), final(self)) && r == min,
            min != max ==> Isaac64Rng::ranged16_post(old(self), final(self), min as u16, max as u16, r as u16),
    {
        if min == max {
            return min;
        }
        assert(min as u16 != max as u16) by (bit_vector)
            requires min != max;
        let rval = self.ranged_rand16(min as u16, max as u16);
        assert((rval as i16) as u16 == rval) by (bit_vector);
        rval as i16
    }

    /// A draw between `min` and `max` inclusive, in either order.
    pub fn ranged_rand8(&mut self, min: u8, max: u8) -> (r: u8)
        requires
            old(self).wf(),
        ensures
            Isaac64Rng::ranged8_post(old(self), final(self), min, max, r),
    {
        if min == max {
            return min;
        }
        let (minval, maxval) = if max < min { (max, min) } else { (min, max) };
        let max_rval = maxval - minval;
        let rval = self.rand8(max_rval);
        rval + minval
    }

    /// A ranged draw on the signed values: their bit patterns are drawn
    /// between as unsigned values, and the result read back as signed.
    pub fn ranged_rand8_signed(&mut self, min: i8, max: i8) -> (r: i8)
        requires
            old(self).wf(),
        ensures
            min == max ==> Isaac64Rng::unchanged(old(self), final(self)) && r == min,
            min != max ==> Isaac64Rng::ranged8_post(old(self), final(self), min as u8, max as u8, r as u8),
    {
        if min == max {
            return min;
        }
        assert(min as u8 != max as u8) by (bit_vector)
            requires min != max;
        let rval = self.ranged_rand8(min as u8, max as u8);
        assert((rval as i8) as u8 == rval) by (bit_vector);
        rval as i8
    }

    /// A machine-word draw: a 64-bit draw on a 64-bit target, a 32-bit one
    /// on a 32-bit target.
    pub fn rand_usize(&mut self, max: usize) -> (r: usize)
        requires
            old(self).wf(),
        ensures
            usize::BITS == 64 ==> Isaac64Rng::rand64_post(old(self), final(self), max as u64, r as u64),
            usize::BITS == 32 ==> Isaac64Rng::rand32_post(old(self), final(self), max as u32, r as u32),
    {
        if usize::BITS == 32 {
            self.rand32(max as u32) as usize
        } else {
            self.rand64(max as u64) as usize
        }
    }

    /// A ranged machine-word draw.
    pub fn ranged_rand_usize(&mut self, min: usize, max: usize) -> (r: usize)
        requires
            old(self).wf(),
        ensures
            usize::BITS == 64 ==> Isaac64Rng::ranged64_post(old(self), final(self), min as u64, max as u64, r as u64),
            usize::BITS == 32 ==> Isaac64Rng::ranged32_post(old(self), final(self), min as u32, max as u32, r as u32),
    {
        if usize::BITS == 32 {
            self.ranged_rand32(min as u32, max as u32) as usize
        } else {
            self.ranged_rand64(min as u64, max as u64) as usize
        }
    }

    /// A ranged signed machine-word draw.
    pub fn ranged_rand_usize_signed(&mut self, min: isize, max: isize) -> (r: isize)
        requires
            old(self).wf(),
        ensures
            usize::BITS == 64 && min == max ==> Isaac64Rng::unchanged(old(self), final(self)) && r == min,
            usize::BITS == 64 && min != max ==> Isaac64Rng::ranged64_post(old(self), final(self), min as u64,
                max as u64, r as u64),
            usize::BITS == 32 && min == max ==> Isaac64Rng::unchanged(old(self), final(self)) && r == min,
            usize::BITS == 32 && min != max ==> Isaac64Rng::ranged32_post(old(self), final(self), min as u32,
                max as u32, r as u32),
    {
        if usize::BITS == 32 {
            self.ranged_rand32_signed(min as i32, max as i32) as isize
        } else {
            self.ranged_rand64_signed(min as i64, max as i64) as isize
        }
    }

    /// Reseeds from one word: the state is cleared, the first result set to
    /// `seed` (the other results stay), and the generator seeded from the
    /// results, or from nothing when `seed` is zero.
    pub fn reseed_via_u64_val(&mut self, seed: u64)
        requires
            old(self).wf(),
        ensures
            final(self).wf(),
            final(self).engine() == seeded(old(self).engine().1.update(0, seed), zeros256(), seed == 0),
            final(self).idx() == 256,
            final(self).banks() == old(self).banks(),
            final(self).base() == old(self).base(),
    {
        self.clear_state();
        self.rng_buf.set(0, seed);
        self.init(seed == 0);
    }

    /// Reseeds from 256 words: the state is cleared, the results replaced by
    /// `seed`, and the generator seeded from them.
    pub fn reseed_via_u64_array(&mut self, seed: &[u64; 256])
        requires
            old(self).wf(),
        ensures
            final(self).wf(),
            final(self).engine() == seeded(seed@, zeros256(), false),
            final(self).idx() == 256,
            final(self).banks() == old(self).banks(),
            final(self).base() == old(self).base(),
    {
        self.clear_state();
        let mut i: usize = 0;
        while i < ISAAC64_SZ_64
            invariant
                self.wf(),
                i <= 256,
                forall|k: int| 0 <= k < i ==> #[trigger] self.rng_buf@[k] == seed@[k],
                self.rng_state_buf@ == zeros256(),
                self.idx() == old(self).idx(),
                self.banks() == old(self).banks(),
                self.base() == old(self).base(),
            decreases 256 - i,
        {
            self.rng_buf.set(i, seed[i]);
            i = i + 1;
        }
        assert(self.rng_buf@ =~= seed@);
        self.init(false);
    }

    /// Reseeds from 512 half-words, each pair read as one word (low half
    /// first), as `reseed_via_u64_array` does.
    pub fn reseed_via_u32_array(&mut self, seed: &[u32; 512])
        requires
            old(self).wf(),
        ensures
            final(self).wf(),
            final(self).engine() == seeded(Seq::new(256, |k: int| le_dword(seed@, k)), zeros256(), false),
            final(self).idx() == 256,
            final(self).banks() == old(self).banks(),
            final(self).base() == old(self).base(),
    {
        self.clear_state();
        let mut i: usize = 0;
        while i < ISAAC64_SZ_64
            invariant
                self.wf(),
                i <= 256,
                forall|k: int| 0 <= k < i ==> #[trigger] self.rng_buf@[k] == le_dword(seed@, k),
                self.rng_state_buf@ == zeros256(),
                self.idx() == old(self).idx(),
                self.banks() == old(self).banks(),
                self.base() == old(self).base(),
            decreases 256 - i,
        {
            let w = (seed[2 * i] as u64) | ((seed[2 * i + 1] as u64) << 32u64);
            self.rng_buf.set(i, w);
            i = i + 1;
        }
        assert(self.rng_buf@ =~= Seq::new(256, |k: int| le_dword(seed@, k)));
        self.init(false);
    }

    /// Reseeds from 1024 bytes, each eight read as one word (least
    /// significant byte first), into the lower half of the result buffer;
    /// the upper half keeps the results it holds. Then initialises as
    /// `reseed_via_u64_array` does.
    pub fn reseed_via_u8_array(&mut self, seed: &[u8; 1024])
        requires
            old(self).wf(),
        ensures
            final(self).wf(),
            final(self).engine() == seeded(Seq::new(256, |k: int| if k < 128 { le_word(seed@, k) } else { old(self).engine().1[k] }),
                zeros256(), false),
            final(self).idx() == 256,
            final(self).banks() == old(self).banks(),
            final(self).base() == old(self).base(),
    {
        self.clear_state();
        let mut i: usize = 0;
        while i < ISAAC64_SZ_64 / 2
            invariant
                self.wf(),
                i <= 128,
                forall|k: int| 0 <= k < i ==> #[trigger] self.rng_buf@[k] == le_word(seed@, k),
                forall|k: int| 128 <= k < 256 ==> #[trigger] self.rng_buf@[k] == old(self).engine().1[k],
                self.rng_state_buf@ == zeros256(),
                self.idx() == old(self).idx(),
                self.banks() == old(self).banks(),
                self.base() == old(self).base(),
            decreases 128 - i,
        {
            let b = 8 * i;
            let w = (seed[b] as u64) | ((seed[b + 1] as u64) << 8u64) | ((seed[b + 2] as u64) << 16u64)
                | ((seed[b + 3] as u64) << 24u64) | ((seed[b + 4] as u64) << 32u64)
                | ((seed[b + 5] as u64) << 40u64) | ((seed[b + 6] as u64) << 48u64)
                | ((seed[b + 7] as u64) << 56u64);
            self.rng_buf.set(i, w);
            i = i + 1;
        }
        assert(self.rng_buf@ =~= Seq::new(256, |k: int| if k < 128 { le_word(seed@, k) } else { old(self).engine().1[k] }));
        self.init(false);
    }

    /// A generator whose buffers live at `base_addr`, which must be a
    /// multiple of the default page size; the buffers start zeroed and the
    /// counters at zero.
    pub fn new_with_fixed_buf<A: Align>(base_addr: A) -> (r: Option<Isaac64Rng>)
        ensures
            r.is_some() == (base_addr.addr() % 4096 == 0),
            r matches Some(g) ==> {
                &&& g.wf()
                &&& g.base() == PhysAddr(base_addr.addr())
                &&& g.engine() == (zeros256(), zeros256(), 0u64, 0u64, 0u64)
                &&& g.idx() == 0
                &&& g.banks() == (seq![0u8, 0, 0, 0, 0, 0, 0, 0], seq![0u16, 0, 0, 0], seq![0u32, 0])
            },
    {
        if !base_addr.is_default_page_aligned() {
            return None;
        }
        let mut rng_buf: Vec<u64> = Vec::new();
        let mut rng_state_buf: Vec<u64> = Vec::new();
        let mut i: usize = 0;
        while i < ISAAC64_SZ_64
            invariant
                i <= 256,
                rng_buf@.len() == i,
                rng_state_buf@.len() == i,
                forall|k: int| 0 <= k < i ==> #[trigger] rng_buf@[k] == 0u64,
                forall|k: int| 0 <= k < i ==> #[trigger] rng_state_buf@[k] == 0u64,
            decreases 256 - i,
        {
            rng_buf.push(0);
            rng_state_buf.push(0);
            i = i + 1;
        }
        let g = Isaac64Rng {
            base_addr: PhysAddr(base_addr.inner()),
            rng_buf,
            rng_state_buf,
            aa: 0,
            bb: 0,
            cc: 0,
            rng_buf_cur_idx: 0,
            banked8: [0u8; 8],
            banked16: [0u16; 4],
            banked32: [0u32; 2],
        };
        assert(g.rng_buf@ =~= zeros256());
        assert(g.rng_state_buf@ =~= zeros256());
        assert(g.banked8@ =~= seq![0u8, 0, 0, 0, 0, 0, 0, 0]);
        assert(g.banked16@ =~= seq![0u16, 0, 0, 0]);
        assert(g.banked32@ =~= seq![0u32, 0]);
        Some(g)
    }

    /// Moves the buffers to `base_addr`, which must be a multiple of the
    /// default page size; their contents move along. Returns whether it
    /// moved them.
    pub fn rebase_buffer<A: Align>(&mut self, base_addr: A) -> (r: bool)
        requires
            old(self).wf(),
        ensures
            r == (base_addr.addr() % 4096 == 0),
            final(self).wf(),
            final(self).engine() == old(self).engine(),
            final(self).idx() == old(self).idx(),
            final(self).banks() == old(self).banks(),
            final(self).base() == (if r { PhysAddr(base_addr.addr()) } else { old(self).base() }),
    {
        if !base_addr.is_default_page_aligned() {
            return false;
        }
        self.base_addr = PhysAddr(base_addr.inner());
        true
    }

    /// A snapshot of the generator.
    pub fn export_rng_state(&self) -> (r: Isaac64RngState)
        requires
            self.wf(),
        ensures
            r.wf(),
            r.base() == self.base(),
            r.engine() == self.engine(),
            r.idx() == self.idx(),
            r.banks() == self.banks(),
    {
        Isaac64RngState {
            base_addr: self.base_addr,
            rng_buf: copy_words(&self.rng_buf),
            rng_state_buf: copy_words(&self.rng_state_buf),
            aa: self.aa,
            bb: self.bb,
            cc: self.cc,
            rng_buf_cur_idx: self.rng_buf_cur_idx,
            banked8: self.banked8,
            banked16: self.banked16,
            banked32: self.banked32,
        }
    }

    /// A generator resumed from a snapshot.
    pub fn new_from_rng_state(rng_state: Isaac64RngState) -> (r: Isaac64Rng)
        requires
            rng_state.wf(),
        ensures
            r.wf(),
            r.base() == rng_state.base(),
            r.engine() == rng_state.engine(),
            r.idx() == rng_state.idx(),
            r.banks() == rng_state.banks(),
    {
        Isaac64Rng {
            base_addr: rng_state.base_addr,
            rng_buf: rng_state.rng_buf,
            rng_state_buf: rng_state.rng_state_buf,
            aa: rng_state.aa,
            bb: rng_state.bb,
            cc: rng_state.cc,
            rng_buf_cur_idx: rng_state.rng_buf_cur_idx,
            banked8: rng_state.banked8,
            banked16: rng_state.banked16,
            banked32: rng_state.banked32,
        }
    }
}

impl Isaac64RngState {
    /// Both buffers hold 256 words, the read position lies within the
    /// results, and each bank's count fits the bank.
    pub closed spec fn wf(&self) -> bool {
        &&& self.rng_buf@.len() == 256
        &&& self.rng_state_buf@.len() == 256
        &&& self.rng_buf_cur_idx <= 256
        &&& self.banked8[0] <= 7
        &&& self.banked16[0] <= 3
        &&& self.banked32[0] <= 1
    }
}

/// A copy of a word buffer.
fn copy_words(v: &Vec<u64>) -> (r: Vec<u64>)
    ensures
        r@ == v@,
{
    let mut r: Vec<u64> = Vec::new();
    let mut i: usize = 0;
    while i < v.len()
        invariant
            i <= v.len(),
            r@ == v@.subrange(0, i as int),
        decreases v.len() - i,
    {
        r.push(v[i]);
        i = i + 1;
    }
    assert(r@ =~= v@);
    r
}

/// A ranged draw always lies between its bounds.
pub proof fn lemma_ranged64_in_bounds(o: &Isaac64Rng, n: &Isaac64Rng, min: u64, max: u64, r: u64)
    requires
        Isaac64Rng::ranged64_post(o, n, min, max, r),
    ensures
        (min <= r <= max) || (max <= r <= min),
{
}

/// Exporting a generator and resuming from the snapshot gives a generator
/// in the same state.
pub proof fn lemma_export_resume(g: &Isaac64Rng, s: &Isaac64RngState, h: &Isaac64Rng)
    requires
        s.base() == g.base() && s.engine() == g.engine() && s.idx() == g.idx() && s.banks() == g.banks(),
        h.base() == s.base() && h.engine() == s.engine() && h.idx() == s.idx() && h.banks() == s.banks(),
    ensures
        h.base() == g.base(),
        h.engine() == g.engine(),
        h.idx() == g.idx(),
        h.banks() == g.banks(),
{
}

/// Two generators in the same state give the same next 64-bit result.
pub proof fn lemma_same_state_same_draw(g: &Isaac64Rng, h: &Isaac64Rng)
    requires
        g.engine() == h.engine(),
        g.idx() == h.idx(),
    ensures
        g.next_value() == h.next_value(),
{
}

/// Without a banked quarter, a 16-bit draw returns the lowest 16 bits of the
/// 64-bit result that a 64-bit draw from the same state returns (reduced to
/// `0..=max` for a bound other than zero and the largest value).
pub proof fn lemma_rand16_fresh_is_low_quarter(g: &Isaac64Rng, a: &Isaac64Rng, w: u64, b: &Isaac64Rng, max: u16, r: u16)
    requires
        g.banks().1[0] == 0,
        Isaac64Rng::rand64_post(g, a, u64::MAX, w),
        Isaac64Rng::rand16_post(g, b, max, r),
    ensures
        max == 0 || max == u16::MAX ==> r == (w & 0xFFFFu64) as u16,
        0 < max < u16::MAX ==> r == ((w & 0xFFFFu64) as u16) as int % (max + 1),
        b.banks().1[0] == 3,
{
}

/// Without a banked half, a 32-bit draw returns the low 32 bits of the
/// 64-bit result that a 64-bit draw from the same state returns (reduced to
/// `0..=max` for a bound other than zero and the largest value).
pub proof fn lemma_rand32_fresh_is_low_half(g: &Isaac64Rng, a: &Isaac64Rng, w: u64, b: &Isaac64Rng, max: u32, r: u32)
    requires
        g.banks().2[0] == 0,
        Isaac64Rng::rand64_post(g, a, u64::MAX, w),
        Isaac64Rng::rand32_post(g, b, max, r),
    ensures
        max == 0 || max == u32::MAX ==> r == (w & 0xFFFF_FFFFu64) as u32,
        0 < max < u32::MAX ==> r == ((w & 0xFFFF_FFFFu64) as u32) as int % (max + 1),
        b.banks().2[0] == 1,
{
}

/// Without a banked byte, an 8-bit draw returns the lowest byte of the
/// 64-bit result that a 64-bit draw from the same state returns (reduced to
/// `0..=max` for a bound other than zero and the largest value).
pub proof fn lemma_rand8_fresh_is_low_byte(g: &Isaac64Rng, a: &Isaac64Rng, w: u64, b: &Isaac64Rng, max: u8, r: u8)
    requires
        g.banks().0[0] == 0,
        Isaac64Rng::rand64_post(g, a, u64::MAX, w),
        Isaac64Rng::rand8_post(g, b, max, r),
    ensures
        max == 0 || max == u8::MAX ==> r == (w & 0xFFu64) as u8,
        0 < max < u8::MAX ==> r == ((w & 0xFFu64) as u8) as int % (max + 1),
        b.banks().0[0] == 7,
{
}

/// Four unbounded 16-bit draws from an empty bank serve one 64-bit result:
/// its quarters 0, 3, 2 and 1 in that order (bits 0..16, 48..64, 32..48 and
/// 16..32), which put back together give the result. The bank is then empty
/// again and the generator has moved on by exactly one result.
pub proof fn lemma_rand16_serves_quarters(g0: &Isaac64Rng, g1: &Isaac64Rng, g2: &Isaac64Rng, g3: &Isaac64Rng,
    g4: &Isaac64Rng, r1: u16, r2: u16, r3: u16, r4: u16)
    requires
        g0.banks().1[0] == 0,
        Isaac64Rng::rand16_post(g0, g1, u16::MAX, r1),
        Isaac64Rng::rand16_post(g1, g2, u16::MAX, r2),
        Isaac64Rng::rand16_post(g2, g3, u16::MAX, r3),
        Isaac64Rng::rand16_post(g3, g4, u16::MAX, r4),
    ensures
        r1 == (g0.next_value() & 0xFFFFu64) as u16,
        r2 == ((g0.next_value() & 0xFFFF_0000_0000_0000u64) >> 48u64) as u16,
        r3 == ((g0.next_value() & 0x0000_FFFF_0000_0000u64) >> 32u64) as u16,
        r4 == ((g0.next_value() & 0x0000_0000_FFFF_0000u64) >> 16u64) as u16,
        g0.next_value() == r1 + r4 * 0x1_0000 + r3 * 0x1_0000_0000 + r2 * 0x1_0000_0000_0000,
        g4.banks().1[0] == 0,
        g4.engine() == g0.next_engine(),
        g4.idx() == g0.next_idx(),
{
    lemma_u64_pieces(g0.next_value());
}

/// Two unbounded 32-bit draws from an empty bank serve one 64-bit result:
/// its low half, then its high half, which put back together give the
/// result. The bank is then empty again and the generator has moved on by
/// exactly one result.
pub proof fn lemma_rand32_serves_halves(g0: &Isaac64Rng, g1: &Isaac64Rng, g2: &Isaac64Rng, r1: u32, r2: u32)
    requires
        g0.banks().2[0] == 0,
        Isaac64Rng::rand32_post(g0, g1, u32::MAX, r1),
        Isaac64Rng::rand32_post(g1, g2, u32::MAX, r2),
    ensures
        r1 == (g0.next_value() & 0xFFFF_FFFFu64) as u32,
        r2 == ((g0.next_value() & 0xFFFF_FFFF_0000_0000u64) >> 32u64) as u32,
        g0.next_value() == r1 + r2 * 0x1_0000_0000,
        g2.banks().2[0] == 0,
        g2.engine() == g0.next_engine(),
        g2.idx() == g0.next_idx(),
{
    lemma_u64_pieces(g0.next_value());
}

/// Eight unbounded 8-bit draws from an empty bank serve one 64-bit result:
/// its bytes 0, 7, 6, 5, 4, 3, 2 and 1 in that order, which put back together
/// give the result. The bank is then empty again and the generator has moved
/// on by exactly one result.
pub proof fn lemma_rand8_serves_bytes(g: Seq<Isaac64Rng>, r: Seq<u8>)
    requires
        g.len() == 9,
        r.len() == 8,
        g[0].banks().0[0] == 0,
        forall|i: int| 0 <= i < 8 ==> Isaac64Rng::rand8_post(&g[i], &g[i + 1], u8::MAX, #[trigger] r[i]),
    ensures
        r[0] == (g[0].next_value() & 0xFFu64) as u8,
        r[1] == ((g[0].next_value() & 0xFF00_0000_0000_0000u64) >> 56u64) as u8,
        r[2] == ((g[0].next_value() & 0x00FF_0000_0000_0000u64) >> 48u64) as u8,
        r[3] == ((g[0].next_value() & 0x0000_FF00_0000_0000u64) >> 40u64) as u8,
        r[4] == ((g[0].next_value() & 0x0000_00FF_0000_0000u64) >> 32u64) as u8,
        r[5] == ((g[0].next_value() & 0x0000_0000_FF00_0000u64) >> 24u64) as u8,
        r[6] == ((g[0].next_value() & 0x0000_0000_00FF_0000u64) >> 16u64) as u8,
        r[7] == ((g[0].next_value() & 0x0000_0000_0000_FF00u64) >> 8u64) as u8,
        g[0].next_value() == r[0] + r[7] * 0x100 + r[6] * 0x1_0000 + r[5] * 0x100_0000 + r[4] * 0x1_0000_0000
            + r[3] * 0x100_0000_0000 + r[2] * 0x1_0000_0000_0000 + r[1] * 0x100_0000_0000_0000,
        g[8].banks().0[0] == 0,
        g[8].engine() == g[0].next_engine(),
        g[8].idx() == g[0].next_idx(),
{
    assert(Isaac64Rng::rand8_post(&g[0], &g[1], u8::MAX, r[0]));
    assert(Isaac64Rng::rand8_post(&g[1], &g[2], u8::MAX, r[1]));
    assert(Isaac64Rng::rand8_post(&g[2], &g[3], u8::MAX, r[2]));
    assert(Isaac64Rng::rand8_post(&g[3], &g[4], u8::MAX, r[3]));
    assert(Isaac64Rng::rand8_post(&g[4], &g[5], u8::MAX, r[4]));
    assert(Isaac64Rng::rand8_post(&g[5], &g[6], u8::MAX, r[5]));
    assert(Isaac64Rng::rand8_post(&g[6], &g[7], u8::MAX, r[6]));
    assert(Isaac64Rng::rand8_post(&g[7], &g[8], u8::MAX, r[7]));
    lemma_u64_pieces(g[0].next_value());
}

/// A 32-bit draw with a bound is the unbounded draw from the same state
/// reduced to `0..=max` (left as it is for a bound of zero), and leaves the
/// generator as the unbounded draw does.
pub proof fn lemma_rand32_bound_reduces(g: &Isaac64Rng, a: &Isaac64Rng, u: u32, b: &Isaac64Rng, max: u32, r: u32)
    requires
        Isaac64Rng::rand32_post(g, a, u32::MAX, u),
        Isaac64Rng::rand32_post(g, b, max, r),
    ensures
        0 < max < u32::MAX ==> r == u as int % (max + 1),
        max == 0 || max == u32::MAX ==> r == u,
        b.engine() == a.engine(),
        b.idx() == a.idx(),
        b.banks() == a.banks(),
{
}

/// A 16-bit draw with a bound is the unbounded draw from the same state
/// reduced to `0..=max` (left as it is for a bound of zero), and leaves the
/// generator as the unbounded draw does.
pub proof fn lemma_rand16_bound_reduces(g: &Isaac64Rng, a: &Isaac64Rng, u: u16, b: &Isaac64Rng, max: u16, r: u16)
    requires
        Isaac64Rng::rand16_post(g, a, u16::MAX, u),
        Isaac64Rng::rand16_post(g, b, max, r),
    ensures
        0 < max < u16::MAX ==> r == u as int % (max + 1),
        max == 0 || max == u16::MAX ==> r == u,
        b.engine() == a.engine(),
        b.idx() == a.idx(),
        b.banks() == a.banks(),
{
}

/// A 8-bit draw with a bound is the unbounded draw from the same state
/// reduced to `0..=max` (left as it is for a bound of zero), and leaves the
/// generator as the unbounded draw does.
pub proof fn lemma_rand8_bound_reduces(g: &Isaac64Rng, a: &Isaac64Rng, u: u8, b: &Isaac64Rng, max: u8, r: u8)
    requires
        Isaac64Rng::rand8_post(g, a, u8::MAX, u),
        Isaac64Rng::rand8_post(g, b, max, r),
    ensures
        0 < max < u8::MAX ==> r == u as int % (max + 1),
        max == 0 || max == u8::MAX ==> r == u,
        b.engine() == a.engine(),
        b.idx() == a.idx(),
        b.banks() == a.banks(),
{
}

/// A 64-bit value is the sum of its bytes, of its quarters and of its halves,
/// each at its place.
proof fn lemma_u64_pieces(v: u64)
    by (bit_vector)
    ensures
        v == (v & 0xFFFFu64) as u16 + ((v & 0x0000_0000_FFFF_0000u64) >> 16u64) as u16 * 0x1_0000
            + ((v & 0x0000_FFFF_0000_0000u64) >> 32u64) as u16 * 0x1_0000_0000
            + ((v & 0xFFFF_0000_0000_0000u64) >> 48u64) as u16 * 0x1_0000_0000_0000,
        v == (v & 0xFFFF_FFFFu64) as u32 + ((v & 0xFFFF_FFFF_0000_0000u64) >> 32u64) as u32 * 0x1_0000_0000,
        v == (v & 0xFFu64) as u8 + ((v & 0x0000_0000_0000_FF00u64) >> 8u64) as u8 * 0x100
            + ((v & 0x0000_0000_00FF_0000u64) >> 16u64) as u8 * 0x1_0000
            + ((v & 0x0000_0000_FF00_0000u64) >> 24u64) as u8 * 0x100_0000
            + ((v & 0x0000_00FF_0000_0000u64) >> 32u64) as u8 * 0x1_0000_0000
            + ((v & 0x0000_FF00_0000_0000u64) >> 40u64) as u8 * 0x100_0000_0000
            + ((v & 0x00FF_0000_0000_0000u64) >> 48u64) as u8 * 0x1_0000_0000_0000
            + ((v & 0xFF00_0000_0000_0000u64) >> 56u64) as u8 * 0x100_0000_0000_0000,
{
}

} // verus!
