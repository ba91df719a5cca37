//! Single-bit operations on words of each width, and a table of bit values.
use vstd::prelude::*;

verus! {

/// Whether bit `k` of `n` is one.
pub open spec fn usize_bit_at(n: usize, k: usize) -> bool {
    (n >> k) & 1 == 1
}

/// A table holding, at index `i`, the value with only bit `i` set.
pub struct Bit {
    pub b: [u64; 64],
}

impl Bit {
    /// The table holds the value with only bit `i` set at each index `i`.
    pub open spec fn wf(&self) -> bool {
        forall|i: int| 0 <= i < 64 ==> #[trigger] self.b[i] == (1u64 << (i as u64))
    }

    /// Builds the table.
    pub fn new() -> (r: Bit)
        ensures
            r.wf(),
    {
        let mut b = [0u64; 64];
        let mut i: usize = 0;
        while i < 64
            invariant
                i <= 64,
                forall|j: int| 0 <= j < i ==> #[trigger] b[j] == (1u64 << (j as u64)),
            decreases 64 - i,
        {
            b[i] = 1u64 << (i as u64);
            i = i + 1;
        }
        Bit { b }
    }

    /// The value with only bit `bit` set, as a 64-bit number.
    pub fn get_as_u64(&self, bit: usize) -> (r: u64)
        requires
            self.wf(),
            bit < 64,
        ensures
            r == 1u64 << (bit as u64),
    {
        self.b[bit]
    }

    /// The value with only bit `bit` set.
    pub fn get_into(&self, bit: usize) -> (r: u64)
        requires
            self.wf(),
            bit < 64,
        ensures
            r == 1u64 << (bit as u64),
    {
        self.get_as_u64(bit)
    }

    /// The value whose lowest `n_bits` bits are set and no others.
    pub fn get_mask_first_n_bits_into(&self, n_bits: usize) -> (r: u64)
        requires
            self.wf(),
            n_bits <= 64,
        ensures
            forall|k: u64| k < 64 ==> (((r >> k) & 1 == 1) <==> k < n_bits),
    {
        if n_bits == 0 {
            assert(forall|k: u64| k < 64 ==> (((0u64 >> k) & 1 == 1) <==> k < 0u64)) by (bit_vector);
            0
        } else if n_bits == 64 {
            assert(forall|k: u64| k < 64 ==> (((u64::MAX >> k) & 1 == 1) <==> k < 64u64)) by (bit_vector);
            u64::MAX
        } else {
            let n = n_bits as u64;
            let v = self.get_as_u64(n_bits);
            assert(v >= 1) by (bit_vector)
                requires n < 64, v == 1u64 << n;
            let r = v - 1;
            assert forall|k: u64| k < 64 implies (((r >> k) & 1 == 1) <==> k < n) by {
                assert(((r >> k) & 1 == 1) <==> k < n) by (bit_vector)
                    requires n < 64, k < 64, r == (1u64 << n) - 1;
            }
            r
        }
    }

    /// The value with only bit `bit` set, as a machine word.
    pub fn get_as_usize(&self, bit: usize) -> (r: usize)
        requires
            self.wf(),
            bit < 64,
        ensures
            r == (1u64 << (bit as u64)) as usize,
    {
        self.b[bit] as usize
    }

    /// The value with only bit `bit` set, as a 32-bit number.
    pub fn get_as_u32(&self, bit: usize) -> (r: u32)
        requires
            self.wf(),
            bit < 32,
        ensures
            r == 1u32 << (bit as u32),
    {
        let v = self.b[bit];
        let b = bit as u64;
        assert(v as u32 == 1u32 << (b as u32)) by (bit_vector)
            requires b < 32, v == 1u64 << b;
        v as u32
    }
}

impl Default for Bit {
    fn default() -> (r: Bit)
        ensures
            r.wf(),
    {
        Bit::new()
    }
}

/// The value with only bit `bit` set.
pub fn bit(bit_idx: usize) -> (r: usize)
    requires
        bit_idx < usize::BITS,
    ensures
        r == 1usize << bit_idx,
{
    1usize << bit_idx
}

/// `value` with bit `bit` set.
pub fn set_bit(value: usize, bit: usize) -> (r: usize)
    requires
        bit < usize::BITS,
    ensures
        r == (1usize << bit) | value,
{
    (1usize << bit) | value
}

/// `value` with bit `bit` cleared.
pub fn clear_bit(value: usize, bit: usize) -> (r: usize)
    requires
        bit < usize::BITS,
    ensures
        r == !(1usize << bit) & value,
{
    !(1usize << bit) & value
}

/// Whether every one bit of `value` is bit `bit`: true exactly when `value`
/// is zero or is the value with only bit `bit` set.
pub fn get_bit(value: usize, bit: usize) -> (r: bool)
    requires
        bit < usize::BITS,
    ensures
        r == ((1usize << bit) & value == value),
        r == (value == 0 || value == 1usize << bit),
{
    assert(((1usize << bit) & value == value) == (value == 0 || value == 1usize << bit)) by (bit_vector)
        requires bit < usize::BITS;
    (1usize << bit) & value == value
}

/// Masking a value by a machine-word mask.
pub trait Bitmask: Sized {
    /// The value masked by `mask`.
    spec fn masked(&self, mask: usize) -> Self;

    /// The value masked by `mask`.
    fn bitmask(&self, mask: usize) -> (r: Self)
        ensures
            r == self.masked(mask);
}

impl Bitmask for usize {
    open spec fn masked(&self, mask: usize) -> usize {
        *self & mask
    }

    fn bitmask(&self, mask: usize) -> (r: usize) {
        *self & mask
    }
}

impl Bitmask for u64 {
    open spec fn masked(&self, mask: usize) -> u64 {
        *self & (mask as u64)
    }

    fn bitmask(&self, mask: usize) -> (r: u64) {
        *self & (mask as u64)
    }
}

impl Bitmask for u32 {
    open spec fn masked(&self, mask: usize) -> u32 {
        *self & (mask as u32)
    }

    fn bitmask(&self, mask: usize) -> (r: u32) {
        *self & (mask as u32)
    }
}

/// The machine word with only bit `bit` set.
pub fn usizebit(bit: usize) -> (r: usize)
    requires
        bit < usize::BITS,
    ensures
        r == 1usize << bit,
{
    1usize << bit
}

/// The 64-bit value with only bit `bit` set.
pub fn u64bit(bit: usize) -> (r: u64)
    requires
        bit < 64,
    ensures
        r == 1u64 << (bit as u64),
{
    1u64 << (bit as u64)
}

/// The 32-bit value with only bit `bit` set.
pub fn u32bit(bit: usize) -> (r: u32)
    requires
        bit < 32,
    ensures
        r == 1u32 << (bit as u32),
{
    1u32 << (bit as u32)
}

/// The 16-bit value with only bit `bit` set.
pub fn u16bit(bit: usize) -> (r: u16)
    requires
        bit < 16,
    ensures
        r == 1u16 << (bit as u16),
{
    1u16 << (bit as u16)
}

/// The 8-bit value with only bit `bit` set.
pub fn u8bit(bit: usize) -> (r: u8)
    requires
        bit < 8,
    ensures
        r == 1u8 << (bit as u8),
{
    1u8 << (bit as u8)
}

/// `num` with bit `bit` set.
pub fn set_bit8(num: u8, bit: usize) -> (r: u8)
    requires
        bit < 8,
    ensures
        r == num | (1u8 << (bit as u8)),
{
    num | (1u8 << (bit as u8))
}

/// `num` with bit `bit` cleared.
pub fn clear_bit8(num: u8, bit: usize) -> (r: u8)
    requires
        bit < 8,
    ensures
        r == num & !(1u8 << (bit as u8)),
{
    num & !(1u8 << (bit as u8))
}

/// Whether bit `bit` of `num` is one.
pub fn is_bit_set8(num: u8, bit: usize) -> (r: bool)
    requires
        bit < 8,
    ensures
        r == ((num & (1u8 << (bit as u8))) == (1u8 << (bit as u8))),
        r == ((num >> (bit as u8)) & 1 == 1),
{
    let b = bit as u8;
    proof { crate::bitfacts::lemma_mask_tests(); }
    (num & (1u8 << (bit as u8))) == (1u8 << (bit as u8))
}

/// Whether bit `bit` of `num` is zero.
pub fn is_bit_clear8(num: u8, bit: usize) -> (r: bool)
    requires
        bit < 8,
    ensures
        r == ((num & (1u8 << (bit as u8))) == 0),
        r == !((num >> (bit as u8)) & 1 == 1),
{
    let b = bit as u8;
    proof { crate::bitfacts::lemma_mask_tests(); }
    (num & (1u8 << (bit as u8))) == 0
}

/// `num` with bit `bit` set.
pub fn set_bit16(num: u16, bit: usize) -> (r: u16)
    requires
        bit < 16,
    ensures
        r == num | (1u16 << (bit as u16)),
{
    num | (1u16 << (bit as u16))
}

/// `num` with bit `bit` cleared.
pub fn clear_bit16(num: u16, bit: usize) -> (r: u16)
    requires
        bit < 16,
    ensures
        r == num & !(1u16 << (bit as u16)),
{
    num & !(1u16 << (bit as u16))
}

/// Whether bit `bit` of `num` is one.
pub fn is_bit_set16(num: u16, bit: usize) -> (r: bool)
    requires
        bit < 16,
    ensures
        r == ((num & (1u16 << (bit as u16))) == (1u16 << (bit as u16))),
        r == ((num >> (bit as u16)) & 1 == 1),
{
    let b = bit as u16;
    proof { crate::bitfacts::lemma_mask_tests(); }
    (num & (1u16 << (bit as u16))) == (1u16 << (bit as u16))
}

/// Whether bit `bit` of `num` is zero.
pub fn is_bit_clear16(num: u16, bit: usize) -> (r: bool)
    requires
        bit < 16,
    ensures
        r == ((num & (1u16 << (bit as u16))) == 0),
        r == !((num >> (bit as u16)) & 1 == 1),
{
    let b = bit as u16;
    proof { crate::bitfacts::lemma_mask_tests(); }
    (num & (1u16 << (bit as u16))) == 0
}

/// `num` with bit `bit` set.
pub fn set_bit32(num: u32, bit: usize) -> (r: u32)
    requires
        bit < 32,
    ensures
        r == num | (1u32 << (bit as u32)),
{
    num | (1u32 << (bit as u32))
}

/// `num` with bit `bit` cleared.
pub fn clear_bit32(num: u32, bit: usize) -> (r: u32)
    requires
        bit < 32,
    ensures
        r == num & !(1u32 << (bit as u32)),
{
    num & !(1u32 << (bit as u32))
}

/// Whether bit `bit` of `num` is one.
pub fn is_bit_set32(num: u32, bit: usize) -> (r: bool)
    requires
        bit < 32,
    ensures
        r == ((num & (1u32 << (bit as u32))) == (1u32 << (bit as u32))),
        r == ((num >> (bit as u32)) & 1 == 1),
{
    let b = bit as u32;
    proof { crate::bitfacts::lemma_mask_tests(); }
    (num & (1u32 << (bit as u32))) == (1u32 << (bit as u32))
}

/// Whether bit `bit` of `num` is zero.
pub fn is_bit_clear32(num: u32, bit: usize) -> (r: bool)
    requires
        bit < 32,
    ensures
        r == ((num & (1u32 << (bit as u32))) == 0),
        r == !((num >> (bit as u32)) & 1 == 1),
{
    let b = bit as u32;
    proof { crate::bitfacts::lemma_mask_tests(); }
    (num & (1u32 << (bit as u32))) == 0
}

/// `num` with bit `bit` set.
pub fn set_bit64(num: u64, bit: usize) -> (r: u64)
    requires
        bit < 64,
    ensures
        r == num | (1u64 << (bit as u64)),
{
    num | (1u64 << (bit as u64))
}

/// `num` with bit `bit` cleared.
pub fn clear_bit64(num: u64, bit: usize) -> (r: u64)
    requires
        bit < 64,
    ensures
        r == num & !(1u64 << (bit as u64)),
{
    num & !(1u64 << (bit as u64))
}

/// Whether bit `bit` of `num` is one.
pub fn is_bit_set64(num: u64, bit: usize) -> (r: bool)
    requires
        bit < 64,
    ensures
        r == ((num & (1u64 << (bit as u64))) == (1u64 << (bit as u64))),
        r == ((num >> (bit as u64)) & 1 == 1),
{
    let b = bit as u64;
    proof { crate::bitfacts::lemma_mask_tests(); }
    (num & (1u64 << (bit as u64))) == (1u64 << (bit as u64))
}

/// Whether bit `bit` of `num` is zero.
pub fn is_bit_clear64(num: u64, bit: usize) -> (r: bool)
    requires
        bit < 64,
    ensures
        r == ((num & (1u64 << (bit as u64))) == 0),
        r == !((num >> (bit as u64)) & 1 == 1),
{
    let b = bit as u64;
    proof { crate::bitfacts::lemma_mask_tests(); }
    (num & (1u64 << (bit as u64))) == 0
}

/// `num` with bit `bit` set.
pub fn set_bit_usize(num: usize, bit: usize) -> (r: usize)
    requires
        bit < usize::BITS,
    ensures
        r == num | (1usize << (bit as usize)),
{
    num | (1usize << (bit as usize))
}

/// `num` with bit `bit` cleared.
pub fn clear_bit_usize(num: usize, bit: usize) -> (r: usize)
    requires
        bit < usize::BITS,
    ensures
        r == num & !(1usize << (bit as usize)),
{
    num & !(1usize << (bit as usize))
}

/// Whether bit `bit` of `num` is one.
pub fn is_bit_set_usize(num: usize, bit: usize) -> (r: bool)
    requires
        bit < usize::BITS,
    ensures
        r == ((num & (1usize << (bit as usize))) == (1usize << (bit as usize))),
        r == ((num >> (bit as usize)) & 1 == 1),
{
    let b = bit as usize;
    proof { crate::bitfacts::lemma_mask_tests(); }
    (num & (1usize << (bit as usize))) == (1usize << (bit as usize))
}

/// Whether bit `bit` of `num` is zero.
pub fn is_bit_clear_usize(num: usize, bit: usize) -> (r: bool)
    requires
        bit < usize::BITS,
    ensures
        r == ((num & (1usize << (bit as usize))) == 0),
        r == !((num >> (bit as usize)) & 1 == 1),
{
    let b = bit as usize;
    proof { crate::bitfacts::lemma_mask_tests(); }
    (num & (1usize << (bit as usize))) == 0
}

/// Whether bit `bit` of the 64-bit word `num` is one.
pub fn is_bit_set_uintn(num: u64, bit: usize) -> (r: bool)
    requires
        bit < 64,
    ensures
        r == ((num >> (bit as u64)) & 1 == 1),
{
    is_bit_set64(num, bit)
}

/// Whether bit `bit` of the 64-bit word `num` is zero.
pub fn is_bit_clear_uintn(num: u64, bit: usize) -> (r: bool)
    requires
        bit < 64,
    ensures
        r == !((num >> (bit as u64)) & 1 == 1),
{
    is_bit_clear64(num, bit)
}

/// After setting bit `b`, it reads as set; after clearing it, as clear; and
/// no other bit changes either way.
pub proof fn lemma_set_clear_bit_usize(num: usize, b: usize, k: usize)
    requires
        b < usize::BITS,
        k < usize::BITS,
    ensures
        usize_bit_at(num | (1usize << b), b),
        !usize_bit_at(num & !(1usize << b), b),
        k != b ==> (usize_bit_at(num | (1usize << b), k) == usize_bit_at(num, k)),
        k != b ==> (usize_bit_at(num & !(1usize << b), k) == usize_bit_at(num, k)),
        (num | (1usize << b)) & !(1usize << b) == num & !(1usize << b),
        (num & !(1usize << b)) | (1usize << b) == num | (1usize << b),
{
    crate::bitfacts::lemma_set_clear_shifts();
    assert((((num | (1usize << b)) >> b) & 1 == 1) == (b == b || (num >> b) & 1 == 1));
    assert((((num & !(1usize << b)) >> b) & 1 == 1) == (b != b && (num >> b) & 1 == 1));
    assert((((num | (1usize << b)) >> k) & 1 == 1) == (k == b || (num >> k) & 1 == 1));
    assert((((num & !(1usize << b)) >> k) & 1 == 1) == (k != b && (num >> k) & 1 == 1));
    assert(((num | (1usize << b)) & !(1usize << b)) == num & !(1usize << b));
    assert(((num & !(1usize << b)) | (1usize << b)) == num | (1usize << b));
}

} // verus!
