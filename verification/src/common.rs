//! Shared constants, word assembly helpers, alignment arithmetic and
//! bit-index sizing.
use vstd::prelude::*;
use vstd::arithmetic::power2::{pow2, lemma_pow2_pos, lemma2_to64};
use vstd::bits::{low_bits_mask, lemma_usize_low_bits_mask_is_mod, lemma_usize_pow2_no_overflow};

pub mod ubit;
pub mod u32bit;
pub mod u64bit;
pub mod bitindex;

verus! {

pub const ZERO_U8: u8 = 0u8;
pub const ZERO_U16: u16 = 0u16;
pub const ZERO_U32: u32 = 0u32;
pub const ZERO_U64: u64 = 0u64;
pub const ZERO_USIZE: usize = 0usize;
pub const ZERO_U128: u128 = 0u128;

pub const SIZE_4K: u64 = 0x0000_1000;
pub const SIZE_16K: u64 = 0x0000_4000;
pub const SIZE_64K: u64 = 0x0001_0000;
pub const SIZE_2M: u64 = 0x0020_0000;
pub const SIZE_4M: u64 = 0x0040_0000;
pub const SIZE_1G: u64 = 0x4000_0000;

pub const USIZE_4K: usize = 0x0000_1000;
pub const USIZE_16K: usize = 0x0000_4000;
pub const USIZE_64K: usize = 0x0001_0000;
pub const USIZE_512K: usize = 0x0008_0000;
pub const USIZE_2M: usize = 0x0020_0000;
pub const USIZE_4M: usize = 0x0040_0000;
pub const USIZE_1G: usize = 0x4000_0000;
pub const USIZE_2G: usize = 0x8000_0000;

pub const BYTE0_U64: u64 = 0x0000_00FFu64;
pub const BYTE1_U64: u64 = 0x0000_FF00u64;
pub const BYTE2_U64: u64 = 0x00FF_0000u64;
pub const BYTE3_U64: u64 = 0xFF00_0000u64;
pub const BYTE4_U64: u64 = 0x0000_00FF_0000_0000u64;
pub const BYTE5_U64: u64 = 0x0000_FF00_0000_0000u64;
pub const BYTE6_U64: u64 = 0x00FF_0000_0000_0000u64;
pub const BYTE7_U64: u64 = 0xFF00_0000_0000_0000u64;

pub const WORD0_U64: u64 = 0x0000_0000_0000_FFFF;
pub const WORD1_U64: u64 = 0x0000_0000_FFFF_0000;
pub const WORD2_U64: u64 = 0x0000_FFFF_0000_0000;
pub const WORD3_U64: u64 = 0xFFFF_0000_0000_0000;

pub const DWORD0_U64: u64 = 0x0000_0000_FFFF_FFFF;
pub const DWORD1_U64: u64 = 0xFFFF_FFFF_0000_0000;

pub const QWORD0_U128: u128 = 0x0000_0000_0000_0000_FFFF_FFFF_FFFF_FFFF;
pub const QWORD1_U128: u128 = 0xFFFF_FFFF_FFFF_FFFF_0000_0000_0000_0000;

/// The default page size in bytes.
pub const MEMORY_DEFAULT_PAGE_USIZE: usize = 0x1000;
/// log2 of the default page size.
pub const MEMORY_DEFAULT_SHIFT: usize = 12;
/// Entries in one page table.
pub const PAGE_TABLE_MAX_ENTRIES: usize = 512;

pub const NEBULAE: u64 = 0x6464_8888_3232_5225;
pub const NEBULAE32: u32 = 0x8888_5225;

pub const FACTOR_OF_8: u64 = 3;
pub const UFACTOR_OF_8: usize = 3;

/// The test pattern of the platform's word width: the 64-bit pattern on a
/// 64-bit target, the 32-bit one on a 32-bit target.
pub open spec fn nebulae_test_pattern_spec() -> usize {
    if usize::BITS == 64 { NEBULAE as usize } else { NEBULAE32 as usize }
}

/// Returns the platform's test pattern.
pub fn nebulae_test_pattern() -> (r: usize)
    ensures
        r == nebulae_test_pattern_spec(),
{
    if usize::BITS == 64 { NEBULAE as usize } else { NEBULAE32 as usize }
}

/// Bytes in a machine word.
pub fn machine_ubytes() -> (r: usize)
    ensures
        r == usize::BITS / 8,
        r == 4 || r == 8,
{
    if usize::BITS == 64 { 8 } else { 4 }
}

/// Bits in a machine word.
pub fn machine_ubits() -> (r: usize)
    ensures
        r == usize::BITS,
        r == 32 || r == 64,
{
    if usize::BITS == 64 { 64 } else { 32 }
}

/// Joins two words into a 128-bit value, `hi` in the upper half.
pub fn make128(hi: usize, lo: usize) -> (r: u128)
    ensures
        r == hi as int * 0x1_0000_0000_0000_0000 + lo as int,
        hi64_spec(r) == hi as u64,
        lo64_spec(r) == lo as u64,
{
    let h = hi as u128;
    let l = lo as u128;
    let r = (h << 64u128) | l;
    assert(r == h * 0x1_0000_0000_0000_0000 + l && ((r & QWORD1_U128) >> 64u128) as u64 == h as u64
        && (r & QWORD0_U128) as u64 == l as u64) by (bit_vector)
        requires
            h < 0x1_0000_0000_0000_0000,
            l < 0x1_0000_0000_0000_0000,
            r == (h << 64u128) | l;
    r
}

/// The upper 64 bits of a 128-bit value.
pub open spec fn hi64_spec(value: u128) -> u64 {
    ((value & QWORD1_U128) >> 64u128) as u64
}

/// The lower 64 bits of a 128-bit value.
pub open spec fn lo64_spec(value: u128) -> u64 {
    (value & QWORD0_U128) as u64
}

/// Returns the upper 64 bits of `value`.
#[verifier::when_used_as_spec(hi64_spec)]
pub fn hi64(value: u128) -> (r: u64)
    ensures
        r == hi64_spec(value),
        r == value as int / 0x1_0000_0000_0000_0000,
{
    assert(((value & QWORD1_U128) >> 64u128) as u64 == value / 0x1_0000_0000_0000_0000) by (bit_vector);
    ((value & QWORD1_U128) >> 64u128) as u64
}

/// Returns the lower 64 bits of `value`.
#[verifier::when_used_as_spec(lo64_spec)]
pub fn lo64(value: u128) -> (r: u64)
    ensures
        r == lo64_spec(value),
        r == value as int % 0x1_0000_0000_0000_0000,
{
    assert((value & QWORD0_U128) as u64 == value % 0x1_0000_0000_0000_0000) by (bit_vector);
    (value & QWORD0_U128) as u64
}

/// Joins two 32-bit halves into a 64-bit value, `hi` in the upper half.
pub fn make64(hi: u32, lo: u32) -> (r: u64)
    ensures
        r == hi as int * 0x1_0000_0000 + lo as int,
        hi32_spec(r) == hi,
        lo32_spec(r) == lo,
{
    let h = hi as u64;
    let l = lo as u64;
    let r = (h << 32u64) | l;
    assert(r == h * 0x1_0000_0000 + l && ((r & DWORD1_U64) >> 32u64) as u32 == h as u32
        && (r & DWORD0_U64) as u32 == l as u32) by (bit_vector)
        requires
            h < 0x1_0000_0000,
            l < 0x1_0000_0000,
            r == (h << 32u64) | l;
    r
}

/// The upper 32 bits of a 64-bit value.
pub open spec fn hi32_spec(value: u64) -> u32 {
    ((value & DWORD1_U64) >> 32u64) as u32
}

/// The lower 32 bits of a 64-bit value.
pub open spec fn lo32_spec(value: u64) -> u32 {
    (value & DWORD0_U64) as u32
}

/// Returns the upper 32 bits of `value`.
#[verifier::when_used_as_spec(hi32_spec)]
pub fn hi32(value: u64) -> (r: u32)
    ensures
        r == hi32_spec(value),
        r == value as int / 0x1_0000_0000,
{
    assert(((value & DWORD1_U64) >> 32u64) as u32 == value / 0x1_0000_0000) by (bit_vector);
    ((value & DWORD1_U64) >> 32u64) as u32
}

/// Returns the lower 32 bits of `value`.
#[verifier::when_used_as_spec(lo32_spec)]
pub fn lo32(value: u64) -> (r: u32)
    ensures
        r == lo32_spec(value),
        r == value as int % 0x1_0000_0000,
{
    assert((value & DWORD0_U64) as u32 == value % 0x1_0000_0000) by (bit_vector);
    (value & DWORD0_U64) as u32
}

/// `m` is a power of two that a machine word can hold.
pub open spec fn is_pow2(m: usize) -> bool {
    exists|n: nat| n < usize::BITS && m as nat == pow2(n)
}

/// For a power of two `m`, masking with `m - 1` is taking the remainder by `m`.
pub proof fn lemma_pow2_mask(m: usize)
    requires
        is_pow2(m),
    ensures
        m > 0,
        m & ((m - 1) as usize) == 0,
        forall|x: usize| #[trigger] (x & ((m - 1) as usize)) == x % m,
{
    let n = choose|n: nat| n < usize::BITS && m as nat == pow2(n);
    lemma_pow2_pos(n);
    lemma_usize_pow2_no_overflow(n);
    assert(low_bits_mask(n) as usize == (m - 1) as usize);
    lemma_usize_low_bits_mask_is_mod(m, n);
    vstd::arithmetic::div_mod::lemma_mod_self_0(m as int);
    assert(pow2(n) as usize == m);
    assert forall|x: usize| #[trigger] (x & ((m - 1) as usize)) == x % m by {
        lemma_usize_low_bits_mask_is_mod(x, n);
    }
}

/// The page and block sizes the library uses are powers of two.
pub proof fn lemma_sizes_are_pow2()
    ensures
        is_pow2(1),
        is_pow2(2),
        is_pow2(4),
        is_pow2(8),
        is_pow2(USIZE_4K),
        is_pow2(USIZE_16K),
        is_pow2(USIZE_64K),
        is_pow2(USIZE_2M),
        is_pow2(USIZE_4M),
        is_pow2(USIZE_1G),
{
    lemma2_to64();
    assert(1 == pow2(0));
    assert(2 == pow2(1));
    assert(4 == pow2(2));
    assert(8 == pow2(3));
    assert(USIZE_4K == pow2(12));
    assert(USIZE_16K == pow2(14));
    assert(USIZE_64K == pow2(16));
    assert(USIZE_2M == pow2(21));
    assert(USIZE_4M == pow2(22));
    assert(USIZE_1G == pow2(30));
}

/// Rounds `value` up to the next multiple of the power of two `multiple`.
pub fn align_up(value: usize, multiple: usize) -> (r: usize)
    requires
        is_pow2(multiple),
        value + multiple - 1 <= usize::MAX,
    ensures
        r % multiple == 0,
        value <= r,
        r < value + multiple,
{
    proof { lemma_pow2_mask(multiple); }
    let t = value + (multiple - 1);
    let r = t & !(multiple - 1);
    assert(r & ((multiple - 1) as usize) == 0 && value <= r && r < value + multiple) by (bit_vector)
        requires
            multiple > 0,
            multiple & ((multiple - 1) as usize) == 0,
            t == value + ((multiple - 1) as usize),
            r == t & !((multiple - 1) as usize);
    assert(r & ((multiple - 1) as usize) == r % multiple);
    r
}

/// Rounds `value` down to a multiple of `multiple`.
pub fn align_down(value: usize, multiple: usize) -> (r: usize)
    requires
        is_pow2(multiple),
    ensures
        r == value - value % multiple,
        r % multiple == 0,
        r <= value,
        value < r + multiple,
{
    proof {
        lemma_pow2_mask(multiple);
        vstd::arithmetic::div_mod::lemma_fundamental_div_mod(value as int, multiple as int);
        vstd::arithmetic::div_mod::lemma_mod_multiples_basic(value as int / multiple as int, multiple as int);
    }
    value - (value % multiple)
}

/// Whether `value` lies in `[range_start, range_start + range_size)`.
pub fn range_contains(range_start: usize, range_size: usize, value: usize) -> (r: bool)
    requires
        range_start + range_size <= usize::MAX,
    ensures
        r == (range_start <= value && value < range_start + range_size),
{
    value >= range_start && value < range_start + range_size
}

/// How urgent a request is.
pub enum Priority {
    Lowest,
    Anonymous,
    Low,
    Normal,
    High,
    Highest,
    System,
}

/// How much a request matters.
pub enum Importance {
    DesiredButNotCritical,
    Critical,
}

/// A value that reads as a machine word.
pub trait AsUsize {
    /// The word this value reads as.
    spec fn usize_of(&self) -> usize;

    /// The word this value reads as.
    fn as_usize(&self) -> (r: usize)
        ensures
            r == self.usize_of();
}

impl AsUsize for usize {
    open spec fn usize_of(&self) -> usize {
        *self
    }

    fn as_usize(&self) -> (r: usize) {
        *self
    }
}

impl AsUsize for u64 {
    open spec fn usize_of(&self) -> usize {
        *self as usize
    }

    fn as_usize(&self) -> (r: usize) {
        *self as usize
    }
}

impl AsUsize for u32 {
    open spec fn usize_of(&self) -> usize {
        *self as usize
    }

    fn as_usize(&self) -> (r: usize) {
        *self as usize
    }
}

impl AsUsize for u16 {
    open spec fn usize_of(&self) -> usize {
        *self as usize
    }

    fn as_usize(&self) -> (r: usize) {
        *self as usize
    }
}

impl AsUsize for u8 {
    open spec fn usize_of(&self) -> usize {
        *self as usize
    }

    fn as_usize(&self) -> (r: usize) {
        *self as usize
    }
}

} // verus!
