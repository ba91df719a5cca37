//! A bitmap over 64-bit words: single-bit and range updates, counts, and
//! searches for single bits and for runs of bits.
use vstd::prelude::*;
use crate::memory::address::VirtAddr;
use crate::common::MEMORY_DEFAULT_PAGE_USIZE;

verus! {

/// Bits per storage word.
pub const UINTN_BITS: usize = 64;

/// Whether bit `k` of the word `w` is one.
pub open spec fn word_bit(w: u64, k: int) -> bool {
    (w >> (k as u64)) & 1 == 1
}

/// A word that a search for `target` bits passes over whole: all zeros when
/// looking for ones, all ones when looking for zeros.
pub open spec fn word_skip(w: u64, target: bool) -> bool {
    if target { w == 0 } else { w == u64::MAX }
}

/// Bit `p` of the word sequence `ws`.
pub open spec fn seq_bit(ws: Seq<u64>, p: int) -> bool {
    word_bit(ws[p / 64], p % 64)
}

/// An optional machine word read as an optional integer.
pub open spec fn opt_int(o: Option<usize>) -> Option<int> {
    match o {
        Some(x) => Some(x as int),
        None => None,
    }
}

/// Whether position `p` lies in words `wlo..whi` at a bit offset in `blo..bhi`.
pub open spec fn in_window(p: int, wlo: int, whi: int, blo: int, bhi: int) -> bool {
    0 <= p && wlo <= p / 64 < whi && blo <= p % 64 < bhi
}

/// The forward run search: the words `i..whi` are visited in order, and in
/// each word the bits from `blo` upward, except that a word holding no
/// `target` bit at all is passed over whole. A run starts at a visited
/// `target` bit and grows by one with each further visited `target` bit;
/// a visited bit of the other value ends it. When a run of more than `reqd`
/// bits ends that way, its start is the result; a run still open when the
/// words run out gives no result.
pub open spec fn scan_fwd(
    ws: Seq<u64>,
    target: bool,
    reqd: int,
    whi: int,
    blo: int,
    i: int,
    j: int,
    found: bool,
    start: int,
    run: int,
) -> Option<int>
    decreases whi - i, 65 - j,
{
    if i >= whi || i < 0 || j < 0 {
        None
    } else if j >= 64 || word_skip(ws[i], target) {
        scan_fwd(ws, target, reqd, whi, blo, i + 1, blo, found, start, run)
    } else if word_bit(ws[i], j) == target {
        if !found {
            scan_fwd(ws, target, reqd, whi, blo, i, j + 1, true, i * 64 + j, 1)
        } else {
            scan_fwd(ws, target, reqd, whi, blo, i, j + 1, true, start, run + 1)
        }
    } else if found {
        if run > reqd {
            Some(start)
        } else {
            scan_fwd(ws, target, reqd, whi, blo, i, j + 1, false, start, run)
        }
    } else {
        scan_fwd(ws, target, reqd, whi, blo, i, j + 1, found, start, run)
    }
}

/// The backward run search: words `i - 1` down to `0` are visited, and in
/// each word the bits from `bhi - 1` down to `0`, except that a word holding
/// no `target` bit is passed over whole. Runs are counted as in `scan_fwd`;
/// the result is the start (the highest position) of the first run of more
/// than `reqd` bits that a visited bit of the other value ends.
pub open spec fn scan_rev(
    ws: Seq<u64>,
    target: bool,
    reqd: int,
    bhi: int,
    i: int,
    j: int,
    found: bool,
    start: int,
    run: int,
) -> Option<int>
    decreases i, j + 1,
{
    if i <= 0 || j < 0 {
        None
    } else if j == 0 || word_skip(ws[i - 1], target) {
        scan_rev(ws, target, reqd, bhi, i - 1, bhi, found, start, run)
    } else if word_bit(ws[i - 1], j - 1) == target {
        if !found {
            scan_rev(ws, target, reqd, bhi, i, j - 1, true, (i - 1) * 64 + j - 1, 1)
        } else {
            scan_rev(ws, target, reqd, bhi, i, j - 1, true, start, run + 1)
        }
    } else if found {
        if run > reqd {
            Some(start)
        } else {
            scan_rev(ws, target, reqd, bhi, i, j - 1, false, start, run)
        }
    } else {
        scan_rev(ws, target, reqd, bhi, i, j - 1, found, start, run)
    }
}

/// Which positions a range update of `start..=end` touches: within one
/// word, the single position when `start == end` and otherwise
/// `start..end` (the end left out); across words, `start..=end`, and the
/// whole last word as well when at least one word lies between and `end` is
/// the first bit of its word.
pub open spec fn range_covers(start: int, end: int, p: int) -> bool {
    let si = start / 64;
    let ei = end / 64;
    if si == ei {
        if start == end { p == start } else { start <= p < end }
    } else {
        (start <= p <= end) || (si + 1 < ei && end % 64 == 0 && p / 64 == ei)
    }
}

/// A bitmap whose storage is a run of 64-bit words.
pub struct Bitmap {
    bitmap: Vec<u64>,
    base: VirtAddr,
    capacity_in_units: usize,
    units_free: usize,
    size_in_uintn: usize,
    size_in_pages: usize,
    size_in_bytes: usize,
}

/// Bit `k` of a word with bit `j` set.
proof fn lemma_word_set(w: u64, j: u64)
    requires
        j < 64,
    ensures
        forall|k: int| 0 <= k < 64 ==> #[trigger] word_bit(w | (1u64 << j), k) == (k == j || word_bit(w, k)),
        (w & (1u64 << j) != 0) == word_bit(w, j as int),
{
    assert forall|k: int| 0 <= k < 64 implies #[trigger] word_bit(w | (1u64 << j), k) == (k == j || word_bit(w, k)) by {
        let kk = k as u64;
        crate::bitfacts::lemma_set_clear_shifts();
        assert((((w | (1u64 << j)) >> kk) & 1 == 1) == (kk == j || (w >> kk) & 1 == 1));
    }
    crate::bitfacts::lemma_mask_tests();
    assert(((w & (1u64 << j)) == 0) == !((w >> j) & 1 == 1));
}

/// Bit `k` of a word with bit `j` cleared.
proof fn lemma_word_clear(w: u64, j: u64)
    requires
        j < 64,
    ensures
        forall|k: int| 0 <= k < 64 ==> #[trigger] word_bit(w & !(1u64 << j), k) == (k != j && word_bit(w, k)),
{
    assert forall|k: int| 0 <= k < 64 implies #[trigger] word_bit(w & !(1u64 << j), k) == (k != j && word_bit(w, k)) by {
        let kk = k as u64;
        crate::bitfacts::lemma_set_clear_shifts();
        assert((((w & !(1u64 << j)) >> kk) & 1 == 1) == (kk != j && (w >> kk) & 1 == 1));
    }
}

/// The all-zeros and all-ones words, bit by bit.
proof fn lemma_word_extremes(w: u64)
    ensures
        forall|k: int| 0 <= k < 64 ==> !#[trigger] word_bit(0u64, k),
        forall|k: int| 0 <= k < 64 ==> #[trigger] word_bit(u64::MAX, k),
        (w == 0) == (forall|k: int| 0 <= k < 64 ==> !#[trigger] word_bit(w, k)),
        (w == u64::MAX) == (forall|k: int| 0 <= k < 64 ==> #[trigger] word_bit(w, k)),
{
    assert forall|k: int| 0 <= k < 64 implies !#[trigger] word_bit(0u64, k) by {
        let kk = k as u64;
        assert(!((0u64 >> kk) & 1 == 1)) by (bit_vector) requires kk < 64;
    }
    assert forall|k: int| 0 <= k < 64 implies #[trigger] word_bit(u64::MAX, k) by {
        let kk = k as u64;
        assert((u64::MAX >> kk) & 1 == 1) by (bit_vector) requires kk < 64;
    }
    if forall|k: int| 0 <= k < 64 ==> !#[trigger] word_bit(w, k) {
        assert forall|kk: u64| kk < 64 implies (w >> kk) & 1 == 0 by {
            assert(!word_bit(w, kk as int));
            assert(!((w >> kk) & 1 == 1) ==> (w >> kk) & 1 == 0) by (bit_vector);
        }
        assert((w >> 0u64) & 1 == 0 && (w >> 1u64) & 1 == 0 && (w >> 2u64) & 1 == 0 && (w >> 3u64) & 1 == 0 && (w >> 4u64) & 1 == 0 && (w >> 5u64) & 1 == 0 && (w >> 6u64) & 1 == 0 && (w >> 7u64) & 1 == 0 && (w >> 8u64) & 1 == 0 && (w >> 9u64) & 1 == 0 && (w >> 10u64) & 1 == 0 && (w >> 11u64) & 1 == 0 && (w >> 12u64) & 1 == 0 && (w >> 13u64) & 1 == 0 && (w >> 14u64) & 1 == 0 && (w >> 15u64) & 1 == 0 && (w >> 16u64) & 1 == 0 && (w >> 17u64) & 1 == 0 && (w >> 18u64) & 1 == 0 && (w >> 19u64) & 1 == 0 && (w >> 20u64) & 1 == 0 && (w >> 21u64) & 1 == 0 && (w >> 22u64) & 1 == 0 && (w >> 23u64) & 1 == 0 && (w >> 24u64) & 1 == 0 && (w >> 25u64) & 1 == 0 && (w >> 26u64) & 1 == 0 && (w >> 27u64) & 1 == 0 && (w >> 28u64) & 1 == 0 && (w >> 29u64) & 1 == 0 && (w >> 30u64) & 1 == 0 && (w >> 31u64) & 1 == 0 && (w >> 32u64) & 1 == 0 && (w >> 33u64) & 1 == 0 && (w >> 34u64) & 1 == 0 && (w >> 35u64) & 1 == 0 && (w >> 36u64) & 1 == 0 && (w >> 37u64) & 1 == 0 && (w >> 38u64) & 1 == 0 && (w >> 39u64) & 1 == 0 && (w >> 40u64) & 1 == 0 && (w >> 41u64) & 1 == 0 && (w >> 42u64) & 1 == 0 && (w >> 43u64) & 1 == 0 && (w >> 44u64) & 1 == 0 && (w >> 45u64) & 1 == 0 && (w >> 46u64) & 1 == 0 && (w >> 47u64) & 1 == 0 && (w >> 48u64) & 1 == 0 && (w >> 49u64) & 1 == 0 && (w >> 50u64) & 1 == 0 && (w >> 51u64) & 1 == 0 && (w >> 52u64) & 1 == 0 && (w >> 53u64) & 1 == 0 && (w >> 54u64) & 1 == 0 && (w >> 55u64) & 1 == 0 && (w >> 56u64) & 1 == 0 && (w >> 57u64) & 1 == 0 && (w >> 58u64) & 1 == 0 && (w >> 59u64) & 1 == 0 && (w >> 60u64) & 1 == 0 && (w >> 61u64) & 1 == 0 && (w >> 62u64) & 1 == 0 && (w >> 63u64) & 1 == 0) by {
            assert((w >> 0u64) & 1 == 0);
            assert((w >> 1u64) & 1 == 0);
            assert((w >> 2u64) & 1 == 0);
            assert((w >> 3u64) & 1 == 0);
            assert((w >> 4u64) & 1 == 0);
            assert((w >> 5u64) & 1 == 0);
            assert((w >> 6u64) & 1 == 0);
            assert((w >> 7u64) & 1 == 0);
            assert((w >> 8u64) & 1 == 0);
            assert((w >> 9u64) & 1 == 0);
            assert((w >> 10u64) & 1 == 0);
            assert((w >> 11u64) & 1 == 0);
            assert((w >> 12u64) & 1 == 0);
            assert((w >> 13u64) & 1 == 0);
            assert((w >> 14u64) & 1 == 0);
            assert((w >> 15u64) & 1 == 0);
            assert((w >> 16u64) & 1 == 0);
            assert((w >> 17u64) & 1 == 0);
            assert((w >> 18u64) & 1 == 0);
            assert((w >> 19u64) & 1 == 0);
            assert((w >> 20u64) & 1 == 0);
            assert((w >> 21u64) & 1 == 0);
            assert((w >> 22u64) & 1 == 0);
            assert((w >> 23u64) & 1 == 0);
            assert((w >> 24u64) & 1 == 0);
            assert((w >> 25u64) & 1 == 0);
            assert((w >> 26u64) & 1 == 0);
            assert((w >> 27u64) & 1 == 0);
            assert((w >> 28u64) & 1 == 0);
            assert((w >> 29u64) & 1 == 0);
            assert((w >> 30u64) & 1 == 0);
            assert((w >> 31u64) & 1 == 0);
            assert((w >> 32u64) & 1 == 0);
            assert((w >> 33u64) & 1 == 0);
            assert((w >> 34u64) & 1 == 0);
            assert((w >> 35u64) & 1 == 0);
            assert((w >> 36u64) & 1 == 0);
            assert((w >> 37u64) & 1 == 0);
            assert((w >> 38u64) & 1 == 0);
            assert((w >> 39u64) & 1 == 0);
            assert((w >> 40u64) & 1 == 0);
            assert((w >> 41u64) & 1 == 0);
            assert((w >> 42u64) & 1 == 0);
            assert((w >> 43u64) & 1 == 0);
            assert((w >> 44u64) & 1 == 0);
            assert((w >> 45u64) & 1 == 0);
            assert((w >> 46u64) & 1 == 0);
            assert((w >> 47u64) & 1 == 0);
            assert((w >> 48u64) & 1 == 0);
            assert((w >> 49u64) & 1 == 0);
            assert((w >> 50u64) & 1 == 0);
            assert((w >> 51u64) & 1 == 0);
            assert((w >> 52u64) & 1 == 0);
            assert((w >> 53u64) & 1 == 0);
            assert((w >> 54u64) & 1 == 0);
            assert((w >> 55u64) & 1 == 0);
            assert((w >> 56u64) & 1 == 0);
            assert((w >> 57u64) & 1 == 0);
            assert((w >> 58u64) & 1 == 0);
            assert((w >> 59u64) & 1 == 0);
            assert((w >> 60u64) & 1 == 0);
            assert((w >> 61u64) & 1 == 0);
            assert((w >> 62u64) & 1 == 0);
            assert((w >> 63u64) & 1 == 0);
        }
        assert(w == 0) by (bit_vector)
            requires (w >> 0u64) & 1 == 0 && (w >> 1u64) & 1 == 0 && (w >> 2u64) & 1 == 0 && (w >> 3u64) & 1 == 0 && (w >> 4u64) & 1 == 0 && (w >> 5u64) & 1 == 0 && (w >> 6u64) & 1 == 0 && (w >> 7u64) & 1 == 0 && (w >> 8u64) & 1 == 0 && (w >> 9u64) & 1 == 0 && (w >> 10u64) & 1 == 0 && (w >> 11u64) & 1 == 0 && (w >> 12u64) & 1 == 0 && (w >> 13u64) & 1 == 0 && (w >> 14u64) & 1 == 0 && (w >> 15u64) & 1 == 0 && (w >> 16u64) & 1 == 0 && (w >> 17u64) & 1 == 0 && (w >> 18u64) & 1 == 0 && (w >> 19u64) & 1 == 0 && (w >> 20u64) & 1 == 0 && (w >> 21u64) & 1 == 0 && (w >> 22u64) & 1 == 0 && (w >> 23u64) & 1 == 0 && (w >> 24u64) & 1 == 0 && (w >> 25u64) & 1 == 0 && (w >> 26u64) & 1 == 0 && (w >> 27u64) & 1 == 0 && (w >> 28u64) & 1 == 0 && (w >> 29u64) & 1 == 0 && (w >> 30u64) & 1 == 0 && (w >> 31u64) & 1 == 0 && (w >> 32u64) & 1 == 0 && (w >> 33u64) & 1 == 0 && (w >> 34u64) & 1 == 0 && (w >> 35u64) & 1 == 0 && (w >> 36u64) & 1 == 0 && (w >> 37u64) & 1 == 0 && (w >> 38u64) & 1 == 0 && (w >> 39u64) & 1 == 0 && (w >> 40u64) & 1 == 0 && (w >> 41u64) & 1 == 0 && (w >> 42u64) & 1 == 0 && (w >> 43u64) & 1 == 0 && (w >> 44u64) & 1 == 0 && (w >> 45u64) & 1 == 0 && (w >> 46u64) & 1 == 0 && (w >> 47u64) & 1 == 0 && (w >> 48u64) & 1 == 0 && (w >> 49u64) & 1 == 0 && (w >> 50u64) & 1 == 0 && (w >> 51u64) & 1 == 0 && (w >> 52u64) & 1 == 0 && (w >> 53u64) & 1 == 0 && (w >> 54u64) & 1 == 0 && (w >> 55u64) & 1 == 0 && (w >> 56u64) & 1 == 0 && (w >> 57u64) & 1 == 0 && (w >> 58u64) & 1 == 0 && (w >> 59u64) & 1 == 0 && (w >> 60u64) & 1 == 0 && (w >> 61u64) & 1 == 0 && (w >> 62u64) & 1 == 0 && (w >> 63u64) & 1 == 0;
    }
    if forall|k: int| 0 <= k < 64 ==> #[trigger] word_bit(w, k) {
        assert forall|kk: u64| kk < 64 implies ((w >> kk) & 1 == 1) by {
            assert(word_bit(w, kk as int));
        }
        assert((w >> 0u64) & 1 == 1 && (w >> 1u64) & 1 == 1 && (w >> 2u64) & 1 == 1 && (w >> 3u64) & 1 == 1 && (w >> 4u64) & 1 == 1 && (w >> 5u64) & 1 == 1 && (w >> 6u64) & 1 == 1 && (w >> 7u64) & 1 == 1 && (w >> 8u64) & 1 == 1 && (w >> 9u64) & 1 == 1 && (w >> 10u64) & 1 == 1 && (w >> 11u64) & 1 == 1 && (w >> 12u64) & 1 == 1 && (w >> 13u64) & 1 == 1 && (w >> 14u64) & 1 == 1 && (w >> 15u64) & 1 == 1 && (w >> 16u64) & 1 == 1 && (w >> 17u64) & 1 == 1 && (w >> 18u64) & 1 == 1 && (w >> 19u64) & 1 == 1 && (w >> 20u64) & 1 == 1 && (w >> 21u64) & 1 == 1 && (w >> 22u64) & 1 == 1 && (w >> 23u64) & 1 == 1 && (w >> 24u64) & 1 == 1 && (w >> 25u64) & 1 == 1 && (w >> 26u64) & 1 == 1 && (w >> 27u64) & 1 == 1 && (w >> 28u64) & 1 == 1 && (w >> 29u64) & 1 == 1 && (w >> 30u64) & 1 == 1 && (w >> 31u64) & 1 == 1 && (w >> 32u64) & 1 == 1 && (w >> 33u64) & 1 == 1 && (w >> 34u64) & 1 == 1 && (w >> 35u64) & 1 == 1 && (w >> 36u64) & 1 == 1 && (w >> 37u64) & 1 == 1 && (w >> 38u64) & 1 == 1 && (w >> 39u64) & 1 == 1 && (w >> 40u64) & 1 == 1 && (w >> 41u64) & 1 == 1 && (w >> 42u64) & 1 == 1 && (w >> 43u64) & 1 == 1 && (w >> 44u64) & 1 == 1 && (w >> 45u64) & 1 == 1 && (w >> 46u64) & 1 == 1 && (w >> 47u64) & 1 == 1 && (w >> 48u64) & 1 == 1 && (w >> 49u64) & 1 == 1 && (w >> 50u64) & 1 == 1 && (w >> 51u64) & 1 == 1 && (w >> 52u64) & 1 == 1 && (w >> 53u64) & 1 == 1 && (w >> 54u64) & 1 == 1 && (w >> 55u64) & 1 == 1 && (w >> 56u64) & 1 == 1 && (w >> 57u64) & 1 == 1 && (w >> 58u64) & 1 == 1 && (w >> 59u64) & 1 == 1 && (w >> 60u64) & 1 == 1 && (w >> 61u64) & 1 == 1 && (w >> 62u64) & 1 == 1 && (w >> 63u64) & 1 == 1) by {
            assert((w >> 0u64) & 1 == 1);
            assert((w >> 1u64) & 1 == 1);
            assert((w >> 2u64) & 1 == 1);
            assert((w >> 3u64) & 1 == 1);
            assert((w >> 4u64) & 1 == 1);
            assert((w >> 5u64) & 1 == 1);
            assert((w >> 6u64) & 1 == 1);
            assert((w >> 7u64) & 1 == 1);
            assert((w >> 8u64) & 1 == 1);
            assert((w >> 9u64) & 1 == 1);
            assert((w >> 10u64) & 1 == 1);
            assert((w >> 11u64) & 1 == 1);
            assert((w >> 12u64) & 1 == 1);
            assert((w >> 13u64) & 1 == 1);
            assert((w >> 14u64) & 1 == 1);
            assert((w >> 15u64) & 1 == 1);
            assert((w >> 16u64) & 1 == 1);
            assert((w >> 17u64) & 1 == 1);
            assert((w >> 18u64) & 1 == 1);
            assert((w >> 19u64) & 1 == 1);
            assert((w >> 20u64) & 1 == 1);
            assert((w >> 21u64) & 1 == 1);
            assert((w >> 22u64) & 1 == 1);
            assert((w >> 23u64) & 1 == 1);
            assert((w >> 24u64) & 1 == 1);
            assert((w >> 25u64) & 1 == 1);
            assert((w >> 26u64) & 1 == 1);
            assert((w >> 27u64) & 1 == 1);
            assert((w >> 28u64) & 1 == 1);
            assert((w >> 29u64) & 1 == 1);
            assert((w >> 30u64) & 1 == 1);
            assert((w >> 31u64) & 1 == 1);
            assert((w >> 32u64) & 1 == 1);
            assert((w >> 33u64) & 1 == 1);
            assert((w >> 34u64) & 1 == 1);
            assert((w >> 35u64) & 1 == 1);
            assert((w >> 36u64) & 1 == 1);
            assert((w >> 37u64) & 1 == 1);
            assert((w >> 38u64) & 1 == 1);
            assert((w >> 39u64) & 1 == 1);
            assert((w >> 40u64) & 1 == 1);
            assert((w >> 41u64) & 1 == 1);
            assert((w >> 42u64) & 1 == 1);
            assert((w >> 43u64) & 1 == 1);
            assert((w >> 44u64) & 1 == 1);
            assert((w >> 45u64) & 1 == 1);
            assert((w >> 46u64) & 1 == 1);
            assert((w >> 47u64) & 1 == 1);
            assert((w >> 48u64) & 1 == 1);
            assert((w >> 49u64) & 1 == 1);
            assert((w >> 50u64) & 1 == 1);
            assert((w >> 51u64) & 1 == 1);
            assert((w >> 52u64) & 1 == 1);
            assert((w >> 53u64) & 1 == 1);
            assert((w >> 54u64) & 1 == 1);
            assert((w >> 55u64) & 1 == 1);
            assert((w >> 56u64) & 1 == 1);
            assert((w >> 57u64) & 1 == 1);
            assert((w >> 58u64) & 1 == 1);
            assert((w >> 59u64) & 1 == 1);
            assert((w >> 60u64) & 1 == 1);
            assert((w >> 61u64) & 1 == 1);
            assert((w >> 62u64) & 1 == 1);
            assert((w >> 63u64) & 1 == 1);
        }
        assert(w == u64::MAX) by (bit_vector)
            requires (w >> 0u64) & 1 == 1 && (w >> 1u64) & 1 == 1 && (w >> 2u64) & 1 == 1 && (w >> 3u64) & 1 == 1 && (w >> 4u64) & 1 == 1 && (w >> 5u64) & 1 == 1 && (w >> 6u64) & 1 == 1 && (w >> 7u64) & 1 == 1 && (w >> 8u64) & 1 == 1 && (w >> 9u64) & 1 == 1 && (w >> 10u64) & 1 == 1 && (w >> 11u64) & 1 == 1 && (w >> 12u64) & 1 == 1 && (w >> 13u64) & 1 == 1 && (w >> 14u64) & 1 == 1 && (w >> 15u64) & 1 == 1 && (w >> 16u64) & 1 == 1 && (w >> 17u64) & 1 == 1 && (w >> 18u64) & 1 == 1 && (w >> 19u64) & 1 == 1 && (w >> 20u64) & 1 == 1 && (w >> 21u64) & 1 == 1 && (w >> 22u64) & 1 == 1 && (w >> 23u64) & 1 == 1 && (w >> 24u64) & 1 == 1 && (w >> 25u64) & 1 == 1 && (w >> 26u64) & 1 == 1 && (w >> 27u64) & 1 == 1 && (w >> 28u64) & 1 == 1 && (w >> 29u64) & 1 == 1 && (w >> 30u64) & 1 == 1 && (w >> 31u64) & 1 == 1 && (w >> 32u64) & 1 == 1 && (w >> 33u64) & 1 == 1 && (w >> 34u64) & 1 == 1 && (w >> 35u64) & 1 == 1 && (w >> 36u64) & 1 == 1 && (w >> 37u64) & 1 == 1 && (w >> 38u64) & 1 == 1 && (w >> 39u64) & 1 == 1 && (w >> 40u64) & 1 == 1 && (w >> 41u64) & 1 == 1 && (w >> 42u64) & 1 == 1 && (w >> 43u64) & 1 == 1 && (w >> 44u64) & 1 == 1 && (w >> 45u64) & 1 == 1 && (w >> 46u64) & 1 == 1 && (w >> 47u64) & 1 == 1 && (w >> 48u64) & 1 == 1 && (w >> 49u64) & 1 == 1 && (w >> 50u64) & 1 == 1 && (w >> 51u64) & 1 == 1 && (w >> 52u64) & 1 == 1 && (w >> 53u64) & 1 == 1 && (w >> 54u64) & 1 == 1 && (w >> 55u64) & 1 == 1 && (w >> 56u64) & 1 == 1 && (w >> 57u64) & 1 == 1 && (w >> 58u64) & 1 == 1 && (w >> 59u64) & 1 == 1 && (w >> 60u64) & 1 == 1 && (w >> 61u64) & 1 == 1 && (w >> 62u64) & 1 == 1 && (w >> 63u64) & 1 == 1;
    }
}

/// Reading the bit of position `i * 64 + j`.
proof fn lemma_pos(i: int, j: int)
    requires
        0 <= i,
        0 <= j < 64,
    ensures
        (i * 64 + j) / 64 == i,
        (i * 64 + j) % 64 == j,
{
}

impl Bitmap {
    /// The storage words.
    pub closed spec fn words(&self) -> Seq<u64> {
        self.bitmap@
    }

    /// Words of storage.
    pub closed spec fn n_words(&self) -> nat {
        self.size_in_uintn as nat
    }

    /// Items the bitmap was sized for.
    pub closed spec fn cap(&self) -> nat {
        self.capacity_in_units as nat
    }

    /// The free-unit counter.
    pub closed spec fn free(&self) -> nat {
        self.units_free as nat
    }

    /// Bytes of storage.
    pub closed spec fn n_bytes(&self) -> nat {
        self.size_in_bytes as nat
    }

    /// Default-size pages of storage.
    pub closed spec fn n_pages(&self) -> nat {
        self.size_in_pages as nat
    }

    /// The address of the storage.
    pub closed spec fn base_addr(&self) -> VirtAddr {
        self.base
    }

    /// Positions the storage holds.
    pub open spec fn n_bits(&self) -> nat {
        self.n_words() * 64
    }

    /// Whether position `p` is set.
    pub open spec fn bit(&self, p: int) -> bool {
        seq_bit(self.words(), p)
    }

    /// The storage matches its recorded size, and every position can be
    /// named by a machine word.
    pub closed spec fn wf(&self) -> bool {
        &&& self.bitmap@.len() == self.size_in_uintn
        &&& self.size_in_uintn * 64 <= usize::MAX
        &&& self.capacity_in_units <= self.size_in_uintn * 64
    }

    /// Items `s .. s + n` lie within the capacity and all have value `target`.
    pub open spec fn run_at(&self, target: bool, s: int, n: int) -> bool {
        &&& 0 <= s
        &&& s + n <= self.cap()
        &&& forall|k: int| s <= k < s + n ==> #[trigger] self.bit(k) == target
    }

    /// `r` is the first start in `lo..=hi` of a run of `n` items of value
    /// `target` (see `run_at`), and none when there is no such start.
    pub open spec fn is_first_run(&self, target: bool, lo: int, hi: int, n: int, r: Option<usize>) -> bool {
        match r {
            Some(s) => {
                &&& lo <= s <= hi
                &&& self.run_at(target, s as int, n)
                &&& forall|t: int| lo <= t < s ==> !#[trigger] self.run_at(target, t, n)
            },
            None => forall|t: int| lo <= t <= hi ==> !#[trigger] self.run_at(target, t, n),
        }
    }

    /// A well-formed bitmap has no more positions than a machine word counts.
    pub proof fn lemma_bits_fit(&self)
        requires
            self.wf(),
        ensures
            self.n_bits() <= usize::MAX,
    {
    }

    /// An empty bitmap with no storage.
    pub fn new() -> (r: Bitmap)
        ensures
            r.wf(),
            r.n_words() == 0,
            r.cap() == 0,
            r.free() == 0,
            r.n_bytes() == 0,
            r.n_pages() == 0,
            r.base_addr() == VirtAddr(0),
    {
        Bitmap {
            bitmap: Vec::new(),
            base: VirtAddr(0),
            capacity_in_units: 0,
            units_free: 0,
            size_in_uintn: 0,
            size_in_pages: 0,
            size_in_bytes: 0,
        }
    }

    /// Words needed for `capacity` items.
    pub fn calc_size_in_uintn(capacity: usize) -> (r: usize)
        requires
            capacity + 63 <= usize::MAX,
        ensures
            r == (capacity + 63) / 64,
    {
        (capacity + (UINTN_BITS - 1)) / UINTN_BITS
    }

    /// Whole default-size pages filled by the words for `capacity` items.
    pub fn calc_size_in_default_pages(capacity: usize) -> (r: usize)
        requires
            capacity + 63 <= usize::MAX,
        ensures
            r == ((capacity + 63) / 64) / 512,
    {
        let uintn_per_page = MEMORY_DEFAULT_PAGE_USIZE / 8;
        Bitmap::calc_size_in_uintn(capacity) / uintn_per_page
    }

    /// The word that holds item `item`.
    pub fn calc_item_index(item: usize) -> (r: usize)
        ensures
            r == item / 64,
    {
        item / UINTN_BITS
    }

    /// The position of item `item` within its word.
    pub fn calc_item_bit_index(item: usize) -> (r: usize)
        ensures
            r == item % 64,
    {
        item % UINTN_BITS
    }

    /// Sets the bitmap up for `item_cap` items with zeroed storage placed at
    /// `pre_allocated_base`, or at `base_vaddr` when that is zero; every item
    /// counts as free. Storage at `base_vaddr` has to be allocated and
    /// mapped first, and `storage_mapped` says whether that succeeded; when
    /// it did not, the bitmap is left as it is and the result is false.
    pub fn init(&mut self, item_cap: usize, base_vaddr: VirtAddr, pre_allocated_base: VirtAddr, storage_mapped: bool) -> (r: bool)
        requires
            item_cap + 63 <= usize::MAX,
            ((item_cap + 63) / 64) * 64 <= usize::MAX,
        ensures
            r == (pre_allocated_base.0 != 0 || storage_mapped),
            !r ==> *final(self) == *old(self),
            r ==> final(self).wf(),
            r ==> final(self).n_words() == (item_cap + 63) / 64,
            r ==> final(self).n_bytes() == final(self).n_words() * 8,
            r ==> final(self).n_pages() == (final(self).n_bytes() + 4095) / 4096,
            r ==> final(self).cap() == item_cap,
            r ==> final(self).free() == item_cap,
            r ==> final(self).base_addr() == (if pre_allocated_base.0 == 0 { base_vaddr } else { pre_allocated_base }),
            r ==> forall|p: int| 0 <= p < final(self).n_bits() ==> !#[trigger] final(self).bit(p),
    {
        if pre_allocated_base.0 == 0 && !storage_mapped {
            return false;
        }
        let size_in_uintn = Bitmap::calc_size_in_uintn(item_cap);
        let size_in_bytes = size_in_uintn * 8;
        let size_in_pages = (size_in_bytes + (MEMORY_DEFAULT_PAGE_USIZE - 1)) / MEMORY_DEFAULT_PAGE_USIZE;
        let mut words: Vec<u64> = Vec::new();
        let mut i: usize = 0;
        while i < size_in_uintn
            invariant
                i <= size_in_uintn,
                words@.len() == i,
                forall|k: int| 0 <= k < i ==> #[trigger] words@[k] == 0,
            decreases size_in_uintn - i,
        {
            words.push(0u64);
            i = i + 1;
        }
        self.bitmap = words;
        self.base = if pre_allocated_base.0 == 0 { base_vaddr } else { pre_allocated_base };
        self.capacity_in_units = item_cap;
        self.units_free = item_cap;
        self.size_in_uintn = size_in_uintn;
        self.size_in_pages = size_in_pages;
        self.size_in_bytes = size_in_bytes;
        proof {
            lemma_word_extremes(0);
            assert forall|p: int| 0 <= p < self.n_bits() implies !#[trigger] self.bit(p) by {
                assert(self.words()[p / 64] == 0);
            }
        }
        true
    }

    /// Words of storage.
    pub fn size_in_uintn(&self) -> (r: usize)
        ensures
            r == self.n_words(),
    {
        self.size_in_uintn
    }

    /// Default-size pages of storage.
    pub fn size_in_pages(&self) -> (r: usize)
        ensures
            r == self.n_pages(),
    {
        self.size_in_pages
    }

    /// Bytes of storage.
    pub fn size_in_bytes(&self) -> (r: usize)
        ensures
            r == self.n_bytes(),
    {
        self.size_in_bytes
    }

    /// The storage words.
    pub fn get_bitmap_ref(&self) -> (r: &[u64])
        ensures
            r@ == self.words(),
    {
        self.bitmap.as_slice()
    }

    /// Sets item `item`, counting one fewer free unit.
    pub fn set(&mut self, item: usize)
        requires
            old(self).wf(),
            item < old(self).n_bits(),
            old(self).free() >= 1,
        ensures
            final(self).wf(),
            forall|p: int| 0 <= p < final(self).n_bits() ==> #[trigger] final(self).bit(p) == (p == item || old(self).bit(p)),
            final(self).free() == old(self).free() - 1,
            final(self).n_words() == old(self).n_words(),
            final(self).cap() == old(self).cap(),
            final(self).n_bytes() == old(self).n_bytes(),
            final(self).n_pages() == old(self).n_pages(),
            final(self).base_addr() == old(self).base_addr(),
    {
        let item_index = Bitmap::calc_item_index(item);
        let item_bit_index = Bitmap::calc_item_bit_index(item);
        let w = self.bitmap[item_index];
        let nw = w | (1u64 << (item_bit_index as u64));
        self.bitmap[item_index] = nw;
        self.units_free = self.units_free - 1;
        proof {
            lemma_word_set(w, item_bit_index as u64);
            assert forall|p: int| 0 <= p < self.n_bits() implies #[trigger] self.bit(p) == (p == item || old(self).bit(p)) by {
                if p / 64 == item_index as int {
                } else {
                    assert(self.words()[p / 64] == old(self).words()[p / 64]);
                }
            }
        }
    }

    /// Clears item `item`, counting one more free unit.
    pub fn clear(&mut self, item: usize)
        requires
            old(self).wf(),
            item < old(self).n_bits(),
            old(self).free() < usize::MAX,
        ensures
            final(self).wf(),
            forall|p: int| 0 <= p < final(self).n_bits() ==> #[trigger] final(self).bit(p) == (p != item && old(self).bit(p)),
            final(self).free() == old(self).free() + 1,
            final(self).n_words() == old(self).n_words(),
            final(self).cap() == old(self).cap(),
            final(self).n_bytes() == old(self).n_bytes(),
            final(self).n_pages() == old(self).n_pages(),
            final(self).base_addr() == old(self).base_addr(),
    {
        let item_index = Bitmap::calc_item_index(item);
        let item_bit_index = Bitmap::calc_item_bit_index(item);
        let w = self.bitmap[item_index];
        let nw = w & !(1u64 << (item_bit_index as u64));
        self.bitmap[item_index] = nw;
        self.units_free = self.units_free + 1;
        proof {
            lemma_word_clear(w, item_bit_index as u64);
            assert forall|p: int| 0 <= p < self.n_bits() implies #[trigger] self.bit(p) == (p != item && old(self).bit(p)) by {
                if p / 64 == item_index as int {
                } else {
                    assert(self.words()[p / 64] == old(self).words()[p / 64]);
                }
            }
        }
    }

    /// Whether item `item` is set.
    pub fn is_set(&self, item: usize) -> (r: bool)
        requires
            self.wf(),
            item < self.n_bits(),
        ensures
            r == self.bit(item as int),
    {
        let item_index = Bitmap::calc_item_index(item);
        let item_bit_index = Bitmap::calc_item_bit_index(item);
        let w = self.bitmap[item_index];
        proof { lemma_word_set(w, item_bit_index as u64); }
        (w & (1u64 << (item_bit_index as u64))) != 0
    }

    /// Whether item `item` is clear.
    pub fn is_clear(&self, item: usize) -> (r: bool)
        requires
            self.wf(),
            item < self.n_bits(),
        ensures
            r == !self.bit(item as int),
    {
        !self.is_set(item)
    }

    /// Items the bitmap was sized for.
    pub fn capacity(&self) -> (r: usize)
        ensures
            r == self.cap(),
    {
        self.capacity_in_units
    }

    /// The capacity less the free-unit counter.
    pub fn bit_set_count(&self) -> (r: usize)
        requires
            self.free() <= self.cap(),
        ensures
            r == self.cap() - self.free(),
    {
        self.capacity_in_units - self.units_free
    }

    /// The free-unit counter.
    pub fn bit_clear_count(&self) -> (r: usize)
        ensures
            r == self.free(),
    {
        self.units_free
    }
}

impl Bitmap {
    /// `r` is the first position in words `wlo..whi`, bits `blo..64`, whose
    /// value is `target`, or none when there is no such position.
    pub open spec fn is_first_match(&self, target: bool, wlo: int, whi: int, blo: int, r: Option<usize>) -> bool {
        match r {
            Some(p) => in_window(p as int, wlo, whi, blo, 64) && self.bit(p as int) == target
                && forall|q: int| #[trigger] in_window(q, wlo, whi, blo, 64) && q < p ==> self.bit(q) != target,
            None => forall|q: int| #[trigger] in_window(q, wlo, whi, blo, 64) ==> self.bit(q) != target,
        }
    }

    /// `r` is the last position in words `0..whi`, bits `0..bhi`, whose value
    /// is `target`, or none when there is no such position.
    pub open spec fn is_last_match(&self, target: bool, whi: int, bhi: int, r: Option<usize>) -> bool {
        match r {
            Some(p) => in_window(p as int, 0, whi, 0, bhi) && self.bit(p as int) == target
                && forall|q: int| #[trigger] in_window(q, 0, whi, 0, bhi) && q > p ==> self.bit(q) != target,
            None => forall|q: int| #[trigger] in_window(q, 0, whi, 0, bhi) ==> self.bit(q) != target,
        }
    }

    /// Searches words `wlo..whi`, bits `blo..64` of each, upward for a bit
    /// equal to `target`.
    fn find_fwd(&self, target: bool, wlo: usize, whi: usize, blo: usize) -> (r: Option<usize>)
        requires
            self.wf(),
            wlo <= whi <= self.n_words(),
            blo <= 64,
        ensures
            self.is_first_match(target, wlo as int, whi as int, blo as int, r),
    {
        let mut i = wlo;
        while i < whi
            invariant
                self.wf(),
                wlo <= i <= whi <= self.n_words(),
                blo <= 64,
                forall|q: int| #[trigger] in_window(q, wlo as int, i as int, blo as int, 64) ==> self.bit(q) != target,
            decreases whi - i,
        {
            let w = self.bitmap[i];
            let skip = if target { w == 0 } else { w == u64::MAX };
            proof { lemma_word_extremes(w); }
            if !skip {
                let mut j = blo;
                while j < 64
                    invariant
                        self.wf(),
                        wlo <= i < whi <= self.n_words(),
                        blo <= j <= 64,
                        w == self.words()[i as int],
                        forall|q: int| #[trigger] in_window(q, wlo as int, i as int, blo as int, 64) ==> self.bit(q) != target,
                        forall|k: int| blo <= k < j ==> #[trigger] word_bit(w, k) != target,
                    decreases 64 - j,
                {
                    proof { lemma_word_set(w, j as u64); }
                    let is_one = (w & (1u64 << (j as u64))) != 0;
                    if is_one == target {
                        proof {
                            lemma_pos(i as int, j as int);
                            assert forall|q: int| #[trigger] in_window(q, wlo as int, whi as int, blo as int, 64) && q < i * 64 + j implies self.bit(q) != target by {
                                if q / 64 < i as int {
                                    assert(in_window(q, wlo as int, i as int, blo as int, 64));
                                } else {
                                    assert(word_bit(w, q % 64) != target);
                                }
                            }
                        }
                        return Some(i * 64 + j);
                    }
                    j = j + 1;
                }
            }
            proof {
                assert forall|q: int| #[trigger] in_window(q, wlo as int, (i + 1) as int, blo as int, 64) implies self.bit(q) != target by {
                    if q / 64 < i as int {
                        assert(in_window(q, wlo as int, i as int, blo as int, 64));
                    } else {
                        assert(word_bit(w, q % 64) != target);
                    }
                }
            }
            i = i + 1;
        }
        None
    }

    /// Searches words `whi - 1` down to `0`, bits `bhi - 1` down to `0` of
    /// each, for a bit equal to `target`.
    fn find_rev(&self, target: bool, whi: usize, bhi: usize) -> (r: Option<usize>)
        requires
            self.wf(),
            whi <= self.n_words(),
            bhi <= 64,
        ensures
            self.is_last_match(target, whi as int, bhi as int, r),
    {
        let mut i = whi;
        while i > 0
            invariant
                self.wf(),
                i <= whi <= self.n_words(),
                bhi <= 64,
                forall|q: int| #[trigger] in_window(q, 0, whi as int, 0, bhi as int) && q / 64 >= i ==> self.bit(q) != target,
            decreases i,
        {
            let wi = i - 1;
            let w = self.bitmap[wi];
            let skip = if target { w == 0 } else { w == u64::MAX };
            proof { lemma_word_extremes(w); }
            if !skip {
                let mut j = bhi;
                while j > 0
                    invariant
                        self.wf(),
                        wi + 1 == i,
                        i <= whi <= self.n_words(),
                        j <= bhi <= 64,
                        w == self.words()[wi as int],
                        forall|q: int| #[trigger] in_window(q, 0, whi as int, 0, bhi as int) && q / 64 >= i ==> self.bit(q) != target,
                        forall|k: int| j <= k < bhi ==> #[trigger] word_bit(w, k) != target,
                    decreases j,
                {
                    let b = j - 1;
                    proof { lemma_word_set(w, b as u64); }
                    let is_one = (w & (1u64 << (b as u64))) != 0;
                    if is_one == target {
                        proof {
                            lemma_pos(wi as int, b as int);
                            assert forall|q: int| #[trigger] in_window(q, 0, whi as int, 0, bhi as int) && q > wi * 64 + b implies self.bit(q) != target by {
                                if q / 64 > wi as int {
                                } else {
                                    assert(word_bit(w, q % 64) != target);
                                }
                            }
                        }
                        return Some(wi * 64 + b);
                    }
                    j = b;
                }
            }
            proof {
                assert forall|q: int| #[trigger] in_window(q, 0, whi as int, 0, bhi as int) && q / 64 >= wi implies self.bit(q) != target by {
                    if q / 64 > wi as int {
                    } else {
                        assert(word_bit(w, q % 64) != target);
                    }
                }
            }
            i = wi;
        }
        None
    }

    /// Runs the forward run search over words `wlo..whi` from bit `blo`.
    fn scan_fwd_exec(&self, target: bool, reqd: usize, wlo: usize, whi: usize, blo: usize) -> (r: Option<usize>)
        requires
            self.wf(),
            wlo <= whi <= self.n_words(),
            blo < 64,
        ensures
            opt_int(r) == scan_fwd(self.words(), target, reqd as int, whi as int, blo as int, wlo as int, blo as int, false, 0, 0),
    {
        let ghost ws = self.words();
        let ghost res = scan_fwd(ws, target, reqd as int, whi as int, blo as int, wlo as int, blo as int, false, 0, 0);
        let mut found = false;
        let mut start: usize = 0;
        let mut run: usize = 0;
        let mut i = wlo;
        while i < whi
            invariant
                self.wf(),
                ws == self.words(),
                res == scan_fwd(ws, target, reqd as int, whi as int, blo as int, wlo as int, blo as int, false, 0, 0),
                wlo <= i <= whi <= self.n_words(),
                blo < 64,
                run <= i * 64 + blo,
                res == scan_fwd(ws, target, reqd as int, whi as int, blo as int, i as int, blo as int, found, start as int, run as int),
            decreases whi - i,
        {
            let w = self.bitmap[i];
            let skip = if target { w == 0 } else { w == u64::MAX };
            if !skip {
                let mut j = blo;
                while j < 64
                    invariant
                        self.wf(),
                        ws == self.words(),
                        res == scan_fwd(ws, target, reqd as int, whi as int, blo as int, wlo as int, blo as int, false, 0, 0),
                        wlo <= i < whi <= self.n_words(),
                        blo <= j <= 64,
                        w == ws[i as int],
                        !word_skip(w, target),
                        run <= i * 64 + j,
                        res == scan_fwd(ws, target, reqd as int, whi as int, blo as int, i as int, j as int, found, start as int, run as int),
                    decreases 64 - j,
                {
                    proof { lemma_word_set(w, j as u64); }
                    let is_one = (w & (1u64 << (j as u64))) != 0;
                    if is_one == target {
                        if !found {
                            start = i * 64 + j;
                            run = 1;
                            found = true;
                        } else {
                            run = run + 1;
                        }
                    } else if found {
                        if run > reqd {
                            return Some(start);
                        } else {
                            found = false;
                        }
                    }
                    j = j + 1;
                }
            }
            i = i + 1;
        }
        None
    }

    /// Runs the backward run search over words `whi - 1` down to `0`, from
    /// bit `bhi - 1` down in each.
    fn scan_rev_exec(&self, target: bool, reqd: usize, whi: usize, bhi: usize) -> (r: Option<usize>)
        requires
            self.wf(),
            whi <= self.n_words(),
            bhi <= 64,
        ensures
            opt_int(r) == scan_rev(self.words(), target, reqd as int, bhi as int, whi as int, bhi as int, false, 0, 0),
    {
        let ghost ws = self.words();
        let ghost res = scan_rev(ws, target, reqd as int, bhi as int, whi as int, bhi as int, false, 0, 0);
        let mut found = false;
        let mut start: usize = 0;
        let mut run: usize = 0;
        let mut i = whi;
        while i > 0
            invariant
                self.wf(),
                ws == self.words(),
                res == scan_rev(ws, target, reqd as int, bhi as int, whi as int, bhi as int, false, 0, 0),
                i <= whi <= self.n_words(),
                bhi <= 64,
                i >= 1 ==> run + (i - 1) * 64 + bhi <= whi * 64,
                i == 0 ==> run <= whi * 64,
                res == scan_rev(ws, target, reqd as int, bhi as int, i as int, bhi as int, found, start as int, run as int),
            decreases i,
        {
            let wi = i - 1;
            let w = self.bitmap[wi];
            let skip = if target { w == 0 } else { w == u64::MAX };
            if !skip {
                let mut j = bhi;
                while j > 0
                    invariant
                        self.wf(),
                        ws == self.words(),
                        res == scan_rev(ws, target, reqd as int, bhi as int, whi as int, bhi as int, false, 0, 0),
                        wi + 1 == i,
                        i <= whi <= self.n_words(),
                        j <= bhi <= 64,
                        w == ws[wi as int],
                        !word_skip(w, target),
                        run + wi * 64 + j <= whi * 64,
                        res == scan_rev(ws, target, reqd as int, bhi as int, i as int, j as int, found, start as int, run as int),
                    decreases j,
                {
                    let b = j - 1;
                    proof { lemma_word_set(w, b as u64); }
                    let is_one = (w & (1u64 << (b as u64))) != 0;
                    if is_one == target {
                        if !found {
                            start = wi * 64 + b;
                            run = 1;
                            found = true;
                        } else {
                            run = run + 1;
                        }
                    } else if found {
                        if run > reqd {
                            return Some(start);
                        } else {
                            found = false;
                        }
                    }
                    j = b;
                }
            }
            i = wi;
        }
        None
    }

    /// The first start in `lo..=hi` of a run of `n` items of value `target`
    /// (see `is_first_run`).
    fn first_run(&self, target: bool, lo: usize, hi: usize, n: usize) -> (r: Option<usize>)
        requires
            self.wf(),
        ensures
            self.is_first_run(target, lo as int, hi as int, n as int, r),
    {
        let cap = self.capacity_in_units;
        if lo > cap {
            return None;
        }
        let mut s: usize = lo;
        let mut k: usize = lo;
        while s <= hi
            invariant
                self.wf(),
                cap == self.cap(),
                lo <= s <= k <= cap,
                k - s <= n,
                forall|j: int| s <= j < k ==> #[trigger] self.bit(j) == target,
                forall|t: int| lo <= t < s ==> !#[trigger] self.run_at(target, t, n as int),
            decreases cap - k, hi + 1 - s,
        {
            if k - s == n {
                return Some(s);
            }
            if k == cap {
                proof {
                    assert forall|t: int| lo <= t <= hi implies !#[trigger] self.run_at(target, t, n as int) by {
                        if t >= s {
                            assert(t + n > cap);
                        }
                    }
                }
                return None;
            }
            let b = self.is_set(k);
            if b == target {
                k = k + 1;
            } else {
                proof {
                    assert forall|t: int| lo <= t < k + 1 implies !#[trigger] self.run_at(target, t, n as int) by {
                        if t >= s {
                            assert(self.bit(k as int) != target);
                        }
                    }
                }
                s = k + 1;
                k = k + 1;
            }
        }
        None
    }
}

impl Bitmap {
    /// The lowest set position, if any.
    pub fn find_first_set(&self) -> (r: Option<usize>)
        requires
            self.wf(),
        ensures
            self.is_first_match(true, 0, self.n_words() as int, 0, r),
    {
        self.find_fwd(true, 0, self.size_in_uintn, 0)
    }

    /// The lowest set position in the words from `item`'s word on, looking
    /// in each word only at bit offsets from `item`'s offset upward.
    pub fn find_next_set(&self, item: usize) -> (r: Option<usize>)
        requires
            self.wf(),
        ensures
            self.is_first_match(true, (item / 64) as int, self.n_words() as int, (item % 64) as int, r),
    {
        let wi = Bitmap::calc_item_index(item);
        let bi = Bitmap::calc_item_bit_index(item);
        if wi >= self.size_in_uintn {
            return None;
        }
        self.find_fwd(true, wi, self.size_in_uintn, bi)
    }

    /// The highest set position, if any.
    pub fn find_last_set(&self) -> (r: Option<usize>)
        requires
            self.wf(),
        ensures
            self.is_last_match(true, self.n_words() as int, 64, r),
    {
        self.find_rev(true, self.size_in_uintn, UINTN_BITS)
    }

    /// The highest set position in the words below `item`'s word, looking
    /// in each word only at bit offsets below `item`'s offset.
    pub fn find_prev_set(&self, item: usize) -> (r: Option<usize>)
        requires
            self.wf(),
            item / 64 <= self.n_words(),
        ensures
            self.is_last_match(true, (item / 64) as int, (item % 64) as int, r),
    {
        let wi = Bitmap::calc_item_index(item);
        let bi = Bitmap::calc_item_bit_index(item);
        self.find_rev(true, wi, bi)
    }

    /// The lowest set position in `item`'s word at or above `item`.
    pub fn find_set_from_item(&self, item: usize) -> (r: Option<usize>)
        requires
            self.wf(),
            item / 64 < self.n_words(),
        ensures
            self.is_first_match(true, (item / 64) as int, (item / 64 + 1) as int, (item % 64) as int, r),
    {
        let wi = Bitmap::calc_item_index(item);
        let bi = Bitmap::calc_item_bit_index(item);
        self.find_fwd(true, wi, wi + 1, bi)
    }

    /// The start of the first run of more than `reqd_item_count` set
    /// positions, searching upward over the whole bitmap (see `scan_fwd`).
    pub fn find_first_set_region(&self, reqd_item_count: usize) -> (r: Option<usize>)
        requires
            self.wf(),
        ensures
            opt_int(r) == scan_fwd(self.words(), true, reqd_item_count as int, self.n_words() as int, 0, 0, 0, false, 0, 0),
    {
        self.scan_fwd_exec(true, reqd_item_count, 0, self.size_in_uintn, 0)
    }

    /// The start of the first run of more than `reqd_item_count` set
    /// positions, searching upward from `item`'s word, at bit offsets from
    /// `item`'s offset upward in every word (see `scan_fwd`).
    pub fn find_next_set_region(&self, item: usize, reqd_item_count: usize) -> (r: Option<usize>)
        requires
            self.wf(),
        ensures
            opt_int(r) == scan_fwd(self.words(), true, reqd_item_count as int, self.n_words() as int, (item % 64) as int,
                (item / 64) as int, (item % 64) as int, false, 0, 0),
    {
        let wi = Bitmap::calc_item_index(item);
        let bi = Bitmap::calc_item_bit_index(item);
        if wi >= self.size_in_uintn {
            return None;
        }
        self.scan_fwd_exec(true, reqd_item_count, wi, self.size_in_uintn, bi)
    }

    /// The start (highest position) of the first run of more than
    /// `reqd_item_count` set positions, searching downward over the whole
    /// bitmap (see `scan_rev`).
    pub fn find_last_set_region(&self, reqd_item_count: usize) -> (r: Option<usize>)
        requires
            self.wf(),
        ensures
            opt_int(r) == scan_rev(self.words(), true, reqd_item_count as int, 64, self.n_words() as int, 64, false, 0, 0),
    {
        self.scan_rev_exec(true, reqd_item_count, self.size_in_uintn, UINTN_BITS)
    }

    /// The start of the first run of more than `reqd_item_count` set
    /// positions, searching downward through the words below `item`'s word,
    /// at bit offsets below `item`'s offset (see `scan_rev`).
    pub fn find_prev_set_region(&self, item: usize, reqd_item_count: usize) -> (r: Option<usize>)
        requires
            self.wf(),
            item / 64 <= self.n_words(),
        ensures
            opt_int(r) == scan_rev(self.words(), true, reqd_item_count as int, (item % 64) as int, (item / 64) as int, (item % 64) as int, false, 0, 0),
    {
        let wi = Bitmap::calc_item_index(item);
        let bi = Bitmap::calc_item_bit_index(item);
        self.scan_rev_exec(true, reqd_item_count, wi, bi)
    }

    /// The start of the first run of more than `reqd_item_count` set
    /// positions within `item`'s word, from `item` upward (see `scan_fwd`).
    pub fn find_set_region(&self, item: usize, reqd_item_count: usize) -> (r: Option<usize>)
        requires
            self.wf(),
            item / 64 < self.n_words(),
        ensures
            opt_int(r) == scan_fwd(self.words(), true, reqd_item_count as int, (item / 64 + 1) as int, (item % 64) as int,
                (item / 64) as int, (item % 64) as int, false, 0, 0),
    {
        let wi = Bitmap::calc_item_index(item);
        let bi = Bitmap::calc_item_bit_index(item);
        self.scan_fwd_exec(true, reqd_item_count, wi, wi + 1, bi)
    }

    /// The first position from `item` or `range.start`, whichever is
    /// higher, up to `range.end`, at which `reqd_item_count` set items
    /// start (see `is_first_run`); only the start is bounded by the range.
    /// None when `item` lies past `range.end`.
    pub fn find_set_region_in_range(&self, item: usize, reqd_item_count: usize, range: core::ops::Range<usize>) -> (r: Option<usize>)
        requires
            self.wf(),
        ensures
            item > range.end ==> r.is_none(),
            item <= range.end ==> self.is_first_run(true, (if item < range.start { range.start } else { item }) as int,
                range.end as int, reqd_item_count as int, r),
    {
        if item > range.end {
            return None;
        }
        let from = if item < range.start { range.start } else { item };
        self.first_run(true, from, range.end, reqd_item_count)
    }

    /// The lowest clear position, if any.
    pub fn find_first_clear(&self) -> (r: Option<usize>)
        requires
            self.wf(),
        ensures
            self.is_first_match(false, 0, self.n_words() as int, 0, r),
    {
        self.find_fwd(false, 0, self.size_in_uintn, 0)
    }

    /// The lowest clear position in the words from `item`'s word on, looking
    /// in each word only at bit offsets from `item`'s offset upward.
    pub fn find_next_clear(&self, item: usize) -> (r: Option<usize>)
        requires
            self.wf(),
        ensures
            self.is_first_match(false, (item / 64) as int, self.n_words() as int, (item % 64) as int, r),
    {
        let wi = Bitmap::calc_item_index(item);
        let bi = Bitmap::calc_item_bit_index(item);
        if wi >= self.size_in_uintn {
            return None;
        }
        self.find_fwd(false, wi, self.size_in_uintn, bi)
    }

    /// The highest clear position, if any.
    pub fn find_last_clear(&self) -> (r: Option<usize>)
        requires
            self.wf(),
        ensures
            self.is_last_match(false, self.n_words() as int, 64, r),
    {
        self.find_rev(false, self.size_in_uintn, UINTN_BITS)
    }

    /// The highest clear position in the words below `item`'s word, looking
    /// in each word only at bit offsets below `item`'s offset.
    pub fn find_prev_clear(&self, item: usize) -> (r: Option<usize>)
        requires
            self.wf(),
            item / 64 <= self.n_words(),
        ensures
            self.is_last_match(false, (item / 64) as int, (item % 64) as int, r),
    {
        let wi = Bitmap::calc_item_index(item);
        let bi = Bitmap::calc_item_bit_index(item);
        self.find_rev(false, wi, bi)
    }

    /// The lowest clear position in `item`'s word at or above `item`.
    pub fn find_clear_from_item(&self, item: usize) -> (r: Option<usize>)
        requires
            self.wf(),
            item / 64 < self.n_words(),
        ensures
            self.is_first_match(false, (item / 64) as int, (item / 64 + 1) as int, (item % 64) as int, r),
    {
        let wi = Bitmap::calc_item_index(item);
        let bi = Bitmap::calc_item_bit_index(item);
        self.find_fwd(false, wi, wi + 1, bi)
    }

    /// The start of the first run of more than `reqd_item_count` clear
    /// positions, searching upward over the whole bitmap (see `scan_fwd`).
    pub fn find_first_clear_region(&self, reqd_item_count: usize) -> (r: Option<usize>)
        requires
            self.wf(),
        ensures
            opt_int(r) == scan_fwd(self.words(), false, reqd_item_count as int, self.n_words() as int, 0, 0, 0, false, 0, 0),
    {
        self.scan_fwd_exec(false, reqd_item_count, 0, self.size_in_uintn, 0)
    }

    /// The start of the first run of more than `reqd_item_count` clear
    /// positions, searching upward from `item`'s word, at bit offsets from
    /// `item`'s offset upward in every word (see `scan_fwd`).
    pub fn find_next_clear_region(&self, item: usize, reqd_item_count: usize) -> (r: Option<usize>)
        requires
            self.wf(),
        ensures
            opt_int(r) == scan_fwd(self.words(), false, reqd_item_count as int, self.n_words() as int, (item % 64) as int,
                (item / 64) as int, (item % 64) as int, false, 0, 0),
    {
        let wi = Bitmap::calc_item_index(item);
        let bi = Bitmap::calc_item_bit_index(item);
        if wi >= self.size_in_uintn {
            return None;
        }
        self.scan_fwd_exec(false, reqd_item_count, wi, self.size_in_uintn, bi)
    }

    /// The start (highest position) of the first run of more than
    /// `reqd_item_count` clear positions, searching downward over the whole
    /// bitmap (see `scan_rev`).
    pub fn find_last_clear_region(&self, reqd_item_count: usize) -> (r: Option<usize>)
        requires
            self.wf(),
        ensures
            opt_int(r) == scan_rev(self.words(), false, reqd_item_count as int, 64, self.n_words() as int, 64, false, 0, 0),
    {
        self.scan_rev_exec(false, reqd_item_count, self.size_in_uintn, UINTN_BITS)
    }

    /// The start of the first run of more than `reqd_item_count` clear
    /// positions, searching downward through the words below `item`'s word,
    /// at bit offsets below `item`'s offset (see `scan_rev`).
    pub fn find_prev_clear_region(&self, item: usize, reqd_item_count: usize) -> (r: Option<usize>)
        requires
            self.wf(),
            item / 64 <= self.n_words(),
        ensures
            opt_int(r) == scan_rev(self.words(), false, reqd_item_count as int, (item % 64) as int, (item / 64) as int, (item % 64) as int, false, 0, 0),
    {
        let wi = Bitmap::calc_item_index(item);
        let bi = Bitmap::calc_item_bit_index(item);
        self.scan_rev_exec(false, reqd_item_count, wi, bi)
    }

    /// The start of the first run of more than `reqd_item_count` clear
    /// positions within `item`'s word, from `item` upward (see `scan_fwd`).
    pub fn find_clear_region(&self, item: usize, reqd_item_count: usize) -> (r: Option<usize>)
        requires
            self.wf(),
            item / 64 < self.n_words(),
        ensures
            opt_int(r) == scan_fwd(self.words(), false, reqd_item_count as int, (item / 64 + 1) as int, (item % 64) as int,
                (item / 64) as int, (item % 64) as int, false, 0, 0),
    {
        let wi = Bitmap::calc_item_index(item);
        let bi = Bitmap::calc_item_bit_index(item);
        self.scan_fwd_exec(false, reqd_item_count, wi, wi + 1, bi)
    }

    /// The first position from `item` or `range.start`, whichever is
    /// higher, up to `range.end`, at which `reqd_item_count` clear items
    /// start (see `is_first_run`); only the start is bounded by the range.
    /// None when `item` lies past `range.end`.
    pub fn find_clear_region_in_range(&self, item: usize, reqd_item_count: usize, range: core::ops::Range<usize>) -> (r: Option<usize>)
        requires
            self.wf(),
        ensures
            item > range.end ==> r.is_none(),
            item <= range.end ==> self.is_first_run(false, (if item < range.start { range.start } else { item }) as int,
                range.end as int, reqd_item_count as int, r),
    {
        if item > range.end {
            return None;
        }
        let from = if item < range.start { range.start } else { item };
        self.first_run(false, from, range.end, reqd_item_count)
    }

    /// Sets every position, leaving no free units.
    pub fn set_all(&mut self)
        requires
            old(self).wf(),
        ensures
            final(self).wf(),
            forall|p: int| 0 <= p < final(self).n_bits() ==> #[trigger] final(self).bit(p),
            final(self).free() == 0,
            final(self).n_words() == old(self).n_words(),
            final(self).cap() == old(self).cap(),
            final(self).n_bytes() == old(self).n_bytes(),
            final(self).n_pages() == old(self).n_pages(),
            final(self).base_addr() == old(self).base_addr(),
    {
        let n = self.size_in_uintn;
        self.units_free = 0;
        let mut i: usize = 0;
        while i < n
            invariant
                self.wf(),
                n == self.n_words(),
                i <= n,
                forall|k: int| 0 <= k < i ==> #[trigger] self.words()[k] == u64::MAX,
                self.cap() == old(self).cap(),
                self.free() == 0,
                self.n_bytes() == old(self).n_bytes(),
                self.n_pages() == old(self).n_pages(),
                self.base_addr() == old(self).base_addr(),
            decreases n - i,
        {
            let ghost pre = self.words();
            self.bitmap.set(i, u64::MAX);
            assert(self.words() == pre.update(i as int, u64::MAX));
            assert forall|k: int| 0 <= k < i + 1 implies #[trigger] self.words()[k] == u64::MAX by {
                if k < i {
                    assert(pre[k] == u64::MAX);
                }
            }
            i = i + 1;
        }
        proof {
            lemma_word_extremes(0);
            assert forall|p: int| 0 <= p < self.n_bits() implies #[trigger] self.bit(p) by {
                assert(0 <= p / 64 < n);
                assert(self.words()[p / 64] == u64::MAX);
            }
        }
    }

    /// Clears every position, counting every unit of the capacity free.
    pub fn clear_all(&mut self)
        requires
            old(self).wf(),
        ensures
            final(self).wf(),
            forall|p: int| 0 <= p < final(self).n_bits() ==> !#[trigger] final(self).bit(p),
            final(self).free() == old(self).cap(),
            final(self).n_words() == old(self).n_words(),
            final(self).cap() == old(self).cap(),
            final(self).n_bytes() == old(self).n_bytes(),
            final(self).n_pages() == old(self).n_pages(),
            final(self).base_addr() == old(self).base_addr(),
    {
        let n = self.size_in_uintn;
        self.units_free = self.capacity_in_units;
        let mut i: usize = 0;
        while i < n
            invariant
                self.wf(),
                n == self.n_words(),
                i <= n,
                forall|k: int| 0 <= k < i ==> #[trigger] self.words()[k] == 0,
                self.cap() == old(self).cap(),
                self.free() == old(self).cap(),
                self.n_bytes() == old(self).n_bytes(),
                self.n_pages() == old(self).n_pages(),
                self.base_addr() == old(self).base_addr(),
            decreases n - i,
        {
            let ghost pre = self.words();
            self.bitmap.set(i, 0);
            assert(self.words() == pre.update(i as int, 0));
            assert forall|k: int| 0 <= k < i + 1 implies #[trigger] self.words()[k] == 0 by {
                if k < i {
                    assert(pre[k] == 0);
                }
            }
            i = i + 1;
        }
        proof {
            lemma_word_extremes(0);
            assert forall|p: int| 0 <= p < self.n_bits() implies !#[trigger] self.bit(p) by {
                assert(0 <= p / 64 < n);
                assert(self.words()[p / 64] == 0);
            }
        }
    }

    /// Whether no position is set.
    pub fn is_empty(&self) -> (r: bool)
        requires
            self.wf(),
        ensures
            r == (forall|p: int| 0 <= p < self.n_bits() ==> !#[trigger] self.bit(p)),
    {
        let n = self.size_in_uintn;
        let mut i: usize = 0;
        while i < n
            invariant
                self.wf(),
                n == self.n_words(),
                i <= n,
                forall|k: int| 0 <= k < i ==> #[trigger] self.words()[k] == 0,
            decreases n - i,
        {
            if self.bitmap[i] != 0 {
                proof {
                    let w = self.words()[i as int];
                    lemma_word_extremes(w);
                    let k = choose|k: int| 0 <= k < 64 && word_bit(w, k);
                    lemma_pos(i as int, k);
                    assert(self.bit(i * 64 + k));
                }
                return false;
            }
            i = i + 1;
        }
        proof {
            lemma_word_extremes(0);
            assert forall|p: int| 0 <= p < self.n_bits() implies !#[trigger] self.bit(p) by {
                assert(self.words()[p / 64] == 0);
            }
        }
        true
    }

    /// Whether every position is set.
    pub fn is_full(&self) -> (r: bool)
        requires
            self.wf(),
        ensures
            r == (forall|p: int| 0 <= p < self.n_bits() ==> #[trigger] self.bit(p)),
    {
        let n = self.size_in_uintn;
        let mut i: usize = 0;
        while i < n
            invariant
                self.wf(),
                n == self.n_words(),
                i <= n,
                forall|k: int| 0 <= k < i ==> #[trigger] self.words()[k] == u64::MAX,
            decreases n - i,
        {
            if self.bitmap[i] != u64::MAX {
                proof {
                    let w = self.words()[i as int];
                    lemma_word_extremes(w);
                    let k = choose|k: int| 0 <= k < 64 && !word_bit(w, k);
                    lemma_pos(i as int, k);
                    assert(!self.bit(i * 64 + k));
                }
                return false;
            }
            i = i + 1;
        }
        proof {
            lemma_word_extremes(0);
            assert forall|p: int| 0 <= p < self.n_bits() implies #[trigger] self.bit(p) by {
                assert(self.words()[p / 64] == u64::MAX);
            }
        }
        true
    }
}

impl Bitmap {
    /// Sets (or clears, when `setv` is false) bits `lo..hi` of word `wi`.
    fn apply_bits(&mut self, wi: usize, lo: usize, hi: usize, setv: bool)
        requires
            old(self).wf(),
            wi < old(self).n_words(),
            lo <= hi <= 64,
        ensures
            final(self).wf(),
            final(self).words().len() == old(self).words().len(),
            forall|k: int| 0 <= k < final(self).words().len() && k != wi ==> #[trigger] final(self).words()[k] == old(self).words()[k],
            forall|b: int| 0 <= b < 64 ==> #[trigger] word_bit(final(self).words()[wi as int], b)
                == (if lo <= b < hi { setv } else { word_bit(old(self).words()[wi as int], b) }),
            final(self).n_words() == old(self).n_words(),
            final(self).cap() == old(self).cap(),
            final(self).free() == old(self).free(),
            final(self).n_bytes() == old(self).n_bytes(),
            final(self).n_pages() == old(self).n_pages(),
            final(self).base_addr() == old(self).base_addr(),
    {
        let ghost w0 = self.words()[wi as int];
        let mut z = lo;
        while z < hi
            invariant
                self.wf(),
                self.words().len() == old(self).words().len(),
                wi < self.n_words(),
                lo <= z <= hi <= 64,
                w0 == old(self).words()[wi as int],
                forall|k: int| 0 <= k < self.words().len() && k != wi ==> #[trigger] self.words()[k] == old(self).words()[k],
                forall|b: int| 0 <= b < 64 ==> #[trigger] word_bit(self.words()[wi as int], b)
                    == (if lo <= b < z { setv } else { word_bit(w0, b) }),
                self.n_words() == old(self).n_words(),
                self.cap() == old(self).cap(),
                self.free() == old(self).free(),
                self.n_bytes() == old(self).n_bytes(),
                self.n_pages() == old(self).n_pages(),
                self.base_addr() == old(self).base_addr(),
            decreases hi - z,
        {
            let w = self.bitmap[wi];
            let nw = if setv { w | (1u64 << (z as u64)) } else { w & !(1u64 << (z as u64)) };
            proof {
                lemma_word_set(w, z as u64);
                lemma_word_clear(w, z as u64);
            }
            let ghost pre = self.words();
            self.bitmap.set(wi, nw);
            proof {
                assert(self.words() == pre.update(wi as int, nw));
                assert forall|k: int| 0 <= k < self.words().len() && k != wi implies #[trigger] self.words()[k] == old(self).words()[k] by {
                    assert(pre[k] == old(self).words()[k]);
                }
                assert forall|b: int| 0 <= b < 64 implies #[trigger] word_bit(self.words()[wi as int], b)
                    == (if lo <= b < z + 1 { setv } else { word_bit(w0, b) }) by {
                    assert(word_bit(pre[wi as int], b) == (if lo <= b < z { setv } else { word_bit(w0, b) }));
                }
            }
            z = z + 1;
        }
    }

    /// Sets (or clears, when `setv` is false) every bit of words `lo..=hi`.
    fn fill_words(&mut self, lo: usize, hi: usize, setv: bool)
        requires
            old(self).wf(),
            lo <= hi + 1,
            hi < old(self).n_words(),
        ensures
            final(self).wf(),
            final(self).words().len() == old(self).words().len(),
            forall|k: int| 0 <= k < final(self).words().len() ==> #[trigger] final(self).words()[k]
                == (if lo <= k <= hi { if setv { u64::MAX } else { 0u64 } } else { old(self).words()[k] }),
            final(self).n_words() == old(self).n_words(),
            final(self).cap() == old(self).cap(),
            final(self).free() == old(self).free(),
            final(self).n_bytes() == old(self).n_bytes(),
            final(self).n_pages() == old(self).n_pages(),
            final(self).base_addr() == old(self).base_addr(),
    {
        let v: u64 = if setv { u64::MAX } else { 0 };
        let mut j = lo;
        while j <= hi
            invariant
                self.wf(),
                self.words().len() == old(self).words().len(),
                hi < self.n_words(),
                lo <= j <= hi + 1,
                v == (if setv { u64::MAX } else { 0u64 }),
                forall|k: int| 0 <= k < self.words().len() ==> #[trigger] self.words()[k]
                    == (if lo <= k < j { v } else { old(self).words()[k] }),
                self.n_words() == old(self).n_words(),
                self.cap() == old(self).cap(),
                self.free() == old(self).free(),
                self.n_bytes() == old(self).n_bytes(),
                self.n_pages() == old(self).n_pages(),
                self.base_addr() == old(self).base_addr(),
            decreases hi + 1 - j,
        {
            let ghost pre = self.words();
            self.bitmap.set(j, v);
            proof {
                assert(self.words() == pre.update(j as int, v));
                assert forall|k: int| 0 <= k < self.words().len() implies #[trigger] self.words()[k]
                    == (if lo <= k < j + 1 { v } else { old(self).words()[k] }) by {
                    if k != j {
                        assert(pre[k] == (if lo <= k < j { v } else { old(self).words()[k] }));
                    }
                }
            }
            j = j + 1;
        }
    }

    /// Updates the words for a range update of `start..=end` (see
    /// `range_covers`) to `setv`.
    fn update_range(&mut self, start_item: usize, end_item: usize, setv: bool)
        requires
            old(self).wf(),
            start_item <= end_item,
            end_item / 64 < old(self).n_words(),
        ensures
            final(self).wf(),
            forall|p: int| 0 <= p < final(self).n_bits() ==> #[trigger] final(self).bit(p)
                == (if range_covers(start_item as int, end_item as int, p) { setv } else { old(self).bit(p) }),
            final(self).n_words() == old(self).n_words(),
            final(self).cap() == old(self).cap(),
            final(self).free() == old(self).free(),
            final(self).n_bytes() == old(self).n_bytes(),
            final(self).n_pages() == old(self).n_pages(),
            final(self).base_addr() == old(self).base_addr(),
    {
        let start_index = start_item / UINTN_BITS;
        let start_bit_index = start_item % UINTN_BITS;
        let end_index = end_item / UINTN_BITS;
        let end_bit_index = end_item % UINTN_BITS;
        let ghost w0 = self.words();
        let ghost v: u64 = if setv { u64::MAX } else { 0u64 };
        proof { lemma_word_extremes(0); }
        if start_index == end_index {
            if start_bit_index == end_bit_index {
                self.apply_bits(start_index, start_bit_index, start_bit_index + 1, setv);
            } else {
                self.apply_bits(start_index, start_bit_index, end_bit_index, setv);
            }
            proof {
                assert forall|p: int| 0 <= p < self.n_bits() implies #[trigger] self.bit(p)
                    == (if range_covers(start_item as int, end_item as int, p) { setv } else { old(self).bit(p) }) by {
                    if p / 64 != start_index as int {
                        assert(self.words()[p / 64] == w0[p / 64]);
                    }
                }
            }
        } else {
            self.apply_bits(start_index, start_bit_index, UINTN_BITS, setv);
            let ghost w1 = self.words();
            if start_index + 1 == end_index {
                self.apply_bits(end_index, 0, end_bit_index + 1, setv);
                proof {
                    assert forall|p: int| 0 <= p < self.n_bits() implies #[trigger] self.bit(p)
                        == (if range_covers(start_item as int, end_item as int, p) { setv } else { old(self).bit(p) }) by {
                        if p / 64 == start_index as int {
                            assert(self.words()[p / 64] == w1[p / 64]);
                        } else if p / 64 == end_index as int {
                            assert(w1[p / 64] == w0[p / 64]);
                        } else {
                            assert(self.words()[p / 64] == w1[p / 64]);
                            assert(w1[p / 64] == w0[p / 64]);
                        }
                    }
                }
            } else if end_bit_index == 0 {
                self.fill_words(start_index + 1, end_index, setv);
                proof {
                    assert forall|p: int| 0 <= p < self.n_bits() implies #[trigger] self.bit(p)
                        == (if range_covers(start_item as int, end_item as int, p) { setv } else { old(self).bit(p) }) by {
                        if p / 64 == start_index as int {
                            assert(self.words()[p / 64] == w1[p / 64]);
                        } else if start_index < p / 64 <= end_index {
                            assert(self.words()[p / 64] == v);
                            assert(word_bit(v, p % 64) == setv);
                        } else {
                            assert(self.words()[p / 64] == w1[p / 64]);
                            assert(w1[p / 64] == w0[p / 64]);
                        }
                    }
                }
            } else {
                self.fill_words(start_index + 1, end_index - 1, setv);
                let ghost w2 = self.words();
                self.apply_bits(end_index, 0, end_bit_index + 1, setv);
                proof {
                    assert forall|p: int| 0 <= p < self.n_bits() implies #[trigger] self.bit(p)
                        == (if range_covers(start_item as int, end_item as int, p) { setv } else { old(self).bit(p) }) by {
                        if p / 64 == start_index as int {
                            assert(self.words()[p / 64] == w2[p / 64]);
                            assert(w2[p / 64] == w1[p / 64]);
                        } else if start_index < p / 64 < end_index {
                            assert(self.words()[p / 64] == w2[p / 64]);
                            assert(w2[p / 64] == v);
                            assert(word_bit(v, p % 64) == setv);
                        } else if p / 64 == end_index {
                            assert(w2[p / 64] == w1[p / 64]);
                            assert(w1[p / 64] == w0[p / 64]);
                        } else {
                            assert(self.words()[p / 64] == w2[p / 64]);
                            assert(w2[p / 64] == w1[p / 64]);
                            assert(w1[p / 64] == w0[p / 64]);
                        }
                    }
                }
            }
        }
    }

    /// Sets the positions of the range update `start_item..=end_item` (see
    /// `range_covers`) and takes `end_item - start_item - 1` off the free
    /// count.
    pub fn set_range(&mut self, start_item: usize, end_item: usize)
        requires
            old(self).wf(),
            start_item <= end_item,
            end_item / 64 < old(self).n_words(),
            old(self).free() >= end_item - start_item,
            old(self).free() - (end_item - start_item) + 1 <= usize::MAX,
        ensures
            final(self).wf(),
            forall|p: int| 0 <= p < final(self).n_bits() ==> #[trigger] final(self).bit(p)
                == (range_covers(start_item as int, end_item as int, p) || old(self).bit(p)),
            final(self).free() == old(self).free() - (end_item - start_item) + 1,
            final(self).n_words() == old(self).n_words(),
            final(self).cap() == old(self).cap(),
            final(self).n_bytes() == old(self).n_bytes(),
            final(self).n_pages() == old(self).n_pages(),
            final(self).base_addr() == old(self).base_addr(),
    {
        self.units_free = self.units_free - (end_item - start_item) + 1;
        self.update_range(start_item, end_item, true);
    }

    /// Clears the positions of the range update `start_item..=end_item` (see
    /// `range_covers`) and adds `end_item - start_item + 1` to the free count.
    pub fn clear_range(&mut self, start_item: usize, end_item: usize)
        requires
            old(self).wf(),
            start_item <= end_item,
            end_item / 64 < old(self).n_words(),
            old(self).free() + (end_item - start_item) + 1 <= usize::MAX,
        ensures
            final(self).wf(),
            forall|p: int| 0 <= p < final(self).n_bits() ==> #[trigger] final(self).bit(p)
                == (!range_covers(start_item as int, end_item as int, p) && old(self).bit(p)),
            final(self).free() == old(self).free() + (end_item - start_item) + 1,
            final(self).n_words() == old(self).n_words(),
            final(self).cap() == old(self).cap(),
            final(self).n_bytes() == old(self).n_bytes(),
            final(self).n_pages() == old(self).n_pages(),
            final(self).base_addr() == old(self).base_addr(),
    {
        self.units_free = self.units_free + (end_item - start_item) + 1;
        self.update_range(start_item, end_item, false);
    }
}

} // verus!
