use baselib::bitmap::Bitmap;
use baselib::memory::address::VirtAddr;

fn bitmap(cap: usize) -> Bitmap {
    let mut b = Bitmap::new();
    assert!(b.init(cap, VirtAddr(0x5000), VirtAddr(0), true));
    b
}

#[test]
fn sizing() {
    let b = bitmap(100);
    assert_eq!(b.size_in_uintn(), 2);
    assert_eq!(b.size_in_bytes(), 16);
    assert_eq!(b.size_in_pages(), 1);
    assert_eq!(b.capacity(), 100);
    assert_eq!(b.get_bitmap_ref(), &[0u64, 0u64][..]);
    assert_eq!(Bitmap::calc_size_in_uintn(129), 3);
    assert_eq!(Bitmap::calc_item_index(130), 2);
    assert_eq!(Bitmap::calc_item_bit_index(130), 2);
    assert_eq!(Bitmap::calc_size_in_default_pages(64 * 512 * 3), 3);
}

#[test]
fn new_bitmap_is_empty() {
    let b = Bitmap::new();
    assert_eq!(b.size_in_uintn(), 0);
    assert!(b.is_empty());
    assert!(b.is_full());
}

#[test]
fn setup_fails_when_its_storage_could_not_be_had() {
    let mut b = Bitmap::new();
    assert!(!b.init(100, VirtAddr(0x5000), VirtAddr(0), false));
    assert_eq!(b.size_in_uintn(), 0);
    assert_eq!(b.capacity(), 0);
    // storage already in place needs no allocation
    assert!(b.init(100, VirtAddr(0x5000), VirtAddr(0x9000), false));
    assert_eq!(b.size_in_uintn(), 2);
    assert_eq!(b.capacity(), 100);
}

#[test]
fn set_and_clear_single_items() {
    let mut b = bitmap(100);
    assert!(b.is_empty());
    b.set(3);
    b.set(70);
    assert!(b.is_set(3) && b.is_set(70));
    assert!(b.is_clear(4));
    assert_eq!(b.get_bitmap_ref(), &[8u64, 64u64][..]);
    b.clear(3);
    assert!(b.is_clear(3));
    assert!(!b.is_empty());
}

#[test]
fn counters_follow_set_and_clear() {
    let mut b = bitmap(100);
    assert_eq!(b.bit_clear_count(), 100);
    assert_eq!(b.bit_set_count(), 0);
    b.set(1);
    b.set(2);
    assert_eq!(b.bit_clear_count(), 98);
    assert_eq!(b.bit_set_count(), 2);
    b.clear(1);
    assert_eq!(b.bit_clear_count(), 99);
}

#[test]
fn single_item_searches() {
    let mut b = bitmap(100);
    for i in [3, 4, 5, 70] {
        b.set(i);
    }
    assert_eq!(b.find_first_set(), Some(3));
    assert_eq!(b.find_next_set(4), Some(4));
    assert_eq!(b.find_next_set(6), Some(70));
    assert_eq!(b.find_last_set(), Some(70));
    assert_eq!(b.find_prev_set(70), Some(5));
    assert_eq!(b.find_prev_set(64), None);
    assert_eq!(b.find_set_from_item(5), Some(5));
    assert_eq!(b.find_set_from_item(6), None);
    assert_eq!(b.find_first_clear(), Some(0));
    assert_eq!(b.find_next_clear(3), Some(6));
    assert_eq!(b.find_last_clear(), Some(127));
    assert_eq!(b.find_clear_from_item(3), Some(6));
}

#[test]
fn empty_searches() {
    let b = bitmap(100);
    assert_eq!(b.find_first_set(), None);
    assert_eq!(b.find_last_set(), None);
    assert_eq!(b.find_first_set_region(0), None);
}

#[test]
fn run_searches() {
    let mut b = bitmap(128);
    for i in 3..6 {
        b.set(i);
    }
    b.set(70);
    assert_eq!(b.find_first_set_region(2), Some(3));
    assert_eq!(b.find_first_set_region(3), None);
    assert_eq!(b.find_first_set_region(0), Some(3));
    assert_eq!(b.find_set_region(0, 2), Some(3));
    assert_eq!(b.find_first_clear_region(2), Some(0));
    assert_eq!(b.find_last_set_region(0), Some(70));
    assert_eq!(b.find_last_set_region(2), Some(5));
}

#[test]
fn run_search_bounded_by_a_range_of_starts() {
    let mut b = bitmap(128);
    for i in 10..14 {
        b.set(i);
    }
    for i in 20..26 {
        b.set(i);
    }
    assert_eq!(b.find_set_region_in_range(0, 2, 0..64), Some(10));
    // a run of exactly the count will do
    assert_eq!(b.find_set_region_in_range(0, 4, 0..64), Some(10));
    assert_eq!(b.find_set_region_in_range(0, 5, 0..64), Some(20));
    // a start inside a run counts; only the start is bounded by the range
    assert_eq!(b.find_set_region_in_range(0, 2, 15..64), Some(20));
    assert_eq!(b.find_set_region_in_range(11, 3, 0..64), Some(11));
    assert_eq!(b.find_set_region_in_range(0, 6, 0..20), Some(20));
    assert_eq!(b.find_set_region_in_range(0, 6, 0..19), None);
    assert_eq!(b.find_set_region_in_range(70, 2, 0..64), None);
    assert_eq!(b.find_set_region_in_range(0, 7, 0..127), None);
    // the clear search starts on the first clear item
    assert_eq!(b.find_clear_region_in_range(10, 6, 0..127), Some(14));
    assert_eq!(b.find_clear_region_in_range(10, 7, 0..127), Some(26));
}

#[test]
fn region_of_exactly_the_count_and_at_the_end() {
    let mut b = bitmap(128);
    for i in 3..6 {
        b.set(i);
    }
    assert_eq!(b.find_set_region_in_range(0, 3, 0..10), Some(3));
    // a run that reaches the last item is found
    for i in 124..128 {
        b.set(i);
    }
    assert_eq!(b.find_set_region_in_range(6, 4, 0..127), Some(124));
    assert_eq!(b.find_set_region_in_range(6, 5, 0..127), None);
    assert_eq!(b.find_clear_region_in_range(0, 118, 0..127), Some(6));
}

#[test]
fn whole_bitmap_updates() {
    let mut b = bitmap(100);
    b.set_all();
    assert!(b.is_full());
    assert_eq!(b.bit_clear_count(), 0);
    assert_eq!(b.find_first_clear(), None);
    b.clear_all();
    assert!(b.is_empty());
    assert_eq!(b.bit_clear_count(), 100);
}

#[test]
fn range_updates_within_one_word() {
    let mut b = bitmap(128);
    b.set_range(10, 20);
    for i in 0..128 {
        assert_eq!(b.is_set(i), (10..20).contains(&i), "item {}", i);
    }
    // the free counter drops by `end - start - 1`
    assert_eq!(b.bit_clear_count(), 128 - 10 + 1);
    b.set_range(40, 40);
    assert!(b.is_set(40));
    b.clear_range(12, 15);
    assert!(b.is_set(11) && b.is_clear(12) && b.is_clear(14) && b.is_set(15));
}

#[test]
fn range_updates_across_words() {
    let mut b = bitmap(256);
    b.set_range(60, 70);
    for i in 0..256 {
        assert_eq!(b.is_set(i), (60..=70).contains(&i), "item {}", i);
    }
}
