use baselib::memory::address::PhysAddr;
use baselib::rng::isaac64::Isaac64Rng;

fn seeded(seed: u64) -> Isaac64Rng {
    let mut g = Isaac64Rng::new_with_fixed_buf(PhysAddr(0x10_0000)).unwrap();
    g.reseed_via_u64_val(seed);
    g
}

#[test]
fn buffers_must_be_page_aligned() {
    assert!(Isaac64Rng::new_with_fixed_buf(PhysAddr(0x1234)).is_none());
    assert!(Isaac64Rng::new_with_fixed_buf(PhysAddr(0x2000)).is_some());
    assert!(Isaac64Rng::new_with_fixed_buf(0x3000usize).is_some());
}

#[test]
fn seeded_draws_match_the_reference_sequence() {
    let mut g = seeded(42);
    assert_eq!(g.rand64(u64::MAX), 0xbbd61fa5105a596a);
    assert_eq!(g.rand64(u64::MAX), 0x9b3cc89c4acb57ba);
    assert_eq!(g.rand64(u64::MAX), 0xf2469ccfa2bc2790);
}

#[test]
fn zero_seed_uses_the_unmixed_state() {
    let mut g = seeded(0);
    assert_eq!(g.rand64(u64::MAX), 0xf67dfba498e4937c);
    assert_eq!(g.rand64(u64::MAX), 0x84a5066a9204f380);
}

#[test]
fn unseeded_generator_shuffles_on_first_draw() {
    let mut g = Isaac64Rng::new_with_fixed_buf(PhysAddr(0)).unwrap();
    assert_eq!(g.rand64(u64::MAX), 0x7fbfb671ebc5fde8);
    assert_eq!(g.rand64(u64::MAX), 0xf869e3164d011ea1);
}

#[test]
fn draws_continue_after_the_results_run_out() {
    let mut g = seeded(42);
    for _ in 0..256 {
        g.rand64(u64::MAX);
    }
    assert_eq!(g.rand64(u64::MAX), 0x074ee3cee3bf5fbe);
}

#[test]
fn smaller_draws_split_a_word_and_bank_the_rest() {
    let mut g = seeded(42);
    assert_eq!(g.rand32(u32::MAX), 0x105a596a);
    assert_eq!(g.rand32(u32::MAX), 0xbbd61fa5);
    assert_eq!(g.rand32(u32::MAX), 0x4acb57ba);
    let mut h = seeded(42);
    let bytes: Vec<u8> = (0..9).map(|_| h.rand8(u8::MAX)).collect();
    assert_eq!(bytes, vec![0x6a, 0xbb, 0xd6, 0x1f, 0xa5, 0x10, 0x5a, 0x59, 0xba]);
}

#[test]
fn bounded_draws() {
    let mut g = seeded(42);
    assert_eq!(g.rand64(100), 46);
    assert_eq!(g.rand64(100), 85);
    assert_eq!(g.rand64(100), 5);
    let mut h = seeded(42);
    let v: Vec<u64> = (0..5).map(|_| h.ranged_rand64(10, 20)).collect();
    assert_eq!(v, vec![10, 15, 18, 10, 16]);
}

#[test]
fn ranged_draws_stay_in_range_either_way_round() {
    let mut g = seeded(7);
    for _ in 0..500 {
        let a = g.ranged_rand64(1000, 2000);
        assert!((1000..=2000).contains(&a));
        let b = g.ranged_rand32(50, 5);
        assert!((5..=50).contains(&b));
        let c = g.ranged_rand16(300, 310);
        assert!((300..=310).contains(&c));
        let d = g.ranged_rand8(3, 9);
        assert!((3..=9).contains(&d));
        let e = g.ranged_rand_usize(4096, 8192);
        assert!((4096..=8192).contains(&e));
    }
    assert_eq!(g.ranged_rand64(77, 77), 77);
    assert_eq!(g.ranged_rand8_signed(-3, -3), -3);
}

#[test]
fn signed_ranges_work_through_the_unsigned_ones() {
    let mut g = seeded(11);
    for _ in 0..200 {
        let v = g.ranged_rand64_signed(3, 9);
        assert!((3..=9).contains(&v));
        let w = g.ranged_rand32_signed(-20, -10);
        assert!((-20..=-10).contains(&w));
        let x = g.ranged_rand16_signed(0, 100);
        assert!((0..=100).contains(&x));
    }
}

#[test]
fn reseeding_equal_generators_keeps_them_equal() {
    let mut g = seeded(42);
    let mut h = seeded(42);
    assert_eq!(g.rand64(u64::MAX), h.rand64(u64::MAX));
    g.rand64(u64::MAX);
    h.rand64(u64::MAX);
    // reseeding keeps the other result words, so both must have drawn alike
    g.reseed_via_u64_val(7);
    h.reseed_via_u64_val(7);
    for _ in 0..300 {
        assert_eq!(g.rand64(u64::MAX), h.rand64(u64::MAX));
    }
}

#[test]
fn array_seeds_agree_across_widths() {
    let mut words = [0u64; 256];
    for (i, w) in words.iter_mut().enumerate() {
        *w = (i as u64).wrapping_mul(0x9e37_79b9_7f4a_7c15);
    }
    let mut halves = [0u32; 512];
    let mut bytes = [0u8; 1024];
    for i in 0..256 {
        halves[2 * i] = words[i] as u32;
        halves[2 * i + 1] = (words[i] >> 32) as u32;
    }
    for i in 0..128 {
        for k in 0..8 {
            bytes[8 * i + k] = (words[i] >> (8 * k)) as u8;
        }
    }
    let mut a = Isaac64Rng::new_with_fixed_buf(PhysAddr(0)).unwrap();
    let mut b = Isaac64Rng::new_with_fixed_buf(PhysAddr(0)).unwrap();
    let mut c = Isaac64Rng::new_with_fixed_buf(PhysAddr(0)).unwrap();
    a.reseed_via_u64_array(&words);
    b.reseed_via_u32_array(&halves);
    c.reseed_via_u8_array(&bytes);
    for _ in 0..10 {
        let x = a.rand64(u64::MAX);
        assert_eq!(b.rand64(u64::MAX), x);
    }
    // the bytes fill the lower half of a fresh, zeroed result buffer
    let mut lower = words;
    for w in lower[128..].iter_mut() {
        *w = 0;
    }
    let mut d = Isaac64Rng::new_with_fixed_buf(PhysAddr(0)).unwrap();
    d.reseed_via_u64_array(&lower);
    for _ in 0..10 {
        assert_eq!(c.rand64(u64::MAX), d.rand64(u64::MAX));
    }
}

#[test]
fn a_snapshot_resumes_where_it_was_taken() {
    let mut g = seeded(99);
    g.rand64(u64::MAX);
    g.rand8(u8::MAX);
    let snap = g.export_rng_state();
    let mut h = Isaac64Rng::new_from_rng_state(snap);
    for _ in 0..300 {
        assert_eq!(g.rand8(u8::MAX), h.rand8(u8::MAX));
        assert_eq!(g.rand64(u64::MAX), h.rand64(u64::MAX));
    }
}

#[test]
fn moving_the_buffers_keeps_the_sequence() {
    let mut g = seeded(5);
    let mut h = seeded(5);
    assert!(!h.rebase_buffer(PhysAddr(0x2001)));
    assert!(h.rebase_buffer(PhysAddr(0x4000)));
    assert_eq!(g.rand64(u64::MAX), h.rand64(u64::MAX));
    g.shuffle();
    h.shuffle();
    assert_eq!(g.rand64(u64::MAX), h.rand64(u64::MAX));
}
