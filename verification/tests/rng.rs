use bugs::rng::DeterministicRng;
use rand_chacha::rand_core::{RngCore, SeedableRng};
use rand_chacha::ChaCha8Rng;

#[test]
fn test_deterministic() {
    let mut rng1 = DeterministicRng::new(12345);
    let mut rng2 = DeterministicRng::new(12345);

    for _ in 0..100 {
        assert_eq!(rng1.gen_u32(), rng2.gen_u32());
    }
}

#[test]
fn test_gen_range() {
    let mut rng = DeterministicRng::new(42);
    for _ in 0..100 {
        let val = rng.gen_range(10);
        assert!(val < 10);
    }
}

#[test]
fn words_are_those_of_the_seeded_chacha8_stream() {
    let mut rng = DeterministicRng::new(7);
    let mut reference = ChaCha8Rng::seed_from_u64(7);
    for _ in 0..200 {
        assert_eq!(rng.gen_u32(), reference.next_u32());
    }
    assert_eq!(rng.seed(), 7);
}

#[test]
fn different_seeds_give_different_streams() {
    let mut a = DeterministicRng::new(1);
    let mut b = DeterministicRng::new(2);
    let first: Vec<u32> = (0..8).map(|_| a.gen_u32()).collect();
    let second: Vec<u32> = (0..8).map(|_| b.gen_u32()).collect();
    assert_ne!(first, second);
}

#[test]
fn wide_draw_is_two_words_low_half_first() {
    for skipped in 0..70 {
        let mut rng = DeterministicRng::new(99);
        let mut words = DeterministicRng::new(99);
        for _ in 0..skipped {
            rng.gen_u32();
            words.gen_u32();
        }
        let low = words.gen_u32() as u64;
        let high = words.gen_u32() as u64;
        assert_eq!(rng.gen_u64(), low | (high << 32));
        assert_eq!(rng.gen_u32(), words.gen_u32());
    }
}

#[test]
fn range_is_the_word_modulo_the_bound() {
    let mut rng = DeterministicRng::new(5);
    let mut words = DeterministicRng::new(5);
    for max in [1u32, 2, 10, 85, 100, 256, u32::MAX] {
        assert_eq!(rng.gen_range(max), words.gen_u32() % max);
    }
}

#[test]
fn range_of_zero_draws_nothing() {
    let mut rng = DeterministicRng::new(5);
    let mut words = DeterministicRng::new(5);
    assert_eq!(rng.gen_range(0), 0);
    assert_eq!(rng.gen_u32(), words.gen_u32());
}

#[test]
fn signed_range_offsets_the_draw() {
    let mut rng = DeterministicRng::new(11);
    let mut words = DeterministicRng::new(11);
    assert_eq!(rng.gen_range_i32(-10, 11), -10 + (words.gen_u32() % 21) as i32);
    assert_eq!(rng.gen_range_i32(-100, 100), -100 + (words.gen_u32() % 200) as i32);
    let wide = rng.gen_range_i32(i32::MIN, i32::MAX);
    assert_eq!(wide as i64, i32::MIN as i64 + (words.gen_u32() % u32::MAX) as i64);
    // An empty interval gives its lower end and draws nothing.
    assert_eq!(rng.gen_range_i32(5, 5), 5);
    assert_eq!(rng.gen_range_i32(5, -5), 5);
    assert_eq!(rng.gen_u32(), words.gen_u32());
}

#[test]
fn coin_compares_the_word_with_the_percentage() {
    let mut rng = DeterministicRng::new(3);
    let mut words = DeterministicRng::new(3);
    for percent in [0u32, 5, 10, 30, 50, 100, 100, 20, 40, 60] {
        let word = words.gen_u32();
        let expected = (word as f64 / u32::MAX as f64) < (percent as f64 / 100.0);
        assert_eq!(rng.gen_bool(percent), expected);
    }
    let mut never = DeterministicRng::new(4);
    assert!((0..100).all(|_| !never.gen_bool(0)));
}

#[test]
fn limited_draw_sums_one_bit_per_halving() {
    let mut rng = DeterministicRng::new(21);
    let mut words = DeterministicRng::new(21);
    assert_eq!(rng.limited_random(0), 0);
    // 8, 4, 2, 1: four halvings.
    let expected: u32 = (0..4).map(|_| words.gen_u32() % 2).sum();
    assert_eq!(rng.limited_random(8), expected);
    let expected: u32 = (0..32).map(|_| words.gen_u32() % 2).sum();
    assert_eq!(rng.limited_random(u32::MAX), expected);
    assert_eq!(rng.gen_u32(), words.gen_u32());
}

#[test]
fn clone_continues_the_same_stream() {
    let mut rng = DeterministicRng::new(8);
    for _ in 0..5 {
        rng.gen_u32();
    }
    let mut copy = rng.clone();
    assert_eq!(copy.seed(), 8);
    for _ in 0..100 {
        assert_eq!(rng.gen_u32(), copy.gen_u32());
    }
}

#[test]
fn default_is_seed_zero() {
    let mut rng = DeterministicRng::default();
    let mut reference = DeterministicRng::new(0);
    assert_eq!(rng.seed(), 0);
    assert_eq!(rng.gen_u64(), reference.gen_u64());
}

#[test]
fn entropy_seeds_are_usable() {
    let mut rng = DeterministicRng::from_entropy();
    let mut again = DeterministicRng::new(rng.seed());
    assert_eq!(rng.gen_u32(), again.gen_u32());
}
