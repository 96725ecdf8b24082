//! The random number boundary: every outcome respects the documented bounds.

use rusty_roguelike::rng::{rng_range, rng_roll_dice, rng_seeded};

#[test]
fn dice_rolls_stay_between_n_and_n_times_sides() {
    let mut rng = rng_seeded(12345);
    for _ in 0..200 {
        let r = rng_roll_dice(&mut rng, 3, 6);
        assert!(r >= 3 && r <= 18);
    }
}

#[test]
fn ranges_are_inclusive_below_and_exclusive_above() {
    let mut rng = rng_seeded(54321);
    let mut seen_low = false;
    for _ in 0..500 {
        let r = rng_range(&mut rng, 2, 5);
        assert!(r >= 2 && r < 5);
        if r == 2 {
            seen_low = true;
        }
    }
    assert!(seen_low);
}

#[test]
fn seeded_generators_repeat_their_stream() {
    let mut a = rng_seeded(777);
    let mut b = rng_seeded(777);
    for _ in 0..20 {
        assert_eq!(rng_roll_dice(&mut a, 1, 100), rng_roll_dice(&mut b, 1, 100));
    }
}
