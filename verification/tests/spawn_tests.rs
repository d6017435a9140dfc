use rusty_2048::spawn::{add_new_tiles, add_new_tiles_with, spawn_tile};

#[test]
fn roll_that_is_a_multiple_of_the_frequency_spawns() {
    assert_eq!(spawn_tile(0, 7), 2);
    assert_eq!(spawn_tile(7, 7), 2);
    assert_eq!(spawn_tile(700, 7), 2);
}

#[test]
fn other_rolls_spawn_nothing() {
    assert_eq!(spawn_tile(1, 7), 0);
    assert_eq!(spawn_tile(6, 7), 0);
    assert_eq!(spawn_tile(8, 7), 0);
    assert_eq!(spawn_tile(usize::MAX, 2), 0);
}

#[test]
fn every_roll_spawns_at_frequency_one() {
    assert_eq!(spawn_tile(0, 1), 2);
    assert_eq!(spawn_tile(1, 1), 2);
    assert_eq!(spawn_tile(usize::MAX, 1), 2);
}

#[test]
fn each_empty_cell_has_a_roll_of_its_own() {
    assert_eq!(add_new_tiles_with([0, 0, 0, 0], [0, 1, 14, 15], 7), [2, 0, 2, 0]);
    assert_eq!(add_new_tiles_with([0, 0, 0, 0], [1, 2, 3, 4], 7), [0, 0, 0, 0]);
    assert_eq!(add_new_tiles_with([0, 0, 0, 0], [7, 7, 7, 7], 7), [2, 2, 2, 2]);
}

#[test]
fn tiles_are_kept_whatever_their_roll() {
    assert_eq!(add_new_tiles_with([4, 0, 8, 0], [0, 0, 0, 1], 7), [4, 2, 8, 0]);
    assert_eq!(add_new_tiles_with([2, 4, 8, 16], [0, 0, 0, 0], 7), [2, 4, 8, 16]);
}

#[test]
fn spawns_add_two_each_to_the_value_on_the_line() {
    let before: [u32; 4] = [4, 0, 0, 8];
    let after = add_new_tiles_with(before, [0, 7, 3, 0], 7);
    assert_eq!(after, [4, 2, 0, 8]);
    assert_eq!(after.iter().sum::<u32>(), before.iter().sum::<u32>() + 2);
}

#[test]
fn random_spawner_fills_every_empty_cell_at_frequency_one() {
    assert_eq!(add_new_tiles([0, 0, 0, 0], 1), [2, 2, 2, 2]);
    assert_eq!(add_new_tiles([4, 0, 0, 16], 1), [4, 2, 2, 16]);
}

#[test]
fn random_spawner_keeps_tiles_and_spawns_only_twos() {
    for _ in 0..200 {
        let out = add_new_tiles([8, 0, 32, 0], 3);
        assert_eq!(out[0], 8);
        assert_eq!(out[2], 32);
        assert!(out[1] == 0 || out[1] == 2);
        assert!(out[3] == 0 || out[3] == 2);
    }
}

#[test]
fn random_spawner_gives_both_outcomes() {
    let mut spawned = 0;
    let mut left_empty = 0;
    for _ in 0..400 {
        if add_new_tiles([0, 0, 0, 0], 2)[0] == 2 {
            spawned += 1;
        } else {
            left_empty += 1;
        }
    }
    assert!(spawned > 0);
    assert!(left_empty > 0);
}

#[test]
fn spawn_rate_of_a_cell_is_one_in_frequency() {
    let trials = 40000;
    for frequency in [2u32, 7, 10] {
        let mut spawned = 0;
        for _ in 0..trials {
            if add_new_tiles([0, 0, 0, 0], frequency)[0] == 2 {
                spawned += 1;
            }
        }
        let rate = spawned as f64 / trials as f64;
        let expected = 1.0 / frequency as f64;
        assert!((rate - expected).abs() < 0.02, "rate {} for frequency {}", rate, frequency);
    }
}

#[test]
fn cells_of_a_line_spawn_independently() {
    let mut some_but_not_all = false;
    for _ in 0..400 {
        let out = add_new_tiles([0, 0, 0, 0], 2);
        let count = out.iter().filter(|v| **v == 2).count();
        if count > 0 && count < 4 {
            some_but_not_all = true;
        }
    }
    assert!(some_but_not_all);
}
