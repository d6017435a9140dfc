use rusty_2048::line::{checked_shift_arr, shift_arr};

#[test]
fn four_equal_tiles_merge_into_two_pairs() {
    assert_eq!(shift_arr([2, 2, 2, 2]), [4, 4, 0, 0]);
}

#[test]
fn tiles_merge_across_gaps() {
    assert_eq!(shift_arr([0, 2, 0, 2]), [4, 0, 0, 0]);
}

#[test]
fn merged_tile_does_not_merge_again() {
    assert_eq!(shift_arr([2, 0, 2, 4]), [4, 4, 0, 0]);
}

#[test]
fn full_line_without_equal_neighbours_is_kept() {
    assert_eq!(shift_arr([2, 4, 8, 16]), [2, 4, 8, 16]);
}

#[test]
fn empty_line_stays_empty() {
    assert_eq!(shift_arr([0, 0, 0, 0]), [0, 0, 0, 0]);
}

#[test]
fn single_tile_collapses_to_index_zero() {
    assert_eq!(shift_arr([0, 0, 0, 8]), [8, 0, 0, 0]);
    assert_eq!(shift_arr([0, 8, 0, 0]), [8, 0, 0, 0]);
    assert_eq!(shift_arr([8, 0, 0, 0]), [8, 0, 0, 0]);
}

#[test]
fn gaps_close_without_merging() {
    assert_eq!(shift_arr([0, 2, 0, 4]), [2, 4, 0, 0]);
    assert_eq!(shift_arr([2, 0, 4, 2]), [2, 4, 2, 0]);
}

#[test]
fn only_the_front_pair_of_three_merges() {
    assert_eq!(shift_arr([2, 2, 2, 0]), [4, 2, 0, 0]);
    assert_eq!(shift_arr([4, 2, 2, 2]), [4, 4, 2, 0]);
}

#[test]
fn tile_after_a_merge_is_placed_even_if_equal_to_the_sum() {
    assert_eq!(shift_arr([2, 2, 4, 0]), [4, 4, 0, 0]);
    assert_eq!(shift_arr([2, 2, 4, 4]), [4, 8, 0, 0]);
}

#[test]
fn second_shift_changes_nothing_when_first_left_no_equal_neighbours() {
    let lines: [[u32; 4]; 5] =
        [[2, 4, 8, 16], [0, 2, 0, 2], [2, 2, 4, 4], [0, 0, 0, 0], [8, 0, 2, 2]];
    for line in lines {
        let once = shift_arr(line);
        assert_eq!(shift_arr(once), once);
    }
}

#[test]
fn second_shift_merges_what_first_left_equal() {
    let once = shift_arr([2, 2, 2, 2]);
    assert_eq!(once, [4, 4, 0, 0]);
    assert_eq!(shift_arr(once), [8, 0, 0, 0]);
}

#[test]
fn shift_conserves_the_value_on_the_line() {
    let lines: [[u32; 4]; 6] = [
        [2, 2, 2, 2],
        [0, 2, 0, 2],
        [2, 0, 2, 4],
        [2, 4, 8, 16],
        [1024, 1024, 0, 8],
        [0, 0, 0, 0],
    ];
    for line in lines {
        let before: u32 = line.iter().sum();
        let after: u32 = shift_arr(line).iter().sum();
        assert_eq!(before, after);
    }
}

#[test]
fn shift_of_tiles_gives_tiles() {
    let lines: [[u32; 4]; 4] =
        [[2, 2, 2, 2], [64, 64, 128, 0], [0, 2, 0, 2], [32768, 32768, 65536, 0]];
    for line in lines {
        for v in shift_arr(line) {
            assert!(v == 0 || (v >= 2 && v.is_power_of_two()));
        }
    }
}

#[test]
fn shift_merges_any_equal_values() {
    assert_eq!(shift_arr([3, 3, 5, 0]), [6, 5, 0, 0]);
}

#[test]
fn checked_shift_agrees_with_shift() {
    assert_eq!(checked_shift_arr([2, 2, 2, 2]), Some([4, 4, 0, 0]));
    assert_eq!(checked_shift_arr([0, 2, 0, 2]), Some([4, 0, 0, 0]));
    assert_eq!(checked_shift_arr([2, 4, 8, 16]), Some([2, 4, 8, 16]));
    assert_eq!(checked_shift_arr([0, 0, 0, 0]), Some([0, 0, 0, 0]));
}

#[test]
fn checked_shift_refuses_a_merge_that_does_not_fit() {
    let top: u32 = 1 << 31;
    assert_eq!(checked_shift_arr([top, top, 0, 0]), None);
    assert_eq!(checked_shift_arr([0, top, 0, top]), None);
    assert_eq!(checked_shift_arr([2, 2, top, top]), None);
}

#[test]
fn checked_shift_accepts_the_largest_tile_that_does_not_merge() {
    let top: u32 = 1 << 31;
    let half: u32 = 1 << 30;
    assert_eq!(checked_shift_arr([top, 0, 0, 0]), Some([top, 0, 0, 0]));
    assert_eq!(checked_shift_arr([top, 2, top, 0]), Some([top, 2, top, 0]));
    assert_eq!(checked_shift_arr([half, half, top, 0]), Some([top, top, 0, 0]));
    assert_eq!(shift_arr([half, half, 0, 0]), [top, 0, 0, 0]);
}
