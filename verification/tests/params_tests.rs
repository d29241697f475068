use minesweeper::get_valid_mine_count;
use minesweeper::get_valid_size;
use minesweeper::MineField;

#[test]
fn size_clamp_lifts_small_dimensions_to_nine() {
    // Either dimension at 6 or below clamps both to the default of 9.
    assert_eq!(get_valid_size(5, 10), (9, 9));
    assert_eq!(get_valid_size(10, 5), (9, 9));
    assert_eq!(get_valid_size(10, 3), (9, 9));
    assert_eq!(get_valid_size(6, 6), (9, 9));
    assert_eq!(get_valid_size(0, 0), (9, 9));
    // Both above 6 pass through unchanged.
    assert_eq!(get_valid_size(7, 7), (7, 7));
    assert_eq!(get_valid_size(10, 8), (10, 8));
    assert_eq!(get_valid_size(99, 99), (99, 99));
}

#[test]
fn mine_count_clamp_snaps_to_nearest_bound() {
    // 9 * 9 / 10 = 8 is the ceiling for the default board.
    assert_eq!(get_valid_mine_count(9, 9, 0), 2);
    assert_eq!(get_valid_mine_count(9, 9, 1), 2);
    assert_eq!(get_valid_mine_count(9, 9, 2), 2);
    assert_eq!(get_valid_mine_count(9, 9, 5), 5);
    assert_eq!(get_valid_mine_count(9, 9, 8), 8);
    assert_eq!(get_valid_mine_count(9, 9, 9), 8);
    assert_eq!(get_valid_mine_count(9, 9, 10_000), 8);
}

#[test]
fn tiny_board_resolves_to_the_floor_and_is_rejected() {
    // 1 * 1 / 10 = 0 lies below the floor of 2: the clamp resolves to the
    // floor rather than failing, and construction then rejects the pair.
    assert_eq!(get_valid_mine_count(1, 1, 1), 2);
    assert_eq!(get_valid_mine_count(1, 1, 100), 2);
    assert!(!MineField::config_ok(1, 1, 2));
    // The default board accepts the same count.
    assert!(MineField::config_ok(9, 9, 2));
}

#[test]
fn config_ok_matches_the_documented_bounds() {
    assert!(MineField::config_ok(7, 7, 2));
    assert!(MineField::config_ok(7, 7, 4));
    assert!(!MineField::config_ok(7, 7, 5));
    assert!(!MineField::config_ok(7, 7, 1));
    assert!(!MineField::config_ok(0, 7, 2));
    assert!(!MineField::config_ok(100, 7, 2));
    assert!(MineField::config_ok(99, 99, 980));
    assert!(!MineField::config_ok(99, 99, 981));
}
