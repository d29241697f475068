use minesweeper::Cell;
use minesweeper::FieldError;
use minesweeper::Grid;
use minesweeper::MineField;
use minesweeper::Phase;

/// Reads the whole board as a vector of rows.
fn snapshot(mf: &MineField) -> Vec<Vec<Cell>> {
    let (w, h) = mf.grid.dimensions();
    let mut rows = Vec::new();
    for y in 0..h {
        let mut row = Vec::new();
        for x in 0..w {
            row.push(mf.grid.get(x, y).unwrap());
        }
        rows.push(row);
    }
    rows
}

fn is_mine_cell(c: Cell) -> bool {
    matches!(c, Cell::HiddenMine | Cell::RevealedMine)
}

fn count_mines(mf: &MineField) -> usize {
    snapshot(mf)
        .iter()
        .map(|r| r.iter().filter(|c| is_mine_cell(**c)).count())
        .sum()
}

/// Recomputes the number of mines adjacent to (x, y) by brute force.
fn brute_adjacent(rows: &Vec<Vec<Cell>>, x: usize, y: usize) -> u8 {
    let h = rows.len() as i64;
    let w = rows[0].len() as i64;
    let mut n = 0u8;
    for dj in -1i64..=1 {
        for di in -1i64..=1 {
            if di == 0 && dj == 0 {
                continue;
            }
            let i = x as i64 + di;
            let j = y as i64 + dj;
            if i >= 0 && i < w && j >= 0 && j < h && is_mine_cell(rows[j as usize][i as usize]) {
                n += 1;
            }
        }
    }
    n
}

/// A 9x9 board with its 8 mines in a vertical wall at x = 4, rows 0..8.
fn column_board() -> MineField {
    let mut mf = MineField::new(9, 9, 8);
    let coords: Vec<(usize, usize)> = (0..8).map(|y| (4usize, y)).collect();
    mf.place_mines_at(&coords);
    mf
}

#[test]
fn place_mines_leaves_exact_count() {
    let mut mf = MineField::new(9, 9, 8);
    mf.place_mines();
    assert_eq!(count_mines(&mf), 8);
    assert!(matches!(mf.phase, Phase::Playing));
}

#[test]
fn place_mines_magnitudes_match_brute_force() {
    let mut mf = MineField::new(9, 9, 8);
    mf.place_mines();
    let rows = snapshot(&mf);
    for y in 0..9 {
        for x in 0..9 {
            match rows[y][x] {
                Cell::Hidden(n) => {
                    assert!(n <= 8);
                    assert_eq!(n, brute_adjacent(&rows, x, y));
                }
                Cell::HiddenMine => {}
                other => panic!("freshly placed board shows {:?}", other),
            }
        }
    }
}

#[test]
fn place_mines_at_magnitudes_match_brute_force() {
    let mf = column_board();
    let rows = snapshot(&mf);
    for y in 0..9 {
        for x in 0..9 {
            if let Cell::Hidden(n) = rows[y][x] {
                assert_eq!(n, brute_adjacent(&rows, x, y));
            }
        }
    }
    assert_eq!(count_mines(&mf), 8);
}

#[test]
fn reveal_mine_is_game_over_and_final() {
    let mut mf = column_board();
    assert!(mf.reveal_at(4, 0));
    assert!(matches!(mf.phase, Phase::Over));
    assert_eq!(mf.grid.get(4, 0).unwrap(), Cell::RevealedMine);
    let before = snapshot(&mf);
    // Any further reveal is an idempotent no-op that still reports the loss.
    assert!(mf.reveal_at(0, 0));
    assert!(mf.reveal_at(4, 0));
    assert!(matches!(mf.phase, Phase::Over));
    assert_eq!(snapshot(&mf), before);
}

#[test]
fn reveal_number_keeps_magnitude_and_does_not_expand() {
    let mut mf = column_board();
    // (3, 4) borders three mines of the wall.
    assert!(!mf.reveal_at(3, 4));
    let rows = snapshot(&mf);
    assert_eq!(rows[4][3], Cell::RevealedNumber(3));
    for y in 0..9 {
        for x in 0..9 {
            if !(x == 3 && y == 4) {
                assert!(
                    matches!(rows[y][x], Cell::Hidden(_) | Cell::HiddenMine),
                    "({}, {}) expanded from a numbered reveal",
                    x,
                    y
                );
            }
        }
    }
}

#[test]
fn reveal_zero_floods_the_connected_region() {
    let mut mf = column_board();
    assert!(!mf.reveal_at(0, 0));
    assert!(matches!(mf.phase, Phase::Playing));
    let rows = snapshot(&mf);
    for y in 0..9 {
        for x in 0..9 {
            if x <= 2 {
                assert_eq!(rows[y][x], Cell::RevealedEmpty, "({}, {})", x, y);
            } else if x == 3 {
                assert!(matches!(rows[y][x], Cell::RevealedNumber(_)), "({}, {})", x, y);
            } else {
                assert!(
                    matches!(rows[y][x], Cell::Hidden(_) | Cell::HiddenMine),
                    "({}, {}) beyond the numbered boundary was revealed",
                    x,
                    y
                );
            }
        }
    }
    // Every revealed-empty cell is fully expanded: no hidden neighbour.
    for y in 0..9i64 {
        for x in 0..9i64 {
            if rows[y as usize][x as usize] == Cell::RevealedEmpty {
                for dj in -1i64..=1 {
                    for di in -1i64..=1 {
                        let (i, j) = (x + di, y + dj);
                        if (0..9).contains(&i) && (0..9).contains(&j) {
                            assert!(
                                !matches!(
                                    rows[j as usize][i as usize],
                                    Cell::Hidden(_) | Cell::HiddenMine
                                ),
                                "hidden neighbour of revealed-empty ({}, {})",
                                x,
                                y
                            );
                        }
                    }
                }
            }
        }
    }
}

#[test]
fn reveal_twice_is_idempotent() {
    let mut mf = column_board();
    assert!(!mf.reveal_at(0, 0));
    let once = snapshot(&mf);
    assert!(!mf.reveal_at(0, 0));
    assert_eq!(snapshot(&mf), once);
    // Also on a numbered cell.
    assert!(!mf.reveal_at(3, 0));
    let after_number = snapshot(&mf);
    assert!(!mf.reveal_at(3, 0));
    assert_eq!(snapshot(&mf), after_number);
}

#[test]
fn maximum_mine_count_terminates_on_largest_board() {
    let mc = minesweeper::get_valid_mine_count(99, 99, usize::MAX / 2);
    assert_eq!(mc, 980);
    assert!(MineField::config_ok(99, 99, mc));
    let mut mf = MineField::new(99, 99, mc);
    mf.place_mines();
    assert!(matches!(mf.phase, Phase::Playing));
    assert_eq!(count_mines(&mf), 980);
}

#[test]
fn zero_resets_to_setup_blank() {
    let mut mf = column_board();
    mf.reveal_at(0, 0);
    mf.zero();
    assert!(matches!(mf.phase, Phase::Setup));
    for row in snapshot(&mf) {
        for c in row {
            assert_eq!(c, Cell::Hidden(0));
        }
    }
}

#[test]
fn grid_store_contract() {
    assert_eq!(Grid::create(0, 5).unwrap_err(), FieldError::InvalidDimension);
    assert_eq!(Grid::create(5, 0).unwrap_err(), FieldError::InvalidDimension);
    assert_eq!(Grid::create(100, 5).unwrap_err(), FieldError::InvalidDimension);
    assert_eq!(Grid::create(5, 100).unwrap_err(), FieldError::InvalidDimension);
    let mut g = Grid::create(7, 5).unwrap();
    assert_eq!(g.dimensions(), (7, 5));
    assert_eq!(g.get(6, 4).unwrap(), Cell::Hidden(0));
    assert_eq!(g.get(7, 4).unwrap_err(), FieldError::OutOfBounds);
    assert_eq!(g.get(6, 5).unwrap_err(), FieldError::OutOfBounds);
    g.set(2, 3, Cell::HiddenMine).unwrap();
    assert_eq!(g.get(2, 3).unwrap(), Cell::HiddenMine);
    assert_eq!(g.set(7, 0, Cell::HiddenMine).unwrap_err(), FieldError::OutOfBounds);
    g.reset();
    assert_eq!(g.get(2, 3).unwrap(), Cell::Hidden(0));
}
