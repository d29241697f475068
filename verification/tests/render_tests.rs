use minesweeper::Cell;
use minesweeper::MineField;

fn expected_board(cells: &Vec<Vec<Cell>>) -> String {
    let h = cells.len();
    let w = cells[0].len();
    let mut header = String::from("    ");
    for x in 1..=w {
        header.push_str(&format!("{:2} ", x));
    }
    header.push('\n');
    let mut border = String::from("  +");
    for _ in 0..w {
        border.push_str("---");
    }
    border.push_str("+\n");
    let mut out = String::new();
    out.push_str(&header);
    out.push_str(&border);
    for y in 0..h {
        out.push_str(&format!("{:2}|", y + 1));
        for x in 0..w {
            match cells[y][x] {
                Cell::Hidden(_) | Cell::HiddenMine => out.push_str("   "),
                Cell::RevealedEmpty => out.push_str("  ."),
                Cell::RevealedNumber(n) => out.push_str(&format!(" {:2}", n)),
                Cell::RevealedMine => out.push_str("  9"),
            }
        }
        out.push_str(&format!("|{:2}\n", y + 1));
    }
    out.push_str(&border);
    out.push_str(&header);
    out
}

fn snapshot(mf: &MineField) -> Vec<Vec<Cell>> {
    let (w, h) = mf.grid.dimensions();
    (0..h)
        .map(|y| (0..w).map(|x| mf.grid.get(x, y).unwrap()).collect())
        .collect()
}

#[test]
fn render_blank_board() {
    let mf = MineField::new(7, 7, 2);
    assert_eq!(mf.render(), expected_board(&snapshot(&mf)));
}

#[test]
fn render_after_flood_shows_dots_numbers_and_blanks() {
    let mut mf = MineField::new(9, 9, 8);
    let coords: Vec<(usize, usize)> = (0..8).map(|y| (4usize, y)).collect();
    mf.place_mines_at(&coords);
    mf.reveal_at(0, 0);
    let rows = snapshot(&mf);
    // Sanity: the three kinds of glyph all occur on this board.
    assert_eq!(rows[0][0], Cell::RevealedEmpty);
    assert!(matches!(rows[0][3], Cell::RevealedNumber(_)));
    assert!(matches!(rows[0][5], Cell::Hidden(_)));
    let text = mf.render();
    assert_eq!(text, expected_board(&rows));
    // Row 1 spells out label, dots, the count of two wall mines, blanks.
    let line = text.lines().nth(2).unwrap();
    assert_eq!(line, " 1|  .  .  .  2               | 1");
}

#[test]
fn render_over_shows_the_losing_mine_as_nine() {
    let mut mf = MineField::new(9, 9, 8);
    let coords: Vec<(usize, usize)> = (0..8).map(|y| (4usize, y)).collect();
    mf.place_mines_at(&coords);
    assert!(mf.reveal_at(4, 2));
    let text = mf.render();
    assert_eq!(text, expected_board(&snapshot(&mf)));
    let line = text.lines().nth(4).unwrap();
    assert_eq!(line, " 3|              9            | 3");
}
