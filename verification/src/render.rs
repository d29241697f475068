//! The textual rendering of the board: column headers, a bordered frame, one
//! labelled row per grid row, and a three-character glyph per cell. A pure
//! function of the grid; nothing here prints.

use vstd::prelude::*;
use vstd::string::StringExecFns;

use crate::engine::MineField;
use crate::grid::cells_ok;
use crate::grid::Cell;
use crate::grid::Grid;

verus! {

/// The decimal digit character for `d` in 0 through 9.
pub open spec fn digit_char(d: int) -> char {
    if d == 0 {
        '0'
    } else if d == 1 {
        '1'
    } else if d == 2 {
        '2'
    } else if d == 3 {
        '3'
    } else if d == 4 {
        '4'
    } else if d == 5 {
        '5'
    } else if d == 6 {
        '6'
    } else if d == 7 {
        '7'
    } else if d == 8 {
        '8'
    } else {
        '9'
    }
}

/// `n` in 0 through 99, right-aligned in two characters.
pub open spec fn two_digit(n: int) -> Seq<char> {
    if n < 10 {
        seq![' ', digit_char(n)]
    } else {
        seq![digit_char(n / 10), digit_char(n % 10)]
    }
}

/// The three-character glyph of one cell: blank while hidden, a dot for
/// revealed-empty, the magnitude for a revealed number, and 9 for the
/// revealed losing mine. A hidden mine is indistinguishable from any other
/// hidden cell.
pub open spec fn glyph(c: Cell) -> Seq<char> {
    match c {
        Cell::Hidden(_) => seq![' ', ' ', ' '],
        Cell::HiddenMine => seq![' ', ' ', ' '],
        Cell::RevealedEmpty => seq![' ', ' ', '.'],
        Cell::RevealedNumber(n) => seq![' ', ' ', digit_char(n as int)],
        Cell::RevealedMine => seq![' ', ' ', '9'],
    }
}

/// The 1-based column labels 1 through `k`, each two digits and a space.
pub open spec fn col_labels(k: int) -> Seq<char>
    decreases k,
{
    if k <= 0 {
        Seq::empty()
    } else {
        col_labels(k - 1) + two_digit(k) + seq![' ']
    }
}

/// The header (and footer) line: indentation, the column labels, a newline.
pub open spec fn header_line(w: int) -> Seq<char> {
    seq![' ', ' ', ' ', ' '] + col_labels(w) + seq!['\n']
}

/// Three dashes per column.
pub open spec fn dashes(k: int) -> Seq<char>
    decreases k,
{
    if k <= 0 {
        Seq::empty()
    } else {
        dashes(k - 1) + seq!['-', '-', '-']
    }
}

/// A horizontal border line of the frame.
pub open spec fn border_line(w: int) -> Seq<char> {
    seq![' ', ' ', '+'] + dashes(w) + seq!['+', '\n']
}

/// The glyphs of the first `k` cells of row `y`.
pub open spec fn row_cells(g: Grid, y: int, k: int) -> Seq<char>
    decreases k,
{
    if k <= 0 {
        Seq::empty()
    } else {
        row_cells(g, y, k - 1) + glyph(g.at(k - 1, y))
    }
}

/// One grid row: its 1-based label on both sides of the framed glyphs.
pub open spec fn row_line(g: Grid, y: int) -> Seq<char> {
    two_digit(y + 1) + seq!['|'] + row_cells(g, y, g.width as int) + seq!['|'] + two_digit(y + 1)
        + seq!['\n']
}

/// The first `k` grid rows, rendered.
pub open spec fn rows_lines(g: Grid, k: int) -> Seq<char>
    decreases k,
{
    if k <= 0 {
        Seq::empty()
    } else {
        rows_lines(g, k - 1) + row_line(g, k - 1)
    }
}

/// The whole board: header, border, the rows, border, footer.
pub open spec fn render_spec(g: Grid) -> Seq<char> {
    header_line(g.width as int) + border_line(g.width as int) + rows_lines(g, g.height as int)
        + border_line(g.width as int) + header_line(g.width as int)
}

/// The one-character string for the digit `d`.
fn digit_str(d: usize) -> (s: &'static str)
    requires
        d <= 9,
    ensures
        s@ == seq![digit_char(d as int)],
{
    let s: &'static str = match d {
        0 => "0",
        1 => "1",
        2 => "2",
        3 => "3",
        4 => "4",
        5 => "5",
        6 => "6",
        7 => "7",
        8 => "8",
        _ => "9",
    };
    proof {
        reveal_strlit("0");
        reveal_strlit("1");
        reveal_strlit("2");
        reveal_strlit("3");
        reveal_strlit("4");
        reveal_strlit("5");
        reveal_strlit("6");
        reveal_strlit("7");
        reveal_strlit("8");
        reveal_strlit("9");
        assert(s@ =~= seq![digit_char(d as int)]);
    }
    s
}

/// Appends `n` right-aligned in two characters.
fn push_two_digit(out: &mut String, n: usize)
    requires
        n <= 99,
    ensures
        final(out)@ == old(out)@ + two_digit(n as int),
{
    if n < 10 {
        out.append(" ");
        out.append(digit_str(n));
    } else {
        out.append(digit_str(n / 10));
        out.append(digit_str(n % 10));
    }
    proof {
        reveal_strlit(" ");
        assert(out@ =~= old(out)@ + two_digit(n as int));
    }
}

/// Appends the header (or footer) line for `w` columns.
fn push_header(w: usize, out: &mut String)
    requires
        w <= 99,
    ensures
        final(out)@ == old(out)@ + header_line(w as int),
{
    let ghost base = old(out)@;
    out.append("    ");
    proof {
        reveal_strlit("    ");
        assert(out@ =~= base + seq![' ', ' ', ' ', ' '] + col_labels(0));
    }
    let mut xcol: usize = 1;
    while xcol <= w
        invariant
            1 <= xcol,
            xcol as int <= w as int + 1,
            w <= 99,
            out@ == base + seq![' ', ' ', ' ', ' '] + col_labels(xcol as int - 1),
        decreases w as int + 1 - xcol as int,
    {
        push_two_digit(out, xcol);
        out.append(" ");
        proof {
            reveal_strlit(" ");
            assert(out@ =~= base + seq![' ', ' ', ' ', ' '] + col_labels(xcol as int));
        }
        xcol = xcol + 1;
    }
    out.append("\n");
    proof {
        reveal_strlit("\n");
        assert(out@ =~= base + header_line(w as int));
    }
}

/// Appends a border line for `w` columns.
fn push_border(w: usize, out: &mut String)
    ensures
        final(out)@ == old(out)@ + border_line(w as int),
{
    let ghost base = old(out)@;
    out.append("  +");
    proof {
        reveal_strlit("  +");
        assert(out@ =~= base + seq![' ', ' ', '+'] + dashes(0));
    }
    let mut k: usize = 0;
    while k < w
        invariant
            k <= w,
            out@ == base + seq![' ', ' ', '+'] + dashes(k as int),
        decreases w as int - k as int,
    {
        out.append("---");
        proof {
            reveal_strlit("---");
            assert(out@ =~= base + seq![' ', ' ', '+'] + dashes(k as int + 1));
        }
        k = k + 1;
    }
    out.append("+\n");
    proof {
        reveal_strlit("+\n");
        assert(out@ =~= base + border_line(w as int));
    }
}

/// Appends row `y` of the grid with its 1-based labels.
fn push_row(g: &Grid, y: usize, out: &mut String)
    requires
        g.wf(),
        cells_ok(*g),
        (y as int) < g.height as int,
    ensures
        final(out)@ == old(out)@ + row_line(*g, y as int),
{
    let ghost base = old(out)@;
    push_two_digit(out, y + 1);
    out.append("|");
    proof {
        reveal_strlit("|");
        assert(out@ =~= base + two_digit(y as int + 1) + seq!['|'] + row_cells(*g, y as int, 0));
    }
    let mut xcol: usize = 0;
    while xcol < g.width
        invariant
            g.wf(),
            cells_ok(*g),
            (y as int) < g.height as int,
            xcol <= g.width,
            out@ == base + two_digit(y as int + 1) + seq!['|'] + row_cells(
                *g,
                y as int,
                xcol as int,
            ),
        decreases g.width as int - xcol as int,
    {
        let c = g.cells[y][xcol];
        proof {
            assert(crate::grid::cell_ok(g.at(xcol as int, y as int)));
        }
        match c {
            Cell::Hidden(_) => out.append("   "),
            Cell::HiddenMine => out.append("   "),
            Cell::RevealedEmpty => out.append("  ."),
            Cell::RevealedMine => out.append("  9"),
            Cell::RevealedNumber(n) => {
                out.append("  ");
                out.append(digit_str(n as usize));
            },
        }
        proof {
            reveal_strlit("   ");
            reveal_strlit("  .");
            reveal_strlit("  9");
            reveal_strlit("  ");
            assert(out@ =~= base + two_digit(y as int + 1) + seq!['|'] + row_cells(
                *g,
                y as int,
                xcol as int + 1,
            ));
        }
        xcol = xcol + 1;
    }
    out.append("|");
    push_two_digit(out, y + 1);
    out.append("\n");
    proof {
        reveal_strlit("|");
        reveal_strlit("\n");
        assert(out@ =~= base + row_line(*g, y as int));
    }
}

impl MineField {
    /// The textual board, a pure function of the current grid state.
    pub fn render(&self) -> (out: String)
        requires
            self.grid.wf(),
            cells_ok(self.grid),
        ensures
            out@ == render_spec(self.grid),
    {
        let w = self.grid.width;
        let mut out = String::new();
        push_header(w, &mut out);
        push_border(w, &mut out);
        let mut yy: usize = 0;
        while yy < self.grid.height
            invariant
                self.grid.wf(),
                cells_ok(self.grid),
                w == self.grid.width,
                yy <= self.grid.height,
                out@ == header_line(w as int) + border_line(w as int) + rows_lines(
                    self.grid,
                    yy as int,
                ),
            decreases self.grid.height as int - yy as int,
        {
            push_row(&self.grid, yy, &mut out);
            proof {
                assert(out@ =~= header_line(w as int) + border_line(w as int) + rows_lines(
                    self.grid,
                    yy as int + 1,
                ));
            }
            yy = yy + 1;
        }
        push_border(w, &mut out);
        push_header(w, &mut out);
        proof {
            assert(out@ =~= render_spec(self.grid));
        }
        out
    }
}

} // verus!
