//! The renderer's grid layout.
//!
//! The renderer redraws the whole display grid on every snapshot: a
//! bordered rectangle whose every cell is a three-character glyph — a
//! distinct glyph for the player, the cell's own character thrice for
//! anything else. This module computes those rows and the rectangle's
//! centered placement as plain values; emitting them to the terminal,
//! with its escape codes and colors, happens outside the library.

use vstd::prelude::*;
use crate::game::{BOARD_SIZE, BOARD_AREA, PLAYER_CHAR};

verus! {

/// The character of the rectangle's border.
pub const BORDER_CHAR: char = '░';

/// Width of one rendered row: three characters per cell plus two borders.
pub const ROW_WIDTH: usize = 3 * BOARD_SIZE + 2;

/// Three-character glyph of one display cell.
pub open spec fn glyph(c: char) -> Seq<char> {
    if c == PLAYER_CHAR {
        seq!['◀', '◆', '▶']
    } else {
        seq![c, c, c]
    }
}

/// A full border row, as wide as a rendered cell row.
pub open spec fn border_row() -> Seq<char> {
    Seq::new(ROW_WIDTH as nat, |i: int| BORDER_CHAR)
}

/// Cell (x, y) of the board appears as its glyph at its place in row y + 1.
pub open spec fn cell_rendered(rows: Seq<Vec<char>>, board: Seq<char>, y: int, x: int) -> bool {
    rows[y + 1]@.subrange(1 + 3 * x, 4 + 3 * x) == glyph(board[y * BOARD_SIZE + x])
}

fn make_border_row() -> (r: Vec<char>)
    ensures
        r@ == border_row(),
{
    let mut row: Vec<char> = Vec::new();
    let mut i: usize = 0;
    while i < ROW_WIDTH
        invariant
            i <= ROW_WIDTH,
            row@.len() == i,
            forall|k: int| 0 <= k < i ==> #[trigger] row@[k] == BORDER_CHAR,
        decreases ROW_WIDTH - i,
    {
        row.push(BORDER_CHAR);
        i = i + 1;
    }
    proof {
        assert(row@ =~= border_row());
    }
    row
}

/// Renders the display grid as rows of characters: a border row, then one
/// row per grid row — each a border character, the cells' glyphs in order,
/// and a border character — then a border row.
pub fn render_rows(board: &Vec<char>) -> (r: Vec<Vec<char>>)
    requires
        board@.len() == BOARD_AREA,
    ensures
        r@.len() == BOARD_SIZE + 2,
        r@[0]@ == border_row(),
        r@[BOARD_SIZE + 1]@ == border_row(),
        forall|y: int|
            0 <= y < BOARD_SIZE ==> (#[trigger] r@[y + 1])@.len() == ROW_WIDTH && r@[y + 1]@[0]
                == BORDER_CHAR && r@[y + 1]@[ROW_WIDTH - 1] == BORDER_CHAR,
        forall|y: int, x: int|
            0 <= y < BOARD_SIZE && 0 <= x < BOARD_SIZE ==> #[trigger] cell_rendered(r@, board@, y, x),
{
    let mut rows: Vec<Vec<char>> = Vec::new();
    rows.push(make_border_row());

    let mut y: usize = 0;
    while y < BOARD_SIZE
        invariant
            board@.len() == BOARD_AREA,
            y <= BOARD_SIZE,
            rows@.len() == y + 1,
            rows@[0]@ == border_row(),
            forall|yy: int|
                0 <= yy < y ==> (#[trigger] rows@[yy + 1])@.len() == ROW_WIDTH && rows@[yy + 1]@[0]
                    == BORDER_CHAR && rows@[yy + 1]@[ROW_WIDTH - 1] == BORDER_CHAR,
            forall|yy: int, xx: int|
                0 <= yy < y && 0 <= xx < BOARD_SIZE ==> #[trigger] cell_rendered(
                    rows@,
                    board@,
                    yy,
                    xx,
                ),
        decreases BOARD_SIZE - y,
    {
        let mut row: Vec<char> = Vec::new();
        row.push(BORDER_CHAR);
        let mut x: usize = 0;
        while x < BOARD_SIZE
            invariant
                board@.len() == BOARD_AREA,
                y < BOARD_SIZE,
                x <= BOARD_SIZE,
                row@.len() == 1 + 3 * x,
                row@[0] == BORDER_CHAR,
                forall|xx: int|
                    0 <= xx < x ==> #[trigger] row@.subrange(1 + 3 * xx, 4 + 3 * xx) == glyph(
                        board@[y * BOARD_SIZE + xx],
                    ),
            decreases BOARD_SIZE - x,
        {
            let ghost row0 = row@;
            let c = board[y * BOARD_SIZE + x];
            if c == PLAYER_CHAR {
                row.push('◀');
                row.push('◆');
                row.push('▶');
            } else {
                row.push(c);
                row.push(c);
                row.push(c);
            }
            proof {
                assert(row@.subrange(1 + 3 * x, 4 + 3 * x) =~= glyph(
                    board@[y as int * BOARD_SIZE + x as int],
                ));
                assert forall|xx: int| 0 <= xx < x implies #[trigger] row@.subrange(
                    1 + 3 * xx,
                    4 + 3 * xx,
                ) == glyph(board@[y * BOARD_SIZE + xx]) by {
                    assert(row@.subrange(1 + 3 * xx, 4 + 3 * xx) =~= row0.subrange(
                        1 + 3 * xx,
                        4 + 3 * xx,
                    ));
                }
            }
            x = x + 1;
        }
        let ghost row1 = row@;
        row.push(BORDER_CHAR);
        proof {
            assert forall|xx: int| 0 <= xx < BOARD_SIZE implies #[trigger] row@.subrange(
                1 + 3 * xx,
                4 + 3 * xx,
            ) == glyph(board@[y * BOARD_SIZE + xx]) by {
                assert(row@.subrange(1 + 3 * xx, 4 + 3 * xx) =~= row1.subrange(
                    1 + 3 * xx,
                    4 + 3 * xx,
                ));
            }
        }
        let ghost rows0 = rows@;
        rows.push(row);
        proof {
            assert forall|yy: int, xx: int| 0 <= yy < y + 1 && 0 <= xx < BOARD_SIZE
                implies #[trigger] cell_rendered(rows@, board@, yy, xx) by {
                if yy < y {
                    assert(cell_rendered(rows0, board@, yy, xx));
                    assert(rows@[yy + 1] == rows0[yy + 1]);
                }
            }
        }
        y = y + 1;
    }

    let ghost rows_full = rows@;
    rows.push(make_border_row());
    proof {
        assert forall|yy: int, xx: int| 0 <= yy < BOARD_SIZE && 0 <= xx < BOARD_SIZE
            implies #[trigger] cell_rendered(rows@, board@, yy, xx) by {
            assert(cell_rendered(rows_full, board@, yy, xx));
            assert(rows@[yy + 1] == rows_full[yy + 1]);
        }
    }
    rows
}

/// Centering of the bordered rectangle on a terminal of the given size:
/// the column and row of its top-left corner.
pub fn draw_origin(wd: usize, ht: usize) -> (r: (usize, usize))
    requires
        wd >= 3 * BOARD_SIZE + 1,
        ht >= BOARD_SIZE,
    ensures
        r.0 == (wd - (3 * BOARD_SIZE + 1)) / 2,
        r.1 == (ht - BOARD_SIZE + 1) / 2,
{
    ((wd - (3 * BOARD_SIZE + 1)) / 2, (ht - BOARD_SIZE + 1) / 2)
}

} // verus!
