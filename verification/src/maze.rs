//! Randomized maze generation.
//!
//! A randomized iterative depth-first traversal walks the logical grid of
//! `GEN_SIZE x GEN_SIZE` cells, recording wall flags on the right and
//! bottom edges of cells; the logical grid is then expanded into the
//! `BOARD_SIZE x BOARD_SIZE` display grid (`BOARD_SIZE = 2 * GEN_SIZE - 1`),
//! where every logical cell keeps its cell at even/even display
//! coordinates open, every interior odd/odd display cell is a wall pillar,
//! and the cells between two adjacent logical cells are walls exactly
//! where a wall flag was recorded.
//!
//! The expansion is specified exactly: `expand_board` returns precisely
//! the grid that `expanded` computes from the wall flags. The traversal's
//! flags depend on the injected randomness source, so `generate_maze`
//! promises what holds of every run: the result is the expansion of some
//! logical grid — full size, cells open or wall, logical cells open,
//! interior pillars walled.

use vstd::prelude::*;
use vstd::pervasive::VecAdditionalExecFns;
use vstd::arithmetic::div_mod::lemma_fundamental_div_mod_converse;
use crate::game::{Position, BOARD_SIZE, BOARD_AREA, WALL_CHAR, EMPTY_CHAR};
use crate::rng;

verus! {

/// Side length of the logical generation grid.
pub const GEN_SIZE: usize = 13;

/// Number of cells of the logical generation grid.
pub const GEN_AREA: usize = GEN_SIZE * GEN_SIZE;

/// One cell of the logical grid: a wall on its right edge, a wall on its
/// bottom edge. Walls are absent by default.
#[derive(Clone, Copy, Debug, PartialEq, Eq, Structural)]
pub struct BoardCell {
    pub wall_right: bool,
    pub wall_bottom: bool,
}

/// Flat index of a position in the row-major logical grid.
pub open spec fn gidx(p: Position) -> int {
    p.y * GEN_SIZE + p.x
}

/// The position lies on the logical grid.
pub open spec fn gen_bounds(p: Position) -> bool {
    p.x < GEN_SIZE && p.y < GEN_SIZE
}

/// Display row of a flat display-grid index.
pub open spec fn row_of(i: int) -> int {
    i / (BOARD_SIZE as int)
}

/// Display column of a flat display-grid index.
pub open spec fn col_of(i: int) -> int {
    i % (BOARD_SIZE as int)
}

/// Row and column of a row-major index are what the index was built from.
pub proof fn lemma_rowcol(y: int, x: int)
    requires
        0 <= y < BOARD_SIZE,
        0 <= x < BOARD_SIZE,
    ensures
        row_of(y * BOARD_SIZE + x) == y,
        col_of(y * BOARD_SIZE + x) == x,
{
    lemma_fundamental_div_mod_converse(y * BOARD_SIZE + x, BOARD_SIZE as int, y, x);
}

/// How many entries of a boolean sequence are set.
pub closed spec fn count_true(s: Seq<bool>) -> int
    decreases s.len(),
{
    if s.len() == 0 {
        0
    } else {
        count_true(s.drop_last()) + if s.last() {
            1int
        } else {
            0int
        }
    }
}

proof fn lemma_count_true_le_len(s: Seq<bool>)
    ensures
        0 <= count_true(s) <= s.len(),
    decreases s.len(),
{
    if s.len() > 0 {
        lemma_count_true_le_len(s.drop_last());
    }
}

proof fn lemma_count_true_lt_len(s: Seq<bool>, i: int)
    requires
        0 <= i < s.len(),
        !s[i],
    ensures
        count_true(s) < s.len(),
    decreases s.len(),
{
    if i == s.len() - 1 {
        lemma_count_true_le_len(s.drop_last());
    } else {
        lemma_count_true_lt_len(s.drop_last(), i);
        assert(count_true(s) <= count_true(s.drop_last()) + 1);
    }
}

proof fn lemma_count_true_update(s: Seq<bool>, i: int)
    requires
        0 <= i < s.len(),
        !s[i],
    ensures
        count_true(s.update(i, true)) == count_true(s) + 1,
    decreases s.len(),
{
    let t = s.update(i, true);
    if i == s.len() - 1 {
        assert(t.drop_last() =~= s.drop_last());
    } else {
        assert(t.drop_last() =~= s.drop_last().update(i, true));
        lemma_count_true_update(s.drop_last(), i);
    }
}

/// The display cell a logical grid determines at flat index `i`: logical
/// cells (even/even coordinates) stay open; interior pillars (odd/odd)
/// are walls; the cell between two horizontally adjacent logical cells
/// (even row, odd column) is a wall exactly when the left cell's right
/// flag is set; the cell between two vertically adjacent logical cells
/// (odd row, even column) is a wall exactly when the upper cell's bottom
/// flag is set.
pub open spec fn expanded_cell(lb: Seq<BoardCell>, i: int) -> char {
    let r = row_of(i);
    let c = col_of(i);
    if r % 2 == 0 && c % 2 == 0 {
        EMPTY_CHAR
    } else if r % 2 == 1 && c % 2 == 1 {
        WALL_CHAR
    } else if r % 2 == 0 {
        if lb[(r / 2) * GEN_SIZE + (c - 1) / 2].wall_right {
            WALL_CHAR
        } else {
            EMPTY_CHAR
        }
    } else {
        if lb[((r - 1) / 2) * GEN_SIZE + c / 2].wall_bottom {
            WALL_CHAR
        } else {
            EMPTY_CHAR
        }
    }
}

/// The whole display grid a logical grid determines.
pub open spec fn expanded(lb: Seq<BoardCell>) -> Seq<char> {
    Seq::new(BOARD_AREA as nat, |i: int| expanded_cell(lb, i))
}

/// Display index `i` is written by the expansion of logical cell (x, y):
/// it is off the even/even cells, and (x, y) is the cell its coordinates
/// point back to.
spec fn owned_by(i: int, y: int, x: int) -> bool {
    let r = row_of(i);
    let c = col_of(i);
    &&& !(r % 2 == 0 && c % 2 == 0)
    &&& (if r % 2 == 1 {
        (r - 1) / 2
    } else {
        r / 2
    }) == y
    &&& (if c % 2 == 1 {
        (c - 1) / 2
    } else {
        c / 2
    }) == x
}

/// Display index `i` already holds its final value once the expansion has
/// processed every logical cell before (x, y) in row-major order.
spec fn cell_owner_done(i: int, y: int, x: int) -> bool {
    let r = row_of(i);
    let c = col_of(i);
    ||| (r % 2 == 0 && c % 2 == 0)
    ||| {
        let gy = if r % 2 == 1 {
            (r - 1) / 2
        } else {
            r / 2
        };
        let gx = if c % 2 == 1 {
            (c - 1) / 2
        } else {
            c / 2
        };
        gy < y || (gy == y && gx < x)
    }
}

/// A display grid mid-expansion: cells of processed owners are final,
/// everything else is still open.
spec fn partial_cell(lb: Seq<BoardCell>, i: int, y: int, x: int) -> char {
    if cell_owner_done(i, y, x) {
        expanded_cell(lb, i)
    } else {
        EMPTY_CHAR
    }
}

/// Processing logical cell (x, y) — writing the expanded value of every
/// display index it owns and touching nothing else — advances the
/// expansion by one cell.
proof fn lemma_expand_step(b0: Seq<char>, b1: Seq<char>, lb: Seq<BoardCell>, y: int, x: int)
    requires
        0 <= y < GEN_SIZE,
        0 <= x < GEN_SIZE,
        b0.len() == BOARD_AREA,
        b1.len() == BOARD_AREA,
        forall|i: int| 0 <= i < BOARD_AREA ==> #[trigger] b0[i] == partial_cell(lb, i, y, x),
        forall|i: int| 0 <= i < BOARD_AREA && !owned_by(i, y, x) ==> #[trigger] b1[i] == b0[i],
        forall|i: int|
            0 <= i < BOARD_AREA && owned_by(i, y, x) ==> #[trigger] b1[i] == expanded_cell(lb, i),
    ensures
        forall|i: int| 0 <= i < BOARD_AREA ==> #[trigger] b1[i] == partial_cell(lb, i, y, x + 1),
{
    assert forall|i: int| 0 <= i < BOARD_AREA implies #[trigger] b1[i] == partial_cell(
        lb,
        i,
        y,
        x + 1,
    ) by {
        if !owned_by(i, y, x) {
            assert(b1[i] == b0[i]);
        }
    }
}

/// Expands the logical grid into the display grid, exactly as `expanded`
/// says: every logical cell keeps its even/even display cell open, each
/// recorded right or bottom wall becomes the wall cell between the two
/// logical cells and an unrecorded edge stays open, every interior
/// odd/odd display cell is a wall pillar, and nothing else is written.
/// Cells of the last logical row or column emit no marker past the grid's
/// edge.
pub fn expand_board(lboard: &Vec<BoardCell>) -> (r: Vec<char>)
    requires
        lboard@.len() == GEN_AREA,
    ensures
        r@ == expanded(lboard@),
        r@.len() == BOARD_AREA,
        forall|i: int| 0 <= i < BOARD_AREA ==> (#[trigger] r@[i]) == EMPTY_CHAR || r@[i] == WALL_CHAR,
        forall|i: int|
            0 <= i < BOARD_AREA && row_of(i) % 2 == 0 && col_of(i) % 2 == 0 ==> (#[trigger] r@[i])
                == EMPTY_CHAR,
        forall|i: int|
            0 <= i < BOARD_AREA && row_of(i) % 2 == 1 && col_of(i) % 2 == 1 ==> (#[trigger] r@[i])
                == WALL_CHAR,
{
    let ghost lb = lboard@;
    let mut render: Vec<char> = Vec::new();
    let mut i: usize = 0;
    while i < BOARD_AREA
        invariant
            render@.len() == i,
            i <= BOARD_AREA,
            forall|k: int| 0 <= k < i ==> #[trigger] render@[k] == EMPTY_CHAR,
        decreases BOARD_AREA - i,
    {
        render.push(EMPTY_CHAR);
        i = i + 1;
    }
    proof {
        assert forall|k: int| 0 <= k < BOARD_AREA implies #[trigger] render@[k] == partial_cell(
            lb,
            k,
            0,
            0,
        ) by {}
    }

    let mut y: usize = 0;
    while y < GEN_SIZE
        invariant
            lboard@ == lb,
            lb.len() == GEN_AREA,
            y <= GEN_SIZE,
            render@.len() == BOARD_AREA,
            forall|k: int|
                0 <= k < BOARD_AREA ==> #[trigger] render@[k] == partial_cell(lb, k, y as int, 0),
        decreases GEN_SIZE - y,
    {
        let mut x: usize = 0;
        while x < GEN_SIZE
            invariant
                lboard@ == lb,
                lb.len() == GEN_AREA,
                y < GEN_SIZE,
                x <= GEN_SIZE,
                render@.len() == BOARD_AREA,
                forall|k: int|
                    0 <= k < BOARD_AREA ==> #[trigger] render@[k] == partial_cell(
                        lb,
                        k,
                        y as int,
                        x as int,
                    ),
            decreases GEN_SIZE - x,
        {
            let ghost b0 = render@;
            let c = lboard[y * GEN_SIZE + x];
            let ry = 2 * y;
            let rx = 2 * x;

            if y < GEN_SIZE - 1 {
                if x < GEN_SIZE - 1 {
                    if c.wall_bottom {
                        render.set((ry + 1) * BOARD_SIZE + rx, WALL_CHAR);
                    }
                    if c.wall_right {
                        render.set(ry * BOARD_SIZE + rx + 1, WALL_CHAR);
                    }
                    render.set((ry + 1) * BOARD_SIZE + rx + 1, WALL_CHAR);
                } else {
                    if c.wall_bottom {
                        render.set((ry + 1) * BOARD_SIZE + rx, WALL_CHAR);
                    }
                }
            } else {
                if x < GEN_SIZE - 1 && c.wall_right {
                    render.set(ry * BOARD_SIZE + rx + 1, WALL_CHAR);
                }
            }

            proof {
                let yi = y as int;
                let xi = x as int;
                let jb = (2 * yi + 1) * BOARD_SIZE + 2 * xi;
                let jr = 2 * yi * BOARD_SIZE + 2 * xi + 1;
                let jp = (2 * yi + 1) * BOARD_SIZE + 2 * xi + 1;
                if yi < GEN_SIZE - 1 {
                    lemma_rowcol(2 * yi + 1, 2 * xi);
                }
                lemma_rowcol(2 * yi, 2 * xi);
                if xi < GEN_SIZE - 1 {
                    lemma_rowcol(2 * yi, 2 * xi + 1);
                }
                if yi < GEN_SIZE - 1 && xi < GEN_SIZE - 1 {
                    lemma_rowcol(2 * yi + 1, 2 * xi + 1);
                }
                assert forall|k: int| 0 <= k < BOARD_AREA && !owned_by(k, yi, xi)
                    implies render@[k] == b0[k] by {
                    vstd::arithmetic::div_mod::lemma_fundamental_div_mod(k, BOARD_SIZE as int);
                    vstd::arithmetic::div_mod::lemma_mod_bound(k, BOARD_SIZE as int);
                }
                assert forall|k: int| 0 <= k < BOARD_AREA && owned_by(k, yi, xi)
                    implies render@[k] == expanded_cell(lb, k) by {
                    vstd::arithmetic::div_mod::lemma_fundamental_div_mod(k, BOARD_SIZE as int);
                    vstd::arithmetic::div_mod::lemma_mod_bound(k, BOARD_SIZE as int);
                    assert(row_of(k) < BOARD_SIZE);
                }
                lemma_expand_step(b0, render@, lb, yi, xi);
            }
            x = x + 1;
        }
        proof {
            assert forall|k: int| 0 <= k < BOARD_AREA implies #[trigger] render@[k] == partial_cell(
                lb,
                k,
                y as int + 1,
                0,
            ) by {
                vstd::arithmetic::div_mod::lemma_mod_bound(k, BOARD_SIZE as int);
                assert(render@[k] == partial_cell(lb, k, y as int, GEN_SIZE as int));
            }
        }
        y = y + 1;
    }

    proof {
        assert forall|k: int| 0 <= k < BOARD_AREA implies #[trigger] render@[k] == expanded_cell(
            lb,
            k,
        ) by {
            assert(render@[k] == partial_cell(lb, k, GEN_SIZE as int, 0));
            assert(row_of(k) < BOARD_SIZE);
        }
        assert(render@ =~= expanded(lb));
    }
    render
}

/// Produces the display grid of a fresh maze: a randomized depth-first
/// traversal records wall flags on the logical grid, which `expand_board`
/// then turns into the display grid. The walls depend on the randomness
/// source; what holds of every run is that the result is the expansion of
/// some logical grid: full size, cells open or wall, logical cells open,
/// interior pillars walled.
#[verifier::rlimit(60)]
pub fn generate_maze(generator: &mut rand::rngs::StdRng) -> (r: Vec<char>)
    ensures
        exists|lb: Seq<BoardCell>| lb.len() == GEN_AREA && r@ == #[trigger] expanded(lb),
        r@.len() == BOARD_AREA,
        forall|i: int| 0 <= i < BOARD_AREA ==> (#[trigger] r@[i]) == EMPTY_CHAR || r@[i] == WALL_CHAR,
        forall|i: int|
            0 <= i < BOARD_AREA && row_of(i) % 2 == 0 && col_of(i) % 2 == 0 ==> (#[trigger] r@[i])
                == EMPTY_CHAR,
        forall|i: int|
            0 <= i < BOARD_AREA && row_of(i) % 2 == 1 && col_of(i) % 2 == 1 ==> (#[trigger] r@[i])
                == WALL_CHAR,
{
    let mut lboard: Vec<BoardCell> = Vec::new();
    let mut k: usize = 0;
    while k < GEN_AREA
        invariant
            lboard@.len() == k,
            k <= GEN_AREA,
        decreases GEN_AREA - k,
    {
        lboard.push(BoardCell { wall_right: false, wall_bottom: false });
        k = k + 1;
    }

    let mut visited: Vec<bool> = Vec::new();
    let mut k2: usize = 0;
    while k2 < GEN_AREA
        invariant
            visited@.len() == k2,
            k2 <= GEN_AREA,
            forall|j: int| 0 <= j < k2 ==> !(#[trigger] visited@[j]),
        decreases GEN_AREA - k2,
    {
        visited.push(false);
        k2 = k2 + 1;
    }
    proof {
        lemma_count_all_false(visited@);
    }

    let mut pos = Position { y: GEN_SIZE / 2, x: GEN_SIZE / 2 };
    let mut visited_count: usize = 0;
    let mut stack: Vec<Position> = Vec::new();
    stack.push(pos);

    let mut popped = false;

    while stack.len() > 0 && visited_count < BOARD_AREA
        invariant
            lboard@.len() == GEN_AREA,
            visited@.len() == GEN_AREA,
            gen_bounds(pos),
            visited_count == count_true(visited@),
            forall|j: int|
                0 <= j < stack@.len() ==> gen_bounds(#[trigger] stack@[j]) && (visited@[gidx(
                    stack@[j],
                )] || stack@[j] == pos),
        decreases 2 * (GEN_AREA - (visited_count + (if visited@[gidx(pos)] {
            0int
        } else {
            1int
        }))) + stack@.len(),
    {
        proof {
            lemma_count_true_le_len(visited@);
            if !visited@[gidx(pos)] {
                lemma_count_true_lt_len(visited@, gidx(pos));
            }
        }
        let gi = pos.y * GEN_SIZE + pos.x;
        if !visited[gi] {
            proof {
                lemma_count_true_update(visited@, gi as int);
            }
            visited.set(gi, true);
            visited_count = visited_count + 1;
        }

        let mut moves: Vec<Position> = Vec::new();
        // Up: an unvisited neighbor is a candidate move; a visited one that
        // is neither the path's previous element nor seen right after a
        // backtrack gets a wall on its bottom edge.
        if pos.y > 0 {
            let mv = Position { y: pos.y - 1, x: pos.x };
            if !visited[mv.y * GEN_SIZE + mv.x] {
                moves.push(mv);
            } else if !popped && stack[stack.len() - 1] != mv {
                let mi = mv.y * GEN_SIZE + mv.x;
                let c = lboard[mi];
                lboard.set(mi, BoardCell { wall_right: c.wall_right, wall_bottom: true });
            }
        }
        // Left: symmetrically, a wall on the neighbor's right edge.
        if pos.x > 0 {
            let mv = Position { y: pos.y, x: pos.x - 1 };
            if !visited[mv.y * GEN_SIZE + mv.x] {
                moves.push(mv);
            } else if !popped && stack[stack.len() - 1] != mv {
                let mi = mv.y * GEN_SIZE + mv.x;
                let c = lboard[mi];
                lboard.set(mi, BoardCell { wall_right: true, wall_bottom: c.wall_bottom });
            }
        }
        // Down: a wall on the current cell's bottom edge.
        if pos.y < GEN_SIZE - 1 {
            let mv = Position { y: pos.y + 1, x: pos.x };
            if !visited[mv.y * GEN_SIZE + mv.x] {
                moves.push(mv);
            } else if !popped && stack[stack.len() - 1] != mv {
                let ci = pos.y * GEN_SIZE + pos.x;
                let c = lboard[ci];
                lboard.set(ci, BoardCell { wall_right: c.wall_right, wall_bottom: true });
            }
        }
        // Right: a wall on the current cell's right edge.
        if pos.x < GEN_SIZE - 1 {
            let mv = Position { y: pos.y, x: pos.x + 1 };
            if !visited[mv.y * GEN_SIZE + mv.x] {
                moves.push(mv);
            } else if !popped && stack[stack.len() - 1] != mv {
                let ci = pos.y * GEN_SIZE + pos.x;
                let c = lboard[ci];
                lboard.set(ci, BoardCell { wall_right: true, wall_bottom: c.wall_bottom });
            }
        }

        assert(forall|j: int|
            0 <= j < moves@.len() ==> gen_bounds(#[trigger] moves@[j]) && !visited@[gidx(
                moves@[j],
            )]);
        if moves.len() > 0 {
            stack.push(pos);
            popped = false;
            let move_idx = rng::rand_below(generator, moves.len());
            pos = moves[move_idx];
            proof {
                lemma_count_true_lt_len(visited@, gidx(pos));
            }
        } else {
            pos = stack.pop().unwrap();
            popped = true;
        }
    }

    let board = expand_board(&lboard);
    proof {
        assert(lboard@.len() == GEN_AREA && board@ == expanded(lboard@));
    }
    board
}

proof fn lemma_count_all_false(s: Seq<bool>)
    requires
        forall|j: int| 0 <= j < s.len() ==> !(#[trigger] s[j]),
    ensures
        count_true(s) == 0,
    decreases s.len(),
{
    if s.len() > 0 {
        lemma_count_all_false(s.drop_last());
    }
}

} // verus!
