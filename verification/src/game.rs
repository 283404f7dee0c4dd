//! The game state and its movement state machine.
//!
//! A `GameState` owns the display grid (a flat, row-major vector of
//! printable cells), the player's position, the goal position and the
//! victory flag. Its one mutating operation, `move_position`, is specified
//! exactly by the ghost transition function `step`: a move is applied only
//! while the game is not yet won and the destination cell is not a wall;
//! anything else is a silent no-op.

use vstd::prelude::*;
use crate::maze;
use crate::rng;

verus! {

/// Side length of the display grid.
pub const BOARD_SIZE: usize = 25;

/// Number of cells of the display grid.
pub const BOARD_AREA: usize = BOARD_SIZE * BOARD_SIZE;

/// The player's marker on the display grid.
pub const PLAYER_CHAR: char = '●';

/// The goal's marker on the display grid.
pub const GOAL_CHAR: char = '▓';

/// A wall cell of the display grid.
pub const WALL_CHAR: char = '░';

/// An open cell of the display grid.
pub const EMPTY_CHAR: char = ' ';

/// A cell of the display grid, as (x, y) coordinates.
#[derive(Clone, Copy, Debug, PartialEq, Eq, Structural)]
pub struct Position {
    pub x: usize,
    pub y: usize,
}

/// A directional move request.
#[allow(non_camel_case_types)]
#[derive(Clone, Copy)]
pub enum Movement {
    UP,
    DOWN,
    LEFT,
    RIGHT,
}

/// The mutable aggregate of the game: display grid, player, goal, victory.
///
/// The grid is stored flat and row-major: cell (x, y) sits at `y * BOARD_SIZE + x`.
pub struct GameState {
    pub board: Vec<char>,
    pub position: Position,
    pub win_position: Position,
    pub victory: bool,
}

/// The mathematical model of a `GameState`.
#[verifier::ext_equal]
pub struct GameView {
    pub board: Seq<char>,
    pub position: Position,
    pub win_position: Position,
    pub victory: bool,
}

impl View for GameState {
    type V = GameView;

    open spec fn view(&self) -> GameView {
        GameView {
            board: self.board@,
            position: self.position,
            win_position: self.win_position,
            victory: self.victory,
        }
    }
}

/// Flat index of a position in the row-major display grid.
pub open spec fn idx(p: Position) -> int {
    p.y * BOARD_SIZE + p.x
}

/// The position lies on the display grid.
pub open spec fn in_bounds(p: Position) -> bool {
    p.x < BOARD_SIZE && p.y < BOARD_SIZE
}

/// Distinct in-bounds positions have distinct flat indices.
pub proof fn lemma_idx_injective(p: Position, q: Position)
    requires
        in_bounds(p),
        in_bounds(q),
        idx(p) == idx(q),
    ensures
        p == q,
{
    assert(p.y == q.y && p.x == q.x) by (nonlinear_arith)
        requires
            p.x < 25 && p.y < 25 && q.x < 25 && q.y < 25,
            p.y * 25 + p.x == q.y * 25 + q.x,
    ;
}

/// Well-formedness of a game state: the grid has its fixed size, player and
/// goal are on the grid, exactly one cell carries the player marker (the
/// player's own cell), the goal marker sits on the goal cell whenever the
/// player does not cover it and nowhere else, and a player standing on the
/// goal means the game is won.
pub open spec fn inv(g: GameView) -> bool {
    &&& g.board.len() == BOARD_AREA
    &&& in_bounds(g.position)
    &&& in_bounds(g.win_position)
    &&& g.board[idx(g.position)] == PLAYER_CHAR
    &&& forall|i: int|
        0 <= i < BOARD_AREA && i != idx(g.position) ==> g.board[i] != PLAYER_CHAR
    &&& (g.position != g.win_position ==> g.board[idx(g.win_position)] == GOAL_CHAR)
    &&& forall|i: int|
        0 <= i < BOARD_AREA && i != idx(g.win_position) ==> g.board[i] != GOAL_CHAR
    &&& (g.position == g.win_position ==> g.victory)
}

/// The destination of a move request: one axis shifted by one, clamped at
/// the grid's boundary (a request against the boundary keeps the position).
pub open spec fn clamped_dest(p: Position, m: Movement) -> Position {
    match m {
        Movement::UP => if p.y >= 1 {
            Position { x: p.x, y: (p.y - 1) as usize }
        } else {
            p
        },
        Movement::DOWN => if p.y < BOARD_SIZE - 1 {
            Position { x: p.x, y: (p.y + 1) as usize }
        } else {
            p
        },
        Movement::LEFT => if p.x >= 1 {
            Position { x: (p.x - 1) as usize, y: p.y }
        } else {
            p
        },
        Movement::RIGHT => if p.x < BOARD_SIZE - 1 {
            Position { x: (p.x + 1) as usize, y: p.y }
        } else {
            p
        },
    }
}

/// The transition function of the state machine: the move is applied only
/// if the game is not yet won and the destination is not a wall; then the
/// player marker migrates, the position updates, and landing on the goal
/// sets the victory flag. Otherwise the state is unchanged.
pub open spec fn step(g: GameView, m: Movement) -> GameView {
    let dest = clamped_dest(g.position, m);
    if !g.victory && g.board[idx(dest)] != WALL_CHAR {
        GameView {
            board: g.board.update(idx(g.position), EMPTY_CHAR).update(idx(dest), PLAYER_CHAR),
            position: dest,
            win_position: g.win_position,
            victory: dest == g.win_position,
        }
    } else {
        g
    }
}

/// A clamped destination stays on the grid.
pub proof fn lemma_clamped_dest_in_bounds(p: Position, m: Movement)
    requires
        in_bounds(p),
    ensures
        in_bounds(clamped_dest(p, m)),
{
}

/// The transition preserves well-formedness: after any move, exactly one
/// cell carries the player marker, the goal marker is intact unless the
/// player covers it, and a won game stays won.
pub proof fn lemma_step_preserves_inv(g: GameView, m: Movement)
    requires
        inv(g),
    ensures
        inv(step(g, m)),
{
    let dest = clamped_dest(g.position, m);
    lemma_clamped_dest_in_bounds(g.position, m);
    if !g.victory && g.board[idx(dest)] != WALL_CHAR {
        let b2 = g.board.update(idx(g.position), EMPTY_CHAR).update(idx(dest), PLAYER_CHAR);
        assert forall|i: int| 0 <= i < BOARD_AREA && i != idx(dest) implies b2[i] != PLAYER_CHAR by {
            if i != idx(g.position) {
                assert(b2[i] == g.board[i]);
            }
        }
        if dest != g.win_position {
            assert(g.position != g.win_position);
            lemma_idx_injective_contra(g.win_position, g.position);
            lemma_idx_injective_contra(g.win_position, dest);
            assert(b2[idx(g.win_position)] == g.board[idx(g.win_position)]);
        }
        assert forall|i: int| 0 <= i < BOARD_AREA && i != idx(g.win_position) implies b2[i]
            != GOAL_CHAR by {
            if i != idx(g.position) && i != idx(dest) {
                assert(b2[i] == g.board[i]);
            }
        }
    }
}

/// Contrapositive form of index injectivity, for unequal positions.
pub proof fn lemma_idx_injective_contra(p: Position, q: Position)
    requires
        in_bounds(p),
        in_bounds(q),
        p != q,
    ensures
        idx(p) != idx(q),
{
    if idx(p) == idx(q) {
        lemma_idx_injective(p, q);
    }
}

/// A move whose clamped destination is the player's own cell changes
/// nothing: the position, the grid and the victory flag all stay as they
/// were. Moving against the boundary is such a move.
pub proof fn lemma_boundary_noop(g: GameView, m: Movement)
    requires
        inv(g),
        clamped_dest(g.position, m) == g.position,
    ensures
        step(g, m) == g,
{
    if !g.victory && g.board[idx(g.position)] != WALL_CHAR {
        assert(step(g, m).board =~= g.board);
        assert(step(g, m) =~= g);
    }
}

/// Moving up with the player already on the top row is a no-op.
pub proof fn lemma_move_up_at_top(g: GameView)
    requires
        inv(g),
        g.position.y == 0,
    ensures
        step(g, Movement::UP) == g,
{
    lemma_boundary_noop(g, Movement::UP);
}

/// A move whose destination cell is a wall is a no-op.
pub proof fn lemma_wall_blocks(g: GameView, m: Movement)
    requires
        inv(g),
        g.board[idx(clamped_dest(g.position, m))] == WALL_CHAR,
    ensures
        step(g, m) == g,
{
}

/// A move of a game that is not yet won, whose destination is the goal
/// cell, wins the game and puts the player on the goal.
pub proof fn lemma_victory_transition(g: GameView, m: Movement)
    requires
        inv(g),
        !g.victory,
        clamped_dest(g.position, m) == g.win_position,
    ensures
        step(g, m).victory,
        step(g, m).position == g.win_position,
{
    assert(g.position != g.win_position);
    assert(g.board[idx(g.win_position)] == GOAL_CHAR);
}

/// The won state is terminal: no move changes a state whose victory flag
/// is set.
pub proof fn lemma_won_is_terminal(g: GameView, m: Movement)
    requires
        g.victory,
    ensures
        step(g, m) == g,
{
}

impl GameState {
    /// Builds a state from a fresh random maze: the player starts at the
    /// grid's origin, the goal sits at the opposite corner, both markers
    /// are stamped into the grid, and the game is not yet won.
    pub fn new() -> (r: GameState)
        ensures
            inv(r@),
            r@.position == (Position { x: 0, y: 0 }),
            r@.win_position == (Position { x: (BOARD_SIZE - 1) as usize, y: (BOARD_SIZE - 1) as usize }),
            !r@.victory,
            r@.board[idx(r@.position)] == PLAYER_CHAR,
            r@.board[idx(r@.win_position)] == GOAL_CHAR,
            forall|i: int|
                0 <= i < BOARD_AREA && i != idx(r@.position) && i != idx(r@.win_position)
                    ==> r@.board[i] == EMPTY_CHAR || r@.board[i] == WALL_CHAR,
            forall|i: int|
                0 <= i < BOARD_AREA && maze::row_of(i) % 2 == 1 && maze::col_of(i) % 2 == 1
                    ==> r@.board[i] == WALL_CHAR,
            forall|i: int|
                0 <= i < BOARD_AREA && maze::row_of(i) % 2 == 0 && maze::col_of(i) % 2 == 0 && i
                    != idx(r@.position) && i != idx(r@.win_position) ==> r@.board[i] == EMPTY_CHAR,
            exists|lb: Seq<maze::BoardCell>|
                lb.len() == maze::GEN_AREA && r@.board == #[trigger] maze::expanded(lb).update(
                    0,
                    PLAYER_CHAR,
                ).update(BOARD_AREA - 1, GOAL_CHAR),
    {
        let mut generator = rng::fresh_rng();
        let mut board = maze::generate_maze(&mut generator);
        let ghost maze_cells = choose|lb: Seq<maze::BoardCell>|
            lb.len() == maze::GEN_AREA && board@ == #[trigger] maze::expanded(lb);
        let position = Position { x: 0, y: 0 };
        let win_position = Position { x: BOARD_SIZE - 1, y: BOARD_SIZE - 1 };
        board.set(position.y * BOARD_SIZE + position.x, PLAYER_CHAR);
        board.set(win_position.y * BOARD_SIZE + win_position.x, GOAL_CHAR);
        let state = GameState { board, position, win_position, victory: false };
        proof {
            assert(idx(state@.position) == 0);
            assert(idx(state@.win_position) == BOARD_AREA - 1);
            // The two stamped corners sit on even/even cells, so the maze's
            // odd/odd pillars are untouched.
            assert(maze::row_of(0) == 0 && maze::col_of(0) == 0);
            maze::lemma_rowcol(BOARD_SIZE - 1, BOARD_SIZE - 1);
            assert(state@.board == maze::expanded(maze_cells).update(0, PLAYER_CHAR).update(
                BOARD_AREA - 1,
                GOAL_CHAR,
            ));
        }
        state
    }

    /// A destination is accepted while the game is not won and the
    /// destination cell is not a wall.
    pub fn is_valid_move(&self, new_position: &Position) -> (r: bool)
        requires
            self@.board.len() == BOARD_AREA,
            in_bounds(*new_position),
        ensures
            r == (!self@.victory && self@.board[idx(*new_position)] != WALL_CHAR),
    {
        !self.victory && self.board[new_position.y * BOARD_SIZE + new_position.x] != WALL_CHAR
    }

    /// The player stands on the goal cell.
    pub fn is_win_position(&self) -> (r: bool)
        ensures
            r == (self@.position == self@.win_position),
    {
        self.position == self.win_position
    }

    /// Attempts a directional move; the new state is exactly `step` of the
    /// old one: applied while the game is not won and the destination is
    /// not a wall, a silent no-op otherwise.
    pub fn move_position(&mut self, action: Movement)
        requires
            inv(old(self)@),
        ensures
            final(self)@ == step(old(self)@, action),
            inv(final(self)@),
    {
        let mut new_pos = Position { y: self.position.y, x: self.position.x };

        match action {
            Movement::UP => if self.position.y >= 1 {
                new_pos.y = self.position.y - 1;
            },
            Movement::DOWN => if self.position.y < BOARD_SIZE - 1 {
                new_pos.y = self.position.y + 1;
            },
            Movement::LEFT => if self.position.x >= 1 {
                new_pos.x = self.position.x - 1;
            },
            Movement::RIGHT => if self.position.x < BOARD_SIZE - 1 {
                new_pos.x = self.position.x + 1;
            },
        }
        assert(new_pos == clamped_dest(old(self)@.position, action));
        proof {
            lemma_clamped_dest_in_bounds(old(self)@.position, action);
        }

        if self.is_valid_move(&new_pos) {
            self.board.set(self.position.y * BOARD_SIZE + self.position.x, EMPTY_CHAR);
            self.board.set(new_pos.y * BOARD_SIZE + new_pos.x, PLAYER_CHAR);
            self.position = new_pos;

            if self.is_win_position() {
                self.victory = true;
            }
            assert(self@ =~= step(old(self)@, action));
        } else {
            assert(self@ =~= step(old(self)@, action));
        }
        proof {
            lemma_step_preserves_inv(old(self)@, action);
        }
    }

    /// An independent copy of the state, for handing across the
    /// input-to-renderer channel: same grid, positions and victory flag.
    pub fn snapshot(&self) -> (r: GameState)
        ensures
            r@ == self@,
    {
        let mut board: Vec<char> = Vec::new();
        let mut i: usize = 0;
        proof {
            assert(board@ =~= self.board@.take(0));
        }
        while i < self.board.len()
            invariant
                i <= self.board.len(),
                board@ == self.board@.take(i as int),
            decreases self.board.len() - i,
        {
            board.push(self.board[i]);
            i = i + 1;
            proof {
                assert(board@ =~= self.board@.take(i as int));
            }
        }
        proof {
            assert(board@ =~= self.board@);
        }
        let r = GameState {
            board,
            position: self.position,
            win_position: self.win_position,
            victory: self.victory,
        };
        proof {
            assert(r@ =~= self@);
        }
        r
    }
}

} // verus!
