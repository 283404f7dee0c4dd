use maze_game::game::{GameState, BOARD_AREA, BOARD_SIZE, EMPTY_CHAR, GOAL_CHAR, PLAYER_CHAR, WALL_CHAR};
use maze_game::maze::{expand_board, generate_maze, BoardCell, GEN_AREA, GEN_SIZE};
use rand::rngs::StdRng;
use rand::SeedableRng;

/// A passage-following search: every cell that is not a wall is passable.
fn reaches_goal(board: &[char]) -> bool {
    let mut seen = vec![false; BOARD_AREA];
    let mut queue = vec![0usize];
    seen[0] = true;
    while let Some(i) = queue.pop() {
        let y = i / BOARD_SIZE;
        let x = i % BOARD_SIZE;
        let mut neighbors = Vec::new();
        if y > 0 {
            neighbors.push(i - BOARD_SIZE);
        }
        if y < BOARD_SIZE - 1 {
            neighbors.push(i + BOARD_SIZE);
        }
        if x > 0 {
            neighbors.push(i - 1);
        }
        if x < BOARD_SIZE - 1 {
            neighbors.push(i + 1);
        }
        for n in neighbors {
            if !seen[n] && board[n] != WALL_CHAR {
                seen[n] = true;
                queue.push(n);
            }
        }
    }
    seen[BOARD_AREA - 1]
}

#[test]
fn generated_maze_has_fixed_structure() {
    let mut generator = StdRng::seed_from_u64(7);
    let board = generate_maze(&mut generator);
    assert_eq!(board.len(), BOARD_AREA);
    for i in 0..BOARD_AREA {
        let c = board[i];
        assert!(c == EMPTY_CHAR || c == WALL_CHAR);
        let y = i / BOARD_SIZE;
        let x = i % BOARD_SIZE;
        if y % 2 == 0 && x % 2 == 0 {
            assert_eq!(c, EMPTY_CHAR);
        }
        if y % 2 == 1 && x % 2 == 1 {
            assert_eq!(c, WALL_CHAR);
        }
    }
}

#[test]
fn generated_maze_connects_start_to_goal() {
    for seed in 0..8u64 {
        let mut generator = StdRng::seed_from_u64(seed);
        let board = generate_maze(&mut generator);
        assert!(reaches_goal(&board), "no passage for seed {seed}");
    }
}

#[test]
fn fresh_game_connects_start_to_goal() {
    let s = GameState::new();
    // The player and goal markers sit on passable cells.
    assert!(reaches_goal(&s.board));
    assert_eq!(s.board[0], PLAYER_CHAR);
    assert_eq!(s.board[BOARD_AREA - 1], GOAL_CHAR);
}

#[test]
fn same_seed_reproduces_the_maze() {
    let mut g1 = StdRng::seed_from_u64(11);
    let mut g2 = StdRng::seed_from_u64(11);
    assert_eq!(generate_maze(&mut g1), generate_maze(&mut g2));
}

#[test]
fn different_seeds_vary_the_walls() {
    let mut g1 = StdRng::seed_from_u64(1);
    let mut g2 = StdRng::seed_from_u64(2);
    assert_ne!(generate_maze(&mut g1), generate_maze(&mut g2));
}

#[test]
fn expansion_places_recorded_walls() {
    let mut cells = vec![BoardCell { wall_right: false, wall_bottom: false }; GEN_AREA];
    // A right wall at logical (0, 0) and a bottom wall at logical (1, 0).
    cells[0] = BoardCell { wall_right: true, wall_bottom: false };
    cells[1] = BoardCell { wall_right: false, wall_bottom: true };
    let board = expand_board(&cells);
    assert_eq!(board.len(), BOARD_AREA);
    // Between (0,0) and (2,0): the recorded right wall.
    assert_eq!(board[1], WALL_CHAR);
    // Below (2,0): the recorded bottom wall.
    assert_eq!(board[BOARD_SIZE + 2], WALL_CHAR);
    // An unrecorded gap stays open: between (2,0) and (4,0).
    assert_eq!(board[3], EMPTY_CHAR);
    // Pillars at odd/odd coordinates are always walls.
    assert_eq!(board[BOARD_SIZE + 1], WALL_CHAR);
    assert_eq!(board[3 * BOARD_SIZE + 5], WALL_CHAR);
    // Logical cells stay open.
    for gy in 0..GEN_SIZE {
        for gx in 0..GEN_SIZE {
            assert_eq!(board[2 * gy * BOARD_SIZE + 2 * gx], EMPTY_CHAR);
        }
    }
}
