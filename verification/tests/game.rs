use maze_game::game::{
    GameState, Movement, Position, BOARD_AREA, BOARD_SIZE, EMPTY_CHAR, GOAL_CHAR, PLAYER_CHAR,
    WALL_CHAR,
};

/// A wall-free state: player at the origin, goal at the opposite corner.
fn open_state() -> GameState {
    let mut board = vec![EMPTY_CHAR; BOARD_AREA];
    board[0] = PLAYER_CHAR;
    board[BOARD_AREA - 1] = GOAL_CHAR;
    GameState {
        board,
        position: Position { x: 0, y: 0 },
        win_position: Position { x: BOARD_SIZE - 1, y: BOARD_SIZE - 1 },
        victory: false,
    }
}

#[test]
fn new_places_player_and_goal() {
    let s = GameState::new();
    assert_eq!(s.position, Position { x: 0, y: 0 });
    assert_eq!(s.win_position, Position { x: BOARD_SIZE - 1, y: BOARD_SIZE - 1 });
    assert!(!s.victory);
    assert_eq!(s.board.len(), BOARD_AREA);
    assert_eq!(s.board[0], PLAYER_CHAR);
    assert_eq!(s.board[BOARD_AREA - 1], GOAL_CHAR);
}

#[test]
fn move_up_at_top_row_is_noop() {
    let mut s = open_state();
    let before = s.board.clone();
    s.move_position(Movement::UP);
    assert_eq!(s.position, Position { x: 0, y: 0 });
    assert_eq!(s.board, before);
    assert!(!s.victory);
}

#[test]
fn move_left_at_left_edge_is_noop() {
    let mut s = open_state();
    let before = s.board.clone();
    s.move_position(Movement::LEFT);
    assert_eq!(s.position, Position { x: 0, y: 0 });
    assert_eq!(s.board, before);
}

#[test]
fn move_into_wall_is_rejected() {
    let mut s = open_state();
    // A wall immediately to the player's right.
    s.board[1] = WALL_CHAR;
    let before = s.board.clone();
    s.move_position(Movement::RIGHT);
    assert_eq!(s.position, Position { x: 0, y: 0 });
    assert_eq!(s.board, before);
    assert!(!s.victory);
}

#[test]
fn open_move_shifts_player_marker() {
    let mut s = open_state();
    s.move_position(Movement::RIGHT);
    assert_eq!(s.position, Position { x: 1, y: 0 });
    assert_eq!(s.board[0], EMPTY_CHAR);
    assert_eq!(s.board[1], PLAYER_CHAR);
    assert!(!s.victory);
}

#[test]
fn reaching_goal_sets_victory_and_freezes_state() {
    let mut s = open_state();
    // Put the player just above the goal corner.
    s.board[0] = EMPTY_CHAR;
    let above = (BOARD_SIZE - 2) * BOARD_SIZE + (BOARD_SIZE - 1);
    s.board[above] = PLAYER_CHAR;
    s.position = Position { x: BOARD_SIZE - 1, y: BOARD_SIZE - 2 };

    s.move_position(Movement::DOWN);
    assert!(s.victory);
    assert_eq!(s.position, s.win_position);
    assert_eq!(s.board[BOARD_AREA - 1], PLAYER_CHAR);

    // Won is terminal: any further move is a silent no-op.
    let frozen = s.board.clone();
    s.move_position(Movement::UP);
    assert_eq!(s.position, s.win_position);
    assert_eq!(s.board, frozen);
    assert!(s.victory);
    s.move_position(Movement::LEFT);
    assert_eq!(s.position, s.win_position);
    assert_eq!(s.board, frozen);
}

#[test]
fn fresh_game_keeps_maze_structure() {
    let s = GameState::new();
    for i in 0..BOARD_AREA {
        let y = i / BOARD_SIZE;
        let x = i % BOARD_SIZE;
        if y % 2 == 1 && x % 2 == 1 {
            assert_eq!(s.board[i], WALL_CHAR);
        }
        if y % 2 == 0 && x % 2 == 0 && i != 0 && i != BOARD_AREA - 1 {
            assert_eq!(s.board[i], EMPTY_CHAR);
        }
    }
}

#[test]
fn marker_counts_hold_after_any_moves() {
    let mut s = GameState::new();
    let keys = ['d', 's', 'd', 's', 'a', 'w', 'd', 'd', 's', 's', 'a', 'w', 'd', 's'];
    for k in keys {
        match k {
            'w' => s.move_position(Movement::UP),
            'a' => s.move_position(Movement::LEFT),
            's' => s.move_position(Movement::DOWN),
            'd' => s.move_position(Movement::RIGHT),
            _ => {}
        }
        let players = s.board.iter().filter(|&&c| c == PLAYER_CHAR).count();
        let goals = s.board.iter().filter(|&&c| c == GOAL_CHAR).count();
        assert_eq!(players, 1);
        if s.position == s.win_position {
            assert_eq!(goals, 0);
        } else {
            assert_eq!(goals, 1);
        }
        let at = s.position.y * BOARD_SIZE + s.position.x;
        assert_eq!(s.board[at], PLAYER_CHAR);
    }
}

#[test]
fn is_win_position_reports_coincidence() {
    let mut s = open_state();
    assert!(!s.is_win_position());
    s.position = s.win_position;
    assert!(s.is_win_position());
}

#[test]
fn is_valid_move_rejects_wall_and_victory() {
    let mut s = open_state();
    s.board[1] = WALL_CHAR;
    assert!(!s.is_valid_move(&Position { x: 1, y: 0 }));
    assert!(s.is_valid_move(&Position { x: 0, y: 1 }));
    s.victory = true;
    assert!(!s.is_valid_move(&Position { x: 0, y: 1 }));
}

#[test]
fn snapshot_is_an_equal_independent_copy() {
    let mut s = open_state();
    let snap = s.snapshot();
    assert_eq!(snap.board, s.board);
    assert_eq!(snap.position, s.position);
    assert_eq!(snap.win_position, s.win_position);
    assert_eq!(snap.victory, s.victory);
    s.move_position(Movement::RIGHT);
    // The copy does not follow the original.
    assert_eq!(snap.position, Position { x: 0, y: 0 });
    assert_eq!(snap.board[0], PLAYER_CHAR);
}
