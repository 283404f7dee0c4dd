use maze_game::banner::{banner_midpoint, measure_width, place_banner, split_lines, victory_banner};
use maze_game::display::{draw_origin, render_rows, BORDER_CHAR, ROW_WIDTH};
use maze_game::game::{
    GameState, Movement, Position, BOARD_AREA, BOARD_SIZE, EMPTY_CHAR, GOAL_CHAR, PLAYER_CHAR,
    WALL_CHAR,
};
use maze_game::input::{map_input, process_keys};

fn open_state() -> GameState {
    let mut board = vec![EMPTY_CHAR; BOARD_AREA];
    board[0] = PLAYER_CHAR;
    board[BOARD_AREA - 1] = GOAL_CHAR;
    GameState {
        board,
        position: Position { x: 0, y: 0 },
        win_position: Position { x: BOARD_SIZE - 1, y: BOARD_SIZE - 1 },
        victory: false,
    }
}

#[test]
fn recognized_keys_map_to_their_moves() {
    assert!(matches!(map_input('w'), Some(Movement::UP)));
    assert!(matches!(map_input('a'), Some(Movement::LEFT)));
    assert!(matches!(map_input('s'), Some(Movement::DOWN)));
    assert!(matches!(map_input('d'), Some(Movement::RIGHT)));
    assert!(map_input('x').is_none());
    assert!(map_input('W').is_none());
    assert!(map_input(' ').is_none());
}

#[test]
fn snapshots_arrive_in_keystroke_order() {
    let mut s = open_state();
    let keys = vec!['d', 'd', 's', 'w', 'w'];
    let snapshots = process_keys(&mut s, &keys);
    assert_eq!(snapshots.len(), 5);
    let expected = [(1, 0), (2, 0), (2, 1), (2, 0), (2, 0)];
    for (snap, (x, y)) in snapshots.iter().zip(expected) {
        assert_eq!(snap.position, Position { x, y });
    }
    // The last keystroke was a boundary no-op, still redrawn.
    assert_eq!(s.position, Position { x: 2, y: 0 });
}

#[test]
fn unrecognized_keys_emit_no_snapshot() {
    let mut s = open_state();
    let keys = vec!['x', 'd', 'q', '\n'];
    let snapshots = process_keys(&mut s, &keys);
    assert_eq!(snapshots.len(), 1);
    assert_eq!(snapshots[0].position, Position { x: 1, y: 0 });
}

#[test]
fn rendered_rows_frame_the_grid() {
    let s = open_state();
    let rows = render_rows(&s.board);
    assert_eq!(rows.len(), BOARD_SIZE + 2);
    assert_eq!(rows[0], vec![BORDER_CHAR; ROW_WIDTH]);
    assert_eq!(rows[BOARD_SIZE + 1], vec![BORDER_CHAR; ROW_WIDTH]);
    for y in 0..BOARD_SIZE {
        let row = &rows[y + 1];
        assert_eq!(row.len(), ROW_WIDTH);
        assert_eq!(row[0], BORDER_CHAR);
        assert_eq!(row[ROW_WIDTH - 1], BORDER_CHAR);
    }
}

#[test]
fn rendered_cells_use_their_glyphs() {
    let mut s = open_state();
    s.board[2] = WALL_CHAR;
    let rows = render_rows(&s.board);
    // The player cell gets its distinct three-character glyph.
    assert_eq!(&rows[1][1..4], ['◀', '◆', '▶']);
    // An open cell is three spaces; a wall cell is the wall thrice.
    assert_eq!(&rows[1][4..7], [EMPTY_CHAR; 3]);
    assert_eq!(&rows[1][7..10], [WALL_CHAR; 3]);
    // The goal cell is its character thrice, in the last grid row.
    let last = &rows[BOARD_SIZE];
    assert_eq!(&last[ROW_WIDTH - 4..ROW_WIDTH - 1], [GOAL_CHAR; 3]);
}

#[test]
fn draw_origin_centers_the_rectangle() {
    let (x, y) = draw_origin(100, 40);
    assert_eq!(x, (100 - (3 * BOARD_SIZE + 1)) / 2);
    assert_eq!(y, (40 - BOARD_SIZE + 1) / 2);
    assert_eq!((x, y), (12, 8));
}

#[test]
fn split_lines_cuts_at_newlines() {
    let lines = split_lines("ab\ncd\n");
    assert_eq!(lines, vec![vec!['a', 'b'], vec!['c', 'd']]);
    assert_eq!(split_lines(""), Vec::<Vec<char>>::new());
    assert_eq!(split_lines("\n"), vec![Vec::<char>::new()]);
    assert_eq!(split_lines("a"), vec![vec!['a']]);
    assert_eq!(split_lines("a\n\nb"), vec![vec!['a'], vec![], vec!['b']]);
}

#[test]
fn measure_width_finds_the_widest_line() {
    assert_eq!(measure_width(&vec![vec!['a'], vec!['b', 'c'], vec![]]), 2);
    assert_eq!(measure_width(&vec![vec![]]), 0);
    assert_eq!(measure_width(&Vec::new()), 1);
}

#[test]
fn banner_midpoint_centers_or_rejects() {
    assert_eq!(banner_midpoint(10, 10, 4, 2), Some((3, 4)));
    assert_eq!(banner_midpoint(3, 10, 4, 2), None);
    assert_eq!(banner_midpoint(10, 1, 4, 2), None);
}

#[test]
fn victory_banner_is_drawn_and_centered() {
    let b = victory_banner(200, 60).expect("the standard font should draw the phrase");
    // The block letters are larger than the phrase itself.
    assert!(b.width > 11);
    assert!(b.lines.len() > 1);
    assert_eq!(b.width, b.lines.iter().map(|l| l.len()).max().unwrap());
    assert_eq!(b.x, (200 - b.width) / 2);
    assert_eq!(b.y, (60 - b.height) / 2);
}

#[test]
fn place_banner_centers_exactly_when_it_fits() {
    let lines = vec![vec!['a', 'b', 'c'], vec!['d']];
    let b = place_banner(lines.clone(), 2, 11, 6).expect("a fitting block is placed");
    assert_eq!(b.lines, lines);
    assert_eq!(b.width, 3);
    assert_eq!(b.height, 2);
    assert_eq!(b.x, (11 - 3) / 2);
    assert_eq!(b.y, (6 - 2) / 2);
    assert!(place_banner(lines.clone(), 2, 2, 6).is_none());
    assert!(place_banner(lines, 7, 11, 6).is_none());
}

#[test]
fn victory_banner_skips_a_small_terminal() {
    assert!(victory_banner(10, 4).is_none());
}
