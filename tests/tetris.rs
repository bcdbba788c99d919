use arcade::game::{Key, UpdateEvent};
use arcade::point::Cell;
use arcade::tetris::{Color, Figure, FigureType, TetrisGame, HEIGHT, TO_DESCEND_FAST, WIDTH};

const ALL: [FigureType; 7] = [
    FigureType::Square,
    FigureType::Line,
    FigureType::L,
    FigureType::LMirrored,
    FigureType::Z,
    FigureType::ZMirrored,
    FigureType::T,
];

fn fill_rows_but_last_column(game: &mut TetrisGame, rows: std::ops::Range<usize>) {
    for row in rows {
        for col in 0..WIDTH - 1 {
            game.board[row][col] = Some(Color::Red);
        }
    }
}

/// Puts an upright line in the last column, over rows 16 to 19.
fn drop_upright_line(game: &mut TetrisGame) {
    game.current_figure = Figure::new(FigureType::Line, 1);
    game.current_figure_position = Cell::new(7, 17);
}

#[test]
fn identity_placement_gives_template() {
    for t in ALL {
        let f = Figure::new(t, 0);
        let (points, _) = t.get_points_and_pivot();
        assert_eq!(f.applied_rotation_and_position(0, Cell::new(0, 0)), points);
    }
}

#[test]
fn quarter_turn_of_line_is_upright() {
    let f = Figure::new(FigureType::Line, 0);
    let cells = f.applied_rotation_and_position(1, Cell::new(7, 17));
    assert_eq!(cells, [Cell::new(9, 16), Cell::new(9, 17), Cell::new(9, 18), Cell::new(9, 19)]);
    let back = f.applied_rotation_and_position(4, Cell::new(0, 0));
    assert_eq!(back, f.applied_rotation_and_position(0, Cell::new(0, 0)));
}

#[test]
fn square_turns_onto_itself() {
    let f = Figure::new(FigureType::Square, 0);
    let mut turned = f.applied_rotation_and_position(1, Cell::new(2, 3)).to_vec();
    let mut plain = f.applied_rotation_and_position(0, Cell::new(2, 3)).to_vec();
    turned.sort_by_key(|c| (c.x, c.y));
    plain.sort_by_key(|c| (c.x, c.y));
    assert_eq!(turned, plain);
}

#[test]
fn colors_of_figure_types() {
    assert!(matches!(FigureType::Square.get_color(), Color::Yellow));
    assert!(matches!(FigureType::Line.get_color(), Color::Cyan));
    assert!(matches!(FigureType::L.get_color(), Color::Orange));
    assert!(matches!(FigureType::LMirrored.get_color(), Color::Blue));
    assert!(matches!(FigureType::Z.get_color(), Color::Red));
    assert!(matches!(FigureType::ZMirrored.get_color(), Color::Green));
    assert!(matches!(FigureType::T.get_color(), Color::Purple));
}

#[test]
fn figure_types_by_index() {
    for (i, t) in ALL.iter().enumerate() {
        assert_eq!(FigureType::from_index(i as u32), Some(*t));
    }
    assert_eq!(FigureType::from_index(7), None);
}

#[test]
fn new_game_is_empty() {
    let game = TetrisGame::new();
    assert_eq!(game.score, 0);
    assert_eq!(game.current_figure_position, Cell::new(3, 0));
    for row in game.board.iter() {
        assert!(row.iter().all(|c| c.is_none()));
    }
    assert_eq!(game.get_score().value, 0);
}

#[test]
fn four_rows_then_four_rows_again() {
    let mut game = TetrisGame::with_figures(FigureType::T, FigureType::T);
    fill_rows_but_last_column(&mut game, 16..20);
    drop_upright_line(&mut game);
    let r = game.update_with(None, 0, FigureType::Z);
    assert_eq!(r, UpdateEvent::GameContinue);
    assert_eq!(game.score, 200 * 4);
    assert!(game.is_tetris_was_last);
    for row in game.board.iter() {
        assert!(row.iter().all(|c| c.is_none()));
    }
    assert_eq!(game.current_figure, Figure::new(FigureType::T, 0));
    assert_eq!(game.next_figure, Figure::new(FigureType::Z, 0));

    fill_rows_but_last_column(&mut game, 16..20);
    drop_upright_line(&mut game);
    game.update_with(None, 0, FigureType::Z);
    assert_eq!(game.score, 200 * 4 + 300 * 4);
}

#[test]
fn single_row_breaks_the_streak() {
    let mut game = TetrisGame::with_figures(FigureType::T, FigureType::T);
    game.is_tetris_was_last = true;
    fill_rows_but_last_column(&mut game, 19..20);
    game.current_figure = Figure::new(FigureType::Line, 1);
    game.current_figure_position = Cell::new(7, 17);
    // Rows 16 to 18 are not full, so one row is cleared.
    game.update_with(None, 0, FigureType::Z);
    assert_eq!(game.score, 100);
    assert!(!game.is_tetris_was_last);
    // What was above moved down by one row: the line's three upper cells.
    assert!(game.board[19][9].is_some());
    assert!(game.board[17][9].is_some());
    assert!(game.board[16][9].is_none());
}

#[test]
fn figure_falls_one_row_after_descend_interval() {
    let mut game = TetrisGame::with_figures(FigureType::Square, FigureType::T);
    game.update_with(None, 150_000_000, FigureType::Z);
    assert_eq!(game.current_figure_position, Cell::new(3, 0));
    game.update_with(None, 100_000_000, FigureType::Z);
    assert_eq!(game.current_figure_position, Cell::new(3, 1));
    assert_eq!(game.from_prev_descend, 0);
}

#[test]
fn keys_move_and_turn_after_repeat_interval() {
    let mut game = TetrisGame::with_figures(FigureType::T, FigureType::T);
    game.update_with(Some(Key::Left), 100_000_000, FigureType::Z);
    assert_eq!(game.current_figure_position.x, 3);
    game.update_with(Some(Key::Left), 30_000_000, FigureType::Z);
    assert_eq!(game.current_figure_position.x, 2);
    game.update_with(Some(Key::Up), 130_000_000, FigureType::Z);
    assert_eq!(game.current_figure.rotation, 1);
    game.update_with(Some(Key::Down), 0, FigureType::Z);
    assert_eq!(game.to_descend, TO_DESCEND_FAST);
}

#[test]
fn figure_blocked_by_wall_stays() {
    let mut game = TetrisGame::with_figures(FigureType::Line, FigureType::T);
    game.current_figure_position = Cell::new(0, 5);
    game.update_with(Some(Key::Left), 210_000_000, FigureType::Z);
    assert_eq!(game.current_figure_position, Cell::new(0, 5));
}

#[test]
fn overlap_ends_the_game() {
    let mut game = TetrisGame::with_figures(FigureType::Square, FigureType::T);
    game.board[0][3] = Some(Color::Blue);
    assert_eq!(game.update_with(None, 0, FigureType::Z), UpdateEvent::GameOver);
}

#[test]
fn stuck_above_lose_line_ends_the_game() {
    let mut game = TetrisGame::with_figures(FigureType::Line, FigureType::T);
    // The line lies in row 0 from column 3; a filled cell at its left blocks
    // the move, and nothing lies below it.
    game.board[0][2] = Some(Color::Blue);
    let r = game.update_with(Some(Key::Left), 130_000_000, FigureType::Z);
    assert_eq!(r, UpdateEvent::GameOver);
    assert_eq!(game.current_figure_position, Cell::new(3, 0));
}

#[test]
fn figure_locks_on_floor() {
    let mut game = TetrisGame::with_figures(FigureType::Square, FigureType::L);
    game.current_figure_position = Cell::new(0, HEIGHT as i64 - 2);
    let r = game.update_with(None, 0, FigureType::Z);
    assert_eq!(r, UpdateEvent::GameContinue);
    assert!(matches!(game.board[19][0], Some(Color::Yellow)));
    assert!(matches!(game.board[18][1], Some(Color::Yellow)));
    assert_eq!(game.current_figure, Figure::new(FigureType::L, 0));
    assert_eq!(game.current_figure_position, Cell::new(3, 0));
    assert_eq!(game.score, 0);
}

#[test]
fn cells_above_the_board_do_not_block() {
    let mut game = TetrisGame::with_figures(FigureType::ZMirrored, FigureType::T);
    game.current_figure = Figure::new(FigureType::ZMirrored, 2);
    game.current_figure_position = Cell::new(2, 0);
    game.board[0][5] = Some(Color::Blue);
    // The piece's cells are (4,-1), (3,-1), (3,0), (2,0); moving right puts
    // the cell (5,-1) above the filled cell, which does not block the move.
    game.update_with(Some(Key::Right), 130_000_000, FigureType::Z);
    // It then rests on that cell and locks in where it moved to.
    assert!(game.board[0][4].is_some());
    assert!(game.board[0][3].is_some());
    assert!(game.board[0][2].is_none());
}

#[test]
fn soft_drop_lasts_one_frame() {
    let mut game = TetrisGame::with_figures(FigureType::T, FigureType::T);
    game.update_with(Some(Key::Down), 0, FigureType::Z);
    assert_eq!(game.to_descend, TO_DESCEND_FAST);
    game.update_with(None, 0, FigureType::Z);
    assert_eq!(game.to_descend, arcade::tetris::TO_DESCEND_SLOW);
}

#[test]
fn cleared_rows_leave_empty_rows_on_top() {
    let mut game = TetrisGame::with_figures(FigureType::T, FigureType::T);
    game.board[0][0] = Some(Color::Green);
    fill_rows_but_last_column(&mut game, 16..20);
    drop_upright_line(&mut game);
    game.update_with(None, 0, FigureType::Z);
    assert_eq!(game.score, 800);
    assert!(game.board[4][0].is_some());
    for row in 0..4 {
        assert!(game.board[row].iter().all(|c| c.is_none()));
    }
}
