use arcade::game::{Key, UpdateEvent};
use arcade::point::{Line, Point, UNIT};
use arcade::snake::{
    choose_direction, read_to_input, Apple, Input, Score, Snake, SnakeGame, GROWTH, MAX_APPLES,
};

fn p(x: i64, y: i64) -> Point {
    Point::new(x * UNIT, y * UNIT)
}

fn total_len(game: &SnakeGame) -> u64 {
    game.snake.segments.iter().map(|l| l.length()).sum()
}

#[test]
fn input_starts_empty() {
    let i = Input::new();
    assert!(i.empty());
    let up = Input { up: true, ..Input::new() };
    assert!(!up.empty());
    assert_eq!(up.as_vec(5), Point::new(0, -5));
    assert_eq!(Input { right: true, ..Input::new() }.as_vec(7), Point::new(7, 0));
}

#[test]
fn keys_read_as_directions() {
    assert_eq!(read_to_input(Some(Key::Left)), Input { left: true, ..Input::new() });
    assert_eq!(read_to_input(Some(Key::Esc)), Input::new());
    assert_eq!(read_to_input(None), Input::new());
}

#[test]
fn reversal_is_refused() {
    let right = Input { right: true, ..Input::new() };
    let left = Input { left: true, ..Input::new() };
    let up = Input { up: true, ..Input::new() };
    assert_eq!(choose_direction(left, right), right);
    assert_eq!(choose_direction(up, right), up);
    assert_eq!(choose_direction(Input::new(), right), right);
}

#[test]
fn new_snake_is_three_units() {
    let s = Snake::new(p(10, 10));
    assert_eq!(s.segments, vec![Line::new(p(10, 10), p(13, 10))]);
    assert_eq!(*s.head(), *s.first());
    let mut s = s;
    s.mut_head().end = p(14, 10);
    assert_eq!(s.first().end, p(14, 10));
    s.mut_first().begin = p(11, 10);
    assert_eq!(s.head().begin, p(11, 10));
}

#[test]
fn moving_keeps_length() {
    let mut game = SnakeGame::new(p(10, 10));
    let r = game.update_with(None, 1_000_000, &vec![]);
    assert_eq!(r, UpdateEvent::GameContinue);
    assert_eq!(game.snake.segments, vec![Line::new(p(22, 10), p(25, 10))]);
    assert_eq!(total_len(&game), 3 * UNIT as u64);
}

#[test]
fn turning_adds_a_segment() {
    let mut game = SnakeGame::new(p(10, 10));
    game.update_with(Some(Key::Up), 100_000, &vec![]);
    assert_eq!(
        game.snake.segments,
        vec![
            Line::new(Point::new(11_200_000, 10 * UNIT), p(13, 10)),
            Line::new(p(13, 10), Point::new(13 * UNIT, 8_800_000)),
        ]
    );
    assert!(game.prev_non_empty_input.up);
    assert_eq!(total_len(&game), 3 * UNIT as u64);
    // The opposite way is refused: the snake keeps going up.
    game.update_with(Some(Key::Down), 100_000, &vec![]);
    assert_eq!(game.snake.segments.len(), 2);
    assert!(game.prev_non_empty_input.up);
}

#[test]
fn eating_grows_by_exactly_one_apple() {
    let mut game = SnakeGame::new(p(10, 10));
    game.apples.push(Apple(p(13, 10)));
    game.update_with(None, 50_000, &vec![]);
    assert!(game.apples.is_empty());
    assert_eq!(game.score, Score(1));
    assert_eq!(game.get_score().value, 1);
    // 0.6 units covered out of the one-unit budget.
    assert_eq!(total_len(&game), 3 * UNIT as u64 + 600_000);
    assert_eq!(game.to_growth, GROWTH - 600_000);
    for _ in 0..5 {
        game.update_with(None, 50_000, &vec![]);
    }
    assert_eq!(total_len(&game), 4 * UNIT as u64);
    assert_eq!(game.to_growth, 0);
    game.update_with(None, 50_000, &vec![]);
    assert_eq!(total_len(&game), 4 * UNIT as u64);
}

#[test]
fn head_crossing_body_ends_game() {
    let mut game = SnakeGame::new(p(0, 0));
    game.snake.segments = vec![
        Line::new(p(0, 0), p(5, 0)),
        Line::new(p(5, 0), p(5, 5)),
        Line::new(p(5, 5), p(2, 5)),
        Line::new(p(2, 5), p(2, -1)),
    ];
    game.prev_non_empty_input = Input { up: true, ..Input::new() };
    assert_eq!(game.update_with(None, 1000, &vec![]), UpdateEvent::GameOver);
}

#[test]
fn two_segments_never_collide() {
    let mut game = SnakeGame::new(p(0, 0));
    game.snake.segments = vec![Line::new(p(0, 0), p(5, 0)), Line::new(p(5, 0), p(5, 1))];
    game.prev_non_empty_input = Input { down: true, ..Input::new() };
    assert_eq!(game.update_with(None, 1000, &vec![]), UpdateEvent::GameContinue);
}

#[test]
fn apples_fill_up_without_touching_the_body() {
    let mut game = SnakeGame::new(p(10, 10));
    for step in 0..8 {
        let head = game.snake.head().end;
        let cands = vec![head, game.snake.first().begin, p(step, 2), p(step + 20, 3)];
        game.update_with(None, 2_000_001, &cands);
    }
    assert_eq!(game.apples.len(), MAX_APPLES);
    for a in game.apples.iter() {
        for seg in game.snake.segments.iter() {
            assert!(!a.0.compare(&seg.end, UNIT / 2));
            assert!(!a.0.compare(&seg.begin, UNIT / 2));
        }
    }
}

#[test]
fn random_apples_stay_on_board() {
    let mut game = SnakeGame::new(p(10, 10));
    for _ in 0..3 {
        assert!(game.has_room());
        game.update(None, 2_000_001, 40, 20);
    }
    assert!(!game.apples.is_empty());
    for a in game.apples.iter() {
        assert!(a.0.x >= 0 && a.0.x < 20 * UNIT);
        assert!(a.0.y >= 0 && a.0.y < 20 * UNIT);
    }
}

#[test]
fn no_apple_in_the_middle_of_a_segment() {
    let mut game = SnakeGame::new(p(0, 0));
    let cands = vec![p(1, 0), p(2, 0), p(1, 5)];
    game.update_with(None, 2_000_001, &cands);
    assert_eq!(game.apples, vec![Apple(p(1, 5))]);
}
