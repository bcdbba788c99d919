use arcade::game::{Key, UpdateEvent};
use arcade::point::{Point, UNIT};
use arcade::pong::{collides, Ball, Plank, PongGame, DEFAULT_LENGTH};

fn game() -> PongGame {
    PongGame::with_serve(80, 40, 18, 18)
}

#[test]
fn serve_from_center() {
    let g = game();
    assert_eq!(g.ball.position, Point::new(20 * UNIT, 20 * UNIT));
    assert_eq!(g.ball.velocity, Point::new(9 * UNIT, 9 * UNIT));
    assert_eq!(g.player.position, Point::new(20 * UNIT, 34 * UNIT));
    assert_eq!(g.enemy.position, Point::new(20 * UNIT, 5 * UNIT));
    assert_eq!(g.player.length, DEFAULT_LENGTH);
    // Slow draws are raised to the least starting speed, keeping the sign.
    let b = Ball::new(80, 40, 9, 6);
    assert_eq!(b.velocity, Point::new(5 * UNIT, -5 * UNIT));
    assert_eq!(Ball::new(80, 40, 0, 12).velocity, Point::new(-9 * UNIT, 5 * UNIT));
}

#[test]
fn ball_bounces_off_player_plank() {
    let mut g = game();
    g.ball.position = Point::new(20 * UNIT, 33 * UNIT + 900_000);
    g.ball.velocity = Point::new(0, 5 * UNIT);
    let r = g.update_with(None, 100_000, 80, 40, 0, 0);
    assert_eq!(r, UpdateEvent::GameContinue);
    assert_eq!(g.ball.velocity, Point::new(0, -5_500_000));
    assert_eq!(g.ball.position, Point::new(20 * UNIT, 33 * UNIT + 350_000));
}

#[test]
fn off_center_hit_bends_the_ball() {
    let mut g = game();
    g.ball.position = Point::new(21 * UNIT, 33 * UNIT + 900_000);
    g.ball.velocity = Point::new(0, 5 * UNIT);
    g.update_with(None, 100_000, 80, 40, 0, 0);
    assert_eq!(g.ball.velocity.x, 3 * UNIT);
    assert!(g.ball.velocity.y < 0);
}

#[test]
fn side_wall_reverses_and_holds() {
    let mut g = game();
    g.ball.position = Point::new(39 * UNIT, 10 * UNIT);
    g.ball.velocity = Point::new(5 * UNIT, 0);
    g.update_with(None, 100_000, 80, 40, 0, 0);
    assert_eq!(g.ball.velocity.x, -5 * UNIT);
    assert_eq!(g.ball.position.x, 39 * UNIT);
}

#[test]
fn top_scores_for_player() {
    let mut g = game();
    g.ball.position = Point::new(20 * UNIT, 100_000);
    g.ball.velocity = Point::new(0, -10 * UNIT);
    g.update_with(None, 100_000, 80, 40, 18, 0);
    assert_eq!(g.score, 1);
    assert_eq!(g.get_score().value, 1);
    assert_eq!(g.ball.position, Point::new(20 * UNIT, 20 * UNIT));
    assert_eq!(g.ball.velocity, Point::new(9 * UNIT, -9 * UNIT));
}

#[test]
fn bottom_scores_against_player() {
    let mut g = game();
    g.ball.position = Point::new(10 * UNIT, 40 * UNIT + 400_000);
    g.ball.velocity = Point::new(0, 5 * UNIT);
    g.update_with(None, 100_000, 80, 40, 9, 9);
    assert_eq!(g.score, -1);
    assert_eq!(g.ball.position, Point::new(20 * UNIT, 20 * UNIT));
    assert_eq!(g.ball.velocity, Point::new(5 * UNIT, 5 * UNIT));
}

#[test]
fn planks_move_within_bounds() {
    let mut g = game();
    g.update_with(Some(Key::Left), 0, 80, 40, 0, 0);
    assert_eq!(g.player.position.x, 18 * UNIT);
    g.player.position.x = 3 * UNIT;
    g.update_with(Some(Key::Left), 0, 80, 40, 0, 0);
    assert_eq!(g.player.position.x, 3 * UNIT);
    g.ball.position = Point::new(10 * UNIT, 20 * UNIT);
    g.ball.velocity = Point::new(0, 0);
    g.update_with(None, 40_000, 80, 40, 0, 0);
    assert_eq!(g.enemy.position.x, 19 * UNIT);
    assert!(Plank::new(80, 5).bounds_check(80, None));
    assert!(!Plank::new(80, 5).bounds_check(80, Some(Point::new(2 * UNIT, 5 * UNIT))));
}

#[test]
fn escape_quits() {
    let mut g = game();
    assert_eq!(g.update(Some(Key::Esc), 1000, 80, 40), UpdateEvent::GameOver);
    assert_eq!(g.update(None, 1000, 80, 40), UpdateEvent::GameContinue);
}

#[test]
fn swept_path_through_plank_is_caught() {
    let plank = Point::new(20 * UNIT, 34 * UNIT);
    assert!(collides(&plank, 5, &Point::new(23 * UNIT, 30 * UNIT), &Point::new(23 * UNIT, 40 * UNIT)));
    assert!(!collides(&plank, 5, &Point::new(24 * UNIT, 30 * UNIT), &Point::new(24 * UNIT, 40 * UNIT)));
}
