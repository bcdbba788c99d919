use arcade::game::{Key, UpdateEvent};
use arcade::point::{bounds_check, BoundsCollision, Cell};
use arcade::space_invaders::{
    is_near, is_success, Bullet, Direction, Enemy, EnemyAction, EnemyActionType, EnemyBehavior,
    EnemyPreset, Prop, PropsPreset, SpaceInvadersGame, SECOND,
};

const TICK: u64 = 150_000_000;

fn idle_enemy(x: i64, y: i64) -> Enemy {
    Enemy {
        position: Cell::new(x, y),
        behavior: EnemyBehavior::new(vec![EnemyAction::wait(SECOND, 100)], 100 * SECOND, 0),
    }
}

fn empty_game() -> SpaceInvadersGame {
    SpaceInvadersGame::new(40, 80, EnemyPreset::Empty, PropsPreset::Empty)
}

#[test]
fn chance_bounds() {
    for _ in 0..50 {
        assert!(!is_success(0));
        assert!(is_success(100));
    }
}

#[test]
fn failed_cycle_keeps_enemy() {
    let mut e = Enemy {
        position: Cell::new(10, 5),
        behavior: EnemyBehavior::new(vec![EnemyAction::left(50), EnemyAction::right(50)], 0, 1),
    };
    let shot = e.take_turn(&vec![false, false], &vec![], &vec![], Cell::new(40, 39), 80, 40);
    assert!(shot.is_none());
    assert_eq!(e.position, Cell::new(10, 5));
    assert_eq!(e.behavior.current_action, 1);
    assert_eq!(e.behavior.to_next_move, 0);
}

#[test]
fn blocked_move_is_skipped_for_next_action() {
    // The first action (move left) succeeds its trial but leaves the screen;
    // the second (fire) is taken, and the pointer moves past it.
    let mut e = Enemy {
        position: Cell::new(0, 5),
        behavior: EnemyBehavior::new(
            vec![EnemyAction::left(100), EnemyAction::fire_down(100), EnemyAction::wait(SECOND, 100)],
            0,
            0,
        ),
    };
    let shot = e.take_turn(&vec![true, true, true], &vec![], &vec![], Cell::new(40, 39), 80, 40);
    let b = shot.expect("a bullet");
    assert_eq!(b.position, Cell::new(0, 6));
    assert!(matches!(b.move_direction, Direction::Down));
    assert_eq!(e.position, Cell::new(0, 5));
    assert_eq!(e.behavior.current_action, 2);
    assert_eq!(e.behavior.to_next_move, SECOND);
}

#[test]
fn move_blocked_by_other_enemy() {
    let mut e = Enemy {
        position: Cell::new(10, 5),
        behavior: EnemyBehavior::new(vec![EnemyAction::right(100)], 0, 0),
    };
    let others = vec![Cell::new(10, 5), Cell::new(12, 5)];
    let shot = e.take_turn(&vec![true], &others, &vec![], Cell::new(40, 39), 80, 40);
    assert!(shot.is_none());
    assert_eq!(e.position, Cell::new(10, 5));
    assert_eq!(e.behavior.current_action, 0);
    let others = vec![Cell::new(10, 5)];
    e.take_turn(&vec![true], &others, &vec![], Cell::new(40, 39), 80, 40);
    assert_eq!(e.position, Cell::new(12, 5));
    assert_eq!(e.behavior.to_next_move, SECOND);
}

#[test]
fn countdown_stops_at_zero() {
    let mut b = EnemyBehavior::new(vec![EnemyAction::up(10)], 5, 0);
    b.delta(3);
    assert_eq!(b.to_next_move, 2);
    b.delta(7);
    assert_eq!(b.to_next_move, 0);
    b.next_action();
    assert_eq!(b.current_action, 0);
    assert_eq!(b.current_action(), EnemyAction::up(10));
}

#[test]
fn action_builders() {
    let a = EnemyAction::down(5);
    assert_eq!(a.action_type, EnemyActionType::Move(Direction::Down, 1));
    assert_eq!(a.duration, SECOND);
    assert_eq!(a.chance, 5);
    assert_eq!(EnemyAction::wait(7, 50).action_type, EnemyActionType::Wait);
}

#[test]
fn bullet_hits_enemy_not_prop() {
    let mut game = empty_game();
    game.enemies.push(idle_enemy(20, 10));
    game.enemies.push(idle_enemy(60, 2));
    game.props.push(Prop { position: Cell::new(20, 10), destroyable: true });
    game.bullets.push(Bullet { move_direction: Direction::Up, position: Cell::new(20, 11), speed: 1 });
    let r = game.update_with(None, TICK, 80, 40, &vec![vec![false], vec![false]]);
    assert_eq!(r, UpdateEvent::GameContinue);
    assert_eq!(game.score, 1);
    assert!(game.bullets.is_empty());
    assert_eq!(game.enemies.len(), 1);
    assert_eq!(game.enemies[0].position, Cell::new(60, 2));
    assert_eq!(game.props.len(), 1);
}

#[test]
fn one_enemy_per_bullet() {
    let mut game = empty_game();
    // Two enemies within reach of one bullet: only the first is hit.
    game.enemies.push(idle_enemy(19, 10));
    game.enemies.push(idle_enemy(21, 10));
    game.bullets.push(Bullet { move_direction: Direction::Up, position: Cell::new(20, 11), speed: 1 });
    game.update_with(None, TICK, 80, 40, &vec![vec![false], vec![false]]);
    assert_eq!(game.score, 1);
    assert_eq!(game.enemies.len(), 1);
    assert_eq!(game.enemies[0].position, Cell::new(21, 10));
}

#[test]
fn solid_prop_stays() {
    let mut game = empty_game();
    game.enemies.push(idle_enemy(60, 2));
    game.props.push(Prop { position: Cell::new(20, 10), destroyable: false });
    game.bullets.push(Bullet { move_direction: Direction::Up, position: Cell::new(20, 11), speed: 1 });
    game.update_with(None, TICK, 80, 40, &vec![vec![false]]);
    assert!(game.bullets.is_empty());
    assert_eq!(game.props.len(), 1);
    assert_eq!(game.score, 0);
}

#[test]
fn bullets_leave_the_screen() {
    let mut game = empty_game();
    game.enemies.push(idle_enemy(60, 2));
    game.bullets.push(Bullet { move_direction: Direction::Up, position: Cell::new(20, 0), speed: 1 });
    game.bullets.push(Bullet { move_direction: Direction::Right, position: Cell::new(30, 5), speed: 1 });
    game.update_with(None, TICK, 80, 40, &vec![vec![false]]);
    assert_eq!(game.bullets.len(), 1);
    assert_eq!(game.bullets[0].position, Cell::new(32, 5));
}

#[test]
fn no_tick_before_interval() {
    let mut game = empty_game();
    game.enemies.push(idle_enemy(60, 2));
    game.bullets.push(Bullet { move_direction: Direction::Down, position: Cell::new(30, 5), speed: 1 });
    game.update_with(None, 50_000_000, 80, 40, &vec![vec![false]]);
    assert_eq!(game.bullets[0].position, Cell::new(30, 5));
    game.update_with(None, 60_000_000, 80, 40, &vec![vec![false]]);
    assert_eq!(game.bullets[0].position, Cell::new(30, 6));
    assert_eq!(game.from_last_update, 0);
}

#[test]
fn player_moves_fires_and_quits() {
    let mut game = empty_game();
    game.enemies.push(idle_enemy(60, 2));
    assert_eq!(game.player.position, Cell::new(40, 39));
    game.update_with(Some(Key::Left), 10, 80, 40, &vec![vec![false]]);
    assert_eq!(game.player.position, Cell::new(38, 39));
    game.update_with(Some(Key::Char(' ')), 600_000_000, 80, 40, &vec![vec![false]]);
    // The shot moved one row up within the same update's tick.
    assert_eq!(game.bullets.len(), 1);
    assert_eq!(game.bullets[0].position, Cell::new(38, 37));
    let r = game.update_with(Some(Key::Char('q')), 10, 80, 40, &vec![vec![false]]);
    assert_eq!(r, UpdateEvent::GameOver);
}

#[test]
fn last_enemy_gone_ends_game() {
    let mut game = empty_game();
    game.enemies.push(idle_enemy(20, 10));
    game.bullets.push(Bullet { move_direction: Direction::Up, position: Cell::new(20, 11), speed: 1 });
    let r = game.update_with(None, TICK, 80, 40, &vec![vec![false]]);
    assert_eq!(r, UpdateEvent::GameOver);
    assert_eq!(game.get_score().value, 1);
}

#[test]
fn presets_lay_out_entities() {
    let game = SpaceInvadersGame::new(40, 80, EnemyPreset::CheckeredLeftRight, PropsPreset::Wall);
    assert_eq!(game.enemies.len(), 5 * 20);
    assert_eq!(game.enemies[0].position, Cell::new(0, 0));
    assert_eq!(game.enemies[20].position, Cell::new(2, 1));
    assert_eq!(game.enemies[21].position, Cell::new(6, 1));
    assert_eq!(game.props.len(), 20 + 3 * 40);
    assert_eq!(game.props[0], Prop { position: Cell::new(0, 37), destroyable: false });
    assert_eq!(game.props[20], Prop { position: Cell::new(0, 36), destroyable: true });
    assert_eq!(game.props[22], Prop { position: Cell::new(0, 34), destroyable: true });
    let game = SpaceInvadersGame::new(40, 80, EnemyPreset::RandomFire, PropsPreset::Empty);
    assert_eq!(game.enemies.len(), 8 * 5);
    assert!(game.enemies.iter().all(|e| e.behavior.actions.len() == 4));
    let mut game = SpaceInvadersGame::new(40, 80, EnemyPreset::CheckeredLeft, PropsPreset::Empty);
    assert_eq!(game.update(None, TICK, 80, 40), UpdateEvent::GameContinue);
}

#[test]
fn bounds_are_checked_in_order() {
    assert_eq!(bounds_check(-1, -1, 80, 40), Some(BoundsCollision::Top));
    assert_eq!(bounds_check(-1, 41, 80, 40), Some(BoundsCollision::Bottom));
    assert_eq!(bounds_check(-1, 40, 80, 40), Some(BoundsCollision::Left));
    assert_eq!(bounds_check(79, 0, 80, 40), Some(BoundsCollision::Right));
    assert_eq!(bounds_check(78, 0, 80, 40), None);
}

#[test]
fn nearness_is_half_a_unit_across() {
    assert!(is_near(Cell::new(3, 4), Cell::new(4, 4)));
    assert!(!is_near(Cell::new(3, 4), Cell::new(5, 4)));
    assert!(!is_near(Cell::new(3, 4), Cell::new(3, 5)));
}

#[test]
fn trials_follow_the_current_action() {
    let mut game = empty_game();
    game.enemies.push(Enemy {
        position: Cell::new(20, 5),
        behavior: EnemyBehavior::new(vec![EnemyAction::left(0), EnemyAction::right(100)], 0, 1),
    });
    game.update(None, TICK, 80, 40);
    assert_eq!(game.enemies[0].position, Cell::new(22, 5));
    assert_eq!(game.enemies[0].behavior.current_action, 0);
}
