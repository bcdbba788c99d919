//! The paddle game: a ball that bounces off the side walls and off two
//! planks, tested along its swept path, and scores at the top and bottom.
//!
//! Positions are counted in millionths of a game unit, velocities in
//! millionths of a unit per second and time in microseconds.
use vstd::prelude::*;
use crate::game::{Key, Score, UpdateEvent};
use crate::point::{bounds_of, HALF_UNIT, intersects_spec, round_cell, BoundsCollision, Line, Point, UNIT};
use crate::rng::random_below;

verus! {

pub const FROM_BOUNDS_INDENT: u16 = 5;
pub const DEFAULT_LENGTH: u16 = 5;
/// How far a key moves the player's plank.
pub const PLAYER_SPEED: i64 = 2_000_000;
/// Speed of the opponent's plank, in millionths of a unit per microsecond.
pub const ENEMY_SPEED: i64 = 25;
/// How far beyond each end of a plank the ball is still caught.
pub const COLLISION_EXTRA_LENGTH: i64 = 1_000_000;
pub const MIN_INITIAL_SPEED: i64 = 5_000_000;
pub const MAX_INITIAL_SPEED: i64 = 10_000_000;
/// A hit adds this many times the offset from the plank's center to the
/// horizontal velocity, per second.
pub const VELOCITY_X_SCALE: i64 = 3;
/// The longest frame an update takes, in microseconds.
pub const MAX_DELTA: u64 = 0x400_0000;
/// The fastest the ball goes, in each axis.
pub const VELOCITY_LIMIT: i64 = 0x100_0000_0000;
/// Bound on positions of the ball and of the planks.
pub const POSITION_LIMIT: i64 = 0x4_0000_0000_0000;
pub const QUARTER_UNIT: i64 = 250_000;
/// Microseconds in a second.
pub const MICROS: i64 = 1_000_000;

pub open spec fn within(p: Point, limit: int) -> bool {
    -limit <= p.x <= limit && -limit <= p.y <= limit
}

/// `a / b` rounded towards zero, as integer division does.
pub open spec fn trunc_div(a: int, b: int) -> int {
    if a >= 0 { a / b } else { -((-a) / b) }
}

/// How far a velocity carries in `dt` microseconds.
pub open spec fn displacement(v: int, dt: int) -> int {
    trunc_div(v * dt, MICROS as int)
}

/// The screen edge that the ball at `p` lies beyond.
pub open spec fn ball_bounds(p: Point, width: int, height: int) -> Option<BoundsCollision> {
    bounds_of(round_cell(2 * p.x), round_cell(p.y as int), width, height)
}

pub open spec fn clamp_v(v: int) -> int {
    if v > VELOCITY_LIMIT { VELOCITY_LIMIT as int } else if v < -VELOCITY_LIMIT { -VELOCITY_LIMIT } else { v }
}

pub open spec fn pt(x: int, y: int) -> Point {
    Point { x: x as i64, y: y as i64 }
}

proof fn lemma_mul_bound(a: int, b: int, ma: int, mb: int)
    requires
        -ma <= a <= ma,
        -mb <= b <= mb,
        0 <= ma,
        0 <= mb,
    ensures
        -(ma * mb) <= a * b <= ma * mb,
{
    assert(-(ma * mb) <= a * b <= ma * mb) by (nonlinear_arith)
        requires
            -ma <= a <= ma,
            -mb <= b <= mb,
            0 <= ma,
            0 <= mb,
    ;
}

fn trunc_div_exec(a: i128, b: i128) -> (r: i128)
    requires
        b > 0,
        a > i128::MIN,
    ensures
        r == trunc_div(a as int, b as int),
{
    if a >= 0 {
        a / b
    } else {
        -((-a) / b)
    }
}

fn displacement_exec(v: i64, dt: u64) -> (r: i64)
    requires
        -VELOCITY_LIMIT <= v <= VELOCITY_LIMIT,
        dt <= MAX_DELTA,
    ensures
        r == displacement(v as int, dt as int),
        -0x1_0000_0000_0000 <= r <= 0x1_0000_0000_0000,
{
    proof {
        lemma_mul_bound(v as int, dt as int, VELOCITY_LIMIT as int, MAX_DELTA as int);
    }
    let d = trunc_div_exec(v as i128 * dt as i128, MICROS as i128);
    proof {
        let p = v as int * dt as int;
        assert(-0x4_0000_0000_0000_0000 <= p <= 0x4_0000_0000_0000_0000);
        if p >= 0 {
            assert(p / 1_000_000 <= 0x1_0000_0000_0000) by (nonlinear_arith)
                requires
                    0 <= p <= 0x4_0000_0000_0000_0000,
            ;
        } else {
            assert((-p) / 1_000_000 <= 0x1_0000_0000_0000) by (nonlinear_arith)
                requires
                    0 <= -p <= 0x4_0000_0000_0000_0000,
            ;
        }
    }
    d as i64
}

fn clamp_exec(v: i64) -> (r: i64)
    ensures
        r == clamp_v(v as int),
{
    if v > VELOCITY_LIMIT {
        VELOCITY_LIMIT
    } else if v < -VELOCITY_LIMIT {
        -VELOCITY_LIMIT
    } else {
        v
    }
}

#[derive(Clone, Copy, Debug, PartialEq, Eq, Structural)]
pub struct Plank {
    pub position: Point,
    pub length: u16,
}

/// The plank at `x` lies strictly inside the width of the board.
pub open spec fn plank_fits(x: int, length: int, width: int) -> bool {
    2 * x > length * UNIT && 2 * x + length * UNIT < width * UNIT
}

/// The segment that catches the ball: the plank, lengthened at both ends.
pub open spec fn catch_line(p: Plank) -> Line {
    Line {
        begin: pt(p.position.x - p.length * HALF_UNIT - COLLISION_EXTRA_LENGTH, p.position.y as int),
        end: pt(p.position.x + p.length * HALF_UNIT + COLLISION_EXTRA_LENGTH, p.position.y as int),
    }
}

impl Plank {
    /// A plank of the default length in the middle of a board `w` cells
    /// wide, on row `y`.
    pub fn new(w: u16, y: u16) -> (r: Plank)
        ensures
            r.position == pt(w * QUARTER_UNIT, y * UNIT),
            r.length == DEFAULT_LENGTH,
    {
        Plank { position: Point { x: w as i64 * QUARTER_UNIT, y: y as i64 * UNIT }, length: DEFAULT_LENGTH }
    }

    /// Whether the plank, at `next_position` if given, else where it is,
    /// lies strictly inside a board `w` cells wide.
    pub fn bounds_check(&self, w: u16, next_position: Option<Point>) -> (r: bool)
        requires
            within(self.position, 2 * POSITION_LIMIT),
            next_position is Some ==> within(next_position->0, 2 * POSITION_LIMIT),
        ensures
            r == plank_fits(
                (if next_position is Some { next_position->0 } else { self.position }).x as int,
                self.length as int,
                w as int,
            ),
    {
        let p = match next_position {
            Some(p) => p,
            None => self.position,
        };
        let len = self.length as i64 * UNIT;
        2 * p.x > len && 2 * p.x + len < w as i64 * UNIT
    }
}

/// Whether the ball, going from `prev_ball_pos` to `ball_pos`, meets the
/// plank at `plank_pos` lengthened at both ends.
pub fn collides(plank_pos: &Point, plank_length: u16, prev_ball_pos: &Point, ball_pos: &Point) -> (r: bool)
    requires
        within(*plank_pos, 2 * POSITION_LIMIT),
        within(*prev_ball_pos, 2 * POSITION_LIMIT),
        within(*ball_pos, 2 * POSITION_LIMIT),
    ensures
        r == intersects_spec(
            catch_line(Plank { position: *plank_pos, length: plank_length }),
            Line { begin: *prev_ball_pos, end: *ball_pos },
        ),
{
    let half = plank_length as i64 * HALF_UNIT;
    let plank = Line::new(
        Point::new(plank_pos.x - half - COLLISION_EXTRA_LENGTH, plank_pos.y),
        Point::new(plank_pos.x + half + COLLISION_EXTRA_LENGTH, plank_pos.y),
    );
    let ball = Line::new(*prev_ball_pos, *ball_pos);
    plank.intersects(&ball)
}

#[derive(Clone, Copy, Debug, PartialEq, Eq, Structural)]
pub struct Ball {
    pub position: Point,
    pub velocity: Point,
}

/// The starting speed on one axis from a draw in `0..19`: the draw less
/// nine units a second, raised to five units where it is slower, keeping
/// its sign (a zero goes the positive way).
pub open spec fn initial_speed(draw: int) -> int {
    let c = draw - 9;
    (if -5 < c < 5 { if c < 0 { -5int } else { 5int } } else { c }) * UNIT
}

pub open spec fn ball_at_center(w: int, h: int, draw_x: int, draw_y: int) -> Ball {
    Ball { position: pt(w * QUARTER_UNIT, h * HALF_UNIT), velocity: pt(initial_speed(draw_x), initial_speed(draw_y)) }
}

fn initial_speed_exec(draw: u32) -> (r: i64)
    requires
        draw < 19,
    ensures
        r == initial_speed(draw as int),
        MIN_INITIAL_SPEED <= (if r < 0 { -r } else { r as int }) < MAX_INITIAL_SPEED,
{
    let c = draw as i64 - 9;
    let s: i64 = if -5 < c && c < 5 {
        if c < 0 {
            -5
        } else {
            5
        }
    } else {
        c
    };
    s * UNIT
}

impl Ball {
    /// A ball in the middle of a board `w` by `h` cells, with its velocity
    /// from the two draws.
    pub fn new(w: u16, h: u16, draw_x: u32, draw_y: u32) -> (r: Ball)
        requires
            draw_x < 19,
            draw_y < 19,
        ensures
            r == ball_at_center(w as int, h as int, draw_x as int, draw_y as int),
    {
        Ball {
            position: Point { x: w as i64 * QUARTER_UNIT, y: h as i64 * HALF_UNIT },
            velocity: Point { x: initial_speed_exec(draw_x), y: initial_speed_exec(draw_y) },
        }
    }
}

/// A freshly served ball's speed on each axis lies in the starting range.
pub proof fn lemma_serve_speed(w: int, h: int, draw_x: int, draw_y: int)
    requires
        0 <= draw_x < 19,
        0 <= draw_y < 19,
    ensures
        ({
            let b = ball_at_center(w, h, draw_x, draw_y);
            &&& MIN_INITIAL_SPEED <= (if b.velocity.x < 0 { -b.velocity.x } else { b.velocity.x as int })
                < MAX_INITIAL_SPEED
            &&& MIN_INITIAL_SPEED <= (if b.velocity.y < 0 { -b.velocity.y } else { b.velocity.y as int })
                < MAX_INITIAL_SPEED
        }),
{
}


pub open spec fn clamp_p(x: int) -> int {
    if x > POSITION_LIMIT { POSITION_LIMIT as int } else if x < -POSITION_LIMIT { -POSITION_LIMIT } else { x }
}

fn clamp_p_exec(x: i64) -> (r: i64)
    ensures
        r == clamp_p(x as int),
{
    if x > POSITION_LIMIT {
        POSITION_LIMIT
    } else if x < -POSITION_LIMIT {
        -POSITION_LIMIT
    } else {
        x
    }
}

pub open spec fn sat_i64(x: int) -> i64 {
    if x > i64::MAX { i64::MAX } else if x < i64::MIN { i64::MIN } else { x as i64 }
}

#[derive(Clone, Copy, Debug, PartialEq, Eq, Structural)]
pub struct PongGame {
    pub enemy: Plank,
    pub player: Plank,
    pub ball: Ball,
    pub score: i64,
}

/// The plank at `x` if it fits there, else where it was.
pub open spec fn moved_plank(p: Plank, x: int, width: int) -> Plank {
    if plank_fits(x, p.length as int, width) {
        Plank { position: pt(x, p.position.y as int), length: p.length }
    } else {
        p
    }
}

/// The ball after one step of `dt` against the given planks: the side walls
/// reverse its horizontal velocity and cancel its horizontal step; a plank
/// met on the way towards it reverses the vertical velocity, speeds it up by
/// a tenth and bends it by the offset from the plank's center. Also gives
/// the edge the step would have crossed.
pub open spec fn ball_step(b: Ball, enemy: Plank, player: Plank, dt: u64, w: int, h: int) -> (Ball, Option<BoundsCollision>) {
    let prev = b.position;
    let v = b.velocity;
    let moved = pt(prev.x + displacement(v.x as int, dt as int), prev.y + displacement(v.y as int, dt as int));
    let edge = ball_bounds(moved, w, h);
    let wall = edge == Some(BoundsCollision::Left) || edge == Some(BoundsCollision::Right);
    let vx1 = if wall { -v.x } else { v.x as int };
    let pos1 = if wall { pt(prev.x as int, moved.y as int) } else { moved };
    let plank = if v.y < 0 { enemy } else { player };
    let hit = intersects_spec(catch_line(plank), Line { begin: prev, end: pos1 });
    let vx2 = if hit { clamp_v(vx1 + (pos1.x - plank.position.x) * VELOCITY_X_SCALE) } else { vx1 };
    let vy2 = if hit { clamp_v(trunc_div(-v.y * 11, 10)) } else { v.y as int };
    (
        Ball {
            position: pt(
                if wall { prev.x as int } else { clamp_p(prev.x + displacement(vx2, dt as int)) },
                clamp_p(prev.y + displacement(vy2, dt as int)),
            ),
            velocity: pt(vx2, vy2),
        },
        edge,
    )
}

/// One update on a board `w` by `h` cells, with the draws for a new serve.
/// Escape ends the game; a key moves the player's plank, the opponent's
/// plank follows the ball, and the ball steps. Crossing the top scores for
/// the player, crossing the bottom against; either way the ball is served
/// again from the center while the planks stay.
pub open spec fn update_spec(s: PongGame, input: Option<Key>, dt: u64, w: int, h: int, draw_x: int, draw_y: int) -> (PongGame, UpdateEvent) {
    if input == Some(Key::Esc) {
        (s, UpdateEvent::GameOver)
    } else {
        let px = if input == Some(Key::Left) {
            s.player.position.x - PLAYER_SPEED
        } else if input == Some(Key::Right) {
            s.player.position.x + PLAYER_SPEED
        } else {
            s.player.position.x as int
        };
        let player = moved_plank(s.player, px, w);
        let ex = if s.ball.position.x < s.enemy.position.x {
            s.enemy.position.x - ENEMY_SPEED * dt
        } else if s.ball.position.x > s.enemy.position.x {
            s.enemy.position.x + ENEMY_SPEED * dt
        } else {
            s.enemy.position.x as int
        };
        let enemy = moved_plank(s.enemy, ex, w);
        let (ball, edge) = ball_step(s.ball, enemy, player, dt, w, h);
        (
            if edge == Some(BoundsCollision::Top) {
                PongGame { enemy, player, ball: ball_at_center(w, h, draw_x, draw_y), score: sat_i64(s.score + 1) }
            } else if edge == Some(BoundsCollision::Bottom) {
                PongGame { enemy, player, ball: ball_at_center(w, h, draw_x, draw_y), score: sat_i64(s.score - 1) }
            } else {
                PongGame { enemy, player, ball, score: s.score }
            },
            UpdateEvent::GameContinue,
        )
    }
}

/// The ball's step would cross a side wall, and its path, with the
/// horizontal step cancelled, misses the plank it heads to.
pub open spec fn wall_without_hit(b: Ball, enemy: Plank, player: Plank, dt: u64, w: int, h: int) -> bool {
    let prev = b.position;
    let v = b.velocity;
    let moved = pt(prev.x + displacement(v.x as int, dt as int), prev.y + displacement(v.y as int, dt as int));
    let edge = ball_bounds(moved, w, h);
    let plank = if v.y < 0 { enemy } else { player };
    &&& (edge == Some(BoundsCollision::Left) || edge == Some(BoundsCollision::Right))
    &&& !intersects_spec(catch_line(plank), Line { begin: prev, end: pt(prev.x as int, moved.y as int) })
}

/// A frame in which the ball would cross a side wall, and meets no plank,
/// turns its horizontal velocity round and leaves it where it was across.
pub proof fn lemma_wall_bounce(b: Ball, enemy: Plank, player: Plank, dt: u64, w: int, h: int)
    requires
        wall_without_hit(b, enemy, player, dt, w, h),
        -VELOCITY_LIMIT <= b.velocity.x <= VELOCITY_LIMIT,
    ensures
        ball_step(b, enemy, player, dt, w, h).0.velocity.x == -b.velocity.x,
        ball_step(b, enemy, player, dt, w, h).0.velocity.y == b.velocity.y,
        ball_step(b, enemy, player, dt, w, h).0.position.x == b.position.x,
{
}

/// The same over a whole update: in a frame whose ball step crosses a side
/// wall and misses the planks, the horizontal velocity turns round once,
/// the vertical one stays, the ball holds its column, the score stays and
/// the game goes on.
pub proof fn lemma_wall_frame(s: PongGame, input: Option<Key>, dt: u64, w: int, h: int, draw_x: int, draw_y: int)
    requires
        input != Some(Key::Esc),
        s.wf(),
        ({
            let r = update_spec(s, input, dt, w, h, draw_x, draw_y).0;
            wall_without_hit(s.ball, r.enemy, r.player, dt, w, h)
        }),
    ensures
        ({
            let (r, e) = update_spec(s, input, dt, w, h, draw_x, draw_y);
            &&& r.ball.velocity.x == -s.ball.velocity.x
            &&& r.ball.velocity.y == s.ball.velocity.y
            &&& r.ball.position.x == s.ball.position.x
            &&& r.score == s.score
            &&& e == UpdateEvent::GameContinue
        }),
{
    let r = update_spec(s, input, dt, w, h, draw_x, draw_y).0;
    lemma_wall_bounce(s.ball, r.enemy, r.player, dt, w, h);
}

/// Crossing the top scores one for the player and crossing the bottom one
/// against; either way the ball is served again from the center at a
/// starting speed.
pub proof fn lemma_scoring(s: PongGame, input: Option<Key>, dt: u64, w: int, h: int, draw_x: int, draw_y: int)
    requires
        input != Some(Key::Esc),
        0 <= draw_x < 19,
        0 <= draw_y < 19,
        s.score < i64::MAX,
        s.score > i64::MIN,
    ensures
        ({
            let r = update_spec(s, input, dt, w, h, draw_x, draw_y).0;
            let edge = ball_step(
                s.ball,
                r.enemy,
                r.player,
                dt,
                w,
                h,
            ).1;
            &&& edge == Some(BoundsCollision::Top) ==> r.score == s.score + 1
            &&& edge == Some(BoundsCollision::Bottom) ==> r.score == s.score - 1
            &&& (edge == Some(BoundsCollision::Top) || edge == Some(BoundsCollision::Bottom)) ==> r.ball
                == ball_at_center(w, h, draw_x, draw_y) && MIN_INITIAL_SPEED <= (if r.ball.velocity.x < 0 {
                -r.ball.velocity.x
            } else {
                r.ball.velocity.x as int
            }) < MAX_INITIAL_SPEED && MIN_INITIAL_SPEED <= (if r.ball.velocity.y < 0 {
                -r.ball.velocity.y
            } else {
                r.ball.velocity.y as int
            }) < MAX_INITIAL_SPEED
        }),
{
    lemma_serve_speed(w, h, draw_x, draw_y);
}

impl PongGame {
    pub open spec fn wf(&self) -> bool {
        &&& within(self.enemy.position, POSITION_LIMIT as int)
        &&& within(self.player.position, POSITION_LIMIT as int)
        &&& within(self.ball.position, POSITION_LIMIT as int)
        &&& within(self.ball.velocity, VELOCITY_LIMIT as int)
    }

    /// A game on a board `width` by `height` cells, the ball served with
    /// the given draws.
    pub fn with_serve(width: u16, height: u16, draw_x: u32, draw_y: u32) -> (r: PongGame)
        requires
            height > FROM_BOUNDS_INDENT,
            draw_x < 19,
            draw_y < 19,
        ensures
            r.wf(),
            r.enemy == Plank::new_spec(width as int, FROM_BOUNDS_INDENT as int),
            r.player == Plank::new_spec(width as int, height - FROM_BOUNDS_INDENT - 1),
            r.ball == ball_at_center(width as int, height as int, draw_x as int, draw_y as int),
            r.score == 0,
    {
        let r = PongGame {
            enemy: Plank::new(width, FROM_BOUNDS_INDENT),
            player: Plank::new(width, height - FROM_BOUNDS_INDENT - 1),
            ball: Ball::new(width, height, draw_x, draw_y),
            score: 0,
        };
        r
    }

    /// A game on a board `width` by `height` cells, the ball served at random.
    pub fn new(width: u16, height: u16) -> (r: PongGame)
        requires
            height > FROM_BOUNDS_INDENT,
        ensures
            r.wf(),
            r.enemy == Plank::new_spec(width as int, FROM_BOUNDS_INDENT as int),
            r.player == Plank::new_spec(width as int, height - FROM_BOUNDS_INDENT - 1),
            r.score == 0,
            exists|dx: int, dy: int|
                0 <= dx < 19 && 0 <= dy < 19 && r.ball == ball_at_center(width as int, height as int, dx, dy),
    {
        let dx = random_below(19);
        let dy = random_below(19);
        Self::with_serve(width, height, dx, dy)
    }

    fn reset_positions(&mut self, width: u16, height: u16, draw_x: u32, draw_y: u32)
        requires
            draw_x < 19,
            draw_y < 19,
        ensures
            *final(self) == (PongGame {
                ball: ball_at_center(width as int, height as int, draw_x as int, draw_y as int),
                ..*old(self)
            }),
    {
        self.ball = Ball::new(width, height, draw_x, draw_y);
    }

    /// One update, with the draws for a new serve should a side score.
    #[verifier::rlimit(40)]
    pub fn update_with(
        &mut self,
        input: Option<Key>,
        delta_micros: u64,
        width: u16,
        height: u16,
        draw_x: u32,
        draw_y: u32,
    ) -> (r: UpdateEvent)
        requires
            old(self).wf(),
            delta_micros <= MAX_DELTA,
            draw_x < 19,
            draw_y < 19,
        ensures
            final(self).wf(),
            (*final(self), r) == update_spec(
                *old(self),
                input,
                delta_micros,
                width as int,
                height as int,
                draw_x as int,
                draw_y as int,
            ),
    {
        if input == Some(Key::Esc) {
            return UpdateEvent::GameOver;
        }
        let prev_player = self.player.position;
        match input {
            Some(Key::Left) => {
                self.player.position.x = self.player.position.x - PLAYER_SPEED;
            },
            Some(Key::Right) => {
                self.player.position.x = self.player.position.x + PLAYER_SPEED;
            },
            _ => {},
        }
        if !self.player.bounds_check(width, None) {
            self.player.position = prev_player;
        }
        let prev_enemy = self.enemy.position;
        let shift: i64 = ENEMY_SPEED * delta_micros as i64;
        if self.ball.position.x < self.enemy.position.x {
            self.enemy.position.x = self.enemy.position.x - shift;
        } else if self.ball.position.x > self.enemy.position.x {
            self.enemy.position.x = self.enemy.position.x + shift;
        }
        if !self.enemy.bounds_check(width, None) {
            self.enemy.position = prev_enemy;
        }
        let edge = self.step_ball(delta_micros, width, height);
        match edge {
            Some(BoundsCollision::Top) => {
                self.score = if self.score < i64::MAX { self.score + 1 } else { i64::MAX };
                self.reset_positions(width, height, draw_x, draw_y);
            },
            Some(BoundsCollision::Bottom) => {
                self.score = if self.score > i64::MIN { self.score - 1 } else { i64::MIN };
                self.reset_positions(width, height, draw_x, draw_y);
            },
            _ => {},
        }
        UpdateEvent::GameContinue
    }

    /// One update; a new serve, should a side score, is drawn at random.
    pub fn update(&mut self, input: Option<Key>, delta_micros: u64, width: u16, height: u16) -> (r: UpdateEvent)
        requires
            old(self).wf(),
            delta_micros <= MAX_DELTA,
        ensures
            final(self).wf(),
            exists|dx: int, dy: int|
                0 <= dx < 19 && 0 <= dy < 19 && (*final(self), r) == update_spec(
                    *old(self),
                    input,
                    delta_micros,
                    width as int,
                    height as int,
                    dx,
                    dy,
                ),
    {
        let dx = random_below(19);
        let dy = random_below(19);
        self.update_with(input, delta_micros, width, height, dx, dy)
    }

    pub fn get_score(&self) -> (r: Score)
        ensures
            r.value == self.score,
    {
        Score { value: self.score }
    }

    /// The ball's step of this update; returns the edge it would cross.
    fn step_ball(&mut self, delta_micros: u64, width: u16, height: u16) -> (edge: Option<BoundsCollision>)
        requires
            old(self).wf(),
            delta_micros <= MAX_DELTA,
        ensures
            final(self).wf(),
            (final(self).ball, edge) == ball_step(
                old(self).ball,
                old(self).enemy,
                old(self).player,
                delta_micros,
                width as int,
                height as int,
            ),
            final(self).enemy == old(self).enemy,
            final(self).player == old(self).player,
            final(self).score == old(self).score,
    {
        let prev = self.ball.position;
        let v = self.ball.velocity;
        let moved = Point {
            x: prev.x + displacement_exec(v.x, delta_micros),
            y: prev.y + displacement_exec(v.y, delta_micros),
        };
        let edge = moved.bounds_check(width, height);
        let wall = edge == Some(BoundsCollision::Left) || edge == Some(BoundsCollision::Right);
        let vx1 = if wall { -v.x } else { v.x };
        let pos1 = if wall { Point { x: prev.x, y: moved.y } } else { moved };
        let plank = if v.y < 0 { self.enemy } else { self.player };
        let hit = collides(&plank.position, plank.length, &prev, &pos1);
        let (vx2, vy2) = if hit {
            let bend = (pos1.x - plank.position.x) * VELOCITY_X_SCALE;
            let vy = trunc_div_exec(-(v.y as i128) * 11, 10);
            (clamp_exec(vx1 + bend), clamp_exec(clamp_i128(vy)))
        } else {
            (vx1, v.y)
        };
        let x = if wall { prev.x } else { clamp_p_exec(prev.x + displacement_exec(vx2, delta_micros)) };
        let y = clamp_p_exec(prev.y + displacement_exec(vy2, delta_micros));
        self.ball = Ball { position: Point { x, y }, velocity: Point { x: vx2, y: vy2 } };
        edge
    }
}

/// An `i128` within the velocity range, as `i64`.
fn clamp_i128(v: i128) -> (r: i64)
    ensures
        r == clamp_v(v as int),
{
    if v > VELOCITY_LIMIT as i128 {
        VELOCITY_LIMIT
    } else if v < -VELOCITY_LIMIT as i128 {
        -VELOCITY_LIMIT
    } else {
        v as i64
    }
}

impl Plank {
    pub open spec fn new_spec(w: int, y: int) -> Plank {
        Plank { position: pt(w * QUARTER_UNIT, y * UNIT), length: DEFAULT_LENGTH }
    }
}

} // verus!
