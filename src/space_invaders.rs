//! The shooting gallery: enemies driven by scripted retry chains, bullets
//! that fly along one axis, and collisions that take at most one victim per
//! bullet.
//!
//! Positions are screen cells: `x` counts character columns, two to a game
//! unit, and `y` counts rows. Every entity stands on such a cell.
use vstd::prelude::*;
use crate::game::{sat_add, Key, Score, UpdateEvent};
use crate::keep::{kept, lemma_kept_from, retain_kept};
use crate::point::{bounds_check, bounds_of, Cell};
use crate::rng::random_below;

verus! {

pub const FOR_ENEMY_SCORE: u64 = 1;
pub const FOR_PROP_SCORE: u64 = 0;
/// Rows between an enemy and the bullet it fires.
pub const FIRE_BULLET_OFFSET: i64 = 1;
/// Game units that the player moves by per key press.
pub const PLAYER_SPEED: i64 = 1;
/// Least time between two shots of the player, in nanoseconds.
pub const PLAYER_FIRE_RATE: u64 = 500_000_000;
/// Time between two ticks of enemies and bullets, in nanoseconds.
pub const GAME_UPDATE_INTERVAL: u64 = 100_000_000;
/// One second in nanoseconds: how long a move or a shot of an enemy takes.
pub const SECOND: u64 = 1_000_000_000;
/// The largest speed of an action or a bullet, in game units per tick.
pub const MAX_SPEED: i64 = 0x1_0000;
/// Bounds on coordinates that keep all arithmetic far from overflow.
pub const ENTITY_LIMIT: i64 = 0x10_0000;
pub const BULLET_LIMIT: i64 = 0x20_0000;
pub const REACH: i64 = 0x80_0000;

/// Decides at random, with `chance` percent of success.
pub fn is_success(chance: u32) -> (r: bool)
    requires
        chance <= 100,
    ensures
        chance == 0 ==> !r,
        chance == 100 ==> r,
{
    random_below(100) < chance
}

#[derive(Clone, Copy, Debug, PartialEq, Eq, Structural)]
pub enum Direction {
    Up,
    Down,
    Left,
    Right,
}

/// The cell reached from `p` by `units` game units in direction `d`.
pub open spec fn step(p: Cell, d: Direction, units: int) -> Cell {
    match d {
        Direction::Up => Cell { x: p.x, y: (p.y - units) as i64 },
        Direction::Down => Cell { x: p.x, y: (p.y + units) as i64 },
        Direction::Left => Cell { x: (p.x - 2 * units) as i64, y: p.y },
        Direction::Right => Cell { x: (p.x + 2 * units) as i64, y: p.y },
    }
}

pub open spec fn within(p: Cell, limit: i64) -> bool {
    -limit <= p.x <= limit && -limit <= p.y <= limit
}

fn step_cell(p: Cell, d: Direction, units: i64) -> (r: Cell)
    requires
        within(p, REACH),
        0 <= units <= MAX_SPEED,
    ensures
        r == step(p, d, units as int),
{
    match d {
        Direction::Up => Cell { x: p.x, y: p.y - units },
        Direction::Down => Cell { x: p.x, y: p.y + units },
        Direction::Left => Cell { x: p.x - 2 * units, y: p.y },
        Direction::Right => Cell { x: p.x + 2 * units, y: p.y },
    }
}

/// Two positions are close enough to touch: less than one game unit apart
/// across, on the same row.
pub open spec fn near(a: Cell, b: Cell) -> bool {
    -1 <= a.x - b.x <= 1 && a.y == b.y
}

pub fn is_near(a: Cell, b: Cell) -> (r: bool)
    requires
        within(a, REACH),
        within(b, REACH),
    ensures
        r == near(a, b),
{
    -1 <= a.x - b.x && a.x - b.x <= 1 && a.y == b.y
}

pub open spec fn in_screen(p: Cell, width: int, height: int) -> bool {
    bounds_of(p.x as int, p.y as int, width, height) is None
}

#[derive(Clone, Copy, Debug, PartialEq, Eq, Structural)]
pub struct Bullet {
    pub move_direction: Direction,
    pub position: Cell,
    /// Game units per tick.
    pub speed: i64,
}

#[derive(Clone, Copy, Debug, PartialEq, Eq, Structural)]
pub enum EnemyActionType {
    /// Move by the given number of game units.
    Move(Direction, i64),
    /// Fire a bullet of the given speed.
    Fire(Direction, i64),
    Wait,
}

#[derive(Clone, Copy, Debug, PartialEq, Eq, Structural)]
pub struct EnemyAction {
    pub action_type: EnemyActionType,
    /// Nanoseconds until the enemy acts again after this action.
    pub duration: u64,
    /// Percent chance that a trial of this action succeeds.
    pub chance: u32,
}

pub open spec fn action_ok(a: EnemyAction) -> bool {
    &&& a.chance <= 100
    &&& match a.action_type {
        EnemyActionType::Move(_, s) => 0 <= s <= MAX_SPEED,
        EnemyActionType::Fire(_, s) => 0 <= s <= MAX_SPEED,
        EnemyActionType::Wait => true,
    }
}

impl EnemyAction {
    pub fn new(action_type: EnemyActionType, duration: u64, chance: u32) -> (r: EnemyAction)
        requires
            chance <= 100,
        ensures
            r == (EnemyAction { action_type, duration, chance }),
    {
        EnemyAction { action_type, duration, chance }
    }

    fn move_by_one(direction: Direction, chance: u32) -> (r: EnemyAction)
        requires
            chance <= 100,
        ensures
            r == (EnemyAction { action_type: EnemyActionType::Move(direction, 1), duration: SECOND, chance }),
    {
        Self::new(EnemyActionType::Move(direction, 1), SECOND, chance)
    }

    pub fn left(chance: u32) -> (r: EnemyAction)
        requires
            chance <= 100,
        ensures
            r == (EnemyAction { action_type: EnemyActionType::Move(Direction::Left, 1), duration: SECOND, chance }),
    {
        Self::move_by_one(Direction::Left, chance)
    }

    pub fn right(chance: u32) -> (r: EnemyAction)
        requires
            chance <= 100,
        ensures
            r == (EnemyAction { action_type: EnemyActionType::Move(Direction::Right, 1), duration: SECOND, chance }),
    {
        Self::move_by_one(Direction::Right, chance)
    }

    pub fn up(chance: u32) -> (r: EnemyAction)
        requires
            chance <= 100,
        ensures
            r == (EnemyAction { action_type: EnemyActionType::Move(Direction::Up, 1), duration: SECOND, chance }),
    {
        Self::move_by_one(Direction::Up, chance)
    }

    pub fn down(chance: u32) -> (r: EnemyAction)
        requires
            chance <= 100,
        ensures
            r == (EnemyAction { action_type: EnemyActionType::Move(Direction::Down, 1), duration: SECOND, chance }),
    {
        Self::move_by_one(Direction::Down, chance)
    }

    pub fn wait(duration: u64, chance: u32) -> (r: EnemyAction)
        requires
            chance <= 100,
        ensures
            r == (EnemyAction { action_type: EnemyActionType::Wait, duration, chance }),
    {
        Self::new(EnemyActionType::Wait, duration, chance)
    }

    pub fn fire_down(chance: u32) -> (r: EnemyAction)
        requires
            chance <= 100,
        ensures
            r == (EnemyAction { action_type: EnemyActionType::Fire(Direction::Down, 1), duration: SECOND, chance }),
    {
        Self::new(EnemyActionType::Fire(Direction::Down, 1), SECOND, chance)
    }
}

/// A cyclic list of actions, the action to try first, and the time left
/// until the next evaluation.
pub struct EnemyBehavior {
    pub actions: Vec<EnemyAction>,
    pub to_next_move: u64,
    pub current_action: usize,
}

/// Counting round a cycle of `n` from below `2 * n`.
proof fn lemma_wrap(x: int, n: int)
    requires
        0 <= x < 2 * n,
    ensures
        x % n == (if x < n { x } else { x - n }),
{
    if x < n {
        vstd::arithmetic::div_mod::lemma_small_mod(x as nat, n as nat);
    } else {
        assert(x % n == x - n) by (nonlinear_arith)
            requires
                n <= x < 2 * n,
        {
            vstd::arithmetic::div_mod::lemma_fundamental_div_mod(x, n);
        }
    }
}

impl EnemyBehavior {
    pub open spec fn wf(&self) -> bool {
        &&& self.actions@.len() > 0
        &&& self.current_action < self.actions@.len()
        &&& forall|i: int| 0 <= i < self.actions@.len() ==> action_ok(#[trigger] self.actions@[i])
    }

    /// The `k`-th action counted from the current one, round the cycle.
    pub open spec fn action_at(&self, k: int) -> EnemyAction {
        self.actions@[(self.current_action + k) % (self.actions@.len() as int)]
    }

    pub fn new(actions: Vec<EnemyAction>, to_next_move: u64, current_action: usize) -> (r: EnemyBehavior)
        requires
            actions@.len() > 0,
            current_action < actions@.len(),
            forall|i: int| 0 <= i < actions@.len() ==> action_ok(#[trigger] actions@[i]),
        ensures
            r.wf(),
            r.actions@ == actions@,
            r.to_next_move == to_next_move,
            r.current_action == current_action,
    {
        EnemyBehavior { actions, to_next_move, current_action }
    }

    pub fn current_action(&self) -> (r: EnemyAction)
        requires
            self.wf(),
        ensures
            r == self.actions@[self.current_action as int],
    {
        self.actions[self.current_action]
    }

    pub fn next_action(&mut self)
        requires
            old(self).wf(),
        ensures
            final(self).wf(),
            final(self).actions == old(self).actions,
            final(self).to_next_move == old(self).to_next_move,
            final(self).current_action == (old(self).current_action + 1) % (old(self).actions@.len() as int),
    {
        let n = self.actions.len();
        proof {
            lemma_wrap((self.current_action + 1) as int, n as int);
        }
        if self.current_action + 1 >= n {
            self.current_action = 0;
        } else {
            self.current_action = self.current_action + 1;
        }
    }

    /// Counts the time down by `delta_time`, stopping at zero.
    pub fn delta(&mut self, delta_time: u64)
        ensures
            final(self).actions == old(self).actions,
            final(self).current_action == old(self).current_action,
            final(self).to_next_move == (if old(self).to_next_move < delta_time {
                0
            } else {
                old(self).to_next_move - delta_time
            }),
    {
        if self.to_next_move < delta_time {
            self.to_next_move = 0;
        } else {
            self.to_next_move = self.to_next_move - delta_time;
        }
    }
}

pub struct Enemy {
    pub position: Cell,
    pub behavior: EnemyBehavior,
}

#[derive(Clone, Copy, Debug, PartialEq, Eq, Structural)]
pub struct Prop {
    pub position: Cell,
    pub destroyable: bool,
}

#[derive(Clone, Copy, Debug, PartialEq, Eq, Structural)]
pub struct Player {
    pub position: Cell,
}

/// What an enemy's move is checked against: the positions of all enemies as
/// they stood before the tick, the props, the player and the screen.
pub struct Surroundings {
    pub enemies: Seq<Cell>,
    pub props: Seq<Cell>,
    pub player: Cell,
    pub width: int,
    pub height: int,
}

pub open spec fn clear_of(c: Cell, others: Seq<Cell>) -> bool {
    forall|i: int| 0 <= i < others.len() ==> !near(#[trigger] others[i], c)
}

/// A cell that an enemy may move to.
pub open spec fn free_for(c: Cell, w: Surroundings) -> bool {
    &&& in_screen(c, w.width, w.height)
    &&& clear_of(c, w.enemies)
    &&& clear_of(c, w.props)
    &&& !near(w.player, c)
}

pub open spec fn executable(a: EnemyAction, pos: Cell, w: Surroundings) -> bool {
    match a.action_type {
        EnemyActionType::Move(d, s) => free_for(step(pos, d, s as int), w),
        _ => true,
    }
}

/// The first `k` from `from` on, before a full cycle, whose trial succeeded
/// and whose action the enemy can carry out.
pub open spec fn first_taken(b: EnemyBehavior, pos: Cell, trials: Seq<bool>, w: Surroundings, from: int) -> Option<int>
    decreases b.actions@.len() - from,
{
    if from < 0 || from >= b.actions@.len() {
        None
    } else if trials[from] && executable(b.action_at(from), pos, w) {
        Some(from)
    } else {
        first_taken(b, pos, trials, w, from + 1)
    }
}

/// An enemy's turn in a tick, with `trials[k]` the outcome of the chance of
/// the `k`-th action counted from the current one. An enemy whose countdown
/// has not run out, or whose whole cycle fails, stays as it was. Otherwise
/// the first action taken is carried out, its duration becomes the
/// countdown, and the action after it becomes the current one.
pub open spec fn turn_spec(e: Enemy, trials: Seq<bool>, w: Surroundings) -> (Enemy, Option<Bullet>) {
    let b = e.behavior;
    if b.to_next_move != 0 {
        (e, None)
    } else {
        match first_taken(b, e.position, trials, w, 0) {
            None => (e, None),
            Some(k) => {
                let a = b.action_at(k);
                let pos = match a.action_type {
                    EnemyActionType::Move(d, s) => step(e.position, d, s as int),
                    _ => e.position,
                };
                let bullet = match a.action_type {
                    EnemyActionType::Fire(d, s) => Some(
                        Bullet {
                            move_direction: d,
                            position: Cell { x: e.position.x, y: (e.position.y + FIRE_BULLET_OFFSET) as i64 },
                            speed: s,
                        },
                    ),
                    _ => None,
                };
                (
                    Enemy {
                        position: pos,
                        behavior: EnemyBehavior {
                            actions: b.actions,
                            to_next_move: a.duration,
                            current_action: ((b.current_action + k + 1) % (b.actions@.len() as int)) as usize,
                        },
                    },
                    bullet,
                )
            },
        }
    }
}

/// A cycle in which no trial leads to an action leaves the enemy as it was,
/// its current action included.
pub proof fn lemma_failed_cycle_keeps_enemy(e: Enemy, trials: Seq<bool>, w: Surroundings)
    requires
        e.behavior.wf(),
        trials.len() == e.behavior.actions@.len(),
        forall|k: int|
            0 <= k < trials.len() ==> !trials[k] || !executable(
                #[trigger] e.behavior.action_at(k),
                e.position,
                w,
            ),
    ensures
        turn_spec(e, trials, w) == (e, None::<Bullet>),
{
    lemma_none_taken(e.behavior, e.position, trials, w, 0);
}

proof fn lemma_none_taken(b: EnemyBehavior, pos: Cell, trials: Seq<bool>, w: Surroundings, from: int)
    requires
        0 <= from,
        trials.len() == b.actions@.len(),
        forall|k: int| 0 <= k < trials.len() ==> !trials[k] || !executable(#[trigger] b.action_at(k), pos, w),
    ensures
        first_taken(b, pos, trials, w, from) is None,
    decreases b.actions@.len() - from,
{
    if from < b.actions@.len() {
        assert(!trials[from] || !executable(b.action_at(from), pos, w));
        lemma_none_taken(b, pos, trials, w, from + 1);
    }
}

proof fn lemma_first_taken_ok(b: EnemyBehavior, pos: Cell, trials: Seq<bool>, w: Surroundings, from: int)
    requires
        first_taken(b, pos, trials, w, from) is Some,
    ensures
        ({
            let j = first_taken(b, pos, trials, w, from)->0;
            from <= j < b.actions@.len() && trials[j] && executable(b.action_at(j), pos, w)
        }),
    decreases b.actions@.len() - from,
{
    if from >= 0 && from < b.actions@.len() && !(trials[from] && executable(b.action_at(from), pos, w)) {
        lemma_first_taken_ok(b, pos, trials, w, from + 1);
    }
}

pub open spec fn enemy_ok(e: Enemy) -> bool {
    e.behavior.wf() && within(e.position, ENTITY_LIMIT)
}

fn clear_of_cells(c: Cell, others: &Vec<Cell>) -> (r: bool)
    requires
        within(c, REACH),
        forall|i: int| 0 <= i < others@.len() ==> within(#[trigger] others@[i], REACH),
    ensures
        r == clear_of(c, others@),
{
    let mut i: usize = 0;
    while i < others.len()
        invariant
            i <= others@.len(),
            within(c, REACH),
            forall|j: int| 0 <= j < others@.len() ==> within(#[trigger] others@[j], REACH),
            forall|j: int| 0 <= j < i ==> !near(#[trigger] others@[j], c),
        decreases others@.len() - i,
    {
        if is_near(others[i], c) {
            return false;
        }
        i += 1;
    }
    true
}

pub open spec fn cells_within(s: Seq<Cell>, limit: i64) -> bool {
    forall|i: int| 0 <= i < s.len() ==> within(#[trigger] s[i], limit)
}

fn is_free_for(c: Cell, others: &Vec<Cell>, props: &Vec<Cell>, player: Cell, width: u16, height: u16) -> (r: bool)
    requires
        within(c, REACH),
        within(player, REACH),
        cells_within(others@, REACH),
        cells_within(props@, REACH),
    ensures
        r == free_for(
            c,
            Surroundings { enemies: others@, props: props@, player, width: width as int, height: height as int },
        ),
{
    bounds_check(c.x, c.y, width, height).is_none() && clear_of_cells(c, others) && clear_of_cells(c, props)
        && !is_near(player, c)
}

impl Enemy {
    /// This enemy's turn in a tick, against the given surroundings.
    pub fn take_turn(
        &mut self,
        trials: &Vec<bool>,
        others: &Vec<Cell>,
        props: &Vec<Cell>,
        player: Cell,
        width: u16,
        height: u16,
    ) -> (r: Option<Bullet>)
        requires
            enemy_ok(*old(self)),
            trials@.len() == old(self).behavior.actions@.len(),
            within(player, ENTITY_LIMIT),
            cells_within(others@, ENTITY_LIMIT),
            cells_within(props@, ENTITY_LIMIT),
        ensures
            enemy_ok(*final(self)),
            r is Some ==> within(r->0.position, BULLET_LIMIT) && 0 <= r->0.speed <= MAX_SPEED,
            (*final(self), r) == turn_spec(
                *old(self),
                trials@,
                Surroundings { enemies: others@, props: props@, player, width: width as int, height: height as int },
            ),
    {
        let ghost w = Surroundings {
            enemies: others@,
            props: props@,
            player,
            width: width as int,
            height: height as int,
        };
        if self.behavior.to_next_move != 0 {
            return None;
        }
        let n = self.behavior.actions.len();
        let start = self.behavior.current_action;
        let mut k: usize = 0;
        let mut found = false;
        let mut j: usize = 0;
        while k < n && !found
            invariant
                n == self.behavior.actions@.len(),
                *self == *old(self),
                enemy_ok(*self),
                self.behavior.to_next_move == 0,
                start == self.behavior.current_action,
                trials@.len() == n,
                k <= n,
                within(player, ENTITY_LIMIT),
                cells_within(others@, ENTITY_LIMIT),
                cells_within(props@, ENTITY_LIMIT),
                !found ==> first_taken(self.behavior, self.position, trials@, w, 0) == first_taken(
                    self.behavior,
                    self.position,
                    trials@,
                    w,
                    k as int,
                ),
                w == (Surroundings {
                    enemies: others@,
                    props: props@,
                    player,
                    width: width as int,
                    height: height as int,
                }),
                found ==> j < n && first_taken(self.behavior, self.position, trials@, w, 0) == Some(j as int),
            decreases n - k + (if found { 0int } else { 1int }),
        {
            proof {
                lemma_wrap((start + k) as int, n as int);
            }
            let idx: usize = if k < n - start { start + k } else { k - (n - start) };
            let a = self.behavior.actions[idx];
            assert(action_ok(self.behavior.actions@[idx as int]));
            assert(a == self.behavior.action_at(k as int));
            let can = match a.action_type {
                EnemyActionType::Move(d, s) => {
                    let target = step_cell(self.position, d, s);
                    let free = is_free_for(target, others, props, player, width, height);
                    assert(free == executable(a, self.position, w));
                    free
                },
                _ => true,
            };
            if trials[k] && can {
                assert(first_taken(self.behavior, self.position, trials@, w, k as int) == Some(k as int));
                found = true;
                j = k;
            } else {
                assert(first_taken(self.behavior, self.position, trials@, w, k as int) == first_taken(
                    self.behavior,
                    self.position,
                    trials@,
                    w,
                    k + 1,
                ));
                k += 1;
            }
        }
        if !found {
            assert(first_taken(self.behavior, self.position, trials@, w, n as int) is None);
            None
        } else {
            proof {
                lemma_wrap((start + j) as int, n as int);
            }
            let idx: usize = if j < n - start { start + j } else { j - (n - start) };
            let a = self.behavior.actions[idx];
            assert(a == self.behavior.action_at(j as int));
            assert(action_ok(self.behavior.actions@[idx as int]));
            proof {
                lemma_first_taken_ok(self.behavior, self.position, trials@, w, 0);
            }
            proof {
                lemma_wrap((start + j + 1) as int, n as int);
            }
            let next: usize = if j + 1 < n - start { start + j + 1 } else { j + 1 - (n - start) };
            self.behavior.to_next_move = a.duration;
            self.behavior.current_action = next;
            match a.action_type {
                EnemyActionType::Move(d, s) => {
                    self.position = step_cell(self.position, d, s);
                    None
                },
                EnemyActionType::Fire(d, s) => Some(
                    Bullet {
                        move_direction: d,
                        position: Cell { x: self.position.x, y: self.position.y + FIRE_BULLET_OFFSET },
                        speed: s,
                    },
                ),
                EnemyActionType::Wait => None,
            }
        }
    }
}


/// What a bullet hit in a tick.
#[derive(Clone, Copy, Debug, PartialEq, Eq, Structural)]
pub enum Victim {
    Nothing,
    Enemy(usize),
    Prop(usize),
}

/// The target `j` (an enemy if `enemy`, else a prop) was hit by one of the
/// bullets resolved so far.
pub open spec fn taken(v: Seq<Victim>, j: int, enemy: bool) -> bool {
    exists|b: int|
        0 <= b < v.len() && #[trigger] v[b] == (if enemy {
            Victim::Enemy(j as usize)
        } else {
            Victim::Prop(j as usize)
        })
}

/// The first target from `from` on that is not yet hit and is near `p`, or
/// the number of targets if there is none.
pub open spec fn first_free_near(v: Seq<Victim>, cells: Seq<Cell>, p: Cell, from: int, enemy: bool) -> int
    decreases cells.len() - from,
{
    if from < 0 || from >= cells.len() {
        cells.len() as int
    } else if !taken(v, from, enemy) && near(p, cells[from]) {
        from
    } else {
        first_free_near(v, cells, p, from + 1, enemy)
    }
}

/// A bullet at `p` hits the first enemy near it that no earlier bullet hit;
/// failing that, the first such prop; failing that, nothing.
pub open spec fn victim_for(v: Seq<Victim>, p: Cell, enemies: Seq<Cell>, props: Seq<Cell>) -> Victim {
    let j = first_free_near(v, enemies, p, 0, true);
    if j < enemies.len() {
        Victim::Enemy(j as usize)
    } else {
        let k = first_free_near(v, props, p, 0, false);
        if k < props.len() {
            Victim::Prop(k as usize)
        } else {
            Victim::Nothing
        }
    }
}

/// The victims of the first `n` bullets, resolved one bullet at a time.
pub open spec fn victims(bullets: Seq<Cell>, enemies: Seq<Cell>, props: Seq<Cell>, n: nat) -> Seq<Victim>
    decreases n,
{
    if n == 0 {
        Seq::empty()
    } else {
        let v = victims(bullets, enemies, props, (n - 1) as nat);
        v.push(victim_for(v, bullets[n - 1], enemies, props))
    }
}

proof fn lemma_victims_len(bullets: Seq<Cell>, enemies: Seq<Cell>, props: Seq<Cell>, n: nat)
    ensures
        victims(bullets, enemies, props, n).len() == n,
    decreases n,
{
    if n > 0 {
        lemma_victims_len(bullets, enemies, props, (n - 1) as nat);
    }
}

/// The target found is free and near, and comes at or after `from`.
proof fn lemma_first_free_near(v: Seq<Victim>, cells: Seq<Cell>, p: Cell, from: int, enemy: bool)
    requires
        0 <= from,
    ensures
        from <= first_free_near(v, cells, p, from, enemy) <= cells.len() || from > cells.len(),
        first_free_near(v, cells, p, from, enemy) < cells.len() ==> {
            let j = first_free_near(v, cells, p, from, enemy);
            !taken(v, j, enemy) && near(p, cells[j])
        },
    decreases cells.len() - from,
{
    if from < cells.len() && !(!taken(v, from, enemy) && near(p, cells[from])) {
        lemma_first_free_near(v, cells, p, from + 1, enemy);
    }
}

/// Every victim names a target that exists.
proof fn lemma_victims_valid(bullets: Seq<Cell>, enemies: Seq<Cell>, props: Seq<Cell>, n: nat)
    requires
        enemies.len() <= usize::MAX,
        props.len() <= usize::MAX,
    ensures
        forall|b: int|
            0 <= b < victims(bullets, enemies, props, n).len() ==> match #[trigger] victims(
                bullets,
                enemies,
                props,
                n,
            )[b] {
                Victim::Enemy(j) => j < enemies.len(),
                Victim::Prop(k) => k < props.len(),
                Victim::Nothing => true,
            },
    decreases n,
{
    if n > 0 {
        lemma_victims_valid(bullets, enemies, props, (n - 1) as nat);
        let v = victims(bullets, enemies, props, (n - 1) as nat);
        let w = victims(bullets, enemies, props, n);
        assert forall|b: int| 0 <= b < w.len() implies match #[trigger] w[b] {
            Victim::Enemy(j) => j < enemies.len(),
            Victim::Prop(k) => k < props.len(),
            Victim::Nothing => true,
        } by {
            if b < v.len() {
                assert(w[b] == v[b]);
            } else {
                lemma_first_free_near(v, enemies, bullets[n - 1], 0, true);
                lemma_first_free_near(v, props, bullets[n - 1], 0, false);
            }
        }
    }
}

proof fn lemma_victims_prefix(bullets: Seq<Cell>, enemies: Seq<Cell>, props: Seq<Cell>, n: nat, m: nat)
    requires
        m <= n,
    ensures
        victims(bullets, enemies, props, n).take(m as int) == victims(bullets, enemies, props, m),
    decreases n,
{
    lemma_victims_len(bullets, enemies, props, n);
    lemma_victims_len(bullets, enemies, props, m);
    if m < n {
        lemma_victims_len(bullets, enemies, props, (n - 1) as nat);
        lemma_victims_prefix(bullets, enemies, props, (n - 1) as nat, m);
        assert(victims(bullets, enemies, props, n).take(m as int) =~= victims(
            bullets,
            enemies,
            props,
            (n - 1) as nat,
        ).take(m as int));
    } else {
        assert(victims(bullets, enemies, props, n).take(m as int) =~= victims(bullets, enemies, props, n));
    }
}

/// The victim of bullet `b` is near it, and it is not the victim of an
/// earlier bullet `c`.
proof fn lemma_later_victim(bullets: Seq<Cell>, enemies: Seq<Cell>, props: Seq<Cell>, c: int, b: int)
    requires
        0 <= c < b < bullets.len(),
        enemies.len() <= usize::MAX,
        props.len() <= usize::MAX,
    ensures
        ({
            let v = victims(bullets, enemies, props, bullets.len());
            v[b] != Victim::Nothing ==> v[b] != v[c]
        }),
{
    let n = bullets.len();
    let v = victims(bullets, enemies, props, n);
    let vb = victims(bullets, enemies, props, b as nat);
    lemma_victims_len(bullets, enemies, props, n);
    lemma_victims_len(bullets, enemies, props, b as nat);
    lemma_victims_prefix(bullets, enemies, props, n, (b + 1) as nat);
    lemma_victims_prefix(bullets, enemies, props, n, b as nat);
    assert(v[b] == victims(bullets, enemies, props, (b + 1) as nat)[b]);
    assert(v[c] == vb[c]);
    lemma_first_free_near(vb, enemies, bullets[b], 0, true);
    lemma_first_free_near(vb, props, bullets[b], 0, false);
    match v[b] {
        Victim::Enemy(j) => {
            if v[c] == v[b] {
                assert(taken(vb, j as int, true));
            }
        },
        Victim::Prop(k) => {
            if v[c] == v[b] {
                assert(taken(vb, k as int, false));
            }
        },
        Victim::Nothing => {},
    }
}

/// At most one victim per bullet and at most one bullet per victim: the
/// victim of a bullet is near it and is the victim of no other bullet of
/// the tick; the bullet is flagged as hit, and so is the enemy or the prop
/// it hit, so that both are gone after the same tick.
pub proof fn lemma_one_victim_per_bullet(bullets: Seq<Cell>, enemies: Seq<Cell>, props: Seq<Cell>, b: int)
    requires
        0 <= b < bullets.len(),
        enemies.len() <= usize::MAX,
        props.len() <= usize::MAX,
    ensures
        ({
            let v = victims(bullets, enemies, props, bullets.len());
            &&& forall|c: int| 0 <= c < bullets.len() && c != b && v[b] != Victim::Nothing ==> #[trigger] v[c] != v[b]
            &&& match v[b] {
                Victim::Enemy(j) => j < enemies.len() && near(bullets[b], enemies[j as int]) && taken(v, j as int, true),
                Victim::Prop(k) => k < props.len() && near(bullets[b], props[k as int]) && taken(v, k as int, false),
                Victim::Nothing => true,
            }
        }),
{
    let n = bullets.len();
    let v = victims(bullets, enemies, props, n);
    assert forall|c: int| 0 <= c < bullets.len() && c != b && v[b] != Victim::Nothing implies #[trigger] v[c] != v[b] by {
        if c < b {
            lemma_later_victim(bullets, enemies, props, c, b);
        } else {
            lemma_later_victim(bullets, enemies, props, b, c);
        }
    }
    let vb = victims(bullets, enemies, props, b as nat);
    lemma_victims_len(bullets, enemies, props, n);
    lemma_victims_len(bullets, enemies, props, b as nat);
    lemma_victims_prefix(bullets, enemies, props, n, (b + 1) as nat);
    assert(v[b] == victims(bullets, enemies, props, (b + 1) as nat)[b]);
    lemma_first_free_near(vb, enemies, bullets[b], 0, true);
    lemma_first_free_near(vb, props, bullets[b], 0, false);
    match v[b] {
        Victim::Enemy(j) => {
            assert(v[b] == Victim::Enemy(j));
        },
        Victim::Prop(k) => {
            assert(v[b] == Victim::Prop(k));
        },
        Victim::Nothing => {},
    }
}

pub open spec fn bullet_cells(s: Seq<Bullet>) -> Seq<Cell> {
    s.map_values(|b: Bullet| b.position)
}

pub open spec fn enemy_cells(s: Seq<Enemy>) -> Seq<Cell> {
    s.map_values(|e: Enemy| e.position)
}

pub open spec fn prop_cells(s: Seq<Prop>) -> Seq<Cell> {
    s.map_values(|p: Prop| p.position)
}

proof fn lemma_taken_push(v: Seq<Victim>, x: Victim, j: int, enemy: bool)
    requires
        0 <= j <= usize::MAX,
    ensures
        taken(v.push(x), j, enemy) == (taken(v, j, enemy) || x == (if enemy {
            Victim::Enemy(j as usize)
        } else {
            Victim::Prop(j as usize)
        })),
{
    let w = v.push(x);
    let t = if enemy { Victim::Enemy(j as usize) } else { Victim::Prop(j as usize) };
    if taken(v, j, enemy) {
        let b = choose|b: int| 0 <= b < v.len() && #[trigger] v[b] == t;
        assert(w[b] == t);
    }
    if x == t {
        assert(w[v.len() as int] == t);
    }
    if taken(w, j, enemy) {
        let b = choose|b: int| 0 <= b < w.len() && #[trigger] w[b] == t;
        if b < v.len() {
            assert(v[b] == t);
        }
    }
}

/// Scans the targets for the first one near `p` that is not yet hit.
fn find_free_near(hit: &Vec<bool>, cells: &Vec<Cell>, p: Cell, v: Ghost<Seq<Victim>>, enemy: bool) -> (r: usize)
    requires
        hit@.len() == cells@.len(),
        forall|j: int| 0 <= j < hit@.len() ==> #[trigger] hit@[j] == taken(v@, j, enemy),
        cells_within(cells@, REACH),
        within(p, REACH),
    ensures
        r == first_free_near(v@, cells@, p, 0, enemy),
{
    let mut j: usize = 0;
    while j < cells.len()
        invariant
            hit@.len() == cells@.len(),
            forall|i: int| 0 <= i < hit@.len() ==> #[trigger] hit@[i] == taken(v@, i, enemy),
            cells_within(cells@, REACH),
            within(p, REACH),
            j <= cells@.len(),
            first_free_near(v@, cells@, p, 0, enemy) == first_free_near(v@, cells@, p, j as int, enemy),
        decreases cells@.len() - j,
    {
        if !hit[j] && is_near(p, cells[j]) {
            return j;
        }
        j += 1;
    }
    j
}

/// Resolves the collisions of a tick: the victim of each bullet, and which
/// enemies and props were hit.
fn resolve_collisions(bullets: &Vec<Cell>, enemies: &Vec<Cell>, props: &Vec<Cell>) -> (r: (
    Vec<Victim>,
    Vec<bool>,
    Vec<bool>,
))
    requires
        cells_within(bullets@, REACH),
        cells_within(enemies@, REACH),
        cells_within(props@, REACH),
    ensures
        r.0@ == victims(bullets@, enemies@, props@, bullets@.len()),
        r.1@ == Seq::new(enemies@.len(), |j: int| taken(r.0@, j, true)),
        r.2@ == Seq::new(props@.len(), |j: int| taken(r.0@, j, false)),
{
    let mut v: Vec<Victim> = Vec::new();
    let mut enemy_hit: Vec<bool> = Vec::new();
    let mut prop_hit: Vec<bool> = Vec::new();
    let mut i: usize = 0;
    while i < enemies.len()
        invariant
            i <= enemies@.len(),
            enemy_hit@.len() == i,
            forall|j: int| 0 <= j < i ==> !#[trigger] enemy_hit@[j],
        decreases enemies@.len() - i,
    {
        enemy_hit.push(false);
        i += 1;
    }
    i = 0;
    while i < props.len()
        invariant
            i <= props@.len(),
            prop_hit@.len() == i,
            forall|j: int| 0 <= j < i ==> !#[trigger] prop_hit@[j],
        decreases props@.len() - i,
    {
        prop_hit.push(false);
        i += 1;
    }
    let ne = enemies.len();
    let np = props.len();
    let mut b: usize = 0;
    while b < bullets.len()
        invariant
            ne == enemies@.len(),
            np == props@.len(),
            cells_within(bullets@, REACH),
            cells_within(enemies@, REACH),
            cells_within(props@, REACH),
            b <= bullets@.len(),
            v@ == victims(bullets@, enemies@, props@, b as nat),
            enemy_hit@.len() == enemies@.len(),
            prop_hit@.len() == props@.len(),
            forall|j: int| 0 <= j < enemy_hit@.len() ==> #[trigger] enemy_hit@[j] == taken(v@, j, true),
            forall|j: int| 0 <= j < prop_hit@.len() ==> #[trigger] prop_hit@[j] == taken(v@, j, false),
        decreases bullets@.len() - b,
    {
        let p = bullets[b];
        let ghost v0 = v@;
        let je = find_free_near(&enemy_hit, enemies, p, Ghost(v@), true);
        let x = if je < enemies.len() {
            Victim::Enemy(je)
        } else {
            let jp = find_free_near(&prop_hit, props, p, Ghost(v@), false);
            if jp < props.len() {
                Victim::Prop(jp)
            } else {
                Victim::Nothing
            }
        };
        assert(x == victim_for(v0, bullets@[b as int], enemies@, props@));
        v.push(x);
        match x {
            Victim::Enemy(j) => {
                enemy_hit.set(j, true);
            },
            Victim::Prop(j) => {
                prop_hit.set(j, true);
            },
            Victim::Nothing => {},
        }
        proof {
            assert forall|j: int| 0 <= j < enemy_hit@.len() implies #[trigger] enemy_hit@[j] == taken(v@, j, true) by {
                lemma_taken_push(v0, x, j, true);
            }
            assert forall|j: int| 0 <= j < prop_hit@.len() implies #[trigger] prop_hit@[j] == taken(v@, j, false) by {
                lemma_taken_push(v0, x, j, false);
            }
        }
        b += 1;
    }
    assert(enemy_hit@ =~= Seq::new(enemies@.len(), |j: int| taken(v@, j, true)));
    assert(prop_hit@ =~= Seq::new(props@.len(), |j: int| taken(v@, j, false)));
    (v, enemy_hit, prop_hit)
}


pub open spec fn counted_down(e: Enemy, dt: u64) -> Enemy {
    Enemy {
        position: e.position,
        behavior: EnemyBehavior {
            actions: e.behavior.actions,
            to_next_move: if e.behavior.to_next_move < dt {
                0
            } else {
                (e.behavior.to_next_move - dt) as u64
            },
            current_action: e.behavior.current_action,
        },
    }
}

pub open spec fn moved_bullet(b: Bullet) -> Bullet {
    Bullet {
        move_direction: b.move_direction,
        position: step(b.position, b.move_direction, b.speed as int),
        speed: b.speed,
    }
}

/// Where the player asks to go.
pub open spec fn player_target(p: Cell, input: Option<Key>) -> Option<Cell> {
    match input {
        Some(Key::Left) => Some(step(p, Direction::Left, PLAYER_SPEED as int)),
        Some(Key::Right) => Some(step(p, Direction::Right, PLAYER_SPEED as int)),
        _ => None,
    }
}

/// The score that each victim earns.
pub open spec fn award(x: Victim, props: Seq<Prop>) -> int {
    match x {
        Victim::Enemy(_) => FOR_ENEMY_SCORE as int,
        Victim::Prop(k) => if props[k as int].destroyable { FOR_PROP_SCORE as int } else { 0 },
        Victim::Nothing => 0,
    }
}

pub open spec fn score_after(score: u64, v: Seq<Victim>, props: Seq<Prop>, n: nat) -> u64
    decreases n,
{
    if n == 0 {
        score
    } else {
        sat_add(score_after(score, v, props, (n - 1) as nat), award(v[n - 1], props))
    }
}

/// The bullets that the first `n` enemies fire in their turns, in order.
pub open spec fn fired(es: Seq<Enemy>, trials: Seq<Seq<bool>>, w: Surroundings, n: nat) -> Seq<Bullet>
    decreases n,
{
    if n == 0 {
        Seq::empty()
    } else {
        let rest = fired(es, trials, w, (n - 1) as nat);
        match turn_spec(es[n - 1], trials[n - 1], w).1 {
            Some(b) => rest.push(b),
            None => rest,
        }
    }
}

/// Some bullet touches the player.
pub open spec fn touched(player: Cell, bullets: Seq<Bullet>) -> bool {
    exists|b: int| 0 <= b < bullets.len() && near(player, #[trigger] bullets[b].position)
}

/// The state of a shooting game as the rules see it.
pub struct SpaceInvadersView {
    pub score: u64,
    pub bullets: Seq<Bullet>,
    pub enemies: Seq<Enemy>,
    pub props: Seq<Prop>,
    pub player: Cell,
    pub from_last_update: u64,
    pub from_last_fire: u64,
}

/// What happens every frame: the timers advance, the player fires if the
/// fire rate allows and moves if the target cell is on screen and clear of
/// props and enemies. Also says whether a bullet touches the player.
pub open spec fn frame_spec(s: SpaceInvadersView, input: Option<Key>, dt: u64, width: int, height: int) -> (SpaceInvadersView, bool) {
    let enemies = Seq::new(s.enemies.len(), |i: int| counted_down(s.enemies[i], dt));
    let flf = sat_add(s.from_last_fire, dt as int);
    let fires = input == Some(Key::Char(' ')) && flf > PLAYER_FIRE_RATE;
    let bullets = if fires {
        s.bullets.push(
            Bullet {
                move_direction: Direction::Up,
                position: Cell { x: s.player.x, y: (s.player.y - 1) as i64 },
                speed: 1,
            },
        )
    } else {
        s.bullets
    };
    let target = player_target(s.player, input);
    let player = if target is Some && in_screen(target->0, width, height) && clear_of(
        target->0,
        prop_cells(s.props),
    ) && clear_of(target->0, enemy_cells(enemies)) {
        target->0
    } else {
        s.player
    };
    (
        SpaceInvadersView {
            score: s.score,
            bullets,
            enemies,
            props: s.props,
            player,
            from_last_update: sat_add(s.from_last_update, dt as int),
            from_last_fire: if fires { 0 } else { flf },
        },
        touched(player, bullets),
    )
}

pub open spec fn surroundings_of(s: SpaceInvadersView, width: int, height: int) -> Surroundings {
    Surroundings {
        enemies: enemy_cells(s.enemies),
        props: prop_cells(s.props),
        player: s.player,
        width,
        height,
    }
}

pub open spec fn off_screen_flags(bs: Seq<Bullet>, width: int, height: int) -> Seq<bool> {
    bs.map_values(|b: Bullet| !in_screen(b.position, width, height))
}

/// A tick: enemies take their turns against the positions of before the
/// tick, bullets fly and leave the screen, and each bullet takes at most one
/// victim; bullets that hit, enemies hit and destroyable props hit are gone.
pub open spec fn tick_spec(s: SpaceInvadersView, trials: Seq<Seq<bool>>, width: int, height: int) -> SpaceInvadersView {
    let w = surroundings_of(s, width, height);
    let enemies = Seq::new(s.enemies.len(), |i: int| turn_spec(s.enemies[i], trials[i], w).0);
    let shot = s.bullets + fired(s.enemies, trials, w, s.enemies.len());
    let moved = shot.map_values(|b: Bullet| moved_bullet(b));
    let flying = kept(moved, off_screen_flags(moved, width, height));
    let v = victims(bullet_cells(flying), enemy_cells(enemies), prop_cells(s.props), flying.len());
    SpaceInvadersView {
        score: score_after(s.score, v, s.props, v.len()),
        bullets: kept(flying, v.map_values(|x: Victim| x != Victim::Nothing)),
        enemies: kept(enemies, Seq::new(enemies.len(), |j: int| taken(v, j, true))),
        props: kept(s.props, Seq::new(s.props.len(), |j: int| taken(v, j, false) && s.props[j].destroyable)),
        player: s.player,
        from_last_update: 0,
        from_last_fire: s.from_last_fire,
    }
}

/// One update: the frame part, then a tick once the update interval has
/// passed. The game ends when a bullet touches the player, on the quit key,
/// or when no enemy is left.
pub open spec fn update_spec(
    s: SpaceInvadersView,
    input: Option<Key>,
    dt: u64,
    width: int,
    height: int,
    trials: Seq<Seq<bool>>,
) -> (SpaceInvadersView, UpdateEvent) {
    let (f, collided) = frame_spec(s, input, dt, width, height);
    let t = if f.from_last_update > GAME_UPDATE_INTERVAL {
        tick_spec(f, trials, width, height)
    } else {
        f
    };
    let quit = input == Some(Key::Char('q'));
    (t, if collided || quit || t.enemies.len() == 0 { UpdateEvent::GameOver } else { UpdateEvent::GameContinue })
}

/// One outcome of a chance for each action of each enemy.
pub open spec fn trials_fit(trials: Seq<Vec<bool>>, es: Seq<Enemy>) -> bool {
    &&& trials.len() == es.len()
    &&& forall|i: int| 0 <= i < es.len() ==> (#[trigger] trials[i])@.len() == es[i].behavior.actions@.len()
}

/// A trial of an action whose chance is certain succeeds, and one of an
/// action without chance fails; `t[k]` is the trial of the `k`-th action
/// counted from the current one.
pub open spec fn trial_follows_chances(t: Seq<bool>, b: EnemyBehavior) -> bool {
    forall|k: int|
        0 <= k < t.len() ==> (b.action_at(k).chance == 100 ==> #[trigger] t[k]) && (b.action_at(k).chance == 0
            ==> !t[k])
}

pub open spec fn trials_follow_chances(trials: Seq<Vec<bool>>, es: Seq<Enemy>) -> bool {
    forall|i: int| 0 <= i < es.len() && i < trials.len() ==> trial_follows_chances(#[trigger] trials[i]@, es[i].behavior)
}

pub open spec fn trial_seqs(trials: Seq<Vec<bool>>) -> Seq<Seq<bool>> {
    trials.map_values(|t: Vec<bool>| t@)
}

pub struct SpaceInvadersGame {
    pub score: u64,
    pub bullets: Vec<Bullet>,
    pub enemies: Vec<Enemy>,
    pub props: Vec<Prop>,
    pub player: Player,
    /// Time since the last tick, in nanoseconds.
    pub from_last_update: u64,
    /// Time since the player last fired, in nanoseconds.
    pub from_last_fire: u64,
}

impl View for SpaceInvadersGame {
    type V = SpaceInvadersView;

    open spec fn view(&self) -> SpaceInvadersView {
        SpaceInvadersView {
            score: self.score,
            bullets: self.bullets@,
            enemies: self.enemies@,
            props: self.props@,
            player: self.player.position,
            from_last_update: self.from_last_update,
            from_last_fire: self.from_last_fire,
        }
    }
}

fn enemy_positions(es: &Vec<Enemy>) -> (r: Vec<Cell>)
    ensures
        r@ == enemy_cells(es@),
{
    let mut r: Vec<Cell> = Vec::new();
    let mut i: usize = 0;
    while i < es.len()
        invariant
            i <= es@.len(),
            r@ == enemy_cells(es@.take(i as int)),
        decreases es@.len() - i,
    {
        r.push(es[i].position);
        i += 1;
        assert(r@ =~= enemy_cells(es@.take(i as int)));
    }
    assert(es@.take(i as int) =~= es@);
    r
}

fn prop_positions(ps: &Vec<Prop>) -> (r: Vec<Cell>)
    ensures
        r@ == prop_cells(ps@),
{
    let mut r: Vec<Cell> = Vec::new();
    let mut i: usize = 0;
    while i < ps.len()
        invariant
            i <= ps@.len(),
            r@ == prop_cells(ps@.take(i as int)),
        decreases ps@.len() - i,
    {
        r.push(ps[i].position);
        i += 1;
        assert(r@ =~= prop_cells(ps@.take(i as int)));
    }
    assert(ps@.take(i as int) =~= ps@);
    r
}

fn bullet_positions(bs: &Vec<Bullet>) -> (r: Vec<Cell>)
    ensures
        r@ == bullet_cells(bs@),
{
    let mut r: Vec<Cell> = Vec::new();
    let mut i: usize = 0;
    while i < bs.len()
        invariant
            i <= bs@.len(),
            r@ == bullet_cells(bs@.take(i as int)),
        decreases bs@.len() - i,
    {
        r.push(bs[i].position);
        i += 1;
        assert(r@ =~= bullet_cells(bs@.take(i as int)));
    }
    assert(bs@.take(i as int) =~= bs@);
    r
}

/// Some bullet touches the player.
fn touches(player: Cell, bullets: &Vec<Bullet>) -> (r: bool)
    requires
        within(player, ENTITY_LIMIT),
        forall|i: int| 0 <= i < bullets@.len() ==> within((#[trigger] bullets@[i]).position, BULLET_LIMIT),
    ensures
        r == touched(player, bullets@),
{
    let mut b: usize = 0;
    while b < bullets.len()
        invariant
            within(player, ENTITY_LIMIT),
            forall|i: int| 0 <= i < bullets@.len() ==> within((#[trigger] bullets@[i]).position, BULLET_LIMIT),
            b <= bullets@.len(),
            forall|j: int| 0 <= j < b ==> !near(player, #[trigger] bullets@[j].position),
        decreases bullets@.len() - b,
    {
        if is_near(player, bullets[b].position) {
            assert(near(player, bullets@[b as int].position));
            return true;
        }
        b += 1;
    }
    false
}

impl SpaceInvadersGame {
    /// Every position and speed stays far from the ends of `i64`, and every
    /// enemy's behavior is well formed.
    pub open spec fn wf(&self) -> bool {
        &&& forall|i: int| 0 <= i < self.enemies@.len() ==> enemy_ok(#[trigger] self.enemies@[i])
        &&& forall|i: int|
            0 <= i < self.bullets@.len() ==> within((#[trigger] self.bullets@[i]).position, BULLET_LIMIT) && 0
                <= self.bullets@[i].speed <= MAX_SPEED
        &&& forall|i: int| 0 <= i < self.props@.len() ==> within((#[trigger] self.props@[i]).position, ENTITY_LIMIT)
        &&& within(self.player.position, ENTITY_LIMIT)
    }

    pub fn get_score(&self) -> (r: Score)
        ensures
            r.value == (if self.score > i64::MAX { i64::MAX as int } else { self.score as int }),
    {
        if self.score > i64::MAX as u64 {
            Score { value: i64::MAX }
        } else {
            Score { value: self.score as i64 }
        }
    }

    /// The part of an update that runs every frame.
    fn frame(&mut self, input: Option<Key>, delta_nanos: u64, width: u16, height: u16) -> (collided: bool)
        requires
            old(self).wf(),
        ensures
            final(self).wf(),
            (final(self)@, collided) == frame_spec(old(self)@, input, delta_nanos, width as int, height as int),
    {
        let ghost s0 = self@;
        self.from_last_update = self.from_last_update.saturating_add(delta_nanos);
        let mut i: usize = 0;
        while i < self.enemies.len()
            invariant
                self.wf(),
                i <= self.enemies@.len() == s0.enemies.len(),
                self.bullets@ == s0.bullets,
                self.props@ == s0.props,
                self.player.position == s0.player,
                self.from_last_fire == s0.from_last_fire,
                self.score == s0.score,
                self.from_last_update == sat_add(s0.from_last_update, delta_nanos as int),
                forall|j: int| 0 <= j < i ==> self.enemies@[j] == counted_down(s0.enemies[j], delta_nanos),
                forall|j: int| i <= j < self.enemies@.len() ==> self.enemies@[j] == s0.enemies[j],
            decreases self.enemies@.len() - i,
        {
            self.enemies[i].behavior.delta(delta_nanos);
            i += 1;
        }
        assert(self.enemies@ =~= Seq::new(s0.enemies.len(), |j: int| counted_down(s0.enemies[j], delta_nanos)));
        self.from_last_fire = self.from_last_fire.saturating_add(delta_nanos);
        let position = self.player.position;
        let target: Option<Cell> = match input {
            Some(Key::Left) => Some(step_cell(position, Direction::Left, PLAYER_SPEED)),
            Some(Key::Right) => Some(step_cell(position, Direction::Right, PLAYER_SPEED)),
            Some(Key::Char(' ')) => {
                if self.from_last_fire > PLAYER_FIRE_RATE {
                    self.from_last_fire = 0;
                    self.bullets.push(
                        Bullet {
                            move_direction: Direction::Up,
                            position: Cell { x: position.x, y: position.y - 1 },
                            speed: 1,
                        },
                    );
                }
                None
            },
            _ => None,
        };
        if let Some(t) = target {
            let pcells = prop_positions(&self.props);
            let ecells = enemy_positions(&self.enemies);
            if bounds_check(t.x, t.y, width, height).is_none() && clear_of_cells(t, &pcells) && clear_of_cells(
                t,
                &ecells,
            ) {
                self.player.position = t;
            }
        }
        touches(self.player.position, &self.bullets)
    }

    /// Every enemy takes its turn against the positions of before the tick;
    /// the bullets they fire join the others.
    fn enemies_turns(&mut self, trials: &Vec<Vec<bool>>, width: u16, height: u16)
        requires
            old(self).wf(),
            trials_fit(trials@, old(self).enemies@),
        ensures
            final(self).wf(),
            ({
                let s = old(self)@;
                let w = surroundings_of(s, width as int, height as int);
                &&& final(self).enemies@ == Seq::new(
                    s.enemies.len(),
                    |i: int| turn_spec(s.enemies[i], trial_seqs(trials@)[i], w).0,
                )
                &&& final(self).bullets@ == s.bullets + fired(s.enemies, trial_seqs(trials@), w, s.enemies.len())
            }),
            final(self).props@ == old(self).props@,
            final(self).player == old(self).player,
            final(self).score == old(self).score,
            final(self).from_last_update == old(self).from_last_update,
            final(self).from_last_fire == old(self).from_last_fire,
    {
        let ghost s0 = self@;
        let ghost w = surroundings_of(s0, width as int, height as int);
        let ghost ts = trial_seqs(trials@);
        let snapshot = enemy_positions(&self.enemies);
        let pcells = prop_positions(&self.props);
        let player = self.player.position;
        let n = self.enemies.len();
        let mut i: usize = 0;
        while i < n
            invariant
                n == self.enemies@.len() == s0.enemies.len(),
                i <= n,
                trials_fit(trials@, s0.enemies),
                ts == trial_seqs(trials@),
                w == surroundings_of(s0, width as int, height as int),
                snapshot@ == enemy_cells(s0.enemies),
                pcells@ == prop_cells(s0.props),
                player == s0.player,
                forall|j: int| 0 <= j < n ==> enemy_ok(#[trigger] s0.enemies[j]),
                forall|j: int| 0 <= j < s0.props.len() ==> within((#[trigger] s0.props[j]).position, ENTITY_LIMIT),
                self.wf(),
                forall|j: int| 0 <= j < i ==> self.enemies@[j] == turn_spec(s0.enemies[j], ts[j], w).0,
                forall|j: int| i <= j < n ==> self.enemies@[j] == s0.enemies[j],
                self.bullets@ == s0.bullets + fired(s0.enemies, ts, w, i as nat),
                self.props@ == s0.props,
                self.player.position == s0.player,
                self.score == s0.score,
                self.from_last_update == s0.from_last_update,
                self.from_last_fire == s0.from_last_fire,
            decreases n - i,
        {
            proof {
                assert(enemy_ok(self.enemies@[i as int]));
                assert forall|j: int| 0 <= j < snapshot@.len() implies within(#[trigger] snapshot@[j], ENTITY_LIMIT) by {
                    assert(enemy_ok(s0.enemies[j]));
                }
                assert forall|j: int| 0 <= j < pcells@.len() implies within(#[trigger] pcells@[j], ENTITY_LIMIT) by {
                    assert(within(s0.props[j].position, ENTITY_LIMIT));
                }
                assert(trials@[i as int]@.len() == s0.enemies[i as int].behavior.actions@.len());
            }
            let shot = self.enemies[i].take_turn(&trials[i], &snapshot, &pcells, player, width, height);
            assert(ts[i as int] == trials@[i as int]@);
            match shot {
                Some(b) => {
                    self.bullets.push(b);
                },
                None => {},
            }
            assert(self.bullets@ =~= s0.bullets + fired(s0.enemies, ts, w, (i + 1) as nat));
            i += 1;
        }
        assert(self.enemies@ =~= Seq::new(s0.enemies.len(), |j: int| turn_spec(s0.enemies[j], ts[j], w).0));
    }

    /// Bullets fly one step; those that leave the screen are gone.
    fn fly_bullets(&mut self, width: u16, height: u16)
        requires
            old(self).wf(),
        ensures
            final(self).wf(),
            ({
                let moved = old(self).bullets@.map_values(|b: Bullet| moved_bullet(b));
                final(self).bullets@ == kept(moved, off_screen_flags(moved, width as int, height as int))
            }),
            final(self).enemies@ == old(self).enemies@,
            final(self).props@ == old(self).props@,
            final(self).player == old(self).player,
            final(self).score == old(self).score,
            final(self).from_last_update == old(self).from_last_update,
            final(self).from_last_fire == old(self).from_last_fire,
    {
        let ghost b0 = self.bullets@;
        let ghost moved = b0.map_values(|b: Bullet| moved_bullet(b));
        let n = self.bullets.len();
        let mut k: usize = 0;
        while k < n
            invariant
                n == self.bullets@.len() == b0.len(),
                k <= n,
                moved == b0.map_values(|b: Bullet| moved_bullet(b)),
                forall|j: int| 0 <= j < k ==> self.bullets@[j] == moved[j],
                forall|j: int| k <= j < n ==> self.bullets@[j] == b0[j],
                forall|j: int|
                    0 <= j < n ==> within((#[trigger] b0[j]).position, BULLET_LIMIT) && 0 <= b0[j].speed
                        <= MAX_SPEED,
                self.enemies@ == old(self).enemies@,
                self.props@ == old(self).props@,
                self.player == old(self).player,
                self.score == old(self).score,
                self.from_last_update == old(self).from_last_update,
                self.from_last_fire == old(self).from_last_fire,
            decreases n - k,
        {
            let b = self.bullets[k];
            assert(b == b0[k as int]);
            self.bullets[k].position = step_cell(b.position, b.move_direction, b.speed);
            k += 1;
        }
        assert(self.bullets@ =~= moved);
        let mut out: Vec<bool> = Vec::new();
        let mut j: usize = 0;
        while j < n
            invariant
                n == self.bullets@.len(),
                self.bullets@ == moved,
                j <= n,
                out@ == off_screen_flags(moved, width as int, height as int).take(j as int),
            decreases n - j,
        {
            let c = self.bullets[j].position;
            out.push(bounds_check(c.x, c.y, width, height).is_some());
            j += 1;
            assert(out@ =~= off_screen_flags(moved, width as int, height as int).take(j as int));
        }
        assert(out@ =~= off_screen_flags(moved, width as int, height as int));
        retain_kept(&mut self.bullets, &out);
        proof {
            lemma_kept_from(moved, out@);
            assert forall|i: int| 0 <= i < self.bullets@.len() implies within(
                (#[trigger] self.bullets@[i]).position,
                BULLET_LIMIT,
            ) && 0 <= self.bullets@[i].speed <= MAX_SPEED by {
                let j = choose|j: int| 0 <= j < moved.len() && !out@[j] && #[trigger] kept(moved, out@)[i] == moved[j];
                assert(in_screen(moved[j].position, width as int, height as int));
                assert(b0[j].speed == moved[j].speed);
            }
        }
    }

    /// Each bullet takes at most one victim; the score grows by what the
    /// victims earn; hit bullets, hit enemies and hit destroyable props go.
    fn resolve_hits(&mut self)
        requires
            old(self).wf(),
        ensures
            final(self).wf(),
            ({
                let s = old(self)@;
                let v = victims(bullet_cells(s.bullets), enemy_cells(s.enemies), prop_cells(s.props), s.bullets.len());
                &&& final(self).score == score_after(s.score, v, s.props, v.len())
                &&& final(self).bullets@ == kept(s.bullets, v.map_values(|x: Victim| x != Victim::Nothing))
                &&& final(self).enemies@ == kept(s.enemies, Seq::new(s.enemies.len(), |j: int| taken(v, j, true)))
                &&& final(self).props@ == kept(
                    s.props,
                    Seq::new(s.props.len(), |j: int| taken(v, j, false) && s.props[j].destroyable),
                )
            }),
            final(self).player == old(self).player,
            final(self).from_last_update == old(self).from_last_update,
            final(self).from_last_fire == old(self).from_last_fire,
    {
        let ghost s0 = self@;
        let bcells = bullet_positions(&self.bullets);
        let ecells = enemy_positions(&self.enemies);
        let pcells = prop_positions(&self.props);
        proof {
            assert forall|j: int| 0 <= j < bcells@.len() implies within(#[trigger] bcells@[j], REACH) by {
                assert(within(s0.bullets[j].position, BULLET_LIMIT));
            }
            assert forall|j: int| 0 <= j < ecells@.len() implies within(#[trigger] ecells@[j], REACH) by {
                assert(enemy_ok(s0.enemies[j]));
            }
            assert forall|j: int| 0 <= j < pcells@.len() implies within(#[trigger] pcells@[j], REACH) by {
                assert(within(s0.props[j].position, ENTITY_LIMIT));
            }
        }
        let (v, enemy_hit, prop_hit) = resolve_collisions(&bcells, &ecells, &pcells);
        let _ne = ecells.len();
        let _np = pcells.len();
        proof {
            lemma_victims_len(bcells@, ecells@, pcells@, bcells@.len());
            lemma_victims_valid(bcells@, ecells@, pcells@, bcells@.len());
        }
        let mut i: usize = 0;
        while i < v.len()
            invariant
                i <= v@.len(),
                v@ == victims(bcells@, ecells@, pcells@, bcells@.len()),
                forall|b: int|
                    0 <= b < v@.len() ==> match #[trigger] v@[b] {
                        Victim::Prop(k) => k < pcells@.len(),
                        _ => true,
                    },
                pcells@ == prop_cells(s0.props),
                self.score == score_after(s0.score, v@, s0.props, i as nat),
                self.bullets@ == s0.bullets,
                self.enemies@ == s0.enemies,
                self.props@ == s0.props,
                self.player.position == s0.player,
                self.from_last_update == s0.from_last_update,
                self.from_last_fire == s0.from_last_fire,
            decreases v@.len() - i,
        {
            let gain: u64 = match v[i] {
                Victim::Enemy(_) => FOR_ENEMY_SCORE,
                Victim::Prop(k) => if self.props[k].destroyable {
                    FOR_PROP_SCORE
                } else {
                    0
                },
                Victim::Nothing => 0,
            };
            assert(gain == award(v@[i as int], s0.props));
            self.score = self.score.saturating_add(gain);
            i += 1;
        }
        let mut bullet_drop: Vec<bool> = Vec::new();
        let mut b: usize = 0;
        while b < v.len()
            invariant
                b <= v@.len(),
                bullet_drop@ == v@.map_values(|x: Victim| x != Victim::Nothing).take(b as int),
            decreases v@.len() - b,
        {
            bullet_drop.push(v[b] != Victim::Nothing);
            b += 1;
            assert(bullet_drop@ =~= v@.map_values(|x: Victim| x != Victim::Nothing).take(b as int));
        }
        assert(bullet_drop@ =~= v@.map_values(|x: Victim| x != Victim::Nothing));
        let mut prop_drop: Vec<bool> = Vec::new();
        let mut k: usize = 0;
        while k < prop_hit.len()
            invariant
                k <= prop_hit@.len() == self.props@.len(),
                self.props@ == s0.props,
                prop_hit@ == Seq::new(pcells@.len(), |j: int| taken(v@, j, false)),
                pcells@.len() == s0.props.len(),
                prop_drop@ == Seq::new(s0.props.len(), |j: int| taken(v@, j, false) && s0.props[j].destroyable).take(
                    k as int,
                ),
            decreases prop_hit@.len() - k,
        {
            prop_drop.push(prop_hit[k] && self.props[k].destroyable);
            k += 1;
            assert(prop_drop@ =~= Seq::new(
                s0.props.len(),
                |j: int| taken(v@, j, false) && s0.props[j].destroyable,
            ).take(k as int));
        }
        assert(prop_drop@ =~= Seq::new(s0.props.len(), |j: int| taken(v@, j, false) && s0.props[j].destroyable));
        retain_kept(&mut self.bullets, &bullet_drop);
        retain_kept(&mut self.enemies, &enemy_hit);
        retain_kept(&mut self.props, &prop_drop);
        proof {
            lemma_kept_from(s0.bullets, bullet_drop@);
            lemma_kept_from(s0.enemies, enemy_hit@);
            lemma_kept_from(s0.props, prop_drop@);
            assert forall|i: int| 0 <= i < self.enemies@.len() implies enemy_ok(#[trigger] self.enemies@[i]) by {
                let j = choose|j: int| 0 <= j < s0.enemies.len() && !enemy_hit@[j] && #[trigger] kept(s0.enemies, enemy_hit@)[i] == s0.enemies[j];
            }
            assert forall|i: int| 0 <= i < self.bullets@.len() implies within(
                (#[trigger] self.bullets@[i]).position,
                BULLET_LIMIT,
            ) && 0 <= self.bullets@[i].speed <= MAX_SPEED by {
                let j = choose|j: int| 0 <= j < s0.bullets.len() && !bullet_drop@[j] && #[trigger] kept(s0.bullets, bullet_drop@)[i] == s0.bullets[j];
            }
            assert forall|i: int| 0 <= i < self.props@.len() implies within(
                (#[trigger] self.props@[i]).position,
                ENTITY_LIMIT,
            ) by {
                let j = choose|j: int| 0 <= j < s0.props.len() && !prop_drop@[j] && #[trigger] kept(s0.props, prop_drop@)[i] == s0.props[j];
            }
        }
    }

    /// A tick of enemies and bullets.
    fn tick(&mut self, trials: &Vec<Vec<bool>>, width: u16, height: u16)
        requires
            old(self).wf(),
            trials_fit(trials@, old(self).enemies@),
        ensures
            final(self).wf(),
            final(self)@ == tick_spec(old(self)@, trial_seqs(trials@), width as int, height as int),
    {
        self.from_last_update = 0;
        self.enemies_turns(trials, width, height);
        self.fly_bullets(width, height);
        self.resolve_hits();
    }

    /// One update, with the outcome of every chance given: `trials[i][k]`
    /// for the `k`-th action, counted from the current one, of enemy `i`.
    pub fn update_with(
        &mut self,
        input: Option<Key>,
        delta_nanos: u64,
        screen_width: u16,
        screen_height: u16,
        trials: &Vec<Vec<bool>>,
    ) -> (r: UpdateEvent)
        requires
            old(self).wf(),
            trials_fit(trials@, old(self).enemies@),
        ensures
            final(self).wf(),
            (final(self)@, r) == update_spec(
                old(self)@,
                input,
                delta_nanos,
                screen_width as int,
                screen_height as int,
                trial_seqs(trials@),
            ),
    {
        let collided = self.frame(input, delta_nanos, screen_width, screen_height);
        if self.from_last_update > GAME_UPDATE_INTERVAL {
            self.tick(trials, screen_width, screen_height);
        }
        let quit = input == Some(Key::Char('q'));
        if collided || quit || self.enemies.len() == 0 {
            UpdateEvent::GameOver
        } else {
            UpdateEvent::GameContinue
        }
    }

    /// One update; every chance is drawn at random.
    pub fn update(&mut self, input: Option<Key>, delta_nanos: u64, screen_width: u16, screen_height: u16) -> (r:
        UpdateEvent)
        requires
            old(self).wf(),
        ensures
            final(self).wf(),
            exists|trials: Seq<Vec<bool>>|
                trials_fit(trials, old(self).enemies@) && trials_follow_chances(trials, old(self).enemies@) && (
                final(self)@,
                r,
            ) == update_spec(
                    old(self)@,
                    input,
                    delta_nanos,
                    screen_width as int,
                    screen_height as int,
                    trial_seqs(trials),
                ),
    {
        let trials = self.draw_trials();
        self.update_with(input, delta_nanos, screen_width, screen_height, &trials)
    }

    /// Draws, for every enemy, the outcome of the chance of each action
    /// counted from its current one.
    fn draw_trials(&self) -> (r: Vec<Vec<bool>>)
        requires
            self.wf(),
        ensures
            trials_fit(r@, self.enemies@),
            trials_follow_chances(r@, self.enemies@),
    {
        let mut r: Vec<Vec<bool>> = Vec::new();
        let mut i: usize = 0;
        while i < self.enemies.len()
            invariant
                self.wf(),
                i <= self.enemies@.len(),
                r@.len() == i,
                forall|j: int| 0 <= j < i ==> (#[trigger] r@[j])@.len() == self.enemies@[j].behavior.actions@.len(),
                forall|j: int| 0 <= j < i ==> trial_follows_chances(#[trigger] r@[j]@, self.enemies@[j].behavior),
            decreases self.enemies@.len() - i,
        {
            let b = &self.enemies[i].behavior;
            assert(enemy_ok(self.enemies@[i as int]));
            let n = b.actions.len();
            let start = b.current_action;
            let mut t: Vec<bool> = Vec::new();
            let mut k: usize = 0;
            while k < n
                invariant
                    b.wf(),
                    n == b.actions@.len(),
                    start == b.current_action,
                    k <= n,
                    t@.len() == k,
                    forall|m: int|
                        0 <= m < k ==> (b.action_at(m).chance == 100 ==> #[trigger] t@[m]) && (b.action_at(m).chance
                            == 0 ==> !t@[m]),
                decreases n - k,
            {
                proof {
                    lemma_wrap((start + k) as int, n as int);
                }
                let idx: usize = if k < n - start { start + k } else { k - (n - start) };
                let a = b.actions[idx];
                assert(a == b.action_at(k as int));
                assert(action_ok(b.actions@[idx as int]));
                t.push(is_success(a.chance));
                k += 1;
            }
            r.push(t);
            i += 1;
        }
        r
    }

    /// A game on a screen of the given size, with enemies and props laid
    /// out by the given presets and the player at the bottom middle.
    pub fn new(screen_height: u16, screen_width: u16, enemy_preset: EnemyPreset, props_preset: PropsPreset) -> (r:
        SpaceInvadersGame)
        ensures
            r.wf(),
            r.score == 0,
            r.bullets@.len() == 0,
            r.from_last_update == 0,
            r.from_last_fire == 0,
            r.player.position == cell(screen_width as int / 2, screen_height as int - 1),
            forall|i: int|
                0 <= i < r.enemies@.len() ==> (#[trigger] r.enemies@[i]).behavior.actions@ == preset_actions(
                    enemy_preset,
                ) && r.enemies@[i].behavior.to_next_move == 0 && r.enemies@[i].behavior.current_action == 0,
            match enemy_preset {
                EnemyPreset::Empty => r.enemies@.len() == 0,
                EnemyPreset::RandomFire => r.enemies@.len() == 8 * (screen_width / 14) && exists|offs: Seq<Seq<int>>|
                    #[trigger] offsets_ok(offs, 8, (screen_width / 14) as nat) && enemy_cells(r.enemies@) == random_fire_cells(
                        8,
                        (screen_width / 14) as nat,
                        offs,
                    ),
                _ => enemy_cells(r.enemies@) == checkered_cells(5, (screen_width / 4) as nat),
            },
            r.props@ == match props_preset {
                PropsPreset::Empty => Seq::empty(),
                PropsPreset::Wall => wall(screen_width as int, screen_height as int),
            },
    {
        let enemies = match enemy_preset {
            EnemyPreset::Empty => Vec::new(),
            EnemyPreset::RandomFire => random_fire_enemies(screen_width),
            _ => checkered_enemies(screen_width, enemy_preset),
        };
        let props = match props_preset {
            PropsPreset::Empty => Vec::new(),
            PropsPreset::Wall => wall_props(screen_width, screen_height),
        };
        let r = SpaceInvadersGame {
            score: 0,
            bullets: Vec::new(),
            enemies,
            props,
            player: Player { position: Cell { x: (screen_width / 2) as i64, y: screen_height as i64 - 1 } },
            from_last_update: 0,
            from_last_fire: 0,
        };
        proof {
            if props_preset == PropsPreset::Wall {
                lemma_wall_within(screen_width as int, screen_height as int);
            }
        }
        r
    }
}

#[derive(Clone, Copy, Debug, PartialEq, Eq, Structural)]
pub enum EnemyPreset {
    Empty,
    CheckeredLeftRight,
    CheckeredRightDownLeftUp,
    CheckeredLeft,
    RandomFire,
}

#[derive(Clone, Copy, Debug, PartialEq, Eq, Structural)]
pub enum PropsPreset {
    Empty,
    Wall,
}

pub open spec fn one_step(d: Direction) -> EnemyAction {
    EnemyAction { action_type: EnemyActionType::Move(d, 1), duration: SECOND, chance: 100 }
}

/// The actions that each enemy of a preset cycles through.
pub open spec fn preset_actions(p: EnemyPreset) -> Seq<EnemyAction> {
    match p {
        EnemyPreset::Empty => Seq::empty(),
        EnemyPreset::CheckeredLeftRight => seq![one_step(Direction::Right), one_step(Direction::Left)],
        EnemyPreset::CheckeredRightDownLeftUp => seq![
            one_step(Direction::Right),
            one_step(Direction::Down),
            one_step(Direction::Left),
            one_step(Direction::Up),
        ],
        EnemyPreset::CheckeredLeft => seq![one_step(Direction::Left)],
        EnemyPreset::RandomFire => seq![
            EnemyAction { action_type: EnemyActionType::Fire(Direction::Down, 1), duration: SECOND, chance: 10 },
            EnemyAction { action_type: EnemyActionType::Move(Direction::Left, 1), duration: SECOND, chance: 20 },
            EnemyAction { action_type: EnemyActionType::Move(Direction::Down, 1), duration: SECOND, chance: 5 },
            EnemyAction { action_type: EnemyActionType::Wait, duration: SECOND, chance: 50 },
        ],
    }
}

fn make_preset_actions(p: EnemyPreset) -> (r: Vec<EnemyAction>)
    ensures
        r@ == preset_actions(p),
{
    let r = match p {
        EnemyPreset::Empty => Vec::new(),
        EnemyPreset::CheckeredLeftRight => vec![EnemyAction::right(100), EnemyAction::left(100)],
        EnemyPreset::CheckeredRightDownLeftUp => vec![
            EnemyAction::right(100),
            EnemyAction::down(100),
            EnemyAction::left(100),
            EnemyAction::up(100),
        ],
        EnemyPreset::CheckeredLeft => vec![EnemyAction::left(100)],
        EnemyPreset::RandomFire => vec![
            EnemyAction::fire_down(10),
            EnemyAction::left(20),
            EnemyAction::down(5),
            EnemyAction::wait(SECOND, 50),
        ],
    };
    assert(r@ =~= preset_actions(p));
    r
}

pub open spec fn cell(x: int, y: int) -> Cell {
    Cell { x: x as i64, y: y as i64 }
}

/// The checkered rows: in row `y`, enemies every two game units from the
/// left edge, odd rows shifted by one game unit.
pub open spec fn checkered_cells(rows: nat, m: nat) -> Seq<Cell>
    decreases rows,
{
    if rows == 0 {
        Seq::empty()
    } else {
        checkered_cells((rows - 1) as nat, m) + Seq::new(m, |x: int| cell(4 * x + 2 * ((rows - 1) % 2), rows - 1))
    }
}

fn checkered_enemies(screen_width: u16, preset: EnemyPreset) -> (r: Vec<Enemy>)
    requires
        preset != EnemyPreset::Empty,
        preset != EnemyPreset::RandomFire,
    ensures
        enemy_cells(r@) == checkered_cells(5, (screen_width / 4) as nat),
        forall|i: int|
            0 <= i < r@.len() ==> enemy_ok(#[trigger] r@[i]) && r@[i].behavior.actions@ == preset_actions(preset)
                && r@[i].behavior.to_next_move == 0 && r@[i].behavior.current_action == 0,
{
    let m: u16 = screen_width / 2 / 2;
    let mut r: Vec<Enemy> = Vec::new();
    let mut y: u16 = 0;
    while y < 5
        invariant
            m == screen_width / 4,
            y <= 5,
            preset != EnemyPreset::Empty,
            preset != EnemyPreset::RandomFire,
            enemy_cells(r@) == checkered_cells(y as nat, m as nat),
            forall|i: int|
                0 <= i < r@.len() ==> enemy_ok(#[trigger] r@[i]) && r@[i].behavior.actions@ == preset_actions(
                    preset,
                ) && r@[i].behavior.to_next_move == 0 && r@[i].behavior.current_action == 0,
        decreases 5 - y,
    {
        let mut x: u16 = 0;
        let ghost before = r@;
        while x < m
            invariant
                m == screen_width / 4,
                y < 5,
                x <= m,
                preset != EnemyPreset::Empty,
                preset != EnemyPreset::RandomFire,
                enemy_cells(before) == checkered_cells(y as nat, m as nat),
                enemy_cells(r@) == enemy_cells(before) + Seq::new(x as nat, |xx: int| cell(4 * xx + 2 * (y % 2), y as int)),
                forall|i: int|
                    0 <= i < r@.len() ==> enemy_ok(#[trigger] r@[i]) && r@[i].behavior.actions@ == preset_actions(
                        preset,
                    ) && r@[i].behavior.to_next_move == 0 && r@[i].behavior.current_action == 0,
            decreases m - x,
        {
            let actions = make_preset_actions(preset);
            let behavior = EnemyBehavior::new(actions, 0, 0);
            let position = Cell { x: 4 * x as i64 + 2 * (y % 2) as i64, y: y as i64 };
            let ghost prev = r@;
            r.push(Enemy { position, behavior });
            assert(enemy_cells(r@) =~= enemy_cells(prev).push(position));
            assert(position == cell(4 * x + 2 * (y % 2), y as int));
            x += 1;
            assert(enemy_cells(r@) =~= enemy_cells(before) + Seq::new(
                x as nat,
                |xx: int| cell(4 * xx + 2 * (y % 2), y as int),
            ));
        }
        y += 1;
        assert(enemy_cells(r@) =~= checkered_cells(y as nat, m as nat));
    }
    r
}

/// The random rows: in row `y`, enemy `x` stands `7 * x + y + offs[y][x]`
/// game units from the left edge, its offset drawn below seven.
pub open spec fn random_fire_cells(rows: nat, m: nat, offs: Seq<Seq<int>>) -> Seq<Cell>
    decreases rows,
{
    if rows == 0 {
        Seq::empty()
    } else {
        let y = rows - 1;
        random_fire_cells(y as nat, m, offs) + Seq::new(m, |x: int| cell(2 * (7 * x + y + offs[y][x]), y))
    }
}

pub open spec fn offsets_ok(offs: Seq<Seq<int>>, rows: nat, m: nat) -> bool {
    offs.len() == rows && forall|y: int|
        0 <= y < rows ==> (#[trigger] offs[y]).len() == m && forall|x: int| 0 <= x < m ==> 0 <= #[trigger] offs[y][x] < 7
}

proof fn lemma_random_fire_prefix(rows: nat, m: nat, offs: Seq<Seq<int>>, extra: Seq<int>)
    requires
        rows <= offs.len(),
    ensures
        random_fire_cells(rows, m, offs.push(extra)) == random_fire_cells(rows, m, offs),
    decreases rows,
{
    if rows > 0 {
        lemma_random_fire_prefix((rows - 1) as nat, m, offs, extra);
        assert(offs.push(extra)[rows - 1] == offs[rows - 1]);
        assert(Seq::new(m, |x: int| cell(2 * (7 * x + (rows - 1) + offs.push(extra)[rows - 1][x]), rows - 1))
            =~= Seq::new(m, |x: int| cell(2 * (7 * x + (rows - 1) + offs[rows - 1][x]), rows - 1)));
    }
}

fn random_fire_enemies(screen_width: u16) -> (r: Vec<Enemy>)
    ensures
        r@.len() == 8 * (screen_width / 14),
        exists|offs: Seq<Seq<int>>|
            #[trigger] offsets_ok(offs, 8, (screen_width / 14) as nat) && enemy_cells(r@) == random_fire_cells(
                8,
                (screen_width / 14) as nat,
                offs,
            ),
        forall|i: int|
            0 <= i < r@.len() ==> enemy_ok(#[trigger] r@[i]) && r@[i].behavior.actions@ == preset_actions(
                EnemyPreset::RandomFire,
            ) && r@[i].behavior.to_next_move == 0 && r@[i].behavior.current_action == 0,
{
    let m: u16 = screen_width / 2 / 7;
    let mut r: Vec<Enemy> = Vec::new();
    let ghost mut offs: Seq<Seq<int>> = Seq::empty();
    let mut y: u16 = 0;
    while y < 8
        invariant
            m == screen_width / 14,
            y <= 8,
            r@.len() == y * m,
            offsets_ok(offs, y as nat, m as nat),
            enemy_cells(r@) == random_fire_cells(y as nat, m as nat, offs),
            forall|i: int|
                0 <= i < r@.len() ==> enemy_ok(#[trigger] r@[i]) && r@[i].behavior.actions@ == preset_actions(
                    EnemyPreset::RandomFire,
                ) && r@[i].behavior.to_next_move == 0 && r@[i].behavior.current_action == 0,
        decreases 8 - y,
    {
        let ghost before = r@;
        let ghost mut row: Seq<int> = Seq::empty();
        let mut x: u16 = 0;
        while x < m
            invariant
                m == screen_width / 14,
                y < 8,
                x <= m,
                r@.len() == y * m + x,
                row.len() == x,
                forall|k: int| 0 <= k < x ==> 0 <= #[trigger] row[k] < 7,
                enemy_cells(before) == random_fire_cells(y as nat, m as nat, offs),
                enemy_cells(r@) == enemy_cells(before) + Seq::new(
                    x as nat,
                    |xx: int| cell(2 * (7 * xx + y + row[xx]), y as int),
                ),
                forall|i: int|
                    0 <= i < r@.len() ==> enemy_ok(#[trigger] r@[i]) && r@[i].behavior.actions@ == preset_actions(
                        EnemyPreset::RandomFire,
                    ) && r@[i].behavior.to_next_move == 0 && r@[i].behavior.current_action == 0,
            decreases m - x,
        {
            let offset = random_below(7);
            let actions = make_preset_actions(EnemyPreset::RandomFire);
            let behavior = EnemyBehavior::new(actions, 0, 0);
            let position = Cell { x: 2 * (7 * x as i64 + y as i64 + offset as i64), y: y as i64 };
            let ghost prev = r@;
            r.push(Enemy { position, behavior });
            proof {
                row = row.push(offset as int);
            }
            x += 1;
            assert(enemy_cells(r@) =~= enemy_cells(prev).push(position));
            assert(enemy_cells(r@) =~= enemy_cells(before) + Seq::new(
                x as nat,
                |xx: int| cell(2 * (7 * xx + y + row[xx]), y as int),
            ));
        }
        proof {
            lemma_random_fire_prefix(y as nat, m as nat, offs, row);
            offs = offs.push(row);
            assert(offs[y as int] == row);
            assert(Seq::new(m as nat, |xx: int| cell(2 * (7 * xx + y + offs[y as int][xx]), y as int)) =~= Seq::new(
                m as nat,
                |xx: int| cell(2 * (7 * xx + y + row[xx]), y as int),
            ));
            assert(enemy_cells(r@) == random_fire_cells((y + 1) as nat, m as nat, offs));
            assert forall|yy: int| 0 <= yy < y + 1 implies (#[trigger] offs[yy]).len() == m && forall|xx: int|
                0 <= xx < m ==> 0 <= #[trigger] offs[yy][xx] < 7 by {
                if yy < y {
                    assert(offs[yy] == offs.drop_last()[yy]);
                }
            }
        }
        assert((y + 1) * m == y * m + m) by (nonlinear_arith);
        y += 1;
    }
    r
}

/// The wall: a row of solid props every two game units, three game units
/// above the bottom, and three rows of destroyable props above it.
pub open spec fn wall(width: int, height: int) -> Seq<Prop> {
    Seq::new(
        (width / 4) as nat,
        |x: int| Prop { position: cell(4 * x, height - 3), destroyable: false },
    ) + wall_rows((width / 2) as nat, height)
}

/// The destroyable part of the wall, column by column, three props each.
pub open spec fn wall_rows(columns: nat, height: int) -> Seq<Prop>
    decreases columns,
{
    if columns == 0 {
        Seq::empty()
    } else {
        let x = columns - 1;
        wall_rows(x as nat, height) + seq![
            Prop { position: cell(2 * x, height - 4), destroyable: true },
            Prop { position: cell(2 * x, height - 5), destroyable: true },
            Prop { position: cell(2 * x, height - 6), destroyable: true },
        ]
    }
}

proof fn lemma_wall_rows_within(columns: nat, height: int)
    requires
        columns <= 0x8000,
        0 <= height <= 0xffff,
    ensures
        forall|i: int|
            0 <= i < wall_rows(columns, height).len() ==> within(
                (#[trigger] wall_rows(columns, height)[i]).position,
                ENTITY_LIMIT,
            ),
        wall_rows(columns, height).len() == 3 * columns,
    decreases columns,
{
    if columns > 0 {
        lemma_wall_rows_within((columns - 1) as nat, height);
        let w = wall_rows(columns, height);
        let v = wall_rows((columns - 1) as nat, height);
        assert forall|i: int| 0 <= i < w.len() implies within((#[trigger] w[i]).position, ENTITY_LIMIT) by {
            if i < v.len() {
                assert(w[i] == v[i]);
            }
        }
    }
}

proof fn lemma_wall_within(width: int, height: int)
    requires
        0 <= width <= 0xffff,
        0 <= height <= 0xffff,
    ensures
        forall|i: int|
            0 <= i < wall(width, height).len() ==> within((#[trigger] wall(width, height)[i]).position, ENTITY_LIMIT),
{
    lemma_wall_rows_within((width / 2) as nat, height);
    let a = Seq::new((width / 4) as nat, |x: int| Prop { position: cell(4 * x, height - 3), destroyable: false });
    let b = wall_rows((width / 2) as nat, height);
    assert forall|i: int| 0 <= i < wall(width, height).len() implies within(
        (#[trigger] wall(width, height)[i]).position,
        ENTITY_LIMIT,
    ) by {
        if i < a.len() {
            assert(wall(width, height)[i] == a[i]);
        } else {
            assert(wall(width, height)[i] == b[i - a.len()]);
        }
    }
}

fn wall_props(screen_width: u16, screen_height: u16) -> (r: Vec<Prop>)
    ensures
        r@ == wall(screen_width as int, screen_height as int),
{
    let h = screen_height as i64;
    let mut r: Vec<Prop> = Vec::new();
    let mut x: u16 = 0;
    while x < screen_width / 2 / 2
        invariant
            x <= screen_width / 4,
            h == screen_height,
            r@ == Seq::new(x as nat, |xx: int| Prop { position: cell(4 * xx, h - 3), destroyable: false }),
        decreases screen_width / 4 - x,
    {
        r.push(Prop { position: Cell { x: 4 * x as i64, y: h - 3 }, destroyable: false });
        x += 1;
        assert(r@ =~= Seq::new(x as nat, |xx: int| Prop { position: cell(4 * xx, h - 3), destroyable: false }));
    }
    let ghost solid = r@;
    let mut c: u16 = 0;
    while c < screen_width / 2
        invariant
            c <= screen_width / 2,
            h == screen_height,
            solid == Seq::new(
                (screen_width / 4) as nat,
                |xx: int| Prop { position: cell(4 * xx, h - 3), destroyable: false },
            ),
            r@ == solid + wall_rows(c as nat, h as int),
        decreases screen_width / 2 - c,
    {
        let mut y: i64 = 0;
        while y < 3
            invariant
                0 <= y <= 3,
                c < screen_width / 2,
                h == screen_height,
                r@ == solid + wall_rows(c as nat, h as int) + Seq::new(
                    y as nat,
                    |yy: int| Prop { position: cell(2 * c, h - 4 - yy), destroyable: true },
                ),
            decreases 3 - y,
        {
            r.push(Prop { position: Cell { x: 2 * c as i64, y: h - 4 - y }, destroyable: true });
            y += 1;
            assert(r@ =~= solid + wall_rows(c as nat, h as int) + Seq::new(
                y as nat,
                |yy: int| Prop { position: cell(2 * c, h - 4 - yy), destroyable: true },
            ));
        }
        c += 1;
        assert(r@ =~= solid + wall_rows(c as nat, h as int));
    }
    assert(r@ =~= wall(screen_width as int, screen_height as int));
    r
}

} // verus!
