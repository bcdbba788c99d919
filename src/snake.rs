//! The growing snake: a body of axis-aligned segments in game space that
//! advances at a fixed speed, grows by what it eats and ends the game when
//! its head meets an earlier part of the body.
//!
//! Lengths and positions are counted in millionths of a game unit and time
//! in microseconds, so that every step of the body is exact.
use vstd::prelude::*;
use crate::game::{sat_add, Key, UpdateEvent};
use crate::keep::{kept, retain_kept};
use crate::point::{
    axis_aligned, axis_len, closer_than, intersects_spec, sign, Line, Point, UNIT,
};
use crate::rng::random_below;

verus! {

/// The most apples on the board at once.
pub const MAX_APPLES: usize = 5;
/// Time between two attempts to place an apple, in microseconds.
pub const SPAWN_RATE: u64 = 2_000_000;
/// An apple lies on a point when both coordinates differ by less than this.
pub const APPLE_RADIUS: i64 = 510_000;
/// How much the snake grows per apple.
pub const GROWTH: u64 = 1_000_000;
/// Speed of the head, in millionths of a unit per microsecond: twelve units a second.
pub const SPEED: u64 = 12;
/// The head hits the body when it comes closer to it than this.
pub const SNAKE_WIDTH: i64 = 250_000;
/// Random positions tried for a new apple before giving up until next time.
pub const SPAWN_TRIES: usize = 32;
/// The longest frame an update takes, in microseconds.
pub const MAX_DELTA: u64 = 0x10_0000_0000;
/// Bounds on positions of the body and of apples.
pub const BODY_LIMIT: i64 = 0x100_0000_0000_0000;
pub const ROOM: i64 = 0x1_0000_0000_0000;
pub const APPLE_LIMIT: i64 = 0x100_0000_0000;

/// A direction asked for by the keys.
#[derive(Clone, Copy, Debug, PartialEq, Eq, Structural)]
pub struct Input {
    pub up: bool,
    pub down: bool,
    pub left: bool,
    pub right: bool,
}

impl Input {
    pub fn new() -> (r: Input)
        ensures
            !r.up && !r.down && !r.left && !r.right,
    {
        Input { up: false, down: false, left: false, right: false }
    }

    pub fn empty(&self) -> (r: bool)
        ensures
            r == (!self.up && !self.down && !self.left && !self.right),
    {
        !self.up && !self.down && !self.left && !self.right
    }

    /// The vector of the given length in the asked direction.
    pub fn as_vec(&self, length: i64) -> (r: Point)
        requires
            0 <= length <= ROOM,
        ensures
            r == as_vec_spec(*self, length as int),
    {
        let mut x: i64 = 0;
        let mut y: i64 = 0;
        if self.up {
            y = y - length;
        }
        if self.down {
            y = y + length;
        }
        if self.left {
            x = x - length;
        }
        if self.right {
            x = x + length;
        }
        Point { x, y }
    }
}

impl Default for Input {
    fn default() -> (r: Input)
        ensures
            !r.up && !r.down && !r.left && !r.right,
    {
        Input::new()
    }
}

pub open spec fn as_vec_spec(i: Input, length: int) -> Point {
    Point {
        x: ((if i.right { length } else { 0 }) - (if i.left { length } else { 0 })) as i64,
        y: ((if i.down { length } else { 0 }) - (if i.up { length } else { 0 })) as i64,
    }
}

pub open spec fn read_spec(key: Option<Key>) -> Input {
    Input {
        up: key == Some(Key::Up),
        down: key == Some(Key::Down),
        left: key == Some(Key::Left),
        right: key == Some(Key::Right),
    }
}

/// The direction that an arrow key asks for.
pub fn read_to_input(key: Option<Key>) -> (r: Input)
    ensures
        r == read_spec(key),
{
    let mut input = Input::new();
    match key {
        Some(Key::Up) => input.up = true,
        Some(Key::Down) => input.down = true,
        Some(Key::Left) => input.left = true,
        Some(Key::Right) => input.right = true,
        _ => {},
    }
    input
}

/// The direction asked for, unless it is none or the exact opposite of the
/// previous one: then the previous one.
pub open spec fn chosen_spec(input: Input, prev: Input) -> Input {
    if !(!input.up && !input.down && !input.left && !input.right) && (input.up && !prev.down || input.down
        && !prev.up || input.left && !prev.right || input.right && !prev.left) {
        input
    } else {
        prev
    }
}

pub fn choose_direction(input: Input, prev: Input) -> (r: Input)
    ensures
        r == chosen_spec(input, prev),
{
    if !input.empty() && (input.up && !prev.down || input.down && !prev.up || input.left && !prev.right
        || input.right && !prev.left) {
        input
    } else {
        prev
    }
}

/// Exactly one direction.
pub open spec fn one_way(i: Input) -> bool {
    (if i.up { 1int } else { 0 }) + (if i.down { 1int } else { 0 }) + (if i.left { 1int } else { 0 }) + (if i.right {
        1int
    } else {
        0
    }) == 1
}

/// The segment points the way the input asks, or has no length.
pub open spec fn follows(l: Line, i: Input) -> bool {
    let dx = l.end.x - l.begin.x;
    let dy = l.end.y - l.begin.y;
    &&& i.right ==> dy == 0 && dx >= 0
    &&& i.left ==> dy == 0 && dx <= 0
    &&& i.down ==> dx == 0 && dy >= 0
    &&& i.up ==> dx == 0 && dy <= 0
}

#[derive(Clone, Copy, Debug, PartialEq, Eq, Structural)]
pub struct Apple(pub Point);

#[derive(Clone, Copy, Debug, PartialEq, Eq, Structural)]
pub struct Score(pub u64);

/// The body, oldest segment first and the head last.
pub struct Snake {
    pub segments: Vec<Line>,
}

pub open spec fn within(p: Point, limit: i64) -> bool {
    -limit <= p.x <= limit && -limit <= p.y <= limit
}

pub open spec fn seg_ok(l: Line) -> bool {
    within(l.begin, BODY_LIMIT) && within(l.end, BODY_LIMIT) && axis_aligned(l)
}

/// Each segment ends where the next one begins.
pub open spec fn connected(s: Seq<Line>) -> bool {
    forall|i: int| 0 <= i < s.len() - 1 ==> (#[trigger] s[i]).end == s[i + 1].begin
}

/// The total length of the body.
pub open spec fn total_len(s: Seq<Line>) -> int
    decreases s.len(),
{
    if s.len() == 0 {
        0
    } else {
        axis_len(s[0]) + total_len(s.drop_first())
    }
}

pub open spec fn body_ok(s: Seq<Line>) -> bool {
    &&& s.len() > 0
    &&& forall|i: int| 0 <= i < s.len() ==> seg_ok(#[trigger] s[i])
    &&& connected(s)
}

impl Snake {
    /// A snake three units long, going right from `begin`.
    pub fn new(begin: Point) -> (r: Snake)
        requires
            within(begin, APPLE_LIMIT),
        ensures
            r.segments@ == seq![Line { begin, end: Point { x: (begin.x + 3 * UNIT) as i64, y: begin.y } }],
    {
        let mut segments: Vec<Line> = Vec::new();
        segments.push(Line { begin, end: Point { x: begin.x + 3 * UNIT, y: begin.y } });
        Snake { segments }
    }

    pub fn head(&self) -> (r: &Line)
        requires
            self.segments@.len() > 0,
        ensures
            *r == self.segments@.last(),
    {
        &self.segments[self.segments.len() - 1]
    }

    pub fn mut_head(&mut self) -> (r: &mut Line)
        requires
            old(self).segments@.len() > 0,
        ensures
            *r == old(self).segments@.last(),
            final(self).segments@ == old(self).segments@.update(old(self).segments@.len() - 1, *final(r)),
    {
        let last = self.segments.len() - 1;
        &mut self.segments[last]
    }

    pub fn first(&self) -> (r: &Line)
        requires
            self.segments@.len() > 0,
        ensures
            *r == self.segments@[0],
    {
        &self.segments[0]
    }

    pub fn mut_first(&mut self) -> (r: &mut Line)
        requires
            old(self).segments@.len() > 0,
        ensures
            *r == old(self).segments@[0],
            final(self).segments@ == old(self).segments@.update(0, *final(r)),
    {
        &mut self.segments[0]
    }
}


proof fn lemma_total_update(s: Seq<Line>, i: int, x: Line)
    requires
        0 <= i < s.len(),
    ensures
        total_len(s.update(i, x)) == total_len(s) - axis_len(s[i]) + axis_len(x),
    decreases s.len(),
{
    if i > 0 {
        lemma_total_update(s.drop_first(), i - 1, x);
        assert(s.update(i, x).drop_first() =~= s.drop_first().update(i - 1, x));
    } else {
        assert(s.update(i, x).drop_first() =~= s.drop_first());
    }
}

proof fn lemma_total_push(s: Seq<Line>, x: Line)
    ensures
        total_len(s.push(x)) == total_len(s) + axis_len(x),
    decreases s.len(),
{
    if s.len() > 0 {
        lemma_total_push(s.drop_first(), x);
        assert(s.push(x).drop_first() =~= s.drop_first().push(x));
    } else {
        assert(s.push(x).drop_first() =~= s);
    }
}

/// The segment with its start moved `a` towards its end.
pub open spec fn trimmed(l: Line, a: int) -> Line {
    Line {
        begin: Point {
            x: (l.begin.x + sign(l.end.x - l.begin.x) * a) as i64,
            y: (l.begin.y + sign(l.end.y - l.begin.y) * a) as i64,
        },
        end: l.end,
    }
}

/// The body with `a` taken off its tail: whole segments from the oldest on,
/// then part of the next one.
pub open spec fn shrink(s: Seq<Line>, a: int) -> Seq<Line>
    decreases s.len(),
{
    if a <= 0 || s.len() == 0 {
        s
    } else if axis_len(s[0]) > a {
        s.update(0, trimmed(s[0], a))
    } else {
        shrink(s.drop_first(), a - axis_len(s[0]))
    }
}

proof fn lemma_trimmed(l: Line, a: int, i: Input)
    requires
        seg_ok(l),
        0 < a < axis_len(l),
    ensures
        seg_ok(trimmed(l, a)),
        axis_len(trimmed(l, a)) == axis_len(l) - a,
        follows(l, i) ==> follows(trimmed(l, a), i),
{
}

impl Snake {
    /// Takes `amount` off the tail.
    pub fn shrink_tail(&mut self, amount: u64)
        requires
            body_ok(old(self).segments@),
            total_len(old(self).segments@) > amount,
        ensures
            final(self).segments@ == shrink(old(self).segments@, amount as int),
            body_ok(final(self).segments@),
            total_len(final(self).segments@) == total_len(old(self).segments@) - amount,
            forall|i: Input|
                follows(old(self).segments@.last(), i) ==> #[trigger] follows(final(self).segments@.last(), i),
    {
        let ghost s0 = self.segments@;
        let mut to_shrink = amount;
        while to_shrink > 0
            invariant
                body_ok(self.segments@),
                total_len(self.segments@) > to_shrink,
                total_len(self.segments@) - to_shrink == total_len(s0) - amount,
                shrink(self.segments@, to_shrink as int) == shrink(s0, amount as int),
                forall|i: Input| follows(s0.last(), i) ==> #[trigger] follows(self.segments@.last(), i),
            decreases to_shrink, self.segments@.len(),
        {
            let first = self.segments[0];
            assert(seg_ok(self.segments@[0]));
            let l = first.length();
            if l > to_shrink {
                let ghost before = self.segments@;
                let x: i64 = if first.end.x > first.begin.x {
                    first.begin.x + to_shrink as i64
                } else if first.end.x < first.begin.x {
                    first.begin.x - to_shrink as i64
                } else {
                    first.begin.x
                };
                let y: i64 = if first.end.y > first.begin.y {
                    first.begin.y + to_shrink as i64
                } else if first.end.y < first.begin.y {
                    first.begin.y - to_shrink as i64
                } else {
                    first.begin.y
                };
                let t = Line { begin: Point { x, y }, end: first.end };
                assert(t == trimmed(first, to_shrink as int));
                proof {
                    lemma_trimmed(first, to_shrink as int, Input { up: false, down: false, left: false, right: false });
                    lemma_total_update(before, 0, t);
                    assert forall|i: Input| follows(before.last(), i) implies #[trigger] follows(
                        before.update(0, t).last(),
                        i,
                    ) by {
                        lemma_trimmed(first, to_shrink as int, i);
                    }
                }
                let ghost a = to_shrink;
                self.segments.set(0, t);
                to_shrink = 0;
                assert(self.segments@ == shrink(before, a as int));
            } else {
                let ghost before = self.segments@;
                assert(total_len(before) == axis_len(before[0]) + total_len(before.drop_first()));
                to_shrink = to_shrink - l;
                self.segments.remove(0);
                assert(self.segments@ =~= before.drop_first());
                assert(self.segments@.len() > 0);
                assert(self.segments@.last() == before.last());
            }
        }
    }
}


/// Two points lie within an apple's radius of each other on both axes.
pub open spec fn close(p: Point, q: Point) -> bool {
    -APPLE_RADIUS < p.x - q.x < APPLE_RADIUS && -APPLE_RADIUS < p.y - q.y < APPLE_RADIUS
}

fn is_close(p: Point, q: Point) -> (r: bool)
    requires
        within(p, BODY_LIMIT),
        within(q, BODY_LIMIT),
    ensures
        r == close(p, q),
{
    let dx = p.x - q.x;
    let dy = p.y - q.y;
    -APPLE_RADIUS < dx && dx < APPLE_RADIUS && -APPLE_RADIUS < dy && dy < APPLE_RADIUS
}

pub open spec fn plus(p: Point, v: Point) -> Point {
    Point { x: (p.x + v.x) as i64, y: (p.y + v.y) as i64 }
}

/// The head meets a segment before the last two: it crosses it, or its tip
/// comes closer to it than the body's width.
pub open spec fn self_collides(s: Seq<Line>) -> bool {
    s.len() > 2 && exists|i: int|
        0 <= i < s.len() - 2 && (intersects_spec(s.last(), #[trigger] s[i]) || closer_than(
            s[i],
            s.last().end,
            SNAKE_WIDTH as int,
        ))
}

/// A body of fewer than three segments cannot hit itself.
pub proof fn lemma_short_body_never_collides(s: Seq<Line>)
    requires
        s.len() < 3,
    ensures
        !self_collides(s),
{
}

pub open spec fn min(a: int, b: int) -> int {
    if a < b { a } else { b }
}

pub open spec fn max(a: int, b: int) -> int {
    if a < b { b } else { a }
}

/// The point lies on the segment, which runs along one axis.
pub open spec fn on_segment(p: Point, l: Line) -> bool {
    min(l.begin.x as int, l.end.x as int) <= p.x <= max(l.begin.x as int, l.end.x as int) && min(
        l.begin.y as int,
        l.end.y as int,
    ) <= p.y <= max(l.begin.y as int, l.end.y as int)
}

/// Some point of the segment lies within an apple's radius of `c` on both axes.
pub open spec fn touches_segment(c: Point, l: Line) -> bool {
    min(l.begin.x as int, l.end.x as int) - APPLE_RADIUS < c.x < max(l.begin.x as int, l.end.x as int)
        + APPLE_RADIUS && min(l.begin.y as int, l.end.y as int) - APPLE_RADIUS < c.y < max(
        l.begin.y as int,
        l.end.y as int,
    ) + APPLE_RADIUS
}

/// `touches_segment` says what its name says: some point of the segment is
/// close to `c`.
pub proof fn lemma_touches_segment(c: Point, l: Line)
    ensures
        touches_segment(c, l) <==> exists|p: Point| on_segment(p, l) && #[trigger] close(p, c),
{
    if touches_segment(c, l) {
        let px = if c.x < min(l.begin.x as int, l.end.x as int) {
            min(l.begin.x as int, l.end.x as int)
        } else if c.x > max(l.begin.x as int, l.end.x as int) {
            max(l.begin.x as int, l.end.x as int)
        } else {
            c.x as int
        };
        let py = if c.y < min(l.begin.y as int, l.end.y as int) {
            min(l.begin.y as int, l.end.y as int)
        } else if c.y > max(l.begin.y as int, l.end.y as int) {
            max(l.begin.y as int, l.end.y as int)
        } else {
            c.y as int
        };
        let p = Point { x: px as i64, y: py as i64 };
        assert(on_segment(p, l) && close(p, c));
    }
}

/// The point lies within an apple's radius of the body.
pub open spec fn on_snake(c: Point, s: Seq<Line>) -> bool {
    exists|i: int| 0 <= i < s.len() && touches_segment(c, #[trigger] s[i])
}

pub open spec fn on_apple(c: Point, apples: Seq<Apple>) -> bool {
    exists|i: int| 0 <= i < apples.len() && close(c, #[trigger] apples[i].0)
}

/// The first candidate from `from` on that lies neither on the body nor on
/// an apple.
pub open spec fn first_free(cands: Seq<Point>, s: Seq<Line>, apples: Seq<Apple>, from: int) -> Option<Point>
    decreases cands.len() - from,
{
    if from < 0 || from >= cands.len() {
        None
    } else if !on_snake(cands[from], s) && !on_apple(cands[from], apples) {
        Some(cands[from])
    } else {
        first_free(cands, s, apples, from + 1)
    }
}

proof fn lemma_first_free_from(cands: Seq<Point>, s: Seq<Line>, apples: Seq<Apple>, from: int)
    requires
        first_free(cands, s, apples, from) is Some,
    ensures
        exists|k: int| 0 <= k < cands.len() && cands[k] == first_free(cands, s, apples, from)->0,
        !on_snake(first_free(cands, s, apples, from)->0, s),
        !on_apple(first_free(cands, s, apples, from)->0, apples),
    decreases cands.len() - from,
{
    if from >= 0 && from < cands.len() && (on_snake(cands[from], s) || on_apple(cands[from], apples)) {
        lemma_first_free_from(cands, s, apples, from + 1);
    }
}

/// An apple placed in this update lies on no segment of the body and on
/// none of the apples left after eating.
pub open spec fn apple_placed_free(old: SnakeView, new: SnakeView) -> bool {
    new.apples.len() > uneaten(old).len() ==> !on_snake(new.apples.last().0, old.segments) && !on_apple(
        new.apples.last().0,
        uneaten(old),
    )
}

pub open spec fn eaten_flags(apples: Seq<Apple>, head: Point) -> Seq<bool> {
    apples.map_values(|a: Apple| close(head, a.0))
}

/// The state of a snake game as the rules see it.
pub struct SnakeView {
    pub segments: Seq<Line>,
    pub apples: Seq<Apple>,
    pub prev: Input,
    pub duration: u64,
    pub score: u64,
    pub to_growth: u64,
}

/// The apples left after the head eats those within reach.
pub open spec fn uneaten(v: SnakeView) -> Seq<Apple> {
    kept(v.apples, eaten_flags(v.apples, v.segments.last().end))
}

/// The growth budget after the apples of this update are eaten.
pub open spec fn fed(v: SnakeView) -> u64 {
    sat_add(v.to_growth, GROWTH * (v.apples.len() - uneaten(v).len()))
}

/// An apple is placed, on the spawn timer, at the first free candidate if
/// there are fewer than the most; the timer then starts again.
pub open spec fn spawn_spec(apples: Seq<Apple>, s: Seq<Line>, duration: u64, cands: Seq<Point>) -> (Seq<Apple>, u64) {
    let found = first_free(cands, s, apples, 0);
    if duration > SPAWN_RATE {
        (
            if apples.len() < MAX_APPLES && found is Some {
                apples.push(Apple(found->0))
            } else {
                apples
            },
            0,
        )
    } else {
        (apples, duration)
    }
}

/// The body after the head advances `dist` in direction `chosen`: along a
/// new segment where the direction changed, else by extending the head.
pub open spec fn moved(s: Seq<Line>, chosen: Input, prev: Input, dist: int) -> Seq<Line> {
    let step = as_vec_spec(chosen, dist);
    let h = s.last();
    if chosen != prev {
        s.push(Line { begin: h.end, end: plus(h.end, step) })
    } else {
        s.update(s.len() - 1, Line { begin: h.begin, end: plus(h.end, step) })
    }
}

/// The head advances `SPEED * dt`; the tail shrinks by that distance less
/// what the growth budget `g` covers. Gives the body, the budget left and
/// the direction taken.
pub open spec fn advance_spec(s: Seq<Line>, prev: Input, input: Option<Key>, dt: u64, g: u64) -> (Seq<Line>, u64, Input) {
    let chosen = chosen_spec(read_spec(input), prev);
    let dist = SPEED * dt;
    (
        shrink(moved(s, chosen, prev, dist), if dist > g { dist - g } else { 0 }),
        if g > dist { (g - dist) as u64 } else { 0 },
        chosen,
    )
}

/// One update of `dt` microseconds, with `cands` the positions tried in
/// turn for a new apple: apples within reach of the head are eaten and feed
/// the growth budget and the score, an apple may be placed, and the snake
/// advances. A head that meets the body ends the game.
pub open spec fn update_spec(v: SnakeView, input: Option<Key>, dt: u64, cands: Seq<Point>) -> (SnakeView, UpdateEvent) {
    let apples1 = uneaten(v);
    let spawned = spawn_spec(apples1, v.segments, sat_add(v.duration, dt as int), cands);
    let advanced = advance_spec(v.segments, v.prev, input, dt, fed(v));
    (
        SnakeView {
            segments: advanced.0,
            apples: spawned.0,
            prev: advanced.2,
            duration: spawned.1,
            score: sat_add(v.score, v.apples.len() - apples1.len()),
            to_growth: advanced.1,
        },
        if self_collides(v.segments) { UpdateEvent::GameOver } else { UpdateEvent::GameContinue },
    )
}

pub struct SnakeGame {
    pub snake: Snake,
    pub apples: Vec<Apple>,
    pub prev_non_empty_input: Input,
    /// Time since the last attempt to place an apple, in microseconds.
    pub duration: u64,
    pub score: Score,
    /// Length still to grow by, in millionths of a unit.
    pub to_growth: u64,
}

impl View for SnakeGame {
    type V = SnakeView;

    open spec fn view(&self) -> SnakeView {
        SnakeView {
            segments: self.snake.segments@,
            apples: self.apples@,
            prev: self.prev_non_empty_input,
            duration: self.duration,
            score: self.score.0,
            to_growth: self.to_growth,
        }
    }
}

fn collides(s: &Vec<Line>) -> (r: bool)
    requires
        body_ok(s@),
    ensures
        r == self_collides(s@),
{
    let n = s.len();
    if n <= 2 {
        return false;
    }
    let head = s[n - 1];
    assert(seg_ok(s@[n - 1]));
    let mut i: usize = 0;
    while i < n - 2
        invariant
            n == s@.len() > 2,
            head == s@.last(),
            body_ok(s@),
            i <= n - 2,
            forall|j: int|
                0 <= j < i ==> !(intersects_spec(head, #[trigger] s@[j]) || closer_than(
                    s@[j],
                    head.end,
                    SNAKE_WIDTH as int,
                )),
        decreases n - 2 - i,
    {
        let seg = s[i];
        assert(seg_ok(s@[i as int]));
        if head.intersects(&seg) || seg.closer_than(&head.end, SNAKE_WIDTH) {
            assert(intersects_spec(head, s@[i as int]) || closer_than(s@[i as int], head.end, SNAKE_WIDTH as int));
            return true;
        }
        i += 1;
    }
    false
}

fn touches(c: Point, l: Line) -> (r: bool)
    requires
        within(c, APPLE_LIMIT),
        seg_ok(l),
    ensures
        r == touches_segment(c, l),
{
    let lo_x = if l.begin.x < l.end.x { l.begin.x } else { l.end.x };
    let hi_x = if l.begin.x < l.end.x { l.end.x } else { l.begin.x };
    let lo_y = if l.begin.y < l.end.y { l.begin.y } else { l.end.y };
    let hi_y = if l.begin.y < l.end.y { l.end.y } else { l.begin.y };
    lo_x - APPLE_RADIUS < c.x && c.x < hi_x + APPLE_RADIUS && lo_y - APPLE_RADIUS < c.y && c.y < hi_y
        + APPLE_RADIUS
}

fn is_on_snake(c: Point, s: &Vec<Line>) -> (r: bool)
    requires
        within(c, APPLE_LIMIT),
        forall|i: int| 0 <= i < s@.len() ==> seg_ok(#[trigger] s@[i]),
    ensures
        r == on_snake(c, s@),
{
    let mut i: usize = 0;
    while i < s.len()
        invariant
            within(c, APPLE_LIMIT),
            forall|j: int| 0 <= j < s@.len() ==> seg_ok(#[trigger] s@[j]),
            i <= s@.len(),
            forall|j: int| 0 <= j < i ==> !touches_segment(c, #[trigger] s@[j]),
        decreases s@.len() - i,
    {
        assert(seg_ok(s@[i as int]));
        if touches(c, s[i]) {
            assert(touches_segment(c, s@[i as int]));
            return true;
        }
        i += 1;
    }
    false
}

fn is_on_apple(c: Point, apples: &Vec<Apple>) -> (r: bool)
    requires
        within(c, APPLE_LIMIT),
        forall|i: int| 0 <= i < apples@.len() ==> within((#[trigger] apples@[i]).0, APPLE_LIMIT),
    ensures
        r == on_apple(c, apples@),
{
    let mut i: usize = 0;
    while i < apples.len()
        invariant
            within(c, APPLE_LIMIT),
            forall|j: int| 0 <= j < apples@.len() ==> within((#[trigger] apples@[j]).0, APPLE_LIMIT),
            i <= apples@.len(),
            forall|j: int| 0 <= j < i ==> !close(c, #[trigger] apples@[j].0),
        decreases apples@.len() - i,
    {
        if is_close(c, apples[i].0) {
            assert(close(c, apples@[i as int].0));
            return true;
        }
        i += 1;
    }
    false
}

fn find_free(cands: &Vec<Point>, s: &Vec<Line>, apples: &Vec<Apple>) -> (r: Option<Point>)
    requires
        forall|i: int| 0 <= i < cands@.len() ==> within(#[trigger] cands@[i], APPLE_LIMIT),
        forall|i: int| 0 <= i < s@.len() ==> seg_ok(#[trigger] s@[i]),
        forall|i: int| 0 <= i < apples@.len() ==> within((#[trigger] apples@[i]).0, APPLE_LIMIT),
    ensures
        r == first_free(cands@, s@, apples@, 0),
{
    let mut k: usize = 0;
    while k < cands.len()
        invariant
            forall|i: int| 0 <= i < cands@.len() ==> within(#[trigger] cands@[i], APPLE_LIMIT),
            forall|i: int| 0 <= i < s@.len() ==> seg_ok(#[trigger] s@[i]),
            forall|i: int| 0 <= i < apples@.len() ==> within((#[trigger] apples@[i]).0, APPLE_LIMIT),
            k <= cands@.len(),
            first_free(cands@, s@, apples@, 0) == first_free(cands@, s@, apples@, k as int),
        decreases cands@.len() - k,
    {
        let c = cands[k];
        if !is_on_snake(c, s) && !is_on_apple(c, apples) {
            return Some(c);
        }
        k += 1;
    }
    None
}

impl SnakeGame {
    /// A game whose snake starts at `setup` going right.
    pub fn new(setup: Point) -> (r: SnakeGame)
        requires
            within(setup, APPLE_LIMIT),
        ensures
            r.wf(),
            r.snake.segments@ == seq![Line { begin: setup, end: Point { x: (setup.x + 3 * UNIT) as i64, y: setup.y } }],
            r.apples@.len() == 0,
            r.prev_non_empty_input == (Input { up: false, down: false, left: false, right: true }),
            r.duration == 2000,
            r.score == Score(0),
            r.to_growth == 0,
    {
        let r = SnakeGame {
            snake: Snake::new(setup),
            apples: Vec::new(),
            duration: 2000,
            prev_non_empty_input: Input { up: false, down: false, left: false, right: true },
            score: Score(0),
            to_growth: 0,
        };
        proof {
            let s = r.snake.segments@;
            assert(total_len(s.drop_first()) == 0);
        }
        r
    }

    pub open spec fn wf(&self) -> bool {
        &&& body_ok(self.snake.segments@)
        &&& total_len(self.snake.segments@) > 0
        &&& one_way(self.prev_non_empty_input)
        &&& follows(self.snake.segments@.last(), self.prev_non_empty_input)
        &&& forall|i: int| 0 <= i < self.apples@.len() ==> within((#[trigger] self.apples@[i]).0, APPLE_LIMIT)
    }

    /// The head is far enough from the ends of the coordinates for the
    /// longest frame.
    pub open spec fn room_spec(&self) -> bool {
        within(self.snake.segments@.last().end, (BODY_LIMIT - ROOM) as i64)
    }

    pub fn has_room(&self) -> (r: bool)
        requires
            self.wf(),
        ensures
            r == self.room_spec(),
    {
        let h = self.snake.head().end;
        let lim = BODY_LIMIT - ROOM;
        -lim <= h.x && h.x <= lim && -lim <= h.y && h.y <= lim
    }

    pub fn get_score(&self) -> (r: crate::game::Score)
        ensures
            r.value == (if self.score.0 > i64::MAX { i64::MAX as int } else { self.score.0 as int }),
    {
        if self.score.0 > i64::MAX as u64 {
            crate::game::Score { value: i64::MAX }
        } else {
            crate::game::Score { value: self.score.0 as i64 }
        }
    }

    /// Eats the apples within reach of the head; returns how many.
    fn eat(&mut self) -> (eaten: usize)
        requires
            old(self).wf(),
        ensures
            final(self).wf(),
            final(self).apples@ == uneaten(old(self)@),
            eaten == old(self).apples@.len() - uneaten(old(self)@).len(),
            final(self).snake.segments@ == old(self).snake.segments@,
            final(self).prev_non_empty_input == old(self).prev_non_empty_input,
            final(self).duration == old(self).duration,
            final(self).score == old(self).score,
            final(self).to_growth == old(self).to_growth,
    {
        let head = self.snake.head().end;
        let ghost a0 = self.apples@;
        assert(seg_ok(self.snake.segments@.last()));
        let mut flags: Vec<bool> = Vec::new();
        let mut i: usize = 0;
        while i < self.apples.len()
            invariant
                self.wf(),
                self.apples@ == a0,
                head == self.snake.segments@.last().end,
                within(head, BODY_LIMIT),
                i <= a0.len(),
                flags@ == eaten_flags(a0, head).take(i as int),
            decreases a0.len() - i,
        {
            flags.push(is_close(head, self.apples[i].0));
            i += 1;
            assert(flags@ =~= eaten_flags(a0, head).take(i as int));
        }
        assert(flags@ =~= eaten_flags(a0, head));
        let before = self.apples.len();
        retain_kept(&mut self.apples, &flags);
        proof {
            crate::keep::lemma_kept_from(a0, flags@);
            crate::keep::lemma_kept_len(a0, flags@);
            assert forall|i: int| 0 <= i < self.apples@.len() implies within((#[trigger] self.apples@[i]).0, APPLE_LIMIT) by {
                let j = choose|j: int| 0 <= j < a0.len() && !flags@[j] && #[trigger] kept(a0, flags@)[i] == a0[j];
            }
        }
        before - self.apples.len()
    }

    /// Places an apple on the spawn timer.
    fn spawn(&mut self, candidates: &Vec<Point>)
        requires
            old(self).wf(),
            forall|i: int| 0 <= i < candidates@.len() ==> within(#[trigger] candidates@[i], APPLE_LIMIT),
        ensures
            final(self).wf(),
            (final(self).apples@, final(self).duration) == spawn_spec(
                old(self).apples@,
                old(self).snake.segments@,
                old(self).duration,
                candidates@,
            ),
            final(self).apples@.len() > old(self).apples@.len() ==> !on_snake(
                final(self).apples@.last().0,
                old(self).snake.segments@,
            ) && !on_apple(final(self).apples@.last().0, old(self).apples@),
            final(self).snake.segments@ == old(self).snake.segments@,
            final(self).prev_non_empty_input == old(self).prev_non_empty_input,
            final(self).score == old(self).score,
            final(self).to_growth == old(self).to_growth,
    {
        if self.duration > SPAWN_RATE {
            if self.apples.len() < MAX_APPLES {
                match find_free(candidates, &self.snake.segments, &self.apples) {
                    Some(c) => {
                        proof {
                            lemma_first_free_from(candidates@, self.snake.segments@, self.apples@, 0);
                        }
                        self.apples.push(Apple(c));
                    },
                    None => {},
                }
            }
            self.duration = 0;
        }
    }

    /// The snake advances for `delta_micros` microseconds.
    fn advance(&mut self, input: Option<Key>, delta_micros: u64)
        requires
            old(self).wf(),
            old(self).room_spec(),
            delta_micros <= MAX_DELTA,
        ensures
            final(self).wf(),
            (final(self).snake.segments@, final(self).to_growth, final(self).prev_non_empty_input) == advance_spec(
                old(self).snake.segments@,
                old(self).prev_non_empty_input,
                input,
                delta_micros,
                old(self).to_growth,
            ),
            total_len(final(self).snake.segments@) + final(self).to_growth == total_len(old(self).snake.segments@)
                + old(self).to_growth,
            final(self).apples@ == old(self).apples@,
            final(self).duration == old(self).duration,
            final(self).score == old(self).score,
    {
        let ghost prev = self.prev_non_empty_input;
        let chosen = choose_direction(read_to_input(input), self.prev_non_empty_input);
        let dist: u64 = SPEED * delta_micros;
        let step = chosen.as_vec(dist as i64);
        let h = *self.snake.head();
        let ghost s1 = self.snake.segments@;
        assert(seg_ok(s1.last()));
        let end = Point { x: h.end.x + step.x, y: h.end.y + step.y };
        if chosen != self.prev_non_empty_input {
            let seg = Line { begin: h.end, end };
            self.snake.segments.push(seg);
            proof {
                lemma_total_push(s1, seg);
            }
        } else {
            let seg = Line { begin: h.begin, end };
            let last = self.snake.segments.len() - 1;
            self.snake.segments.set(last, seg);
            proof {
                lemma_total_update(s1, last as int, seg);
            }
        }
        assert(self.snake.segments@ == moved(s1, chosen, prev, dist as int));
        assert(connected(self.snake.segments@));
        assert(body_ok(self.snake.segments@));
        assert(follows(self.snake.segments@.last(), chosen));
        let g = self.to_growth;
        let to_shrink: u64 = if dist > g { dist - g } else { 0 };
        self.to_growth = if g > dist { g - dist } else { 0 };
        self.snake.shrink_tail(to_shrink);
        self.prev_non_empty_input = chosen;
    }

    /// One update of `delta_micros` microseconds, with `candidates` the
    /// positions tried in turn should a new apple be placed.
    pub fn update_with(&mut self, input: Option<Key>, delta_micros: u64, candidates: &Vec<Point>) -> (r: UpdateEvent)
        requires
            old(self).wf(),
            old(self).room_spec(),
            delta_micros <= MAX_DELTA,
            forall|i: int| 0 <= i < candidates@.len() ==> within(#[trigger] candidates@[i], APPLE_LIMIT),
        ensures
            final(self).wf(),
            (final(self)@, r) == update_spec(old(self)@, input, delta_micros, candidates@),
            total_len(final(self).snake.segments@) + final(self).to_growth == total_len(old(self).snake.segments@)
                + fed(old(self)@),
            total_len(final(self).snake.segments@) == total_len(old(self).snake.segments@) + min(
                SPEED * delta_micros,
                fed(old(self)@) as int,
            ),
            final(self).to_growth == (if fed(old(self)@) > SPEED * delta_micros {
                fed(old(self)@) - SPEED * delta_micros
            } else {
                0
            }),
            apple_placed_free(old(self)@, final(self)@),
    {
        self.duration = self.duration.saturating_add(delta_micros);
        let collided = collides(&self.snake.segments);
        let eaten = self.eat();
        let add: u64 = if eaten as u64 <= u64::MAX / GROWTH {
            GROWTH * eaten as u64
        } else {
            u64::MAX
        };
        self.to_growth = self.to_growth.saturating_add(add);
        self.score = Score(self.score.0.saturating_add(eaten as u64));
        self.spawn(candidates);
        self.advance(input, delta_micros);
        if collided {
            UpdateEvent::GameOver
        } else {
            UpdateEvent::GameContinue
        }
    }

    /// One update; the positions tried for a new apple are drawn at random
    /// on a board of the given size in character cells.
    pub fn update(&mut self, input: Option<Key>, delta_micros: u64, screen_cols: u16, screen_rows: u16) -> (r:
        UpdateEvent)
        requires
            old(self).wf(),
            old(self).room_spec(),
            delta_micros <= MAX_DELTA,
        ensures
            final(self).wf(),
            total_len(final(self).snake.segments@) + final(self).to_growth == total_len(old(self).snake.segments@)
                + fed(old(self)@),
            total_len(final(self).snake.segments@) == total_len(old(self).snake.segments@) + min(
                SPEED * delta_micros,
                fed(old(self)@) as int,
            ),
            final(self).to_growth == (if fed(old(self)@) > SPEED * delta_micros {
                fed(old(self)@) - SPEED * delta_micros
            } else {
                0
            }),
            apple_placed_free(old(self)@, final(self)@),
            exists|cands: Seq<Point>|
                cands.len() == (if screen_cols / 2 > 0 && screen_rows > 0 && sat_add(
                    old(self).duration,
                    delta_micros as int,
                ) > SPAWN_RATE {
                    SPAWN_TRIES as int
                } else {
                    0
                }) && (forall|i: int|
                    0 <= i < cands.len() ==> 0 <= (#[trigger] cands[i]).x < (screen_cols / 2) * UNIT && 0
                        <= cands[i].y < screen_rows * UNIT) && (final(self)@, r) == update_spec(
                    old(self)@,
                    input,
                    delta_micros,
                    cands,
                ),
    {
        let w = (screen_cols / 2) as u32;
        let h = screen_rows as u32;
        let mut cands: Vec<Point> = Vec::new();
        if w > 0 && h > 0 && self.duration.saturating_add(delta_micros) > SPAWN_RATE {
            let mut k: usize = 0;
            while k < SPAWN_TRIES
                invariant
                    w == screen_cols / 2,
                    h == screen_rows,
                    w > 0 && h > 0,
                    k <= SPAWN_TRIES,
                    cands@.len() == k,
                    forall|i: int|
                        0 <= i < cands@.len() ==> 0 <= (#[trigger] cands@[i]).x < w * UNIT && 0 <= cands@[i].y < h
                            * UNIT,
                decreases SPAWN_TRIES - k,
            {
                let x = random_below(w) as i64;
                let y = random_below(h) as i64;
                assert(x * UNIT < w * UNIT) by (nonlinear_arith)
                    requires
                        0 <= x < w,
                ;
                assert(y * UNIT < h * UNIT) by (nonlinear_arith)
                    requires
                        0 <= y < h,
                ;
                cands.push(Point { x: x * UNIT, y: y * UNIT });
                k += 1;
            }
        }
        proof {
            assert forall|i: int| 0 <= i < cands@.len() implies within(#[trigger] cands@[i], APPLE_LIMIT) by {
                assert(w * UNIT <= 0x8000 * UNIT) by (nonlinear_arith)
                    requires
                        w <= 0x8000,
                ;
                assert(h * UNIT <= 0x10000 * UNIT) by (nonlinear_arith)
                    requires
                        h <= 0x10000,
                ;
            }
        }
        self.update_with(input, delta_micros, &cands)
    }
}

} // verus!
