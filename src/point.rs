//! Coordinate spaces, points and segments, and the collision predicates
//! shared by the games: bounds, proximity, segment intersection and
//! distance to a segment.
use vstd::prelude::*;

verus! {

/// Screen space: character cells, two of them to a game unit across.
/// `ScreenPoint` is a point of it.
#[derive(Clone, Copy, Debug)]
pub struct ScreenBasis;

/// Game space: uniform logical units. `Point` and `Cell` are points of it.
#[derive(Clone, Copy, Debug)]
pub struct GameBasis;

/// The edge of the screen that a point has crossed.
#[derive(Clone, Copy, Debug, PartialEq, Eq, Structural)]
pub enum BoundsCollision {
    Top,
    Bottom,
    Left,
    Right,
}

/// The edge that the screen cell `(x, y)` lies beyond on a screen of the
/// given size, the first in the order top, bottom, left, right.
pub open spec fn bounds_of(x: int, y: int, screen_width: int, screen_height: int) -> Option<BoundsCollision> {
    if y < 0 {
        Some(BoundsCollision::Top)
    } else if y > screen_height {
        Some(BoundsCollision::Bottom)
    } else if x < 0 {
        Some(BoundsCollision::Left)
    } else if x > screen_width - 2 {
        Some(BoundsCollision::Right)
    } else {
        None
    }
}

/// Bounds check of a screen position already rounded to the cell `(x, y)`.
pub fn bounds_check(x: i64, y: i64, screen_width: u16, screen_height: u16) -> (r: Option<BoundsCollision>)
    ensures
        r == bounds_of(x as int, y as int, screen_width as int, screen_height as int),
{
    if y < 0 {
        Some(BoundsCollision::Top)
    } else if y > screen_height as i64 {
        Some(BoundsCollision::Bottom)
    } else if x < 0 {
        Some(BoundsCollision::Left)
    } else if x > screen_width as i64 - 2 {
        Some(BoundsCollision::Right)
    } else {
        None
    }
}


/// A cell of a game-space grid: a point whose coordinates are whole units.
#[derive(Clone, Copy, Debug, PartialEq, Eq, Structural)]
pub struct Cell {
    pub x: i64,
    pub y: i64,
}

impl Cell {
    pub fn new(x: i64, y: i64) -> (r: Cell)
        ensures
            r.x == x && r.y == y,
    {
        Cell { x, y }
    }
}


/// Millionths of a unit: the resolution of positions in game space.
pub const UNIT: i64 = 1_000_000;
pub const HALF_UNIT: i64 = 500_000;
/// Bound on coordinates that keeps products of differences within `i128`.
pub const COORD_LIMIT: i64 = 0x1000_0000_0000_0000;

/// A point in game space, its coordinates counted in millionths of a game unit.
#[derive(Clone, Copy, Debug, PartialEq, Eq, Structural)]
pub struct Point {
    pub x: i64,
    pub y: i64,
}

/// A point in screen space, its coordinates counted in millionths of a
/// character cell.
#[derive(Clone, Copy, Debug, PartialEq, Eq, Structural)]
pub struct ScreenPoint {
    pub x: i64,
    pub y: i64,
}

pub open spec fn point_ok(p: Point) -> bool {
    -COORD_LIMIT <= p.x <= COORD_LIMIT && -COORD_LIMIT <= p.y <= COORD_LIMIT
}

/// Halving towards zero, as integer division does.
pub open spec fn half(x: int) -> int {
    if x >= 0 { x / 2 } else { -((-x) / 2) }
}

impl Point {
    pub fn new(x: i64, y: i64) -> (r: Point)
        ensures
            r.x == x && r.y == y,
    {
        Point { x, y }
    }

    /// Both coordinates differ by less than `epsilon`.
    pub fn compare(&self, other: &Point, epsilon: i64) -> (r: bool)
        requires
            0 <= epsilon,
            point_ok(*self),
            point_ok(*other),
        ensures
            r == (-epsilon < self.x - other.x < epsilon && -epsilon < self.y - other.y < epsilon),
    {
        let dx = self.x - other.x;
        let dy = self.y - other.y;
        -epsilon < dx && dx < epsilon && -epsilon < dy && dy < epsilon
    }

    pub fn cross(&self, other: &Point) -> (r: i128)
        requires
            point_ok(*self),
            point_ok(*other),
        ensures
            r == cross(self.x as int, self.y as int, other.x as int, other.y as int),
    {
        cross_exec(self.x as i128, self.y as i128, other.x as i128, other.y as i128)
    }

    pub fn dot(&self, other: &Point) -> (r: i128)
        requires
            point_ok(*self),
            point_ok(*other),
        ensures
            r == dot(self.x as int, self.y as int, other.x as int, other.y as int),
    {
        proof {
            lemma_mul_bound(self.x as int, other.x as int, 0x2000_0000_0000_0000);
            lemma_mul_bound(self.y as int, other.y as int, 0x2000_0000_0000_0000);
        }
        self.x as i128 * other.x as i128 + self.y as i128 * other.y as i128
    }

    /// The vector scaled by `k`.
    pub fn scale(&self, k: i64) -> (r: Point)
        requires
            i64::MIN < self.x * k <= i64::MAX,
            i64::MIN < self.y * k <= i64::MAX,
        ensures
            r.x == self.x * k && r.y == self.y * k,
    {
        Point { x: self.x * k, y: self.y * k }
    }

    /// The edge of a screen `width` by `height` cells that this point,
    /// taken to its nearest screen cell, lies beyond.
    pub fn bounds_check(&self, width: u16, height: u16) -> (r: Option<BoundsCollision>)
        requires
            -COORD_LIMIT <= self.x <= COORD_LIMIT,
            -COORD_LIMIT <= self.y <= COORD_LIMIT,
        ensures
            r == bounds_of(round_cell(2 * self.x), round_cell(self.y as int), width as int, height as int),
    {
        bounds_check(round_cell_exec(2 * self.x), round_cell_exec(self.y), width, height)
    }

    /// The same point in screen space: twice as far across.
    pub fn to_screen(&self) -> (r: ScreenPoint)
        requires
            point_ok(*self),
        ensures
            r.x == 2 * self.x && r.y == self.y,
    {
        ScreenPoint { x: 2 * self.x, y: self.y }
    }
}

/// The nearest whole cell to `m` millionths of a cell, halves rounded away
/// from zero.
pub open spec fn round_cell(m: int) -> int {
    if m >= 0 { (m + HALF_UNIT) / (UNIT as int) } else { -((-m + HALF_UNIT) / (UNIT as int)) }
}

fn round_cell_exec(m: i64) -> (r: i64)
    requires
        -4 * COORD_LIMIT <= m <= 4 * COORD_LIMIT,
    ensures
        r == round_cell(m as int),
{
    if m >= 0 {
        (m + HALF_UNIT) / UNIT
    } else {
        -((-m + HALF_UNIT) / UNIT)
    }
}

impl ScreenPoint {
    /// The edge of a screen `width` by `height` cells that the nearest cell
    /// to this point lies beyond.
    pub fn bounds_check(&self, width: u16, height: u16) -> (r: Option<BoundsCollision>)
        requires
            -COORD_LIMIT <= self.x <= COORD_LIMIT,
            -COORD_LIMIT <= self.y <= COORD_LIMIT,
        ensures
            r == bounds_of(round_cell(self.x as int), round_cell(self.y as int), width as int, height as int),
    {
        bounds_check(round_cell_exec(self.x), round_cell_exec(self.y), width, height)
    }

    /// The same point in game space: half as far across.
    pub fn to_game(&self) -> (r: Point)
        requires
            self.x > i64::MIN,
        ensures
            r.x == half(self.x as int) && r.y == self.y,
    {
        if self.x >= 0 {
            Point { x: self.x / 2, y: self.y }
        } else {
            Point { x: -((-self.x) / 2), y: self.y }
        }
    }
}

/// From game space to screen space and back gives the point back; from
/// screen space to game space and back moves it by at most one millionth of
/// a cell, and not at all where its column is even.
pub proof fn lemma_basis_round_trip(p: Point, s: ScreenPoint)
    ensures
        half(2 * p.x) == p.x,
        -1 <= 2 * half(s.x as int) - s.x <= 1,
        s.x % 2 == 0 ==> 2 * half(s.x as int) == s.x,
{
}

/// A directed segment in game space.
#[derive(Clone, Copy, Debug, PartialEq, Eq, Structural)]
pub struct Line {
    pub begin: Point,
    pub end: Point,
}

pub open spec fn line_ok(l: Line) -> bool {
    point_ok(l.begin) && point_ok(l.end)
}

/// A segment along one axis, or a single point.
pub open spec fn axis_aligned(l: Line) -> bool {
    l.begin.x == l.end.x || l.begin.y == l.end.y
}

pub open spec fn abs(x: int) -> int {
    if x < 0 { -x } else { x }
}

pub open spec fn sign(x: int) -> int {
    if x > 0 { 1 } else if x < 0 { -1 } else { 0 }
}

/// The length of an axis-aligned segment.
pub open spec fn axis_len(l: Line) -> int {
    abs(l.end.x - l.begin.x) + abs(l.end.y - l.begin.y)
}

pub open spec fn cross(ax: int, ay: int, bx: int, by: int) -> int {
    ax * by - ay * bx
}

pub open spec fn dot(ax: int, ay: int, bx: int, by: int) -> int {
    ax * bx + ay * by
}

/// The segments meet: with `a` and `b` their directions and `c` the offset
/// between their starts, both parameters `cross(c, b) / det` and
/// `cross(c, a) / det` lie in `[0, 1]`, where `det = cross(a, b)`. Parallel
/// segments never meet, even where they overlap.
pub open spec fn intersects_spec(l: Line, m: Line) -> bool {
    let (ax, ay) = (l.end.x - l.begin.x, l.end.y - l.begin.y);
    let (bx, by) = (m.end.x - m.begin.x, m.end.y - m.begin.y);
    let (cx, cy) = (m.begin.x - l.begin.x, m.begin.y - l.begin.y);
    let det = cross(ax, ay, bx, by);
    let t = cross(cx, cy, bx, by);
    let u = cross(cx, cy, ax, ay);
    det != 0 && if det > 0 {
        0 <= t <= det && 0 <= u <= det
    } else {
        det <= t <= 0 && det <= u <= 0
    }
}

/// The point lies closer than `w` to the segment: to its nearest point where
/// its projection falls inside the segment, else to the nearer end.
pub open spec fn closer_than(l: Line, p: Point, w: int) -> bool {
    let (ax, ay) = (l.end.x - l.begin.x, l.end.y - l.begin.y);
    let (bx, by) = (p.x - l.begin.x, p.y - l.begin.y);
    let (cx, cy) = (p.x - l.end.x, p.y - l.end.y);
    if dot(ax, ay, bx, by) > 0 && dot(ax, ay, cx, cy) < 0 {
        cross(ax, ay, bx, by) * cross(ax, ay, bx, by) < w * w * dot(ax, ay, ax, ay)
    } else {
        dot(bx, by, bx, by) < w * w || dot(cx, cy, cx, cy) < w * w
    }
}

/// Whether two segments meet does not depend on their order.
pub proof fn lemma_intersects_symmetric(l: Line, m: Line)
    ensures
        intersects_spec(l, m) == intersects_spec(m, l),
{
    let (ax, ay) = (l.end.x - l.begin.x, l.end.y - l.begin.y);
    let (bx, by) = (m.end.x - m.begin.x, m.end.y - m.begin.y);
    let (cx, cy) = (m.begin.x - l.begin.x, m.begin.y - l.begin.y);
    assert(cross(bx, by, ax, ay) == -cross(ax, ay, bx, by)) by (nonlinear_arith);
    assert(cross(-cx, -cy, ax, ay) == -cross(cx, cy, ax, ay)) by (nonlinear_arith);
    assert(cross(-cx, -cy, bx, by) == -cross(cx, cy, bx, by)) by (nonlinear_arith);
}

proof fn lemma_mul_bound(a: int, b: int, m: int)
    requires
        -m <= a <= m,
        -m <= b <= m,
        0 <= m,
    ensures
        -(m * m) <= a * b <= m * m,
{
    assert(-(m * m) <= a * b <= m * m) by (nonlinear_arith)
        requires
            -m <= a <= m,
            -m <= b <= m,
            0 <= m,
    ;
}

/// `cross(a, b)` with every coordinate within `2 * COORD_LIMIT`.
fn cross_exec(ax: i128, ay: i128, bx: i128, by: i128) -> (r: i128)
    requires
        -0x2000_0000_0000_0000 <= ax <= 0x2000_0000_0000_0000,
        -0x2000_0000_0000_0000 <= ay <= 0x2000_0000_0000_0000,
        -0x2000_0000_0000_0000 <= bx <= 0x2000_0000_0000_0000,
        -0x2000_0000_0000_0000 <= by <= 0x2000_0000_0000_0000,
    ensures
        r == cross(ax as int, ay as int, bx as int, by as int),
{
    proof {
        lemma_mul_bound(ax as int, by as int, 0x2000_0000_0000_0000);
        lemma_mul_bound(ay as int, bx as int, 0x2000_0000_0000_0000);
    }
    ax * by - ay * bx
}

/// `x * x + y * y < w * w`, for a positive `w`.
fn within_radius(x: i128, y: i128, w: i128) -> (r: bool)
    requires
        0 < w <= 0x1_0000_0000,
    ensures
        r == (x * x + y * y < w * w),
{
    if x <= -w || x >= w || y <= -w || y >= w {
        proof {
            assert(x * x + y * y >= w * w) by (nonlinear_arith)
                requires
                    0 < w,
                    x <= -w || x >= w || y <= -w || y >= w,
            ;
        }
        false
    } else {
        proof {
            lemma_mul_bound(x as int, x as int, w as int);
            lemma_mul_bound(y as int, y as int, w as int);
            lemma_mul_bound(w as int, w as int, w as int);
            assert(w * w <= 0x1_0000_0000_0000_0000) by (nonlinear_arith)
                requires
                    0 < w <= 0x1_0000_0000,
            ;
        }
        let xx = x * x;
        let yy = y * y;
        xx + yy < w * w
    }
}

proof fn lemma_perpendicular(a: int, b: int, w: int)
    requires
        a != 0,
        0 < w,
    ensures
        (a * b) * (a * b) < w * w * (a * a) <==> -w < b < w,
{
    assert((a * b) * (a * b) == (a * a) * (b * b)) by (nonlinear_arith);
    assert(w * w * (a * a) == (a * a) * (w * w)) by (nonlinear_arith);
    assert(a * a > 0) by (nonlinear_arith)
        requires
            a != 0,
    ;
    assert((a * a) * (b * b) < (a * a) * (w * w) <==> b * b < w * w) by (nonlinear_arith)
        requires
            a * a > 0,
    ;
    assert(b * b < w * w <==> -w < b < w) by (nonlinear_arith)
        requires
            0 < w,
    ;
}

impl Line {
    pub fn new(begin: Point, end: Point) -> (r: Line)
        ensures
            r.begin == begin && r.end == end,
    {
        Line { begin, end }
    }

    pub fn intersects(&self, other: &Line) -> (r: bool)
        requires
            line_ok(*self),
            line_ok(*other),
        ensures
            r == intersects_spec(*self, *other),
    {
        let ax = self.end.x as i128 - self.begin.x as i128;
        let ay = self.end.y as i128 - self.begin.y as i128;
        let bx = other.end.x as i128 - other.begin.x as i128;
        let by = other.end.y as i128 - other.begin.y as i128;
        let cx = other.begin.x as i128 - self.begin.x as i128;
        let cy = other.begin.y as i128 - self.begin.y as i128;
        let det = cross_exec(ax, ay, bx, by);
        if det == 0 {
            return false;
        }
        let t = cross_exec(cx, cy, bx, by);
        let u = cross_exec(cx, cy, ax, ay);
        if det > 0 {
            0 <= t && t <= det && 0 <= u && u <= det
        } else {
            det <= t && t <= 0 && det <= u && u <= 0
        }
    }

    /// The length of an axis-aligned segment.
    pub fn length(&self) -> (r: u64)
        requires
            line_ok(*self),
            axis_aligned(*self),
        ensures
            r == axis_len(*self),
    {
        let dx = self.end.x - self.begin.x;
        let dy = self.end.y - self.begin.y;
        let adx: u64 = if dx < 0 { (-dx) as u64 } else { dx as u64 };
        let ady: u64 = if dy < 0 { (-dy) as u64 } else { dy as u64 };
        adx + ady
    }

    /// The unit direction of an axis-aligned segment (one `UNIT` long), or
    /// the zero vector for a segment of length zero.
    pub fn direction(&self) -> (r: Point)
        requires
            line_ok(*self),
            axis_aligned(*self),
        ensures
            r.x == UNIT * sign(self.end.x - self.begin.x),
            r.y == UNIT * sign(self.end.y - self.begin.y),
            axis_len(*self) == 0 ==> r == (Point { x: 0, y: 0 }),
            axis_len(*self) > 0 ==> abs(r.x as int) + abs(r.y as int) == UNIT && (r.x == 0 || r.y == 0),
            axis_len(*self) > 0 ==> dot(
                r.x as int,
                r.y as int,
                self.end.x - self.begin.x,
                self.end.y - self.begin.y,
            ) > 0 && cross(r.x as int, r.y as int, self.end.x - self.begin.x, self.end.y - self.begin.y) == 0,
    {
        let x: i64 = if self.end.x > self.begin.x {
            UNIT
        } else if self.end.x < self.begin.x {
            -UNIT
        } else {
            0
        };
        let y: i64 = if self.end.y > self.begin.y {
            UNIT
        } else if self.end.y < self.begin.y {
            -UNIT
        } else {
            0
        };
        Point { x, y }
    }

    /// The segment from the same start, one `UNIT` long in the same
    /// direction; a segment of length zero stays as it is.
    pub fn normalize(&self) -> (r: Line)
        requires
            line_ok(*self),
            axis_aligned(*self),
        ensures
            r.begin == self.begin,
            axis_len(*self) > 0 ==> r.end == (Point {
                x: (self.begin.x + UNIT * sign(self.end.x - self.begin.x)) as i64,
                y: (self.begin.y + UNIT * sign(self.end.y - self.begin.y)) as i64,
            }),
            axis_len(*self) == 0 ==> r.end == self.end,
    {
        if self.length() > 0 {
            let d = self.direction();
            Line { begin: self.begin, end: Point { x: self.begin.x + d.x, y: self.begin.y + d.y } }
        } else {
            *self
        }
    }

    /// Whether the point lies closer than `w` to this axis-aligned segment.
    pub fn closer_than(&self, p: &Point, w: i64) -> (r: bool)
        requires
            line_ok(*self),
            point_ok(*p),
            axis_aligned(*self),
            0 < w <= 0x1_0000_0000,
        ensures
            r == closer_than(*self, *p, w as int),
    {
        let ax = self.end.x as i128 - self.begin.x as i128;
        let ay = self.end.y as i128 - self.begin.y as i128;
        let bx = p.x as i128 - self.begin.x as i128;
        let by = p.y as i128 - self.begin.y as i128;
        let cx = p.x as i128 - self.end.x as i128;
        let cy = p.y as i128 - self.end.y as i128;
        let w = w as i128;
        proof {
            lemma_mul_bound(ax as int, bx as int, 0x2000_0000_0000_0000);
            lemma_mul_bound(ay as int, by as int, 0x2000_0000_0000_0000);
            lemma_mul_bound(ax as int, cx as int, 0x2000_0000_0000_0000);
            lemma_mul_bound(ay as int, cy as int, 0x2000_0000_0000_0000);
        }
        let dab = ax * bx + ay * by;
        let dac = ax * cx + ay * cy;
        if dab > 0 && dac < 0 {
            if ay == 0 {
                proof {
                    assert(ax != 0);
                    lemma_perpendicular(ax as int, by as int, w as int);
                    assert(cross(ax as int, ay as int, bx as int, by as int) == ax * by);
                    assert(dot(ax as int, ay as int, ax as int, ay as int) == ax * ax);
                }
                -w < by && by < w
            } else {
                proof {
                    assert(ax == 0);
                    lemma_perpendicular(ay as int, bx as int, w as int);
                    assert(cross(ax as int, ay as int, bx as int, by as int) == -(ay * bx));
                    assert((-(ay * bx)) * (-(ay * bx)) == (ay * bx) * (ay * bx)) by (nonlinear_arith);
                    assert(dot(ax as int, ay as int, ax as int, ay as int) == ay * ay);
                }
                -w < bx && bx < w
            }
        } else {
            within_radius(bx, by, w) || within_radius(cx, cy, w)
        }
    }
}

} // verus!
