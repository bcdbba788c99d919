//! The falling-block puzzle: figures turned in quarter turns about their
//! pivot, placed on a grid of cells, locked in and cleared row by row.
use vstd::prelude::*;
use crate::game::{sat_add, Key, Score, UpdateEvent};
use crate::point::Cell;
use crate::rng::random_below;

verus! {

pub const HEIGHT: usize = 20;
pub const WIDTH: usize = 10;
/// Time between two steps down, in nanoseconds, at the normal pace.
pub const TO_DESCEND_SLOW: u64 = 200_000_000;
/// Time between two steps down, in nanoseconds, while the down key is held.
pub const TO_DESCEND_FAST: u64 = 50_000_000;
/// Least time between two moves or turns made by keys, in nanoseconds.
pub const MINIMUM_USER_INPUT_DISTANCE: u64 = 125_000_000;
/// Where a new figure appears.
pub const INIT_FIGURE_X: i64 = 3;
pub const INIT_FIGURE_Y: i64 = 0;
/// A figure that cannot move while all its cells lie above this row ends the game.
pub const LOSE_LINE: i64 = 1;
/// The number of figure types.
pub const FIGURE_TYPES: u32 = 7;

#[derive(Clone, Copy, Debug, PartialEq, Eq, Structural)]
pub enum Color {
    Cyan,
    Blue,
    Orange,
    Yellow,
    Green,
    Purple,
    Red,
}

#[derive(Clone, Copy, Debug, PartialEq, Eq, Structural)]
pub enum FigureType {
    Square,
    Line,
    L,
    LMirrored,
    Z,
    ZMirrored,
    T,
}

/// A figure: its type and how many quarter turns it has been turned by.
#[derive(Clone, Copy, Debug, PartialEq, Eq, Structural)]
pub struct Figure {
    pub figure_type: FigureType,
    pub rotation: u8,
}

pub open spec fn color_of(t: FigureType) -> Color {
    match t {
        FigureType::Square => Color::Yellow,
        FigureType::Line => Color::Cyan,
        FigureType::L => Color::Orange,
        FigureType::LMirrored => Color::Blue,
        FigureType::Z => Color::Red,
        FigureType::ZMirrored => Color::Green,
        FigureType::T => Color::Purple,
    }
}

pub open spec fn cell(x: int, y: int) -> Cell {
    Cell { x: x as i64, y: y as i64 }
}

/// The four cells of a figure type before any turn.
pub open spec fn template(t: FigureType) -> Seq<Cell> {
    match t {
        FigureType::Square => seq![cell(0, 0), cell(1, 0), cell(0, 1), cell(1, 1)],
        FigureType::Line => seq![cell(0, 0), cell(1, 0), cell(2, 0), cell(3, 0)],
        FigureType::L => seq![cell(0, 0), cell(0, 1), cell(1, 1), cell(2, 1)],
        FigureType::LMirrored => seq![cell(0, 1), cell(1, 1), cell(2, 1), cell(2, 0)],
        FigureType::Z => seq![cell(0, 0), cell(1, 0), cell(1, 1), cell(2, 1)],
        FigureType::ZMirrored => seq![cell(0, 1), cell(1, 1), cell(1, 0), cell(2, 0)],
        FigureType::T => seq![cell(0, 0), cell(1, 0), cell(2, 0), cell(1, 1)],
    }
}

/// The pivot that a figure type turns about, given in half cells: the cell
/// `(x, y)` here stands for the point `(x / 2, y / 2)`.
pub open spec fn pivot2(t: FigureType) -> Cell {
    match t {
        FigureType::Square => cell(1, 1),
        FigureType::Line => cell(3, 1),
        FigureType::L => cell(2, 2),
        FigureType::LMirrored => cell(2, 2),
        FigureType::Z => cell(2, 0),
        FigureType::ZMirrored => cell(2, 0),
        FigureType::T => cell(2, 0),
    }
}

/// The point `p` turned by `q` quarter turns about the point `pv2 / 2`, by
/// the rotation `(x, y) -> (x cos a - y sin a, x sin a + y cos a)`. Both
/// coordinates of `pv2` are even or both odd, so the result is a cell.
pub open spec fn turned(p: Cell, pv2: Cell, q: int) -> (int, int) {
    let s = (pv2.x + pv2.y) / 2;
    let t = s - pv2.x;
    if q % 4 == 0 {
        (p.x as int, p.y as int)
    } else if q % 4 == 1 {
        (s - p.y, p.x + t)
    } else if q % 4 == 2 {
        (pv2.x - p.x, pv2.y - p.y)
    } else {
        (p.y - t, s - p.x)
    }
}

/// The cells of a figure of type `t` turned by `q` quarter turns and moved by `pos`.
pub open spec fn placed_cells(t: FigureType, q: int, pos: Cell) -> Seq<Cell> {
    Seq::new(4, |i: int| {
        let r = turned(template(t)[i], pivot2(t), q);
        cell(r.0 + pos.x, r.1 + pos.y)
    })
}

pub open spec fn cells_of(f: Figure, pos: Cell) -> Seq<Cell> {
    placed_cells(f.figure_type, f.rotation as int, pos)
}

/// Positions far enough from the ends of `i64` for a figure placed there.
pub open spec fn within_reach(pos: Cell) -> bool {
    -0x1_0000_0000 <= pos.x <= 0x1_0000_0000 && -0x1_0000_0000 <= pos.y <= 0x1_0000_0000
}

/// Each cell of a placed figure lies at most three cells from its position.
pub proof fn lemma_cells_near(t: FigureType, q: int, pos: Cell)
    requires
        within_reach(pos),
    ensures
        forall|i: int|
            0 <= i < 4 ==> pos.x - 3 <= #[trigger] placed_cells(t, q, pos)[i].x <= pos.x + 3
                && pos.y - 3 <= placed_cells(t, q, pos)[i].y <= pos.y + 3,
{
    assert forall|i: int| 0 <= i < 4 implies pos.x - 3 <= #[trigger] placed_cells(t, q, pos)[i].x
        <= pos.x + 3 && pos.y - 3 <= placed_cells(t, q, pos)[i].y <= pos.y + 3 by {
        assert(0 <= template(t)[i].x <= 3 && 0 <= template(t)[i].y <= 1);
    }
}

/// Turning by no quarter turn and moving by nothing gives the template back.
pub proof fn lemma_identity_placement(t: FigureType)
    ensures
        placed_cells(t, 0, cell(0, 0)) == template(t),
{
    assert(placed_cells(t, 0, cell(0, 0)) =~= template(t));
}

impl FigureType {
    pub fn get_color(&self) -> (c: Color)
        ensures
            c == color_of(*self),
    {
        match self {
            FigureType::Square => Color::Yellow,
            FigureType::Line => Color::Cyan,
            FigureType::L => Color::Orange,
            FigureType::LMirrored => Color::Blue,
            FigureType::Z => Color::Red,
            FigureType::ZMirrored => Color::Green,
            FigureType::T => Color::Purple,
        }
    }

    /// The template cells and the pivot (in half cells, see `pivot2`).
    pub fn get_points_and_pivot(&self) -> (r: ([Cell; 4], Cell))
        ensures
            r.0@ == template(*self),
            r.1 == pivot2(*self),
    {
        let r = match self {
            FigureType::Square => (
                [Cell::new(0, 0), Cell::new(1, 0), Cell::new(0, 1), Cell::new(1, 1)],
                Cell::new(1, 1),
            ),
            FigureType::Line => (
                [Cell::new(0, 0), Cell::new(1, 0), Cell::new(2, 0), Cell::new(3, 0)],
                Cell::new(3, 1),
            ),
            FigureType::L => (
                [Cell::new(0, 0), Cell::new(0, 1), Cell::new(1, 1), Cell::new(2, 1)],
                Cell::new(2, 2),
            ),
            FigureType::LMirrored => (
                [Cell::new(0, 1), Cell::new(1, 1), Cell::new(2, 1), Cell::new(2, 0)],
                Cell::new(2, 2),
            ),
            FigureType::Z => (
                [Cell::new(0, 0), Cell::new(1, 0), Cell::new(1, 1), Cell::new(2, 1)],
                Cell::new(2, 0),
            ),
            FigureType::ZMirrored => (
                [Cell::new(0, 1), Cell::new(1, 1), Cell::new(1, 0), Cell::new(2, 0)],
                Cell::new(2, 0),
            ),
            FigureType::T => (
                [Cell::new(0, 0), Cell::new(1, 0), Cell::new(2, 0), Cell::new(1, 1)],
                Cell::new(2, 0),
            ),
        };
        assert(r.0@ =~= template(*self));
        r
    }

    /// The figure type with the given index, in declaration order.
    pub fn from_index(i: u32) -> (r: Option<FigureType>)
        ensures
            r is Some <==> i < FIGURE_TYPES,
    {
        match i {
            0 => Some(FigureType::Square),
            1 => Some(FigureType::Line),
            2 => Some(FigureType::L),
            3 => Some(FigureType::LMirrored),
            4 => Some(FigureType::Z),
            5 => Some(FigureType::ZMirrored),
            6 => Some(FigureType::T),
            _ => None,
        }
    }
}

fn turn_cell(p: Cell, pv2: Cell, q: u8, pos: Cell) -> (r: Cell)
    requires
        0 <= p.x <= 3 && 0 <= p.y <= 3,
        0 <= pv2.x <= 3 && 0 <= pv2.y <= 3,
        within_reach(pos),
    ensures
        ({
            let t = turned(p, pv2, q as int);
            r == cell(t.0 + pos.x, t.1 + pos.y)
        }),
{
    let s: i64 = (pv2.x + pv2.y) / 2;
    let t: i64 = s - pv2.x;
    let turn: u8 = q % 4;
    if turn == 0 {
        Cell { x: p.x + pos.x, y: p.y + pos.y }
    } else if turn == 1 {
        Cell { x: s - p.y + pos.x, y: p.x + t + pos.y }
    } else if turn == 2 {
        Cell { x: pv2.x - p.x + pos.x, y: pv2.y - p.y + pos.y }
    } else {
        Cell { x: p.y - t + pos.x, y: s - p.x + pos.y }
    }
}

impl Figure {
    pub fn new(figure_type: FigureType, rotation: u8) -> (r: Figure)
        ensures
            r.figure_type == figure_type && r.rotation == rotation,
    {
        Figure { figure_type, rotation }
    }

    /// The cells of this figure turned by `rotation` quarter turns about its
    /// pivot and moved by `position`.
    pub fn applied_rotation_and_position(&self, rotation: u8, position: Cell) -> (r: [Cell; 4])
        requires
            within_reach(position),
        ensures
            r@ == placed_cells(self.figure_type, rotation as int, position),
    {
        let (points, pivot) = self.figure_type.get_points_and_pivot();
        proof {
            assert forall|i: int| 0 <= i < 4 implies 0 <= #[trigger] points@[i].x <= 3 && 0
                <= points@[i].y <= 3 by {}
        }
        let r = [
            turn_cell(points[0], pivot, rotation, position),
            turn_cell(points[1], pivot, rotation, position),
            turn_cell(points[2], pivot, rotation, position),
            turn_cell(points[3], pivot, rotation, position),
        ];
        assert(r@ =~= placed_cells(self.figure_type, rotation as int, position));
        r
    }
}


pub type Row = [Option<Color>; WIDTH];

/// The board as rows of cells, row 0 at the top.
pub open spec fn grid(board: [Row; HEIGHT]) -> Seq<Seq<Option<Color>>> {
    Seq::new(HEIGHT as nat, |r: int| board[r]@)
}

/// The cell is on a filled cell of the board; cells above the board are
/// never filled.
pub open spec fn occupied(g: Seq<Seq<Option<Color>>>, c: Cell) -> bool {
    c.y >= 0 && g[c.y as int][c.x as int] is Some
}

/// The cell lies within the board's columns and above its floor.
pub open spec fn on_board(c: Cell) -> bool {
    0 <= c.x < WIDTH && c.y < HEIGHT
}

pub open spec fn all_on_board(cells: Seq<Cell>) -> bool {
    forall|i: int| 0 <= i < 4 ==> on_board(#[trigger] cells[i])
}

/// Some cell of the figure covers an occupied cell.
pub open spec fn overlaps(g: Seq<Seq<Option<Color>>>, cells: Seq<Cell>) -> bool {
    exists|i: int| 0 <= i < 4 && occupied(g, #[trigger] cells[i])
}

/// Every cell of the figure is on the board and free.
pub open spec fn fits(g: Seq<Seq<Option<Color>>>, cells: Seq<Cell>) -> bool {
    forall|i: int| 0 <= i < 4 ==> on_board(#[trigger] cells[i]) && !occupied(g, cells[i])
}

/// The cell stands on the floor or on a filled cell of the board.
pub open spec fn cell_rests(g: Seq<Seq<Option<Color>>>, c: Cell) -> bool {
    c.y >= HEIGHT - 1 || (c.y + 1 >= 0 && g[c.y + 1][c.x as int] is Some)
}

/// Some cell of the figure stands on the floor or on an occupied cell.
pub open spec fn rests(g: Seq<Seq<Option<Color>>>, cells: Seq<Cell>) -> bool {
    exists|i: int| 0 <= i < 4 && cell_rests(g, #[trigger] cells[i])
}

/// The board with the first `n` cells of the figure written in `color`;
/// cells above the board are not written.
pub open spec fn write_cells(g: Seq<Seq<Option<Color>>>, cells: Seq<Cell>, color: Color, n: nat) -> Seq<Seq<Option<Color>>>
    decreases n,
{
    if n == 0 {
        g
    } else {
        let h = write_cells(g, cells, color, (n - 1) as nat);
        let c = cells[n - 1];
        if c.y >= 0 {
            h.update(c.y as int, h[c.y as int].update(c.x as int, Some(color)))
        } else {
            h
        }
    }
}

pub open spec fn line_ready(g: Seq<Seq<Option<Color>>>, row: int) -> bool {
    forall|c: int| 0 <= c < WIDTH ==> #[trigger] g[row][c] is Some
}

/// How many full rows follow one another from `base` upwards; the top row
/// is never counted.
pub open spec fn run_len(g: Seq<Seq<Option<Color>>>, base: int) -> nat
    decreases base,
{
    if base <= 0 || !line_ready(g, base) {
        0
    } else {
        1 + run_len(g, base - 1)
    }
}

pub open spec fn empty_row() -> Seq<Option<Color>> {
    Seq::new(WIDTH as nat, |c: int| None)
}

/// The rows from the top down to `base - k` moved down by `k` rows, over
/// the `k` rows that end at `base`; the top `k` rows become empty.
pub open spec fn shift_down(g: Seq<Seq<Option<Color>>>, base: int, k: int) -> Seq<Seq<Option<Color>>> {
    Seq::new(g.len(), |r: int| if k <= r <= base { g[r - k] } else if r < k { empty_row() } else { g[r] })
}

/// The points for a group of `k` full rows cleared together, and whether
/// the last group cleared was one of four or more rows.
pub open spec fn group_award(k: int, tetris_was_last: bool) -> (int, bool) {
    if k >= 4 {
        if tetris_was_last {
            (300 * k, true)
        } else {
            (200 * k, true)
        }
    } else {
        (100 * k, false)
    }
}


/// Full rows cleared from row `base` upwards, with the score and the flag of
/// the last group carried along.
pub open spec fn clear_from(g: Seq<Seq<Option<Color>>>, score: u64, flag: bool, base: int) -> (Seq<Seq<Option<Color>>>, u64, bool)
    decreases base,
{
    if base <= LOSE_LINE {
        (g, score, flag)
    } else if !line_ready(g, base) {
        clear_from(g, score, flag, base - 1)
    } else {
        let k = run_len(g, base) as int;
        let (award, f) = group_award(k, flag);
        clear_from(shift_down(g, base, k), sat_add(score, award), f, base - 1)
    }
}

/// Clearing two groups of four rows one after the other: the second gives
/// three hundred points a row, the first two hundred unless the group before
/// it was of four or more rows too.
pub proof fn lemma_back_to_back(flag: bool)
    ensures
        group_award(4, flag).0 == (if flag { 1200int } else { 800int }),
        group_award(4, group_award(4, flag).1).0 == 1200,
        group_award(4, false).0 == 800,
{
}

/// The state of a block game as the rules see it.
pub struct TetrisView {
    pub grid: Seq<Seq<Option<Color>>>,
    pub current_figure: Figure,
    pub position: Cell,
    pub next_figure: Figure,
    pub score: u64,
    pub to_descend: u64,
    pub from_prev_descend: u64,
    pub tetris_was_last: bool,
    pub from_last_user_input: u64,
}

/// What the keys and the timers ask of the figure in one update.
#[derive(Clone, Copy, Debug, PartialEq, Eq, Structural)]
pub struct Intent {
    pub rotation: u8,
    pub position: Cell,
    pub to_descend: u64,
    pub from_prev_descend: u64,
    pub from_last_user_input: u64,
}

/// The timers advance by `dt`; a key moves or turns the figure if enough
/// time has passed since the last such move; the down key gives the fast
/// pace of descent for this update only;
/// the figure steps down once the time since the last step exceeds that pace.
pub open spec fn intent_of(s: TetrisView, input: Option<Key>, dt: u64) -> Intent {
    let fpd = sat_add(s.from_prev_descend, dt as int);
    let flui = sat_add(s.from_last_user_input, dt as int);
    let acts = input is Some && flui > MINIMUM_USER_INPUT_DISTANCE;
    let key = input->0;
    let x = if acts && key == Key::Left {
        s.position.x - 1
    } else if acts && key == Key::Right {
        s.position.x + 1
    } else {
        s.position.x as int
    };
    let rot = if acts && key == Key::Up {
        ((s.current_figure.rotation + 1) % 4) as u8
    } else {
        s.current_figure.rotation
    };
    let td = if input == Some(Key::Down) { TO_DESCEND_FAST } else { TO_DESCEND_SLOW };
    let descends = fpd > td;
    Intent {
        rotation: rot,
        position: cell(x, if descends { s.position.y + 1 } else { s.position.y as int }),
        to_descend: td,
        from_prev_descend: if descends { 0 } else { fpd },
        from_last_user_input: if acts { 0 } else { flui },
    }
}

/// The figure takes the intended turn and position if it fits there; the
/// timers take their new values either way. Also says whether it moved.
pub open spec fn after_move(s: TetrisView, it: Intent) -> (TetrisView, bool) {
    let cand = Figure { figure_type: s.current_figure.figure_type, rotation: it.rotation };
    let can_move = fits(s.grid, cells_of(cand, it.position));
    (
        TetrisView {
            grid: s.grid,
            current_figure: if can_move { cand } else { s.current_figure },
            position: if can_move { it.position } else { s.position },
            next_figure: s.next_figure,
            score: s.score,
            to_descend: it.to_descend,
            from_prev_descend: it.from_prev_descend,
            tetris_was_last: s.tetris_was_last,
            from_last_user_input: it.from_last_user_input,
        },
        can_move,
    )
}

/// A figure that rests on the floor or on a filled cell is written into the
/// board in its color, the next figure takes its place at the start and a
/// figure of type `spawned` becomes the next one. Also says whether it locked.
pub open spec fn after_lock(s: TetrisView, spawned: FigureType) -> (TetrisView, bool) {
    let cells = cells_of(s.current_figure, s.position);
    if rests(s.grid, cells) {
        (
            TetrisView {
                grid: write_cells(s.grid, cells, color_of(s.current_figure.figure_type), 4),
                current_figure: s.next_figure,
                position: cell(INIT_FIGURE_X as int, INIT_FIGURE_Y as int),
                next_figure: Figure { figure_type: spawned, rotation: 0 },
                score: s.score,
                to_descend: TO_DESCEND_SLOW,
                from_prev_descend: 0,
                tetris_was_last: s.tetris_was_last,
                from_last_user_input: s.from_last_user_input,
            },
            true,
        )
    } else {
        (s, false)
    }
}

pub open spec fn after_clear(s: TetrisView) -> TetrisView {
    let c = clear_from(s.grid, s.score, s.tetris_was_last, HEIGHT - 1);
    TetrisView {
        grid: c.0,
        current_figure: s.current_figure,
        position: s.position,
        next_figure: s.next_figure,
        score: c.1,
        to_descend: s.to_descend,
        from_prev_descend: s.from_prev_descend,
        tetris_was_last: c.2,
        from_last_user_input: s.from_last_user_input,
    }
}

pub open spec fn all_above_lose_line(cells: Seq<Cell>) -> bool {
    forall|i: int| 0 <= i < 4 ==> (#[trigger] cells[i]).y < LOSE_LINE
}

/// One update of the block game, given the figure type that is drawn for the
/// next figure should the current one lock in. A current figure that covers
/// a filled cell ends the game at once; otherwise it moves, locks in, full
/// rows are cleared, and a figure that could neither move nor lock while all
/// its cells lie above the losing line ends the game.
pub open spec fn update_spec(s: TetrisView, input: Option<Key>, dt: u64, spawned: FigureType) -> (TetrisView, UpdateEvent) {
    if overlaps(s.grid, cells_of(s.current_figure, s.position)) {
        (
            TetrisView {
                grid: s.grid,
                current_figure: s.current_figure,
                position: s.position,
                next_figure: s.next_figure,
                score: s.score,
                to_descend: s.to_descend,
                from_prev_descend: sat_add(s.from_prev_descend, dt as int),
                tetris_was_last: s.tetris_was_last,
                from_last_user_input: sat_add(s.from_last_user_input, dt as int),
            },
            UpdateEvent::GameOver,
        )
    } else {
        let moved = after_move(s, intent_of(s, input, dt));
        let locked = after_lock(moved.0, spawned);
        let cleared = after_clear(locked.0);
        let over = !locked.1 && !moved.1 && all_above_lose_line(
            cells_of(cleared.current_figure, cleared.position),
        );
        (cleared, if over { UpdateEvent::GameOver } else { UpdateEvent::GameContinue })
    }
}

pub struct TetrisGame {
    pub board: [Row; HEIGHT],
    pub current_figure: Figure,
    pub current_figure_position: Cell,
    pub next_figure: Figure,
    pub score: u64,
    /// Time between two steps down now, in nanoseconds.
    pub to_descend: u64,
    /// Time since the last step down, in nanoseconds.
    pub from_prev_descend: u64,
    pub is_tetris_was_last: bool,
    /// Time since the last move or turn made by a key, in nanoseconds.
    pub from_last_user_input: u64,
}

impl View for TetrisGame {
    type V = TetrisView;

    open spec fn view(&self) -> TetrisView {
        TetrisView {
            grid: grid(self.board),
            current_figure: self.current_figure,
            position: self.current_figure_position,
            next_figure: self.next_figure,
            score: self.score,
            to_descend: self.to_descend,
            from_prev_descend: self.from_prev_descend,
            tetris_was_last: self.is_tetris_was_last,
            from_last_user_input: self.from_last_user_input,
        }
    }
}


pub open spec fn same_but_board(a: TetrisGame, b: TetrisGame) -> bool {
    &&& a.current_figure == b.current_figure
    &&& a.current_figure_position == b.current_figure_position
    &&& a.next_figure == b.next_figure
    &&& a.score == b.score
    &&& a.to_descend == b.to_descend
    &&& a.from_prev_descend == b.from_prev_descend
    &&& a.is_tetris_was_last == b.is_tetris_was_last
    &&& a.from_last_user_input == b.from_last_user_input
}

/// Every cell lies above the losing line.
fn above_lose_line(cells: &[Cell; 4]) -> (r: bool)
    ensures
        r == forall|j: int| 0 <= j < 4 ==> (#[trigger] cells@[j]).y < LOSE_LINE,
{
    let mut i: usize = 0;
    while i < 4
        invariant
            i <= 4,
            forall|j: int| 0 <= j < i ==> (#[trigger] cells@[j]).y < LOSE_LINE,
        decreases 4 - i,
    {
        if cells[i].y >= LOSE_LINE {
            assert(!(cells@[i as int].y < LOSE_LINE));
            return false;
        }
        i += 1;
    }
    true
}

impl TetrisGame {
    /// The state that every update keeps: the current figure lies on the
    /// board near its position, and both figures are turned less than a
    /// full turn.
    pub open spec fn wf(&self) -> bool {
        &&& -4 <= self.current_figure_position.x <= WIDTH + 4
        &&& 0 <= self.current_figure_position.y <= HEIGHT + 4
        &&& self.current_figure.rotation < 4
        &&& self.next_figure.rotation < 4
        &&& all_on_board(cells_of(self.current_figure, self.current_figure_position))
    }

    /// A game with an empty board and the given current and next figure types.
    pub fn with_figures(current: FigureType, next: FigureType) -> (r: TetrisGame)
        ensures
            r.wf(),
            forall|row: int, col: int|
                0 <= row < HEIGHT && 0 <= col < WIDTH ==> #[trigger] grid(r.board)[row][col] is None,
            r.current_figure == (Figure { figure_type: current, rotation: 0 }),
            r.next_figure == (Figure { figure_type: next, rotation: 0 }),
            r.current_figure_position == cell(INIT_FIGURE_X as int, INIT_FIGURE_Y as int),
            r.score == 0,
            r.to_descend == TO_DESCEND_SLOW,
            r.from_prev_descend == 0,
            !r.is_tetris_was_last,
            r.from_last_user_input == 0,
    {
        let board: [Row; HEIGHT] = [[None; WIDTH]; HEIGHT];
        let r = TetrisGame {
            board,
            current_figure: Figure::new(current, 0),
            current_figure_position: Cell::new(INIT_FIGURE_X, INIT_FIGURE_Y),
            next_figure: Figure::new(next, 0),
            score: 0,
            to_descend: TO_DESCEND_SLOW,
            from_prev_descend: 0,
            is_tetris_was_last: false,
            from_last_user_input: 0,
        };
        proof {
            lemma_cells_near(current, 0, r.current_figure_position);
        }
        r
    }

    /// A game with an empty board and two figures drawn at random.
    pub fn new() -> (r: TetrisGame)
        ensures
            r.wf(),
            forall|row: int, col: int|
                0 <= row < HEIGHT && 0 <= col < WIDTH ==> #[trigger] grid(r.board)[row][col] is None,
            r.current_figure.rotation == 0,
            r.next_figure.rotation == 0,
            r.current_figure_position == cell(INIT_FIGURE_X as int, INIT_FIGURE_Y as int),
            r.score == 0,
            r.to_descend == TO_DESCEND_SLOW,
            r.from_prev_descend == 0,
            !r.is_tetris_was_last,
            r.from_last_user_input == 0,
    {
        let current = Self::gen_figure();
        let next = Self::gen_figure();
        Self::with_figures(current.figure_type, next.figure_type)
    }

    /// A figure of a type drawn uniformly at random, not turned.
    pub fn gen_figure() -> (r: Figure)
        ensures
            r.rotation == 0,
    {
        let i = random_below(FIGURE_TYPES);
        match FigureType::from_index(i) {
            Some(t) => Figure::new(t, 0),
            None => Figure::new(FigureType::Square, 0),
        }
    }

    pub fn is_line_ready(&self, row_num: usize) -> (r: bool)
        requires
            row_num < HEIGHT,
        ensures
            r == line_ready(grid(self.board), row_num as int),
    {
        let row = self.board[row_num];
        let mut c: usize = 0;
        while c < WIDTH
            invariant
                c <= WIDTH,
                row@ == grid(self.board)[row_num as int],
                forall|j: int| 0 <= j < c ==> #[trigger] grid(self.board)[row_num as int][j] is Some,
            decreases WIDTH - c,
        {
            if row[c].is_none() {
                return false;
            }
            c += 1;
        }
        true
    }

    fn occupied_at(&self, c: Cell) -> (r: bool)
        requires
            on_board(c),
        ensures
            r == occupied(grid(self.board), c),
    {
        if c.y < 0 {
            false
        } else {
            self.board[c.y as usize][c.x as usize].is_some()
        }
    }

    fn overlaps_board(&self, cells: &[Cell; 4]) -> (r: bool)
        requires
            all_on_board(cells@),
        ensures
            r == overlaps(grid(self.board), cells@),
    {
        let mut i: usize = 0;
        while i < 4
            invariant
                i <= 4,
                all_on_board(cells@),
                forall|j: int| 0 <= j < i ==> !occupied(grid(self.board), #[trigger] cells@[j]),
            decreases 4 - i,
        {
            if self.occupied_at(cells[i]) {
                assert(occupied(grid(self.board), cells@[i as int]));
                return true;
            }
            i += 1;
        }
        false
    }

    fn fits_board(&self, cells: &[Cell; 4]) -> (r: bool)
        ensures
            r == fits(grid(self.board), cells@),
    {
        let mut i: usize = 0;
        while i < 4
            invariant
                i <= 4,
                forall|j: int|
                    0 <= j < i ==> on_board(#[trigger] cells@[j]) && !occupied(
                        grid(self.board),
                        cells@[j],
                    ),
            decreases 4 - i,
        {
            let c = cells[i];
            if c.x < 0 || c.x >= WIDTH as i64 || c.y >= HEIGHT as i64 {
                assert(!on_board(cells@[i as int]));
                return false;
            }
            if self.occupied_at(c) {
                assert(occupied(grid(self.board), cells@[i as int]));
                return false;
            }
            i += 1;
        }
        true
    }

    fn rests_on_board(&self, cells: &[Cell; 4]) -> (r: bool)
        requires
            all_on_board(cells@),
        ensures
            r == rests(grid(self.board), cells@),
    {
        let mut i: usize = 0;
        while i < 4
            invariant
                i <= 4,
                all_on_board(cells@),
                forall|j: int| 0 <= j < i ==> !cell_rests(grid(self.board), #[trigger] cells@[j]),
            decreases 4 - i,
        {
            let c = cells[i];
            assert(on_board(cells@[i as int]));
            if c.y >= HEIGHT as i64 - 1 || (c.y + 1 >= 0 && self.board[(c.y + 1) as usize][c.x as usize].is_some()) {
                assert(cell_rests(grid(self.board), cells@[i as int]));
                return true;
            }
            i += 1;
        }
        false
    }

    fn lock_cells(&mut self, cells: &[Cell; 4], color: Color)
        requires
            all_on_board(cells@),
        ensures
            grid(final(self).board) == write_cells(grid(old(self).board), cells@, color, 4),
            final(self).current_figure == old(self).current_figure,
            final(self).current_figure_position == old(self).current_figure_position,
            final(self).next_figure == old(self).next_figure,
            final(self).score == old(self).score,
            final(self).to_descend == old(self).to_descend,
            final(self).from_prev_descend == old(self).from_prev_descend,
            final(self).is_tetris_was_last == old(self).is_tetris_was_last,
            final(self).from_last_user_input == old(self).from_last_user_input,
    {
        let mut i: usize = 0;
        while i < 4
            invariant
                i <= 4,
                all_on_board(cells@),
                grid(self.board) == write_cells(grid(old(self).board), cells@, color, i as nat),
                self.current_figure == old(self).current_figure,
                self.current_figure_position == old(self).current_figure_position,
                self.next_figure == old(self).next_figure,
                self.score == old(self).score,
                self.to_descend == old(self).to_descend,
                self.from_prev_descend == old(self).from_prev_descend,
                self.is_tetris_was_last == old(self).is_tetris_was_last,
                self.from_last_user_input == old(self).from_last_user_input,
            decreases 4 - i,
        {
            let c = cells[i];
            assert(on_board(cells@[i as int]));
            if c.y >= 0 {
                let row = c.y as usize;
                let ghost g0 = grid(self.board);
                let mut line = self.board[row];
                line[c.x as usize] = Some(color);
                self.board[row] = line;
                assert(grid(self.board) =~= g0.update(row as int, g0[row as int].update(c.x as int, Some(color))));
            }
            i += 1;
        }
    }

    /// Clears the full rows from the bottom up, group by group, and scores
    /// each group.
    fn clear_lines(&mut self)
        ensures
            (grid(final(self).board), final(self).score, final(self).is_tetris_was_last)
                == clear_from(grid(old(self).board), old(self).score, old(self).is_tetris_was_last, HEIGHT - 1),
            final(self).current_figure == old(self).current_figure,
            final(self).current_figure_position == old(self).current_figure_position,
            final(self).next_figure == old(self).next_figure,
            final(self).to_descend == old(self).to_descend,
            final(self).from_prev_descend == old(self).from_prev_descend,
            final(self).from_last_user_input == old(self).from_last_user_input,
    {
        let mut base: usize = HEIGHT - 1;
        while base > LOSE_LINE as usize
            invariant
                1 <= base <= HEIGHT - 1,
                clear_from(grid(self.board), self.score, self.is_tetris_was_last, base as int)
                    == clear_from(grid(old(self).board), old(self).score, old(self).is_tetris_was_last, HEIGHT - 1),
                self.current_figure == old(self).current_figure,
                self.current_figure_position == old(self).current_figure_position,
                self.next_figure == old(self).next_figure,
                self.to_descend == old(self).to_descend,
                self.from_prev_descend == old(self).from_prev_descend,
                self.from_last_user_input == old(self).from_last_user_input,
            decreases base,
        {
            if !self.is_line_ready(base) {
                base -= 1;
                continue;
            }
            let ghost g0 = grid(self.board);
            let ghost pre = *self;
            let mut k: usize = 0;
            while k < base && self.is_line_ready(base - k)
                invariant
                    k <= base < HEIGHT,
                    *self == pre,
                    grid(self.board) == g0,
                    line_ready(g0, base as int),
                    run_len(g0, base as int) == k + run_len(g0, base - k),
                decreases base - k,
            {
                k += 1;
            }
            assert(k >= 1);
            assert(run_len(g0, base as int) == k);
            let award: u64 = if k >= 4 {
                if self.is_tetris_was_last {
                    300 * k as u64
                } else {
                    self.is_tetris_was_last = true;
                    200 * k as u64
                }
            } else {
                self.is_tetris_was_last = false;
                100 * k as u64
            };
            self.score = self.score.saturating_add(award);
            let ghost scored = *self;
            let mut i: usize = base - k + 1;
            while i > 0
                invariant
                    1 <= k <= base < HEIGHT,
                    same_but_board(*self, scored),
                    i <= base - k + 1,
                    grid(self.board) == Seq::new(
                        HEIGHT as nat,
                        |r: int| if i + k <= r <= base { g0[r - k] } else { g0[r] },
                    ),
                decreases i,
            {
                i -= 1;
                assert(grid(self.board)[i as int] == g0[i as int]);
                let line = self.board[i];
                let ghost before = grid(self.board);
                self.board[i + k] = line;
                assert(grid(self.board) =~= before.update(i + k, g0[i as int]));
                assert(grid(self.board) =~= Seq::new(
                    HEIGHT as nat,
                    |r: int| if i + k <= r <= base { g0[r - k] } else { g0[r] },
                ));
            }
            let mut j: usize = 0;
            while j < k
                invariant
                    1 <= k <= base < HEIGHT,
                    same_but_board(*self, scored),
                    j <= k,
                    grid(self.board) == Seq::new(
                        HEIGHT as nat,
                        |r: int| if k <= r <= base { g0[r - k] } else if r < j { empty_row() } else { g0[r] },
                    ),
                decreases k - j,
            {
                let ghost before = grid(self.board);
                self.board[j] = [None; WIDTH];
                assert(self.board[j as int]@ =~= empty_row());
                assert(grid(self.board) =~= before.update(j as int, empty_row()));
                j += 1;
                assert(grid(self.board) =~= Seq::new(
                    HEIGHT as nat,
                    |r: int| if k <= r <= base { g0[r - k] } else if r < j { empty_row() } else { g0[r] },
                ));
            }
            assert(grid(self.board) =~= shift_down(g0, base as int, k as int));
            base -= 1;
        }
    }

    /// What the keys and the timers ask of the figure in this update.
    fn intent(&self, input: Option<Key>, delta_nanos: u64) -> (it: Intent)
        requires
            self.wf(),
        ensures
            it == intent_of(self@, input, delta_nanos),
            it.rotation < 4,
            -5 <= it.position.x <= WIDTH + 5,
            0 <= it.position.y <= HEIGHT + 5,
    {
        let fpd = self.from_prev_descend.saturating_add(delta_nanos);
        let flui = self.from_last_user_input.saturating_add(delta_nanos);
        let mut rotation = self.current_figure.rotation;
        let mut position = self.current_figure_position;
        let to_descend = if input == Some(Key::Down) { TO_DESCEND_FAST } else { TO_DESCEND_SLOW };
        let mut from_last_user_input = flui;
        if let Some(key) = input {
            if flui > MINIMUM_USER_INPUT_DISTANCE {
                match key {
                    Key::Left => {
                        position.x = position.x - 1;
                    },
                    Key::Right => {
                        position.x = position.x + 1;
                    },
                    Key::Up => {
                        rotation = (rotation + 1) % 4;
                    },
                    _ => {},
                }
                from_last_user_input = 0;
            }
        }
        let mut from_prev_descend = fpd;
        if fpd > to_descend {
            position.y = position.y + 1;
            from_prev_descend = 0;
        }
        Intent { rotation, position, to_descend, from_prev_descend, from_last_user_input }
    }

    /// Takes the intended turn and position if the figure fits there.
    fn apply_move(&mut self, it: Intent) -> (moved: bool)
        requires
            old(self).wf(),
            it.rotation < 4,
            -5 <= it.position.x <= WIDTH + 5,
            0 <= it.position.y <= HEIGHT + 5,
        ensures
            final(self).wf(),
            (final(self)@, moved) == after_move(old(self)@, it),
    {
        let candidate = Figure::new(self.current_figure.figure_type, it.rotation);
        let cand_cells = candidate.applied_rotation_and_position(it.rotation, it.position);
        let can_move = self.fits_board(&cand_cells);
        if can_move {
            proof {
                lemma_cells_near(candidate.figure_type, it.rotation as int, it.position);
                assert(on_board(cand_cells@[0]));
            }
            self.current_figure_position = it.position;
            self.current_figure = candidate;
        }
        self.to_descend = it.to_descend;
        self.from_prev_descend = it.from_prev_descend;
        self.from_last_user_input = it.from_last_user_input;
        can_move
    }

    /// Locks the figure in if it rests on the floor or on a filled cell.
    fn lock_if_resting(&mut self, spawned: FigureType) -> (placed: bool)
        requires
            old(self).wf(),
        ensures
            final(self).wf(),
            (final(self)@, placed) == after_lock(old(self)@, spawned),
    {
        let cells = self.current_figure.applied_rotation_and_position(
            self.current_figure.rotation,
            self.current_figure_position,
        );
        if self.rests_on_board(&cells) {
            let color = self.current_figure.figure_type.get_color();
            self.lock_cells(&cells, color);
            self.current_figure = self.next_figure;
            self.current_figure_position = Cell::new(INIT_FIGURE_X, INIT_FIGURE_Y);
            self.next_figure = Figure::new(spawned, 0);
            self.from_prev_descend = 0;
            self.to_descend = TO_DESCEND_SLOW;
            proof {
                lemma_cells_near(
                    self.current_figure.figure_type,
                    self.current_figure.rotation as int,
                    self.current_figure_position,
                );
                assert forall|j: int| 0 <= j < 4 implies on_board(
                    #[trigger] cells_of(self.current_figure, self.current_figure_position)[j],
                ) by {}
            }
            true
        } else {
            false
        }
    }

    /// One update, with the figure type that is to come next should the
    /// current figure lock in.
    pub fn update_with(&mut self, input: Option<Key>, delta_nanos: u64, spawned: FigureType) -> (r: UpdateEvent)
        requires
            old(self).wf(),
        ensures
            final(self).wf(),
            (final(self)@, r) == update_spec(old(self)@, input, delta_nanos, spawned),
    {
        let it = self.intent(input, delta_nanos);
        let cur_cells = self.current_figure.applied_rotation_and_position(
            self.current_figure.rotation,
            self.current_figure_position,
        );
        if self.overlaps_board(&cur_cells) {
            self.from_prev_descend = self.from_prev_descend.saturating_add(delta_nanos);
            self.from_last_user_input = self.from_last_user_input.saturating_add(delta_nanos);
            return UpdateEvent::GameOver;
        }
        let can_move = self.apply_move(it);
        let placed = self.lock_if_resting(spawned);
        let ghost locked = self@;
        self.clear_lines();
        assert(self@ == after_clear(locked));
        let cells = self.current_figure.applied_rotation_and_position(
            self.current_figure.rotation,
            self.current_figure_position,
        );
        if !placed && !can_move && above_lose_line(&cells) {
            UpdateEvent::GameOver
        } else {
            UpdateEvent::GameContinue
        }
    }

    /// One update; the figure to come next, should the current one lock in,
    /// is drawn at random.
    pub fn update(&mut self, input: Option<Key>, delta_nanos: u64) -> (r: UpdateEvent)
        requires
            old(self).wf(),
        ensures
            final(self).wf(),
            exists|spawned: FigureType| (final(self)@, r) == update_spec(old(self)@, input, delta_nanos, spawned),
    {
        let spawned = Self::gen_figure();
        self.update_with(input, delta_nanos, spawned.figure_type)
    }

    pub fn get_score(&self) -> (r: Score)
        ensures
            r.value == (if self.score > i64::MAX { i64::MAX as int } else { self.score as int }),
    {
        if self.score > i64::MAX as u64 {
            Score { value: i64::MAX }
        } else {
            Score { value: self.score as i64 }
        }
    }
}

impl Default for TetrisGame {
    fn default() -> (r: TetrisGame)
        ensures
            r.wf(),
            r.score == 0,
            r.current_figure_position == cell(INIT_FIGURE_X as int, INIT_FIGURE_Y as int),
    {
        TetrisGame::new()
    }
}

} // verus!
