use rand::rngs::StdRng;
use vstd::prelude::*;

use crate::tetrimino::{
    lemma_catalog_bounds, spec_base, spec_points, Point, Shape as MinoShape, Tetrimino,
    NUM_ROTATES,
};

verus! {

/// One square of the field.
#[derive(Clone, Copy, Debug, PartialEq, Eq, Structural)]
pub enum Cell {
    Empty,
    Wall,
    Block(MinoShape),
}

impl Default for Cell {
    fn default() -> (r: Cell)
        ensures
            r == Cell::Empty,
    {
        Cell::Empty
    }
}

pub const BOARD_WIDTH: usize = 12;

pub const BOARD_HEIGHT: usize = 20;

/// Number of cells of a grid.
pub const GRID_LEN: usize = 240;

/// Position of cell `(x, y)` in a grid stored column by column.
pub open spec fn grid_index(x: int, y: int) -> int {
    x * 20 + y
}

/// Cell `(x, y)` of the grid `g`.
pub open spec fn cell_at(g: Seq<Cell>, x: int, y: int) -> Cell {
    g[grid_index(x, y)]
}

pub open spec fn in_grid(x: int, y: int) -> bool {
    0 <= x < 12 && 0 <= y < 20
}

/// The permanent wall: both side columns and the bottom row.
pub open spec fn is_border(x: int, y: int) -> bool {
    x == 0 || x == 11 || y == 19
}

/// `g` has the field's size, walls on the border and no wall inside.
pub open spec fn walled(g: Seq<Cell>) -> bool {
    &&& g.len() == 240
    &&& forall|x: int, y: int|
        #![trigger cell_at(g, x, y)]
        in_grid(x, y) ==> (is_border(x, y) <==> cell_at(g, x, y) == Cell::Wall)
}

/// The grid of a new board: walls on the border, everything else empty.
pub open spec fn initial_cell(x: int, y: int) -> Cell {
    if is_border(x, y) {
        Cell::Wall
    } else {
        Cell::Empty
    }
}

/// Coordinate delta of a move at rotation `r`: forward is `+y` at rotation 0 and
/// turns with the piece; backward is the opposite.
pub open spec fn advance_delta(r: int, is_forward: bool) -> (int, int) {
    if (r == 0 && is_forward) || (r == 2 && !is_forward) {
        (0, 1)
    } else if (r == 1 && is_forward) || (r == 3 && !is_forward) {
        (1, 0)
    } else if (r == 2 && is_forward) || (r == 0 && !is_forward) {
        (0, -1)
    } else {
        (-1, 0)
    }
}

/// The rotation index after one counter-clockwise (`is_acw`) or clockwise turn.
pub open spec fn next_rotation(r: int, is_acw: bool) -> int {
    if is_acw {
        (r + 1) % 4
    } else {
        (r + 3) % 4
    }
}

/// The falling piece: a catalog entry, its rotation index and its reference position.
#[derive(Clone, Copy, Debug)]
pub struct Moving {
    pub tetrimino: Tetrimino,
    pub rotation: i32,
    pub x: i32,
    pub y: i32,
}

impl Moving {
    pub open spec fn wf(self) -> bool {
        0 <= self.rotation < 4 && self.tetrimino.is_catalog()
    }

    /// Every cell position, reference plus an offset in `[-1, 2]`, fits in `i32`.
    pub open spec fn fits(self) -> bool {
        i32::MIN < self.x < i32::MAX - 1 && i32::MIN < self.y < i32::MAX - 1
    }

    /// Offsets of the occupied cells in the current rotation state.
    pub open spec fn offsets(self) -> Seq<Point> {
        spec_points(self.tetrimino.shape, self.rotation as int)
    }

    /// Whether the piece occupies cell `(x, y)`.
    pub open spec fn covers(self, x: int, y: int) -> bool {
        exists|i: int|
            0 <= i < 4 && self.x + (#[trigger] self.offsets()[i]).0 == x && self.y
                + self.offsets()[i].1 == y
    }

    pub open spec fn advanced(self, is_forward: bool) -> Moving {
        let d = advance_delta(self.rotation as int, is_forward);
        Moving { x: (self.x + d.0) as i32, y: (self.y + d.1) as i32, ..self }
    }

    pub open spec fn fallen(self) -> Moving {
        Moving { y: (self.y + 1) as i32, ..self }
    }

    pub open spec fn rotated(self, is_acw: bool) -> Moving {
        Moving { rotation: next_rotation(self.rotation as int, is_acw) as i32, ..self }
    }

    /// A new piece drawn at random, in rotation state 0 at `(x0, y0)`.
    pub fn new_random(rng: &mut StdRng, x0: i32, y0: i32) -> (m: Moving)
        ensures
            m.wf(),
            m.rotation == 0,
            m.x == x0,
            m.y == y0,
    {
        Moving { tetrimino: Tetrimino::rand(rng), rotation: 0, x: x0, y: y0 }
    }

    /// One step forward or backward, relative to the piece's facing.
    pub fn advance(self, is_forward: bool) -> (m: Moving)
        requires
            i32::MIN < self.x < i32::MAX,
            i32::MIN < self.y < i32::MAX,
        ensures
            m == self.advanced(is_forward),
    {
        let mut m = self;
        if (self.rotation == 0 && is_forward) || (self.rotation == 2 && !is_forward) {
            m.y = self.y + 1;
        } else if (self.rotation == 1 && is_forward) || (self.rotation == 3 && !is_forward) {
            m.x = self.x + 1;
        } else if (self.rotation == 2 && is_forward) || (self.rotation == 0 && !is_forward) {
            m.y = self.y - 1;
        } else {
            m.x = self.x - 1;
        }
        m
    }

    /// One row down.
    pub fn fall(self) -> (m: Moving)
        requires
            self.y < i32::MAX,
        ensures
            m == self.fallen(),
    {
        let mut m = self;
        m.y = self.y + 1;
        m
    }

    /// One turn counter-clockwise (`is_acw`) or clockwise, wrapping the index into `[0, 4)`.
    pub fn rotate(self, is_acw: bool) -> (m: Moving)
        requires
            self.wf(),
        ensures
            m == self.rotated(is_acw),
            m.wf(),
    {
        let mut m = self;
        if is_acw {
            m.rotation = self.rotation + 1;
        } else {
            m.rotation = self.rotation - 1;
        }
        if m.rotation < 0 {
            m.rotation = m.rotation + NUM_ROTATES;
        }
        if m.rotation >= NUM_ROTATES {
            m.rotation = m.rotation - NUM_ROTATES;
        }
        m
    }

    pub fn shape(self) -> (s: MinoShape)
        ensures
            s == self.tetrimino.shape,
    {
        self.tetrimino.shape
    }

    /// Render anchor of the current rotation state.
    pub fn base(self) -> (p: Point)
        requires
            self.wf(),
        ensures
            p == spec_base(self.tetrimino.shape, self.rotation as int),
    {
        self.tetrimino.rotates[self.rotation as usize].base
    }

    /// Offsets of the occupied cells in the current rotation state.
    pub fn points(self) -> (p: [Point; 4])
        requires
            self.wf(),
        ensures
            p@ == self.offsets(),
    {
        self.tetrimino.rotates[self.rotation as usize].points
    }
}

/// Cell `(cx, cy)` may hold a piece cell: inside the side walls, and empty in `g`
/// where it lies in the visible rows.
pub open spec fn cell_free(g: Seq<Cell>, cx: int, cy: int) -> bool {
    0 <= cx < 12 && (cy < 0 || cy >= 20 || cell_at(g, cx, cy) == Cell::Empty)
}

/// The piece `m` may stand on the fixed grid `g`.
pub open spec fn legal(g: Seq<Cell>, m: Moving) -> bool {
    &&& m.y >= 0
    &&& forall|i: int|
        0 <= i < 4 ==> cell_free(
            g,
            m.x + (#[trigger] m.offsets()[i]).0,
            m.y + m.offsets()[i].1,
        )
}

/// What the composite grid shows at `(x, y)`: the active piece over the fixed grid.
pub open spec fn merged_cell(g: Seq<Cell>, active: Option<Moving>, x: int, y: int) -> Cell {
    match active {
        Some(m) => if m.covers(x, y) {
            Cell::Block(m.tetrimino.shape)
        } else {
            cell_at(g, x, y)
        },
        None => cell_at(g, x, y),
    }
}

/// `h` is the fixed grid `g` with the active piece stamped on it.
pub open spec fn is_merge(h: Seq<Cell>, g: Seq<Cell>, active: Option<Moving>) -> bool {
    &&& h.len() == 240
    &&& forall|x: int, y: int|
        #![trigger cell_at(h, x, y)]
        in_grid(x, y) ==> cell_at(h, x, y) == merged_cell(g, active, x, y)
}

/// Interior cells of row `y` of `g`, columns 1 to 10.
pub open spec fn row(g: Seq<Cell>, y: int) -> Seq<Cell> {
    Seq::new(10, |i: int| cell_at(g, i + 1, y))
}

/// Every interior cell of row `y` is occupied.
pub open spec fn row_full(g: Seq<Cell>, y: int) -> bool {
    forall|x: int| 1 <= x < 11 ==> #[trigger] cell_at(g, x, y) != Cell::Empty
}

/// The interior rows of `g` from row `lo` to the last row above the floor that are
/// not full, top to bottom.
pub open spec fn kept_rows(g: Seq<Cell>, lo: int) -> Seq<Seq<Cell>>
    decreases 19 - lo,
{
    if lo >= 19 {
        Seq::empty()
    } else if row_full(g, lo) {
        kept_rows(g, lo + 1)
    } else {
        seq![row(g, lo)] + kept_rows(g, lo + 1)
    }
}

/// Cell `(x, y)` after compaction of `g`: the rows that are not full sink to the
/// floor in their order, and the rows above them are empty.
pub open spec fn compact_cell(g: Seq<Cell>, x: int, y: int) -> Cell {
    if 1 <= x <= 10 && 0 <= y <= 18 {
        let ks = kept_rows(g, 0);
        let e = 19 - ks.len();
        if y < e {
            Cell::Empty
        } else {
            ks[y - e][x - 1]
        }
    } else {
        cell_at(g, x, y)
    }
}

/// `h` is `g` with its full rows removed.
pub open spec fn is_compaction(h: Seq<Cell>, g: Seq<Cell>) -> bool {
    &&& h.len() == 240
    &&& forall|x: int, y: int|
        #![trigger cell_at(h, x, y)]
        in_grid(x, y) ==> cell_at(h, x, y) == compact_cell(g, x, y)
}

pub proof fn lemma_kept_rows(g: Seq<Cell>, lo: int)
    requires
        walled(g),
        0 <= lo <= 19,
    ensures
        kept_rows(g, lo).len() <= 19 - lo,
        forall|k: int| 0 <= k < kept_rows(g, lo).len() ==> (#[trigger] kept_rows(g, lo)[k]).len() == 10,
        forall|k: int, i: int|
            0 <= k < kept_rows(g, lo).len() && 0 <= i < 10 ==> #[trigger] kept_rows(g, lo)[k][i]
                != Cell::Wall,
    decreases 19 - lo,
{
    if lo < 19 {
        lemma_kept_rows(g, lo + 1);
        if !row_full(g, lo) {
            let ks = kept_rows(g, lo);
            assert forall|k: int| 0 <= k < ks.len() implies (#[trigger] ks[k]).len() == 10 by {
                if k > 0 {
                    assert(ks[k] == kept_rows(g, lo + 1)[k - 1]);
                }
            }
            assert forall|k: int, i: int|
                0 <= k < ks.len() && 0 <= i < 10 implies #[trigger] ks[k][i] != Cell::Wall by {
                if k == 0 {
                    assert(ks[0] == row(g, lo));
                    assert(cell_at(g, i + 1, lo) != Cell::Wall);
                } else {
                    assert(ks[k] == kept_rows(g, lo + 1)[k - 1]);
                }
            }
        }
    }
}

/// The piece that a spawn places: rotation state 0 at the top center.
pub open spec fn spawn_piece(t: Tetrimino) -> Moving {
    Moving { tetrimino: t, rotation: 0, x: 6, y: 0 }
}

/// `cand` replaces the piece where it is legal on `g`; otherwise nothing changes.
pub open spec fn try_move(g: Seq<Cell>, active: Option<Moving>, cand: Moving) -> Option<Moving> {
    if legal(g, cand) {
        Some(cand)
    } else {
        active
    }
}

/// Milliseconds from clock reading `last` to `now`, truncated toward zero.
pub open spec fn elapsed_ms(last: u64, now: u64) -> int {
    if now >= last {
        (now - last) / 1_000_000
    } else {
        -((last - now) / 1_000_000)
    }
}

/// Whether a gravity step is owed at clock reading `now`.
pub open spec fn gravity_due(last: u64, now: u64, thresh_in_msec: i64) -> bool {
    elapsed_ms(last, now) >= thresh_in_msec
}

/// Fixed grid `g1` and piece `a1` after piece `m` took a gravity step on fixed grid
/// `g0` with composite grid `merged0`: it falls one row where that is legal, else it
/// locks into the grid and the full rows are removed.
pub open spec fn step_down_result(
    g0: Seq<Cell>,
    merged0: Seq<Cell>,
    m: Moving,
    g1: Seq<Cell>,
    a1: Option<Moving>,
) -> bool {
    if legal(g0, m.fallen()) {
        g1 == g0 && a1 == Some(m.fallen())
    } else {
        a1 is None && is_compaction(g1, merged0)
    }
}

/// Fixed grid `g1`, piece `a1` and game-over flag `over1` after `t` was spawned on `g0`.
pub open spec fn spawn_result(
    g0: Seq<Cell>,
    t: Tetrimino,
    g1: Seq<Cell>,
    a1: Option<Moving>,
    over1: bool,
) -> bool {
    &&& g1 == g0
    &&& if legal(g0, spawn_piece(t)) {
        a1 == Some(spawn_piece(t)) && !over1
    } else {
        a1 is None && over1
    }
}

/// Board `b1` after a gravity tick on `b0` at clock reading `now`: unchanged when the
/// game is over or the step is not yet due; otherwise `now` is kept as the time of
/// the last step and the piece steps down, or a catalog piece is spawned.
pub open spec fn ticked(b0: Board, b1: Board, now: u64, thresh_in_msec: i64) -> bool {
    &&& b0.game_over() || !gravity_due(b0.last_fall_ns(), now, thresh_in_msec) ==> b1 == b0
    &&& !b0.game_over() && gravity_due(b0.last_fall_ns(), now, thresh_in_msec) ==> {
        &&& b1.last_fall_ns() == now
        &&& match b0.active() {
            Some(m) => !b1.game_over() && b1.generator() == b0.generator() && step_down_result(
                b0.fixed(),
                b0.merged(),
                m,
                b1.fixed(),
                b1.active(),
            ),
            None => exists|t: Tetrimino|
                t.is_catalog() && spawn_result(
                    b0.fixed(),
                    t,
                    b1.fixed(),
                    b1.active(),
                    b1.game_over(),
                ),
        }
    }
}

/// A legal piece stands above the floor row and near the field.
pub proof fn lemma_legal_bounds(g: Seq<Cell>, m: Moving)
    requires
        walled(g),
        m.wf(),
        legal(g, m),
        m.y <= 19,
    ensures
        m.y <= 18,
        -2 <= m.x <= 12,
{
    lemma_catalog_bounds(m.tetrimino.shape, m.rotation as int);
    let i = choose|i: int| 0 <= i < 4 && #[trigger] m.offsets()[i].1 == 0;
    assert(cell_free(g, m.x + m.offsets()[i].0, m.y + m.offsets()[i].1));
    if m.y == 19 {
        assert(cell_at(g, m.x + m.offsets()[i].0, 19) == Cell::Wall);
    }
    assert(cell_free(g, m.x + m.offsets()[0].0, m.y + m.offsets()[0].1));
}

pub proof fn lemma_index_injective()
    ensures
        forall|x1: int, y1: int, x2: int, y2: int|
            in_grid(x1, y1) && in_grid(x2, y2) && (x1 != x2 || y1 != y2) ==> #[trigger] grid_index(
                x1,
                y1,
            ) != #[trigger] grid_index(x2, y2),
        forall|x: int, y: int| in_grid(x, y) ==> 0 <= #[trigger] grid_index(x, y) < 240,
{
}

fn grid_pos(x: i32, y: i32) -> (r: usize)
    requires
        in_grid(x as int, y as int),
    ensures
        r as int == grid_index(x as int, y as int),
        r < GRID_LEN,
{
    (x as usize) * BOARD_HEIGHT + (y as usize)
}

/// The game engine: fixed grid, optional falling piece, composite grid, gravity clock
/// and game-over flag.
pub struct Board {
    rng: StdRng,
    moving: Option<Moving>,
    fixed_cells: Vec<Cell>,
    merged_cells: Vec<Cell>,
    last_fall: u64,
    finished: bool,
}

impl Board {
    /// The settled cells.
    pub closed spec fn fixed(&self) -> Seq<Cell> {
        self.fixed_cells@
    }

    /// The composite grid that the renderer reads.
    pub closed spec fn merged(&self) -> Seq<Cell> {
        self.merged_cells@
    }

    /// The falling piece, if any.
    pub closed spec fn active(&self) -> Option<Moving> {
        self.moving
    }

    /// Clock reading of the last gravity step, in nanoseconds.
    pub closed spec fn last_fall_ns(&self) -> u64 {
        self.last_fall
    }

    pub closed spec fn game_over(&self) -> bool {
        self.finished
    }

    /// The random generator that spawns draw from.
    pub closed spec fn generator(&self) -> StdRng {
        self.rng
    }

    /// The state invariant: a walled fixed grid, a composite grid that is the fixed
    /// grid with the piece on it, a legal piece, and no piece once the game is over.
    pub open spec fn wf(&self) -> bool {
        &&& walled(self.fixed())
        &&& is_merge(self.merged(), self.fixed(), self.active())
        &&& self.game_over() ==> self.active() is None
        &&& match self.active() {
            Some(m) => m.wf() && legal(self.fixed(), m) && -2 <= m.x <= 13 && m.y <= 18,
            None => true,
        }
    }

    /// A board with walls, an empty interior, no piece and the game running.
    pub fn new(rng: StdRng) -> (b: Board)
        ensures
            b.wf(),
            b.active() is None,
            !b.game_over(),
            forall|x: int, y: int|
                #![trigger cell_at(b.fixed(), x, y)]
                in_grid(x, y) ==> cell_at(b.fixed(), x, y) == initial_cell(x, y),
    {
        let mut mat: Vec<Cell> = Vec::new();
        let mut x: usize = 0;
        while x < BOARD_WIDTH
            invariant
                x <= BOARD_WIDTH,
                mat@.len() == x * 20,
                forall|i: int, j: int|
                    0 <= i < x && 0 <= j < 20 ==> #[trigger] cell_at(mat@, i, j) == initial_cell(i, j),
            decreases BOARD_WIDTH - x,
        {
            let mut y: usize = 0;
            while y < BOARD_HEIGHT
                invariant
                    x < BOARD_WIDTH,
                    y <= BOARD_HEIGHT,
                    mat@.len() == x * 20 + y,
                    forall|i: int, j: int|
                        0 <= i < x && 0 <= j < 20 ==> #[trigger] cell_at(mat@, i, j) == initial_cell(i, j),
                    forall|j: int| 0 <= j < y ==> #[trigger] cell_at(mat@, x as int, j) == initial_cell(x as int, j),
                decreases BOARD_HEIGHT - y,
            {
                let ghost prev = mat@;
                if x == 0 || x == BOARD_WIDTH - 1 || y == BOARD_HEIGHT - 1 {
                    mat.push(Cell::Wall);
                } else {
                    mat.push(Cell::Empty);
                }
                assert forall|i: int, j: int|
                    0 <= i < x && 0 <= j < 20 implies #[trigger] cell_at(mat@, i, j) == initial_cell(i, j) by {
                    assert(cell_at(prev, i, j) == initial_cell(i, j));
                }
                assert forall|j: int| 0 <= j < y + 1 implies #[trigger] cell_at(mat@, x as int, j) == initial_cell(x as int, j) by {
                    if j < y {
                        assert(cell_at(prev, x as int, j) == initial_cell(x as int, j));
                    }
                }
                y = y + 1;
            }
            x = x + 1;
        }
        let merged = mat.clone();
        assert(merged@ == mat@);
        Board {
            rng,
            moving: None,
            fixed_cells: mat,
            merged_cells: merged,
            last_fall: clock_ns(),
            finished: false,
        }
    }

    /// Turns the piece counter-clockwise (`is_acw`) or clockwise where the turned
    /// piece is legal; otherwise, and without a piece, nothing changes.
    pub fn rotate(&mut self, is_acw: bool)
        requires
            old(self).wf(),
        ensures
            final(self).wf(),
            final(self).generator() == old(self).generator(),
            final(self).fixed() == old(self).fixed(),
            final(self).game_over() == old(self).game_over(),
            final(self).last_fall_ns() == old(self).last_fall_ns(),
            final(self).active() == match old(self).active() {
                Some(m) => try_move(old(self).fixed(), old(self).active(), m.rotated(is_acw)),
                None => None,
            },
    {
        if let Some(mv) = self.moving {
            let new_mv = mv.rotate(is_acw);
            if self.can_locate(new_mv) {
                self.moving = Some(new_mv);
            }
        }
        self.merge_boards();
    }

    /// Moves the piece one step forward or backward relative to its facing where the
    /// moved piece is legal; otherwise, and without a piece, nothing changes.
    pub fn advance(&mut self, is_forward: bool)
        requires
            old(self).wf(),
        ensures
            final(self).wf(),
            final(self).generator() == old(self).generator(),
            final(self).fixed() == old(self).fixed(),
            final(self).game_over() == old(self).game_over(),
            final(self).last_fall_ns() == old(self).last_fall_ns(),
            final(self).active() == match old(self).active() {
                Some(m) => try_move(old(self).fixed(), old(self).active(), m.advanced(is_forward)),
                None => None,
            },
    {
        if let Some(mv) = self.moving {
            let new_mv = mv.advance(is_forward);
            if self.can_locate(new_mv) {
                proof {
                    lemma_legal_bounds(self.fixed(), new_mv);
                }
                self.moving = Some(new_mv);
            }
        }
        self.merge_boards();
    }

    /// Places `t` at the top center in rotation state 0, or ends the game where it is
    /// not legal there.
    pub fn spawn(&mut self, t: Tetrimino)
        requires
            old(self).wf(),
            old(self).active() is None,
            !old(self).game_over(),
            t.is_catalog(),
        ensures
            final(self).wf(),
            final(self).generator() == old(self).generator(),
            final(self).last_fall_ns() == old(self).last_fall_ns(),
            spawn_result(
                old(self).fixed(),
                t,
                final(self).fixed(),
                final(self).active(),
                final(self).game_over(),
            ),
    {
        let x = self.width() / 2;
        let new_mv = Moving { tetrimino: t, rotation: 0, x, y: 0 };
        if self.can_locate(new_mv) {
            self.moving = Some(new_mv);
        } else {
            self.finished = true;
        }
        self.merge_boards();
    }

    /// One gravity step of the piece: it falls one row where that is legal; else it
    /// locks into the fixed grid, which then loses its full rows.
    pub fn step_down(&mut self)
        requires
            old(self).wf(),
            old(self).active() is Some,
        ensures
            final(self).wf(),
            final(self).generator() == old(self).generator(),
            final(self).game_over() == old(self).game_over(),
            final(self).last_fall_ns() == old(self).last_fall_ns(),
            step_down_result(
                old(self).fixed(),
                old(self).merged(),
                old(self).active()->0,
                final(self).fixed(),
                final(self).active(),
            ),
    {
        let mv = self.moving.unwrap();
        let new_mv = mv.fall();
        if !self.can_locate(new_mv) {
            let ghost g0 = self.fixed();
            proof {
                assert forall|x: int, y: int|
                    #![trigger cell_at(self.merged(), x, y)]
                    in_grid(x, y) implies (is_border(x, y) <==> cell_at(self.merged(), x, y)
                        == Cell::Wall) by {
                    assert(cell_at(self.merged(), x, y) == merged_cell(g0, Some(mv), x, y));
                    assert(cell_at(g0, x, y) == Cell::Wall <==> is_border(x, y));
                    if mv.covers(x, y) {
                        let i = choose|i: int|
                            0 <= i < 4 && mv.x + (#[trigger] mv.offsets()[i]).0 == x && mv.y
                                + mv.offsets()[i].1 == y;
                        assert(cell_free(g0, mv.x + mv.offsets()[i].0, mv.y + mv.offsets()[i].1));
                    }
                }
            }
            self.fixed_cells = self.merged_cells.clone();
            self.moving = None;
            clear_fulfilled(&mut self.fixed_cells);
            self.merged_cells = self.fixed_cells.clone();
            assert(self.merged_cells@ == self.fixed_cells@);
            return;
        }
        proof {
            lemma_legal_bounds(self.fixed(), new_mv);
        }
        self.moving = Some(new_mv);
        self.merge_boards();
    }

    /// A gravity tick at clock reading `now`: nothing happens once the game is over,
    /// nor before `thresh_in_msec` milliseconds have passed since the last step.
    /// Otherwise `now` is kept as the time of the last step and the piece takes a
    /// step, or a piece drawn from the generator is spawned where there is none.
    pub fn tick(&mut self, now: u64, thresh_in_msec: i64)
        requires
            old(self).wf(),
        ensures
            final(self).wf(),
            ticked(*old(self), *final(self), now, thresh_in_msec),
    {
        if self.finished {
            return;
        }
        if elapsed_msec(self.last_fall, now) < thresh_in_msec {
            return;
        }
        self.last_fall = now;
        if self.moving.is_some() {
            self.step_down();
        } else {
            let t = Tetrimino::rand(&mut self.rng);
            self.spawn(t);
        }
    }

    /// A gravity tick at the current clock reading (see `tick`).
    pub fn fall(&mut self, thresh_in_msec: i64)
        requires
            old(self).wf(),
        ensures
            final(self).wf(),
            old(self).game_over() ==> *final(self) == *old(self),
            exists|now: u64| ticked(*old(self), *final(self), now, thresh_in_msec),
    {
        let now = clock_ns();
        self.tick(now, thresh_in_msec);
    }

    pub fn width(&self) -> (r: i32)
        ensures
            r == 12,
    {
        BOARD_WIDTH as i32
    }

    pub fn height(&self) -> (r: i32)
        ensures
            r == 20,
    {
        BOARD_HEIGHT as i32
    }

    /// Rotation index of the piece, 0 without one.
    pub fn rotation(&self) -> (r: i32)
        ensures
            r == match self.active() {
                Some(m) => m.rotation,
                None => 0,
            },
    {
        match self.moving {
            Some(mv) => mv.rotation,
            None => 0,
        }
    }

    /// Horizontal render reference: the piece's position plus its anchor, or the
    /// board's center without a piece.
    pub fn x(&self) -> (r: i32)
        requires
            self.wf(),
        ensures
            r == match self.active() {
                Some(m) => m.x + spec_base(m.tetrimino.shape, m.rotation as int).0,
                None => 6,
            },
    {
        match self.moving {
            Some(mv) => mv.x + mv.base().0,
            None => self.width() / 2,
        }
    }

    /// Vertical render reference: the piece's position plus its anchor, or 0
    /// without a piece.
    pub fn y(&self) -> (r: i32)
        requires
            self.wf(),
        ensures
            r == match self.active() {
                Some(m) => m.y + spec_base(m.tetrimino.shape, m.rotation as int).1,
                None => 0,
            },
    {
        match self.moving {
            Some(mv) => mv.y + mv.base().1,
            None => 0,
        }
    }

    /// Cell `(x, y)` of the composite grid.
    pub fn cell(&self, x: i32, y: i32) -> (c: Cell)
        requires
            self.wf(),
            in_grid(x as int, y as int),
        ensures
            c == cell_at(self.merged(), x as int, y as int),
    {
        self.merged_cells[grid_pos(x, y)]
    }

    pub fn is_game_over(&self) -> (r: bool)
        ensures
            r == self.game_over(),
    {
        self.finished
    }

    /// A running board without a piece on the fixed grid `cells` (stored column by
    /// column), or `None` where `cells` is not a walled field.
    pub fn with_fixed(rng: StdRng, cells: Vec<Cell>) -> (r: Option<Board>)
        ensures
            r is Some <==> walled(cells@),
            r matches Some(b) ==> b.wf() && b.fixed() == cells@ && b.active() is None
                && !b.game_over(),
    {
        if !is_walled(&cells) {
            return None;
        }
        let merged = cells.clone();
        assert(merged@ == cells@);
        Some(
            Board {
                rng,
                moving: None,
                fixed_cells: cells,
                merged_cells: merged,
                last_fall: clock_ns(),
                finished: false,
            },
        )
    }

    fn can_locate(&self, mv: Moving) -> (r: bool)
        requires
            self.fixed_cells@.len() == 240,
            mv.wf(),
            mv.fits(),
        ensures
            r == legal(self.fixed(), mv),
    {
        if mv.y < 0 {
            return false;
        }
        let pts = mv.points();
        proof {
            lemma_catalog_bounds(mv.tetrimino.shape, mv.rotation as int);
        }
        let mut i: usize = 0;
        while i < 4
            invariant
                i <= 4,
                pts@ == mv.offsets(),
                mv.wf(),
                mv.fits(),
                mv.y >= 0,
                self.fixed_cells@.len() == 240,
                forall|k: int| 0 <= k < 4 ==> -1 <= #[trigger] pts@[k].0 <= 2 && -1 <= pts@[k].1 <= 2,
                forall|j: int|
                    0 <= j < i ==> cell_free(
                        self.fixed(),
                        mv.x + (#[trigger] mv.offsets()[j]).0,
                        mv.y + mv.offsets()[j].1,
                    ),
            decreases 4 - i,
        {
            let (dx, dy) = pts[i];
            assert(pts@[i as int] == (dx, dy));
            let x = mv.x + dx;
            let y = mv.y + dy;
            if x < 0 || x >= BOARD_WIDTH as i32 {
                return false;
            }
            if y >= 0 && y < BOARD_HEIGHT as i32 {
                let p = grid_pos(x, y);
                if self.fixed_cells[p] != Cell::Empty {
                    return false;
                }
            }
            i = i + 1;
        }
        true
    }

    /// Rebuilds the composite grid from the fixed grid and the active piece.
    fn merge_boards(&mut self)
        requires
            old(self).fixed_cells@.len() == 240,
            match old(self).moving {
                Some(m) => m.wf() && m.fits() && legal(old(self).fixed(), m),
                None => true,
            },
        ensures
            final(self).fixed() == old(self).fixed(),
            final(self).active() == old(self).active(),
            final(self).last_fall_ns() == old(self).last_fall_ns(),
            final(self).game_over() == old(self).game_over(),
            final(self).generator() == old(self).generator(),
            is_merge(final(self).merged(), final(self).fixed(), final(self).active()),
    {
        self.merged_cells = self.fixed_cells.clone();
        if let Some(mv) = self.moving {
            let pts = mv.points();
            proof {
                lemma_catalog_bounds(mv.tetrimino.shape, mv.rotation as int);
                lemma_index_injective();
            }
            let mut i: usize = 0;
            while i < 4
                invariant
                    i <= 4,
                    self.moving == Some(mv),
                    mv.wf(),
                    mv.fits(),
                    legal(self.fixed(), mv),
                    pts@ == mv.offsets(),
                    self.fixed_cells@.len() == 240,
                    self.merged_cells@.len() == 240,
                    self.fixed() == old(self).fixed(),
                    self.last_fall == old(self).last_fall,
                    self.finished == old(self).finished,
                    self.rng == old(self).rng,
                    forall|k: int| 0 <= k < 4 ==> -1 <= #[trigger] pts@[k].0 <= 2 && -1 <= pts@[k].1 <= 2,
                    forall|x: int, y: int|
                        #![trigger cell_at(self.merged_cells@, x, y)]
                        in_grid(x, y) ==> cell_at(self.merged_cells@, x, y) == if exists|j: int|
                            0 <= j < i && mv.x + (#[trigger] mv.offsets()[j]).0 == x && mv.y
                                + mv.offsets()[j].1 == y {
                            Cell::Block(mv.tetrimino.shape)
                        } else {
                            cell_at(self.fixed(), x, y)
                        },
                decreases 4 - i,
            {
                let (dx, dy) = pts[i];
                assert(pts@[i as int] == (dx, dy));
                assert(cell_free(self.fixed(), mv.x + mv.offsets()[i as int].0, mv.y + mv.offsets()[i as int].1));
                let x = mv.x + dx;
                let y = mv.y + dy;
                let ghost before = self.merged_cells@;
                if y >= 0 && y < BOARD_HEIGHT as i32 {
                    let p = grid_pos(x, y);
                    self.merged_cells.set(p, Cell::Block(mv.shape()));
                }
                assert forall|cx: int, cy: int|
                    #![trigger cell_at(self.merged_cells@, cx, cy)]
                    in_grid(cx, cy) implies cell_at(self.merged_cells@, cx, cy) == if exists|j: int|
                        0 <= j < i + 1 && mv.x + (#[trigger] mv.offsets()[j]).0 == cx && mv.y
                            + mv.offsets()[j].1 == cy {
                        Cell::Block(mv.tetrimino.shape)
                    } else {
                        cell_at(self.fixed(), cx, cy)
                    } by {
                    if cx == x && cy == y {
                        assert(mv.x + mv.offsets()[i as int].0 == cx);
                    } else {
                        assert(cell_at(self.merged_cells@, cx, cy) == cell_at(before, cx, cy));
                    }
                }
                i = i + 1;
            }
        }
    }
}

/// Interior row `y` of `cells` is full.
fn row_is_full(cells: &Vec<Cell>, y: i32) -> (r: bool)
    requires
        cells@.len() == 240,
        0 <= y < 20,
    ensures
        r == row_full(cells@, y as int),
{
    let mut x: i32 = 1;
    while x < BOARD_WIDTH as i32 - 1
        invariant
            1 <= x <= 11,
            0 <= y < 20,
            cells@.len() == 240,
            forall|i: int| 1 <= i < x ==> #[trigger] cell_at(cells@, i, y as int) != Cell::Empty,
        decreases 11 - x,
    {
        if cells[grid_pos(x, y)] == Cell::Empty {
            assert(cell_at(cells@, x as int, y as int) == Cell::Empty);
            return false;
        }
        x = x + 1;
    }
    true
}

/// Copies the interior of row `src` onto row `dst`.
fn copy_row(cells: &mut Vec<Cell>, src: i32, dst: i32)
    requires
        old(cells)@.len() == 240,
        0 <= src <= dst < 20,
    ensures
        final(cells)@.len() == 240,
        forall|x: int, y: int|
            #![trigger cell_at(final(cells)@, x, y)]
            in_grid(x, y) ==> cell_at(final(cells)@, x, y) == if 1 <= x <= 10 && y == dst {
                cell_at(old(cells)@, x, src as int)
            } else {
                cell_at(old(cells)@, x, y)
            },
{
    proof {
        lemma_index_injective();
    }
    let mut x: i32 = 1;
    while x < BOARD_WIDTH as i32 - 1
        invariant
            1 <= x <= 11,
            0 <= src <= dst < 20,
            cells@.len() == 240,
            forall|cx: int, cy: int|
                #![trigger cell_at(cells@, cx, cy)]
                in_grid(cx, cy) ==> cell_at(cells@, cx, cy) == if 1 <= cx < x && cy == dst {
                    cell_at(old(cells)@, cx, src as int)
                } else {
                    cell_at(old(cells)@, cx, cy)
                },
        decreases 11 - x,
    {
        let ghost prev = cells@;
        let c = cells[grid_pos(x, src)];
        assert(c == cell_at(prev, x as int, src as int));
        cells.set(grid_pos(x, dst), c);
        assert forall|cx: int, cy: int|
            #![trigger cell_at(cells@, cx, cy)]
            in_grid(cx, cy) implies cell_at(cells@, cx, cy) == if 1 <= cx < x + 1 && cy == dst {
                cell_at(old(cells)@, cx, src as int)
            } else {
                cell_at(old(cells)@, cx, cy)
            } by {
            if !(cx == x && cy == dst) {
                assert(cell_at(cells@, cx, cy) == cell_at(prev, cx, cy));
            }
        }
        x = x + 1;
    }
}

/// Empties the interior of row `y`.
fn clear_row(cells: &mut Vec<Cell>, y: i32)
    requires
        old(cells)@.len() == 240,
        0 <= y < 20,
    ensures
        final(cells)@.len() == 240,
        forall|cx: int, cy: int|
            #![trigger cell_at(final(cells)@, cx, cy)]
            in_grid(cx, cy) ==> cell_at(final(cells)@, cx, cy) == if 1 <= cx <= 10 && cy == y {
                Cell::Empty
            } else {
                cell_at(old(cells)@, cx, cy)
            },
{
    proof {
        lemma_index_injective();
    }
    let mut x: i32 = 1;
    while x < BOARD_WIDTH as i32 - 1
        invariant
            1 <= x <= 11,
            0 <= y < 20,
            cells@.len() == 240,
            forall|cx: int, cy: int|
                #![trigger cell_at(cells@, cx, cy)]
                in_grid(cx, cy) ==> cell_at(cells@, cx, cy) == if 1 <= cx < x && cy == y {
                    Cell::Empty
                } else {
                    cell_at(old(cells)@, cx, cy)
                },
        decreases 11 - x,
    {
        let ghost prev = cells@;
        cells.set(grid_pos(x, y), Cell::Empty);
        assert forall|cx: int, cy: int|
            #![trigger cell_at(cells@, cx, cy)]
            in_grid(cx, cy) implies cell_at(cells@, cx, cy) == if 1 <= cx < x + 1 && cy == y {
                Cell::Empty
            } else {
                cell_at(old(cells)@, cx, cy)
            } by {
            if !(cx == x && cy == y) {
                assert(cell_at(cells@, cx, cy) == cell_at(prev, cx, cy));
            }
        }
        x = x + 1;
    }
}

/// Removes the full rows of `cells`; the rows above them sink.
pub fn clear_fulfilled(cells: &mut Vec<Cell>)
    requires
        walled(old(cells)@),
    ensures
        is_compaction(final(cells)@, old(cells)@),
        walled(final(cells)@),
{
    let ghost g = cells@;
    let mut y_dst: i32 = BOARD_HEIGHT as i32 - 2;
    let mut y_src: i32 = BOARD_HEIGHT as i32 - 2;
    proof {
        lemma_kept_rows(g, 19);
    }
    while y_src >= 0
        invariant
            -1 <= y_src <= 18,
            walled(g),
            cells@.len() == 240,
            y_dst == 18 - kept_rows(g, y_src + 1).len(),
            y_src <= y_dst,
            forall|x: int, y: int|
                #![trigger cell_at(cells@, x, y)]
                in_grid(x, y) && (x == 0 || x == 11 || y == 19 || y <= y_src) ==> cell_at(cells@, x, y)
                    == cell_at(g, x, y),
            forall|x: int, y: int|
                #![trigger cell_at(cells@, x, y)]
                1 <= x <= 10 && y_dst < y <= 18 ==> cell_at(cells@, x, y) == kept_rows(
                    g,
                    y_src + 1,
                )[y - y_dst - 1][x - 1],
        decreases y_src + 1,
    {
        proof {
            lemma_kept_rows(g, y_src as int);
            lemma_kept_rows(g, y_src + 1);
        }
        let ghost ks = kept_rows(g, y_src + 1);
        let ghost prev = cells@;
        let filled = row_is_full(cells, y_src);
        assert(filled == row_full(g, y_src as int)) by {
            if filled {
                assert forall|x: int| 1 <= x < 11 implies #[trigger] cell_at(g, x, y_src as int)
                    != Cell::Empty by {
                    assert(cell_at(prev, x, y_src as int) != Cell::Empty);
                }
            } else {
                let x = choose|x: int| 1 <= x < 11 && #[trigger] cell_at(prev, x, y_src as int) == Cell::Empty;
                assert(cell_at(g, x, y_src as int) == Cell::Empty);
            }
        }
        if !filled {
            copy_row(cells, y_src, y_dst);
            let ghost ks2 = kept_rows(g, y_src as int);
            assert(ks2 == seq![row(g, y_src as int)] + ks);
            assert forall|x: int, y: int|
                #![trigger cell_at(cells@, x, y)]
                1 <= x <= 10 && y_dst - 1 < y <= 18 implies cell_at(cells@, x, y) == ks2[y - (y_dst - 1) - 1][x - 1] by {
                if y == y_dst {
                    assert(cell_at(prev, x, y_src as int) == cell_at(g, x, y_src as int));
                } else {
                    assert(cell_at(prev, x, y) == ks[y - y_dst - 1][x - 1]);
                }
            }
            assert forall|x: int, y: int|
                #![trigger cell_at(cells@, x, y)]
                in_grid(x, y) && (x == 0 || x == 11 || y == 19 || y <= y_src - 1) implies cell_at(cells@, x, y)
                    == cell_at(g, x, y) by {
                assert(cell_at(prev, x, y) == cell_at(g, x, y));
            }
            y_dst = y_dst - 1;
        } else {
            assert(kept_rows(g, y_src as int) == ks);
        }
        y_src = y_src - 1;
    }
    proof {
        lemma_kept_rows(g, 0);
    }
    let ghost mid = cells@;
    let mut y: i32 = 0;
    while y <= y_dst
        invariant
            0 <= y <= y_dst + 1,
            y_dst <= 18,
            cells@.len() == 240,
            forall|x: int, cy: int|
                #![trigger cell_at(cells@, x, cy)]
                in_grid(x, cy) ==> cell_at(cells@, x, cy) == if 1 <= x <= 10 && cy < y {
                    Cell::Empty
                } else {
                    cell_at(mid, x, cy)
                },
        decreases y_dst + 1 - y,
    {
        let ghost prev = cells@;
        clear_row(cells, y);
        assert forall|x: int, cy: int|
            #![trigger cell_at(cells@, x, cy)]
            in_grid(x, cy) implies cell_at(cells@, x, cy) == if 1 <= x <= 10 && cy < y + 1 {
                Cell::Empty
            } else {
                cell_at(mid, x, cy)
            } by {
            assert(cell_at(prev, x, cy) == if 1 <= x <= 10 && cy < y {
                Cell::Empty
            } else {
                cell_at(mid, x, cy)
            });
        }
        y = y + 1;
    }
    assert forall|x: int, cy: int|
        #![trigger cell_at(cells@, x, cy)]
        in_grid(x, cy) implies cell_at(cells@, x, cy) == compact_cell(g, x, cy) by {
        if 1 <= x <= 10 && cy <= 18 {
            if cy > y_dst {
                assert(cell_at(mid, x, cy) == kept_rows(g, 0)[cy - y_dst - 1][x - 1]);
            }
        } else {
            assert(cell_at(mid, x, cy) == cell_at(g, x, cy));
        }
    }
    assert forall|x: int, cy: int|
        #![trigger cell_at(cells@, x, cy)]
        in_grid(x, cy) implies (is_border(x, cy) <==> cell_at(cells@, x, cy) == Cell::Wall) by {
        assert(cell_at(g, x, cy) == Cell::Wall <==> is_border(x, cy));
        if 1 <= x <= 10 && y_dst < cy <= 18 {
            assert(kept_rows(g, 0)[cy - y_dst - 1][x - 1] != Cell::Wall);
        } else if !(1 <= x <= 10 && cy <= 18) {
            assert(cell_at(mid, x, cy) == cell_at(g, x, cy));
        }
    }
}

/// Milliseconds from clock reading `last` to `now`, truncated toward zero.
pub fn elapsed_msec(last: u64, now: u64) -> (r: i64)
    ensures
        r == elapsed_ms(last, now),
{
    if now >= last {
        ((now - last) / 1_000_000) as i64
    } else {
        -(((last - now) / 1_000_000) as i64)
    }
}

/// `cells` is a walled field.
fn is_walled(cells: &Vec<Cell>) -> (r: bool)
    ensures
        r == walled(cells@),
{
    if cells.len() != GRID_LEN {
        return false;
    }
    let mut x: i32 = 0;
    while x < BOARD_WIDTH as i32
        invariant
            0 <= x <= 12,
            cells@.len() == 240,
            forall|i: int, j: int|
                #![trigger cell_at(cells@, i, j)]
                0 <= i < x && 0 <= j < 20 ==> (is_border(i, j) <==> cell_at(cells@, i, j) == Cell::Wall),
        decreases 12 - x,
    {
        let mut y: i32 = 0;
        while y < BOARD_HEIGHT as i32
            invariant
                0 <= x < 12,
                0 <= y <= 20,
                cells@.len() == 240,
                forall|i: int, j: int|
                    #![trigger cell_at(cells@, i, j)]
                    0 <= i < x && 0 <= j < 20 ==> (is_border(i, j) <==> cell_at(cells@, i, j) == Cell::Wall),
                forall|j: int|
                    0 <= j < y ==> (is_border(x as int, j) <==> #[trigger] cell_at(cells@, x as int, j) == Cell::Wall),
            decreases 20 - y,
        {
            let border = x == 0 || x == BOARD_WIDTH as i32 - 1 || y == BOARD_HEIGHT as i32 - 1;
            let is_wall = cells[grid_pos(x, y)] == Cell::Wall;
            if border != is_wall {
                assert(is_border(x as int, y as int) != (cell_at(cells@, x as int, y as int) == Cell::Wall));
                return false;
            }
            y = y + 1;
        }
        x = x + 1;
    }
    true
}

/// Relies on `time::precise_time_ns`: a reading of a high-resolution counter in
/// nanoseconds since an unspecified epoch; nothing is promised of its value.
#[verifier::external_body]
fn clock_ns() -> (r: u64) {
    time::precise_time_ns()
}

} // verus!
