//! Conway's Game of Life on a fixed-size toroidal grid, with an "afterglow"
//! decay effect: a cell that dies fades out over later generations instead of
//! going dark at once.
//!
//! The world is a pair of equally sized row-major cell buffers (current and
//! scratch). One `update` computes the next generation entirely into the
//! scratch buffer from a frozen snapshot of the current one, then swaps the
//! two, so no cell's transition can observe a partially written generation.
//! `render` maps the current generation to an RGBA byte buffer.

use vstd::prelude::*;

pub mod config;

verus! {

/// The state of one cell: fully lit, or dead at a decay level.
/// `Dead(level)` is the afterglow: level 0 is fully dark, higher levels
/// render brighter. The alive/dead rule never reads the level.
#[derive(Clone, Copy, Debug)]
pub enum CellState {
    Alive,
    Dead(u8),
}

/// Variant-only equality on cell states: any two `Dead` values are alike,
/// whatever their decay levels. This is the equality the simulation rule
/// sees, and the meaning of `==` on `CellState`.
pub open spec fn same_kind(a: CellState, b: CellState) -> bool {
    (a is Alive && b is Alive) || (a is Dead && b is Dead)
}

/// True exactly for `Alive`.
pub open spec fn alive(c: CellState) -> bool {
    c is Alive
}

impl CellState {
    /// The state after one step of dying: a cell that was alive keeps a
    /// near-maximum afterglow, a dead cell fades one level, stopping at 0.
    pub open spec fn decayed(self) -> CellState {
        match self {
            CellState::Alive => CellState::Dead(254),
            CellState::Dead(level) => CellState::Dead(
                if level == 0 {
                    0u8
                } else {
                    (level - 1) as u8
                },
            ),
        }
    }

    /// One step of dying, as `decayed` describes.
    fn die(&self) -> (r: CellState)
        ensures
            r == self.decayed(),
    {
        match self {
            CellState::Alive => CellState::Dead(254),
            CellState::Dead(level) => CellState::Dead(
                if *level == 0 {
                    0
                } else {
                    *level - 1
                },
            ),
        }
    }
}

impl PartialEq for CellState {
    fn eq(&self, other: &Self) -> (r: bool) {
        match (self, other) {
            (CellState::Alive, CellState::Alive) => true,
            (CellState::Dead(_), CellState::Dead(_)) => true,
            _ => false,
        }
    }
}

impl vstd::std_specs::cmp::PartialEqSpecImpl for CellState {
    open spec fn obeys_eq_spec() -> bool {
        true
    }

    open spec fn eq_spec(&self, other: &CellState) -> bool {
        same_kind(*self, *other)
    }
}

/// Equality on cell states is variant-only: all decay levels of a dead cell
/// compare equal, and a live cell never equals a dead one.
pub proof fn lemma_variant_only_equality(a: u8, b: u8)
    ensures
        same_kind(CellState::Dead(a), CellState::Dead(b)),
        !same_kind(CellState::Alive, CellState::Dead(a)),
        same_kind(CellState::Alive, CellState::Alive),
{
}

/// 1 for a live neighbour, 0 for anything else; the unit of neighbour counts.
pub open spec fn one_if(b: bool) -> int {
    if b {
        1
    } else {
        0
    }
}

/// A coordinate moved by one step on a ring of size `m`: the torus has no
/// edges, so position 0 moved by -1 lands on m - 1 and position m - 1 moved
/// by +1 lands on 0. Meant for `0 <= v < m` and offsets `-1 <= d <= 1`.
pub open spec fn wrap(v: int, d: int, m: int) -> int {
    if v + d < 0 {
        v + d + m
    } else if v + d >= m {
        v + d - m
    } else {
        v + d
    }
}

/// Whether the toroidal neighbour of `(x, y)` at offset `(dx, dy)` is alive,
/// in a row-major grid of `w` columns and `h` rows.
pub open spec fn neighbour_alive(
    cells: Seq<CellState>,
    w: int,
    h: int,
    x: int,
    y: int,
    dx: int,
    dy: int,
) -> bool {
    alive(cells[wrap(x, dx, w) + wrap(y, dy, h) * w])
}

/// How many of the eight toroidal neighbours of `(x, y)` are alive. On
/// degenerate tori (width or height 1 or 2) some positions are reached by
/// several offsets and are counted once per offset.
pub open spec fn live_neighbours(cells: Seq<CellState>, w: int, h: int, x: int, y: int) -> int {
    one_if(neighbour_alive(cells, w, h, x, y, -1, -1)) + one_if(
        neighbour_alive(cells, w, h, x, y, 0, -1),
    ) + one_if(neighbour_alive(cells, w, h, x, y, 1, -1)) + one_if(
        neighbour_alive(cells, w, h, x, y, -1, 0),
    ) + one_if(neighbour_alive(cells, w, h, x, y, 1, 0)) + one_if(
        neighbour_alive(cells, w, h, x, y, -1, 1),
    ) + one_if(neighbour_alive(cells, w, h, x, y, 0, 1)) + one_if(
        neighbour_alive(cells, w, h, x, y, 1, 1),
    )
}

/// The rule: a live cell with two or three live neighbours lives on, a dead
/// cell with exactly three is born, and every other cell takes one step of
/// dying (`decayed`).
pub open spec fn next_cell(c: CellState, n: int) -> CellState {
    if (alive(c) && (n == 2 || n == 3)) || (!alive(c) && n == 3) {
        CellState::Alive
    } else {
        c.decayed()
    }
}

/// The next state of the cell at `(x, y)`, read entirely from the given
/// (frozen) generation.
pub open spec fn step_cell(cells: Seq<CellState>, w: int, h: int, x: int, y: int) -> CellState {
    next_cell(cells[x + y * w], live_neighbours(cells, w, h, x, y))
}

/// One whole generation: every cell of the result is `step_cell` of the
/// same position in the input, so no transition can see a partial update.
pub open spec fn grid_step(cells: Seq<CellState>, w: int, h: int) -> Seq<CellState> {
    Seq::new(cells.len(), |i: int| step_cell(cells, w, h, i % w, i / w))
}

/// `n` whole generations, one `grid_step` after another.
pub open spec fn grid_step_n(cells: Seq<CellState>, w: int, h: int, n: nat) -> Seq<CellState>
    decreases n,
{
    if n == 0 {
        cells
    } else {
        grid_step(grid_step_n(cells, w, h, (n - 1) as nat), w, h)
    }
}

/// The cell states a flat 0/1 seed array stands for: 1 is a live cell,
/// 0 a fully dark dead one.
pub open spec fn seeded(raw: Seq<u8>) -> Seq<CellState> {
    Seq::new(
        raw.len(),
        |i: int|
            if raw[i] == 1 {
                CellState::Alive
            } else {
                CellState::Dead(0)
            },
    )
}

/// No cell of the grid is alive (decay levels are free).
pub open spec fn all_dead(cells: Seq<CellState>) -> bool {
    forall|i: int| 0 <= i < cells.len() ==> !alive(cells[i])
}

/// Byte `k` (0 to 3) of the RGBA pixel for one cell: opaque white for a live
/// cell, `[0, level, level, 255]` — a cyan afterglow fading to black — for a
/// dead one.
pub open spec fn pixel_byte(c: CellState, k: int) -> u8 {
    match c {
        CellState::Alive => 255,
        CellState::Dead(level) => if k == 0 {
            0
        } else if k == 3 {
            255
        } else {
            level
        },
    }
}

/// The whole RGBA frame for a generation: four bytes per cell, in the same
/// row-major order as the cells.
pub open spec fn rendered(cells: Seq<CellState>) -> Seq<u8> {
    Seq::new(4 * cells.len(), |j: int| pixel_byte(cells[j / 4], j % 4))
}

/// The simulation state: the current generation, an exclusively owned
/// scratch buffer of the same size for the next one, and the fixed grid
/// dimensions. Coordinates `(x, y)` map to index `x + y * width`.
#[derive(Debug)]
pub struct World {
    cells: Vec<CellState>,
    cells_buffer: Vec<CellState>,
    width: usize,
    height: usize,
}

impl View for World {
    type V = Seq<CellState>;

    /// The current generation, row-major.
    closed spec fn view(&self) -> Seq<CellState> {
        self.cells@
    }
}

impl World {
    pub closed spec fn spec_width(self) -> usize {
        self.width
    }

    pub closed spec fn spec_height(self) -> usize {
        self.height
    }

    /// The scratch buffer's contents; after an update it holds the
    /// generation that was just replaced.
    pub closed spec fn spec_buffer(self) -> Seq<CellState> {
        self.cells_buffer@
    }

    /// Structural invariant: both buffers always hold exactly
    /// width * height cells, and neither dimension is zero.
    pub open spec fn wf(self) -> bool {
        &&& self@.len() == self.spec_width() * self.spec_height()
        &&& self.spec_buffer().len() == self@.len()
        &&& 0 < self.spec_width()
        &&& 0 < self.spec_height()
    }

    pub fn width(&self) -> (w: usize)
        ensures
            w == self.spec_width(),
    {
        self.width
    }

    pub fn height(&self) -> (h: usize)
        ensures
            h == self.spec_height(),
    {
        self.height
    }

    /// Builds a world from a flat row-major 0/1 seed array. Any other byte
    /// value, a length that is not width * height, and a zero dimension are
    /// contract violations, excluded here rather than silently repaired.
    pub fn from(world: &[u8], width: usize, height: usize) -> (w: World)
        requires
            0 < width,
            0 < height,
            world@.len() == width * height,
            forall|i: int| 0 <= i < world@.len() ==> world@[i] == 0 || world@[i] == 1,
        ensures
            w.wf(),
            w.spec_width() == width,
            w.spec_height() == height,
            w@ == seeded(world@),
            w.spec_buffer() == w@,
    {
        let mut cells: Vec<CellState> = Vec::new();
        let mut i: usize = 0;
        while i < world.len()
            invariant
                i <= world@.len(),
                cells@.len() == i,
                forall|j: int| 0 <= j < i ==> cells@[j] == seeded(world@)[j],
            decreases world@.len() - i,
        {
            if world[i] == 1 {
                cells.push(CellState::Alive);
            } else {
                cells.push(CellState::Dead(0));
            }
            i += 1;
        }
        let mut buffer: Vec<CellState> = Vec::new();
        let mut j: usize = 0;
        while j < cells.len()
            invariant
                j <= cells@.len(),
                buffer@.len() == j,
                forall|k: int| 0 <= k < j ==> buffer@[k] == cells@[k],
            decreases cells@.len() - j,
        {
            buffer.push(cells[j]);
            j += 1;
        }
        proof {
            assert(cells@ =~= seeded(world@));
            assert(buffer@ =~= cells@);
        }
        World { cells, cells_buffer: buffer, width, height }
    }

    /// Bounds-checked read of the cell at `(x, y)`; out-of-range coordinates
    /// are a caller bug and excluded by contract.
    pub fn cell_at(&self, x: usize, y: usize) -> (c: &CellState)
        requires
            self.wf(),
            x < self.spec_width(),
            y < self.spec_height(),
        ensures
            *c == self@[x + y * self.spec_width()],
    {
        let i = self.to_index(x, y);
        &self.cells[i]
    }

    /// Whether the cell at `(x, y)` is alive.
    fn is_alive_at(&self, x: usize, y: usize) -> (b: bool)
        requires
            self.wf(),
            x < self.spec_width(),
            y < self.spec_height(),
        ensures
            b == alive(self@[x + y * self.spec_width()]),
    {
        *self.cell_at(x, y) == CellState::Alive
    }

    /// Counts the live cells among the eight toroidal neighbours of `(x, y)`,
    /// reading only the current generation.
    #[verifier::spinoff_prover]
    fn count_neighbours(&self, x: usize, y: usize) -> (n: u8)
        requires
            self.wf(),
            x < self.spec_width(),
            y < self.spec_height(),
        ensures
            n == live_neighbours(
                self@,
                self.spec_width() as int,
                self.spec_height() as int,
                x as int,
                y as int,
            ),
            n <= 8,
    {
        let w = self.width;
        let h = self.height;
        let xl = wrap_dec(x, w);
        let xr = wrap_inc(x, w);
        let yu = wrap_dec(y, h);
        let yd = wrap_inc(y, h);
        proof {
            assert(x == wrap(x as int, 0, w as int));
            assert(y == wrap(y as int, 0, h as int));
        }
        let ghost gc = self@;
        let ghost gw = w as int;
        let ghost gh = h as int;
        let ghost gx = x as int;
        let ghost gy = y as int;
        let b0 = self.is_alive_at(xl, yu);
        let b1 = self.is_alive_at(x, yu);
        let b2 = self.is_alive_at(xr, yu);
        let b3 = self.is_alive_at(xl, y);
        let b4 = self.is_alive_at(xr, y);
        let b5 = self.is_alive_at(xl, yd);
        let b6 = self.is_alive_at(x, yd);
        let b7 = self.is_alive_at(xr, yd);
        proof {
            assert(b0 == neighbour_alive(gc, gw, gh, gx, gy, -1, -1));
            assert(b1 == neighbour_alive(gc, gw, gh, gx, gy, 0, -1));
            assert(b2 == neighbour_alive(gc, gw, gh, gx, gy, 1, -1));
            assert(b3 == neighbour_alive(gc, gw, gh, gx, gy, -1, 0));
            assert(b4 == neighbour_alive(gc, gw, gh, gx, gy, 1, 0));
            assert(b5 == neighbour_alive(gc, gw, gh, gx, gy, -1, 1));
            assert(b6 == neighbour_alive(gc, gw, gh, gx, gy, 0, 1));
            assert(b7 == neighbour_alive(gc, gw, gh, gx, gy, 1, 1));
        }
        let mut count: u8 = 0;
        count = add_one_if(count, b0);
        count = add_one_if(count, b1);
        count = add_one_if(count, b2);
        count = add_one_if(count, b3);
        count = add_one_if(count, b4);
        count = add_one_if(count, b5);
        count = add_one_if(count, b6);
        count = add_one_if(count, b7);
        count
    }

    /// Advances the world by exactly one generation: every cell of the new
    /// current buffer is the rule applied to the old one, and the old
    /// generation moves whole into the scratch buffer (an ownership swap,
    /// not a copy). Total over any well-formed world.
    pub fn update(&mut self)
        requires
            old(self).wf(),
        ensures
            final(self).wf(),
            final(self).spec_width() == old(self).spec_width(),
            final(self).spec_height() == old(self).spec_height(),
            final(self)@ == grid_step(
                old(self)@,
                old(self).spec_width() as int,
                old(self).spec_height() as int,
            ),
            final(self).spec_buffer() == old(self)@,
    {
        let w = self.width;
        let h = self.height;
        let ghost gw = w as int;
        let ghost gh = h as int;
        let ghost before = self.cells@;
        let mut y: usize = 0;
        while y < h
            invariant
                y <= h,
                self.width == w,
                self.height == h,
                self.wf(),
                self.cells@ == before,
                before.len() == gw * gh,
                gw == w as int,
                gh == h as int,
                0 < w,
                0 < h,
                forall|j: int|
                    0 <= j < y * gw ==> self.cells_buffer@[j] == step_cell(
                        before,
                        gw,
                        gh,
                        j % gw,
                        j / gw,
                    ),
            decreases h - y,
        {
            let mut x: usize = 0;
            while x < w
                invariant
                    y < h,
                    x <= w,
                    self.width == w,
                    self.height == h,
                    self.wf(),
                    self.cells@ == before,
                    before.len() == gw * gh,
                    gw == w as int,
                    gh == h as int,
                    0 < w,
                    0 < h,
                    forall|j: int|
                        0 <= j < y * gw + x ==> self.cells_buffer@[j] == step_cell(
                            before,
                            gw,
                            gh,
                            j % gw,
                            j / gw,
                        ),
                decreases w - x,
            {
                let idx = self.to_index(x, y);
                let is_alive = self.cells[idx] == CellState::Alive;
                let n = self.count_neighbours(x, y);
                let next = (is_alive && (n == 2 || n == 3)) || (!is_alive && n == 3);
                if next {
                    self.cells_buffer[idx] = CellState::Alive;
                } else {
                    let died = self.cells[idx].die();
                    self.cells_buffer[idx] = died;
                }
                proof {
                    vstd::arithmetic::div_mod::lemma_fundamental_div_mod_converse(
                        idx as int,
                        gw,
                        y as int,
                        x as int,
                    );
                    assert(self.cells_buffer@[idx as int] == step_cell(
                        before,
                        gw,
                        gh,
                        x as int,
                        y as int,
                    ));
                }
                x += 1;
            }
            y += 1;
            proof {
                assert(y * gw == (y - 1) * gw + gw) by (nonlinear_arith);
            }
        }
        proof {
            assert(h as int * gw == gw * gh) by (nonlinear_arith)
                requires
                    gh == h as int,
            ;
            assert(self.cells_buffer@ =~= grid_step(before, gw, gh));
        }
        core::mem::swap(&mut self.cells_buffer, &mut self.cells);
    }

    /// Writes the current generation into a caller-owned RGBA frame: four
    /// bytes per cell, row-major, as `rendered` describes. A frame whose
    /// length is not 4 * width * height is a contract violation.
    pub fn render(&mut self, frame: &mut [u8])
        requires
            old(self).wf(),
            old(frame)@.len() == 4 * old(self)@.len(),
        ensures
            *final(self) == *old(self),
            final(frame)@ == rendered(old(self)@),
    {
        let n = self.cells.len();
        let m = frame.len();
        let mut i: usize = 0;
        while i < n
            invariant
                i <= n,
                n == self@.len(),
                *self == *old(self),
                frame@.len() == m,
                m == 4 * n,
                forall|j: int| 0 <= j < 4 * i ==> frame@[j] == rendered(self@)[j],
            decreases n - i,
        {
            let (r, g, b) = match self.cells[i] {
                CellState::Alive => (255u8, 255u8, 255u8),
                CellState::Dead(level) => (0u8, level, level),
            };
            frame[4 * i] = r;
            frame[4 * i + 1] = g;
            frame[4 * i + 2] = b;
            frame[4 * i + 3] = 255;
            proof {
                lemma_pixel_group(i as int);
                assert(forall|j: int|
                    0 <= j < 4 * (i + 1) ==> frame@[j] == rendered(self@)[j]);
            }
            i += 1;
        }
        proof {
            assert(frame@ =~= rendered(self@));
        }
    }

    /// Hard reset of all afterglow: every cell that is not alive drops to
    /// decay level 0 at once. A distinct operation from `update`, meant to
    /// clear decay artifacts after a warm-up run; live cells are untouched.
    pub fn cool(&mut self)
        requires
            old(self).wf(),
        ensures
            final(self).wf(),
            final(self).spec_width() == old(self).spec_width(),
            final(self).spec_height() == old(self).spec_height(),
            final(self)@.len() == old(self)@.len(),
            forall|i: int|
                0 <= i < old(self)@.len() ==> final(self)@[i] == (if alive(old(self)@[i]) {
                    CellState::Alive
                } else {
                    CellState::Dead(0)
                }),
            final(self).spec_buffer() == old(self).spec_buffer(),
    {
        let n = self.cells.len();
        let mut i: usize = 0;
        while i < n
            invariant
                i <= n,
                n == self@.len(),
                self@.len() == old(self)@.len(),
                self.spec_width() == old(self).spec_width(),
                self.spec_height() == old(self).spec_height(),
                self.spec_buffer() == old(self).spec_buffer(),
                self.wf(),
                forall|j: int| i <= j < n ==> self@[j] == old(self)@[j],
                forall|j: int|
                    0 <= j < i ==> self@[j] == (if alive(old(self)@[j]) {
                        CellState::Alive
                    } else {
                        CellState::Dead(0)
                    }),
            decreases n - i,
        {
            if !(self.cells[i] == CellState::Alive) {
                self.cells[i] = CellState::Dead(0);
            }
            i += 1;
        }
    }

    /// The linear index of `(x, y)` in the row-major cell buffers.
    fn to_index(&self, x: usize, y: usize) -> (i: usize)
        requires
            self.wf(),
            x < self.spec_width(),
            y < self.spec_height(),
        ensures
            i == x + y * self.spec_width(),
            i < self@.len(),
    {
        let n = self.cells.len();
        proof {
            lemma_grid_index_bound(x as int, y as int, self.width as int, self.height as int);
            assert(x + y * self.spec_width() < n);
        }
        x + y * self.width
    }
}

/// World equality, as the tests compare worlds: same dimensions and, cell by
/// cell, the same variant in the current generation. Decay levels and the
/// scratch buffer are ignored, matching the variant-only equality of
/// `CellState`.
impl PartialEq for World {
    fn eq(&self, other: &Self) -> (r: bool) {
        if self.width != other.width || self.height != other.height
            || self.cells.len() != other.cells.len() {
            return false;
        }
        let n = self.cells.len();
        let mut i: usize = 0;
        while i < n
            invariant
                i <= n,
                n == self@.len(),
                n == other@.len(),
                forall|j: int| 0 <= j < i ==> same_kind(self@[j], other@[j]),
            decreases n - i,
        {
            if !(self.cells[i] == other.cells[i]) {
                return false;
            }
            i += 1;
        }
        true
    }
}

impl vstd::std_specs::cmp::PartialEqSpecImpl for World {
    open spec fn obeys_eq_spec() -> bool {
        true
    }

    open spec fn eq_spec(&self, other: &World) -> bool {
        &&& self.spec_width() == other.spec_width()
        &&& self.spec_height() == other.spec_height()
        &&& self@.len() == other@.len()
        &&& forall|j: int| 0 <= j < self@.len() ==> same_kind(self@[j], other@[j])
    }
}

/// One step left or up on a ring of size `m`, wrapping 0 to `m - 1`.
fn wrap_dec(v: usize, m: usize) -> (r: usize)
    requires
        v < m,
    ensures
        r == wrap(v as int, -1, m as int),
        r < m,
{
    if v == 0 {
        m - 1
    } else {
        v - 1
    }
}

/// One step right or down on a ring of size `m`, wrapping `m - 1` to 0.
fn wrap_inc(v: usize, m: usize) -> (r: usize)
    requires
        v < m,
    ensures
        r == wrap(v as int, 1, m as int),
        r < m,
{
    if v + 1 == m {
        0
    } else {
        v + 1
    }
}

/// Adds one to a neighbour count when the neighbour is alive.
fn add_one_if(count: u8, b: bool) -> (r: u8)
    requires
        count < 255,
    ensures
        r == count + one_if(b),
{
    if b {
        count + 1
    } else {
        count
    }
}

/// The four bytes of pixel `i` sit at frame indices `4 * i` to `4 * i + 3`.
proof fn lemma_pixel_group(i: int)
    requires
        0 <= i,
    ensures
        (4 * i) / 4 == i && (4 * i) % 4 == 0,
        (4 * i + 1) / 4 == i && (4 * i + 1) % 4 == 1,
        (4 * i + 2) / 4 == i && (4 * i + 2) % 4 == 2,
        (4 * i + 3) / 4 == i && (4 * i + 3) % 4 == 3,
{
    vstd::arithmetic::div_mod::lemma_fundamental_div_mod_converse(4 * i, 4, i, 0);
    vstd::arithmetic::div_mod::lemma_fundamental_div_mod_converse(4 * i + 1, 4, i, 1);
    vstd::arithmetic::div_mod::lemma_fundamental_div_mod_converse(4 * i + 2, 4, i, 2);
    vstd::arithmetic::div_mod::lemma_fundamental_div_mod_converse(4 * i + 3, 4, i, 3);
}

/// Toroidal wraparound: the grid has no edges, so the corner cell `(0, 0)`
/// counts the opposite corner `(w - 1, h - 1)` — its neighbour at offset
/// `(-1, -1)` — like any other neighbour.
pub proof fn lemma_toroidal_wraparound(cells: Seq<CellState>, w: int, h: int)
    requires
        0 < w,
        0 < h,
        cells.len() == w * h,
    ensures
        neighbour_alive(cells, w, h, 0, 0, -1, -1) == alive(cells[(w - 1) + (h - 1) * w]),
        alive(cells[(w - 1) + (h - 1) * w]) ==> live_neighbours(cells, w, h, 0, 0) >= 1,
{
    assert(wrap(0, -1, w) == w - 1);
    assert(wrap(0, -1, h) == h - 1);
}

/// Every cell of `grid_step` is the rule applied at its own coordinates to
/// the frozen input generation: an update reads nothing but the old
/// snapshot, so no freshly written state can bleed into another cell's
/// transition within the same generation.
pub proof fn lemma_grid_step_pointwise(cells: Seq<CellState>, w: int, h: int, x: int, y: int)
    requires
        0 < w,
        0 < h,
        cells.len() == w * h,
        0 <= x < w,
        0 <= y < h,
    ensures
        grid_step(cells, w, h)[x + y * w] == step_cell(cells, w, h, x, y),
{
    lemma_grid_index_bound(x, y, w, h);
    vstd::arithmetic::div_mod::lemma_fundamental_div_mod_converse(x + y * w, w, y, x);
}

/// Decay is monotone: a live cell that dies starts its afterglow at exactly
/// level 254; a dead cell that stays dead drops by exactly one level, with a
/// floor at 0; and absent a rebirth the level never grows.
pub proof fn lemma_decay_monotonic(level: u8, n: int)
    ensures
        next_cell(CellState::Alive, n) is Dead ==> next_cell(CellState::Alive, n)
            == CellState::Dead(254),
        next_cell(CellState::Dead(level), n) is Dead ==> next_cell(CellState::Dead(level), n)
            == CellState::Dead(
            if level == 0 {
                0u8
            } else {
                (level - 1) as u8
            },
        ),
        next_cell(CellState::Dead(level), n) matches CellState::Dead(next_level) ==> next_level
            <= level,
{
}

/// No offset reaches a live cell in an all-dead grid.
proof fn lemma_dead_neighbour(
    cells: Seq<CellState>,
    w: int,
    h: int,
    x: int,
    y: int,
    dx: int,
    dy: int,
)
    requires
        0 < w,
        0 < h,
        cells.len() == w * h,
        all_dead(cells),
        0 <= x < w,
        0 <= y < h,
        -1 <= dx <= 1,
        -1 <= dy <= 1,
    ensures
        !neighbour_alive(cells, w, h, x, y, dx, dy),
{
    lemma_grid_index_bound(wrap(x, dx, w), wrap(y, dy, h), w, h);
}

/// One generation of an all-dead grid is all-dead: with no live neighbours
/// anywhere no cell is born, and dying keeps a cell dead.
pub proof fn lemma_empty_world_step(cells: Seq<CellState>, w: int, h: int)
    requires
        0 < w,
        0 < h,
        cells.len() == w * h,
        all_dead(cells),
    ensures
        grid_step(cells, w, h).len() == cells.len(),
        all_dead(grid_step(cells, w, h)),
{
    assert forall|i: int| 0 <= i < cells.len() implies !alive(grid_step(cells, w, h)[i]) by {
        let x = i % w;
        let y = i / w;
        vstd::arithmetic::div_mod::lemma_mod_bound(i, w);
        vstd::arithmetic::div_mod::lemma_div_pos_is_pos(i, w);
        vstd::arithmetic::div_mod::lemma_multiply_divide_lt(i, w, h);
        vstd::arithmetic::div_mod::lemma_fundamental_div_mod(i, w);
        lemma_dead_neighbour(cells, w, h, x, y, -1, -1);
        lemma_dead_neighbour(cells, w, h, x, y, 0, -1);
        lemma_dead_neighbour(cells, w, h, x, y, 1, -1);
        lemma_dead_neighbour(cells, w, h, x, y, -1, 0);
        lemma_dead_neighbour(cells, w, h, x, y, 1, 0);
        lemma_dead_neighbour(cells, w, h, x, y, -1, 1);
        lemma_dead_neighbour(cells, w, h, x, y, 0, 1);
        lemma_dead_neighbour(cells, w, h, x, y, 1, 1);
        assert(live_neighbours(cells, w, h, x, y) == 0);
        assert(x + y * w == i);
        assert(grid_step(cells, w, h)[i] == step_cell(cells, w, h, x, y));
        assert(step_cell(cells, w, h, x, y) == next_cell(cells[i], 0));
    }
}

/// An all-dead world is a fixed point: run for any number of generations it
/// stays all-dead.
pub proof fn lemma_empty_world_stays_empty(cells: Seq<CellState>, w: int, h: int, n: nat)
    requires
        0 < w,
        0 < h,
        cells.len() == w * h,
        all_dead(cells),
    ensures
        grid_step_n(cells, w, h, n).len() == cells.len(),
        all_dead(grid_step_n(cells, w, h, n)),
    decreases n,
{
    if n > 0 {
        lemma_empty_world_stays_empty(cells, w, h, (n - 1) as nat);
        lemma_empty_world_step(grid_step_n(cells, w, h, (n - 1) as nat), w, h);
    }
}

/// Row-major indexing stays inside a w-by-h grid.
proof fn lemma_grid_index_bound(x: int, y: int, w: int, h: int)
    requires
        0 <= x < w,
        0 <= y < h,
    ensures
        0 <= x + y * w,
        x + y * w < w * h,
{
    assert(x + y * w < w * h) by (nonlinear_arith)
        requires
            0 <= x < w,
            0 <= y < h,
    ;
    assert(0 <= x + y * w) by (nonlinear_arith)
        requires
            0 <= x < w,
            0 <= y < h,
    ;
}

} // verus!
