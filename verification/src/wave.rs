//! The leap-frog stepper and the simulation session that drives it.
//!
//! Amplitudes are of any copyable type `T`. The arithmetic of one update is a
//! function that the caller hands in; the session decides which cells are
//! updated, which six neighbours each update reads, and how the three time
//! slices rotate.
use vstd::prelude::*;
use crate::lattice::{adjacent, inner, lemma_adjacent_symmetric, neighbour_cells, neighbours};
use crate::field::{cells, copy_field, filled, has_shape, rectangular, shaped, uniform, width};
use crate::colour::{clamp_level, determine_color};
use crate::raster::Tag;

verus! {

/// The cells that the stepper updates: interior cells off the outermost ring.
pub open spec fn active(grid: Seq<Vec<Tag>>, r: int, c: int) -> bool {
    inner(grid.len() as int, width(grid), r, c) && grid[r]@[c] == Tag::Interior
}

/// The values of the six neighbours of `(r, c)`, in the order of `neighbours`.
pub open spec fn around<T>(f: Seq<Vec<T>>, r: int, c: int) -> Seq<T> {
    Seq::new(6, |k: int| f[neighbours(r, c)[k].0]@[neighbours(r, c)[k].1])
}

/// `v` is what `update` may return for the cell `(r, c)`: its result on the
/// cell's value in `prev`, its value in `cur` and the six neighbouring values
/// in `cur`.
pub open spec fn updated<T, F: Fn(T, T, [T; 6]) -> T>(
    update: &F,
    prev: Seq<Vec<T>>,
    cur: Seq<Vec<T>>,
    r: int,
    c: int,
    v: T,
) -> bool {
    exists|nb: [T; 6]|
        nb@ =~= around(cur, r, c) && #[trigger] update.ensures((prev[r]@[c], cur[r]@[c], nb), v)
}

/// One update of the stepper over the whole lattice.
///
/// Every active cell of `next` receives what `update` returns for the cell's
/// value in `prev`, its value in `cur` and the six neighbouring values in
/// `cur`. All other cells of `next` keep the value they had, so they are
/// frozen.
pub fn step<T: Copy, F: Fn(T, T, [T; 6]) -> T>(
    grid: &Vec<Vec<Tag>>,
    prev: &Vec<Vec<T>>,
    cur: &Vec<Vec<T>>,
    next: &mut Vec<Vec<T>>,
    update: &F,
)
    requires
        rectangular(grid@),
        shaped(prev@, grid@.len() as int, width(grid@)),
        shaped(cur@, grid@.len() as int, width(grid@)),
        shaped(old(next)@, grid@.len() as int, width(grid@)),
        forall|p: T, c: T, nb: [T; 6]| update.requires((p, c, nb)),
    ensures
        shaped(final(next)@, grid@.len() as int, width(grid@)),
        forall|r: int, c: int|
            0 <= r < grid@.len() && 0 <= c < width(grid@) && !active(grid@, r, c)
                ==> #[trigger] final(next)@[r]@[c] == old(next)@[r]@[c],
        forall|r: int, c: int|
            active(grid@, r, c) ==> updated(update, prev@, cur@, r, c, #[trigger] final(next)@[r]@[c]),
{
    let rows = grid.len();
    if rows < 3 {
        return ;
    }
    let cols = grid[0].len();
    if cols < 3 {
        return ;
    }
    let mut r: usize = 1;
    while r < rows - 1
        invariant
            rows == grid@.len(),
            cols == width(grid@),
            rows >= 3,
            cols >= 3,
            1 <= r <= rows - 1,
            rectangular(grid@),
            shaped(prev@, rows as int, cols as int),
            shaped(cur@, rows as int, cols as int),
            shaped(next@, rows as int, cols as int),
            shaped(old(next)@, rows as int, cols as int),
            forall|p: T, c: T, nb: [T; 6]| update.requires((p, c, nb)),
            forall|i: int, j: int|
                0 <= i < rows && 0 <= j < cols && !(i < r && active(grid@, i, j))
                    ==> #[trigger] next@[i]@[j] == old(next)@[i]@[j],
            forall|i: int, j: int|
                i < r && active(grid@, i, j) ==> updated(update, prev@, cur@, i, j, #[trigger] next@[i]@[j]),
        decreases rows - r,
    {
        let mut c: usize = 1;
        while c < cols - 1
            invariant
                rows == grid@.len(),
                cols == width(grid@),
                rows >= 3,
                cols >= 3,
                1 <= r < rows - 1,
                1 <= c <= cols - 1,
                rectangular(grid@),
                shaped(prev@, rows as int, cols as int),
                shaped(cur@, rows as int, cols as int),
                shaped(next@, rows as int, cols as int),
                shaped(old(next)@, rows as int, cols as int),
                forall|p: T, c: T, nb: [T; 6]| update.requires((p, c, nb)),
                forall|i: int, j: int|
                    0 <= i < rows && 0 <= j < cols && !((i < r || (i == r && j < c)) && active(grid@, i, j))
                        ==> #[trigger] next@[i]@[j] == old(next)@[i]@[j],
                forall|i: int, j: int|
                    (i < r || (i == r && j < c)) && active(grid@, i, j) ==> updated(
                        update,
                        prev@,
                        cur@,
                        i,
                        j,
                        #[trigger] next@[i]@[j],
                    ),
            decreases cols - c,
        {
            if grid[r][c] == Tag::Interior {
                let at = neighbour_cells(r, c);
                let nb: [T; 6] = [
                    cur[at[0].0][at[0].1],
                    cur[at[1].0][at[1].1],
                    cur[at[2].0][at[2].1],
                    cur[at[3].0][at[3].1],
                    cur[at[4].0][at[4].1],
                    cur[at[5].0][at[5].1],
                ];
                let v = update(prev[r][c], cur[r][c], nb);
                let ghost before = next@;
                next[r][c] = v;
                proof {
                    assert(nb@ =~= around(cur@, r as int, c as int));
                    assert(updated(update, prev@, cur@, r as int, c as int, v));
                    assert forall|i: int, j: int|
                        (i < r || (i == r && j < c + 1)) && active(grid@, i, j) implies updated(
                        update,
                        prev@,
                        cur@,
                        i,
                        j,
                        #[trigger] next@[i]@[j],
                    ) by {
                        if i == r && j == c {
                        } else {
                            assert(next@[i]@[j] == before[i]@[j]);
                        }
                    }
                }
            }
            c = c + 1;
        }
        r = r + 1;
    }
}

/// The step counter after one more request to advance.
pub open spec fn advanced(n: nat, n_max: nat) -> nat {
    if n < n_max {
        n + 1
    } else {
        n
    }
}

/// The step counter after `k` requests to advance.
pub open spec fn advanced_times(n: nat, n_max: nat, k: nat) -> nat
    decreases k,
{
    if k == 0 {
        n
    } else {
        advanced_times(advanced(n, n_max), n_max, (k - 1) as nat)
    }
}

/// A run reaches its step limit: after at least as many requests as steps were
/// left the counter stands at the limit, and further requests leave it there.
pub proof fn lemma_advance_reaches_limit(n: nat, n_max: nat, k: nat)
    requires
        n <= n_max,
        k >= n_max - n,
    ensures
        advanced_times(n, n_max, k) == n_max,
    decreases k,
{
    if k > 0 {
        lemma_advance_reaches_limit(advanced(n, n_max), n_max, (k - 1) as nat);
    }
}

/// A simulation run: the classification grid, three time slices of the
/// amplitude, the step counter with its limit, and the colour table.
#[derive(Clone, Debug)]
pub struct SimulationData<T> {
    /// The classification of every cell; never changed by a run.
    pub hex_grid: Vec<Vec<Tag>>,
    /// The amplitudes one step back.
    pub hex_tnm1: Vec<Vec<T>>,
    /// The current amplitudes.
    pub hex_tn: Vec<Vec<T>>,
    /// Scratch slice that receives the next amplitudes.
    pub hex_temp: Vec<Vec<T>>,
    /// Steps taken since the start or the last reset.
    pub n: u32,
    /// Steps after which the run stands still.
    pub n_max: u32,
    /// The colour table for rendering.
    pub cmap: [[u8; 3]; 256],
}

impl<T: Copy> SimulationData<T> {
    /// The number of rows of the lattice.
    pub open spec fn rows(&self) -> int {
        self.hex_grid@.len() as int
    }

    /// The number of columns of the lattice.
    pub open spec fn cols(&self) -> int {
        width(self.hex_grid@)
    }

    /// The grid is rectangular, the three slices have its shape, and the
    /// counter has not passed its limit.
    pub open spec fn wf(&self) -> bool {
        &&& rectangular(self.hex_grid@)
        &&& shaped(self.hex_tnm1@, self.rows(), self.cols())
        &&& shaped(self.hex_tn@, self.rows(), self.cols())
        &&& shaped(self.hex_temp@, self.rows(), self.cols())
        &&& self.n <= self.n_max
    }

    /// The grid, the colour table and the step limit of `self` and `other`
    /// are the same.
    pub open spec fn same_setup(&self, other: &Self) -> bool {
        &&& self.hex_grid == other.hex_grid
        &&& self.cmap == other.cmap
        &&& self.n_max == other.n_max
    }

    /// The state at the start of a run: all three slices hold `zero` in every
    /// cell and no step has been taken.
    pub open spec fn at_rest(&self, zero: T) -> bool {
        &&& self.wf()
        &&& uniform(self.hex_tnm1@, zero)
        &&& uniform(self.hex_tn@, zero)
        &&& uniform(self.hex_temp@, zero)
        &&& self.n == 0
    }

    /// `self` and `other` are in the same state: the same setup, the same
    /// step count and the same amplitudes in all three slices.
    pub open spec fn same_state(&self, other: &Self) -> bool {
        &&& self.same_setup(other)
        &&& self.n == other.n
        &&& cells(self.hex_tnm1@) == cells(other.hex_tnm1@)
        &&& cells(self.hex_tn@) == cells(other.hex_tn@)
        &&& cells(self.hex_temp@) == cells(other.hex_temp@)
    }

    /// `after` is what one step with `update` makes of the slices of `self`:
    /// the current slice has become the previous one; in the new current
    /// slice every active cell holds a result of `update` and every other
    /// cell the value that the scratch slice had; the scratch slice is a copy
    /// of the new current slice.
    pub open spec fn steps_to<F: Fn(T, T, [T; 6]) -> T>(&self, update: &F, after: &Self) -> bool {
        &&& after.wf()
        &&& after.same_setup(self)
        &&& after.hex_tnm1 == self.hex_tn
        &&& cells(after.hex_temp@) == cells(after.hex_tn@)
        &&& forall|r: int, c: int|
            0 <= r < self.rows() && 0 <= c < self.cols() && !active(self.hex_grid@, r, c)
                ==> #[trigger] after.hex_tn@[r]@[c] == self.hex_temp@[r]@[c]
        &&& forall|r: int, c: int|
            active(self.hex_grid@, r, c) ==> updated(
                update,
                self.hex_tnm1@,
                self.hex_tn@,
                r,
                c,
                #[trigger] after.hex_tn@[r]@[c],
            )
    }

    /// The position lies on the lattice and its cell is interior.
    pub open spec fn is_interior(&self, x_pos: int, y_pos: int) -> bool {
        0 <= y_pos < self.rows() && 0 <= x_pos < self.cols() && self.hex_grid@[y_pos]@[x_pos]
            == Tag::Interior
    }

    /// `after` is `self` with the current amplitude of the cell in column
    /// `x_pos` of row `y_pos` set to `unit` and nothing else changed.
    pub open spec fn impulse_to(&self, x_pos: int, y_pos: int, unit: T, after: &Self) -> bool {
        &&& after.same_setup(self)
        &&& after.n == self.n
        &&& after.hex_tnm1 == self.hex_tnm1
        &&& after.hex_temp == self.hex_temp
        &&& shaped(after.hex_tn@, self.rows(), self.cols())
        &&& after.hex_tn@[y_pos]@[x_pos] == unit
        &&& forall|r: int, c: int|
            0 <= r < self.rows() && 0 <= c < self.cols() && !(r == y_pos && c == x_pos)
                ==> #[trigger] after.hex_tn@[r]@[c] == self.hex_tn@[r]@[c]
    }

    /// A session at rest over `grid`, with every amplitude equal to `zero`.
    pub fn new(grid: Vec<Vec<Tag>>, cmap: [[u8; 3]; 256], n_max: u32, zero: T) -> (s: Self)
        requires
            rectangular(grid@),
        ensures
            s.at_rest(zero),
            s.hex_grid == grid,
            s.cmap == cmap,
            s.n_max == n_max,
    {
        let rows = grid.len();
        let cols = if rows == 0 {
            0
        } else {
            grid[0].len()
        };
        SimulationData {
            hex_grid: grid,
            hex_tnm1: filled(rows, cols, zero),
            hex_tn: filled(rows, cols, zero),
            hex_temp: filled(rows, cols, zero),
            n: 0,
            n_max,
            cmap,
        }
    }

    /// Whether the session is well formed.
    pub fn well_formed(&self) -> (ok: bool)
        ensures
            ok == self.wf(),
    {
        let rows = self.hex_grid.len();
        let cols = if rows == 0 {
            0
        } else {
            self.hex_grid[0].len()
        };
        let ok = has_shape(&self.hex_grid, rows, cols) && has_shape(&self.hex_tnm1, rows, cols)
            && has_shape(&self.hex_tn, rows, cols) && has_shape(&self.hex_temp, rows, cols) && self.n
            <= self.n_max;
        ok
    }

    /// Computes the next time slice and rotates the slices: the current slice
    /// becomes the previous one, the new slice becomes the current one, and
    /// the scratch slice holds a copy of it. The step counter is not touched.
    pub fn calc_next_frame<F: Fn(T, T, [T; 6]) -> T>(&mut self, update: &F)
        requires
            old(self).wf(),
            forall|p: T, c: T, nb: [T; 6]| update.requires((p, c, nb)),
        ensures
            old(self).steps_to(update, final(self)),
            final(self).n == old(self).n,
    {
        step(&self.hex_grid, &self.hex_tnm1, &self.hex_tn, &mut self.hex_temp, update);
        std::mem::swap(&mut self.hex_tnm1, &mut self.hex_tn);
        self.hex_tn = copy_field(&self.hex_temp);
        proof {
            let rows = self.rows();
            assert(cells(self.hex_tn@).len() == self.hex_tn@.len());
            assert(cells(self.hex_temp@).len() == self.hex_temp@.len());
            assert forall|r: int| 0 <= r < rows implies (#[trigger] self.hex_tn@[r])@
                == self.hex_temp@[r]@ by {
                assert(cells(self.hex_tn@)[r] == self.hex_tn@[r]@);
                assert(cells(self.hex_temp@)[r] == self.hex_temp@[r]@);
            }
        }
    }

    /// Takes one step if the step limit has not been reached, and does nothing
    /// otherwise.
    pub fn advance<F: Fn(T, T, [T; 6]) -> T>(&mut self, update: &F)
        requires
            old(self).wf(),
            forall|p: T, c: T, nb: [T; 6]| update.requires((p, c, nb)),
        ensures
            final(self).wf(),
            final(self).same_setup(old(self)),
            final(self).n == advanced(old(self).n as nat, old(self).n_max as nat),
            old(self).n >= old(self).n_max ==> *final(self) == *old(self),
            old(self).n < old(self).n_max ==> old(self).steps_to(update, final(self)),
    {
        if self.n < self.n_max {
            self.calc_next_frame(update);
            self.n = self.n + 1;
        }
    }

    /// Whether the step limit has been reached.
    pub fn is_done(&self) -> (done: bool)
        ensures
            done == (self.n == self.n_max),
    {
        self.n == self.n_max
    }

    /// Puts the session back to rest: every amplitude is `zero` again and the
    /// step counter is 0.
    pub fn reset(&mut self, zero: T)
        requires
            old(self).wf(),
        ensures
            final(self).at_rest(zero),
            final(self).same_setup(old(self)),
    {
        let rows = self.hex_grid.len();
        let cols = if rows == 0 {
            0
        } else {
            self.hex_grid[0].len()
        };
        self.hex_tnm1 = filled(rows, cols, zero);
        self.hex_tn = filled(rows, cols, zero);
        self.hex_temp = filled(rows, cols, zero);
        self.n = 0;
    }

    /// Sets the current amplitude of the cell in column `x_pos` of row `y_pos`
    /// to `unit` if that cell is interior, and reports whether it did. A cell
    /// that is not interior, or a position outside the lattice, changes
    /// nothing.
    pub fn add_initial(&mut self, x_pos: usize, y_pos: usize, unit: T) -> (hit: bool)
        requires
            old(self).wf(),
        ensures
            final(self).wf(),
            hit == old(self).is_interior(x_pos as int, y_pos as int),
            !hit ==> *final(self) == *old(self),
            hit ==> old(self).impulse_to(x_pos as int, y_pos as int, unit, final(self)),
    {
        if y_pos >= self.hex_grid.len() {
            return false;
        }
        if x_pos >= self.hex_grid[0].len() {
            return false;
        }
        if self.hex_grid[y_pos][x_pos] == Tag::Interior {
            self.hex_tn[y_pos][x_pos] = unit;
            true
        } else {
            false
        }
    }

    /// Renders the current amplitudes into RGB bytes, row by row, three bytes
    /// per cell. A cell that is not outside gets the colour of the table entry
    /// at the level that `level` gives for its amplitude; an outside cell stays
    /// black.
    pub fn render_frame<L: Fn(T) -> i64>(&self, level: &L) -> (image: Vec<u8>)
        requires
            self.wf(),
            forall|v: T| level.requires((v,)),
        ensures
            image@.len() == 3 * (self.rows() * self.cols()),
            forall|r: int, c: int|
                0 <= r < self.rows() && 0 <= c < self.cols() ==> painted(
                    level,
                    self.cmap,
                    self.hex_grid@[r]@[c],
                    self.hex_tn@[r]@[c],
                    #[trigger] pixel(image@, self.cols(), r, c),
                ),
    {
        let yr = self.hex_grid.len();
        let xr = if yr == 0 {
            0
        } else {
            self.hex_grid[0].len()
        };
        let mut image_vec: Vec<u8> = Vec::new();
        let mut i_y: usize = 0;
        proof {
            assert(0 * xr == 0);
        }
        while i_y < yr
            invariant
                self.wf(),
                forall|v: T| level.requires((v,)),
                yr == self.rows(),
                xr == self.cols(),
                i_y <= yr,
                image_vec@.len() == 3 * (i_y * xr),
                forall|r: int, c: int|
                    0 <= r < i_y && 0 <= c < xr ==> painted(
                        level,
                        self.cmap,
                        self.hex_grid@[r]@[c],
                        self.hex_tn@[r]@[c],
                        #[trigger] pixel(image_vec@, xr as int, r, c),
                    ),
            decreases yr - i_y,
        {
            let mut i_x: usize = 0;
            while i_x < xr
                invariant
                    self.wf(),
                    forall|v: T| level.requires((v,)),
                    yr == self.rows(),
                    xr == self.cols(),
                    i_y < yr,
                    i_x <= xr,
                    image_vec@.len() == 3 * (i_y * xr + i_x),
                    forall|r: int, c: int|
                        (0 <= r < i_y && 0 <= c < xr) || (r == i_y && 0 <= c < i_x) ==> painted(
                            level,
                            self.cmap,
                            self.hex_grid@[r]@[c],
                            self.hex_tn@[r]@[c],
                            #[trigger] pixel(image_vec@, xr as int, r, c),
                        ),
                decreases xr - i_x,
            {
                let ghost before = image_vec@;
                let cols = if self.hex_grid[i_y][i_x] != Tag::Outside {
                    determine_color(level(self.hex_tn[i_y][i_x]), &self.cmap)
                } else {
                    [0, 0, 0]
                };
                image_vec.push(cols[0]);
                image_vec.push(cols[1]);
                image_vec.push(cols[2]);
                proof {
                    assert(image_vec@ =~= before + cols@);
                    assert(pixel(image_vec@, xr as int, i_y as int, i_x as int) =~= cols@);
                    assert forall|r: int, c: int|
                        (0 <= r < i_y && 0 <= c < xr) || (r == i_y && 0 <= c < i_x) implies #[trigger] pixel(
                        image_vec@,
                        xr as int,
                        r,
                        c,
                    ) == pixel(before, xr as int, r, c) by {
                        lemma_cell_order(r, c, i_y as int, i_x as int, xr as int);
                        assert(pixel(image_vec@, xr as int, r, c) =~= pixel(before, xr as int, r, c));
                    }
                }
                i_x = i_x + 1;
            }
            proof {
                assert(i_y * xr + xr == (i_y + 1) * xr) by (nonlinear_arith);
            }
            i_y = i_y + 1;
        }
        image_vec
    }
}

/// The three bytes of the cell `(r, c)` in an image of `cols` columns.
pub open spec fn pixel(image: Seq<u8>, cols: int, r: int, c: int) -> Seq<u8> {
    image.subrange(3 * (r * cols + c), 3 * (r * cols + c) + 3)
}

/// `px` is a rendering of a cell with tag `tag` and amplitude `v`: black for
/// an outside cell, and otherwise the entry of `cmap` at a level that `level`
/// may return for `v`, clamped to the table.
pub open spec fn painted<T, L: Fn(T) -> i64>(
    level: &L,
    cmap: [[u8; 3]; 256],
    tag: Tag,
    v: T,
    px: Seq<u8>,
) -> bool {
    if tag == Tag::Outside {
        px == seq![0u8, 0u8, 0u8]
    } else {
        exists|l: i64| #[trigger] level.ensures((v,), l) && px == cmap@[clamp_level(l as int)]@
    }
}

/// Cells are stored in reading order: a cell that comes before another one,
/// row by row, has the smaller index.
proof fn lemma_cell_order(r: int, c: int, r2: int, c2: int, cols: int)
    requires
        0 <= r,
        0 <= c < cols,
        0 <= c2,
        r < r2 || (r == r2 && c < c2),
    ensures
        0 <= r * cols + c < r2 * cols + c2,
{
    assert(0 <= r * cols) by (nonlinear_arith)
        requires
            0 <= r,
            0 <= cols,
    ;
    if r < r2 {
        assert((r + 1) * cols <= r2 * cols) by (nonlinear_arith)
            requires
                r + 1 <= r2,
                0 <= cols,
        ;
        assert((r + 1) * cols == r * cols + cols) by (nonlinear_arith);
    }
}

/// `update` has exactly one possible result for each input.
pub open spec fn single_valued<T, F: Fn(T, T, [T; 6]) -> T>(update: &F) -> bool {
    forall|p: T, c: T, nb: [T; 6], a: T, b: T|
        #[trigger] update.ensures((p, c, nb), a) && #[trigger] update.ensures((p, c, nb), b) ==> a == b
}

/// Two fields of the same shape with the same value in every cell have the
/// same cells.
proof fn lemma_cells_equal<T>(f: Seq<Vec<T>>, g: Seq<Vec<T>>, rows: int, cols: int)
    requires
        shaped(f, rows, cols),
        shaped(g, rows, cols),
        forall|r: int, c: int| 0 <= r < rows && 0 <= c < cols ==> f[r]@[c] == g[r]@[c],
    ensures
        cells(f) == cells(g),
{
    assert forall|r: int| 0 <= r < rows implies #[trigger] cells(f)[r] == cells(g)[r] by {
        assert(f[r]@.len() == cols && g[r]@.len() == cols);
        assert(f[r]@ =~= g[r]@);
    }
    assert(cells(f) =~= cells(g));
}

/// Equal cells mean equal values at every position.
proof fn lemma_cells_at<T>(f: Seq<Vec<T>>, g: Seq<Vec<T>>, r: int)
    requires
        cells(f) == cells(g),
        0 <= r < f.len(),
    ensures
        f.len() == g.len(),
        f[r]@ == g[r]@,
{
    assert(cells(f).len() == f.len());
    assert(cells(g).len() == g.len());
    assert(cells(f)[r] == f[r]@);
    assert(cells(g)[r] == g[r]@);
}

/// A reset leaves nothing of the run before it: two sessions at rest with the
/// same setup, one freshly made and one reset, are in the same state.
pub proof fn lemma_rest_is_one_state<T: Copy>(a: &SimulationData<T>, b: &SimulationData<T>, zero: T)
    requires
        a.at_rest(zero),
        b.at_rest(zero),
        a.same_setup(b),
    ensures
        a.same_state(b),
{
    lemma_cells_equal(a.hex_tnm1@, b.hex_tnm1@, a.rows(), a.cols());
    lemma_cells_equal(a.hex_tn@, b.hex_tn@, a.rows(), a.cols());
    lemma_cells_equal(a.hex_temp@, b.hex_temp@, a.rows(), a.cols());
}

/// The same impulse on two sessions in the same state leaves them in the same
/// state.
pub proof fn lemma_impulse_repeats<T: Copy>(
    a: &SimulationData<T>,
    b: &SimulationData<T>,
    x_pos: int,
    y_pos: int,
    unit: T,
    a2: &SimulationData<T>,
    b2: &SimulationData<T>,
)
    requires
        a.wf(),
        b.wf(),
        a.same_state(b),
        a.is_interior(x_pos, y_pos),
        a.impulse_to(x_pos, y_pos, unit, a2),
        b.impulse_to(x_pos, y_pos, unit, b2),
    ensures
        a2.same_state(b2),
{
    assert forall|r: int, c: int| 0 <= r < a.rows() && 0 <= c < a.cols() implies a2.hex_tn@[r]@[c]
        == b2.hex_tn@[r]@[c] by {
        lemma_cells_at(a.hex_tn@, b.hex_tn@, r);
    }
    lemma_cells_equal(a2.hex_tn@, b2.hex_tn@, a.rows(), a.cols());
}

/// A step with a single-valued `update` on two sessions in the same state
/// leaves them in the same state: a run that starts again from the same state
/// shows the same frames.
pub proof fn lemma_step_repeats<T: Copy, F: Fn(T, T, [T; 6]) -> T>(
    update: &F,
    a: &SimulationData<T>,
    b: &SimulationData<T>,
    a2: &SimulationData<T>,
    b2: &SimulationData<T>,
)
    requires
        single_valued(update),
        a.wf(),
        b.wf(),
        a.same_state(b),
        a.steps_to(update, a2),
        b.steps_to(update, b2),
        a2.n == b2.n,
    ensures
        a2.same_state(b2),
{
    let rows = a.rows();
    let cols = a.cols();
    assert forall|r: int, c: int| 0 <= r < rows && 0 <= c < cols implies a2.hex_tn@[r]@[c]
        == b2.hex_tn@[r]@[c] by {
        lemma_cells_at(a.hex_tn@, b.hex_tn@, r);
        lemma_cells_at(a.hex_tnm1@, b.hex_tnm1@, r);
        lemma_cells_at(a.hex_temp@, b.hex_temp@, r);
        if active(a.hex_grid@, r, c) {
            let va = a2.hex_tn@[r]@[c];
            let vb = b2.hex_tn@[r]@[c];
            assert(updated(update, a.hex_tnm1@, a.hex_tn@, r, c, va));
            assert(updated(update, b.hex_tnm1@, b.hex_tn@, r, c, vb));
            let na = choose|nb: [T; 6]|
                nb@ =~= around(a.hex_tn@, r, c) && #[trigger] update.ensures(
                    (a.hex_tnm1@[r]@[c], a.hex_tn@[r]@[c], nb),
                    va,
                );
            let nb = choose|nb: [T; 6]|
                nb@ =~= around(b.hex_tn@, r, c) && #[trigger] update.ensures(
                    (b.hex_tnm1@[r]@[c], b.hex_tn@[r]@[c], nb),
                    vb,
                );
            assert forall|k: int| 0 <= k < 6 implies around(a.hex_tn@, r, c)[k] == around(
                b.hex_tn@,
                r,
                c,
            )[k] by {
                lemma_cells_at(a.hex_tn@, b.hex_tn@, neighbours(r, c)[k].0);
            }
            assert(na@ =~= nb@);
            assert(na =~= nb);
        }
    }
    lemma_cells_equal(a2.hex_tn@, b2.hex_tn@, rows, cols);
    assert forall|r: int, c: int| 0 <= r < rows && 0 <= c < cols implies a2.hex_tnm1@[r]@[c]
        == b2.hex_tnm1@[r]@[c] by {
        lemma_cells_at(a.hex_tn@, b.hex_tn@, r);
    }
    lemma_cells_equal(a2.hex_tnm1@, b2.hex_tnm1@, rows, cols);
}

/// An impulse is seen once by each cell next to it. In a field that holds
/// `zero` everywhere but `unit` in the cell `(pr, pc)`, the six values around a
/// neighbour `(qr, qc)` of that cell are `unit` in exactly one place and `zero`
/// in the other five, and the six values around `(pr, pc)` itself are all
/// `zero`.
pub proof fn lemma_impulse_seen_once<T>(
    f: Seq<Vec<T>>,
    rows: int,
    cols: int,
    pr: int,
    pc: int,
    qr: int,
    qc: int,
    zero: T,
    unit: T,
)
    requires
        shaped(f, rows, cols),
        inner(rows, cols, pr, pc),
        inner(rows, cols, qr, qc),
        adjacent(pr, pc, qr, qc),
        f[pr]@[pc] == unit,
        forall|r: int, c: int|
            0 <= r < rows && 0 <= c < cols && !(r == pr && c == pc) ==> #[trigger] f[r]@[c] == zero,
    ensures
        exists|k: int|
            0 <= k < 6 && #[trigger] around(f, qr, qc)[k] == unit && forall|j: int|
                0 <= j < 6 && j != k ==> #[trigger] around(f, qr, qc)[j] == zero,
        forall|j: int| 0 <= j < 6 ==> #[trigger] around(f, pr, pc)[j] == zero,
{
    lemma_adjacent_symmetric(pr, pc, qr, qc);
    let k = choose|k: int| 0 <= k < 6 && #[trigger] neighbours(qr, qc)[k] == (pr, pc);
    let at = neighbours(qr, qc);
    assert(around(f, qr, qc)[k] == unit);
    assert forall|j: int| 0 <= j < 6 && j != k implies #[trigger] around(f, qr, qc)[j] == zero by {
        assert(at[j] != at[k]);
        assert(0 <= at[j].0 < rows && 0 <= at[j].1 < cols);
    }
    let own = neighbours(pr, pc);
    assert forall|j: int| 0 <= j < 6 implies #[trigger] around(f, pr, pc)[j] == zero by {
        assert(own[j] != (pr, pc));
        assert(0 <= own[j].0 < rows && 0 <= own[j].1 < cols);
    }
}

/// All six values are `v`.
pub open spec fn all_of<T>(nb: Seq<T>, v: T) -> bool {
    nb.len() == 6 && forall|j: int| 0 <= j < 6 ==> nb[j] == v
}

/// One of the six values is `unit` and the other five are `zero`.
pub open spec fn one_of<T>(nb: Seq<T>, unit: T, zero: T) -> bool {
    nb.len() == 6 && exists|k: int|
        0 <= k < 6 && #[trigger] nb[k] == unit && forall|j: int| 0 <= j < 6 && j != k ==> nb[j] == zero
}

/// The response to a single impulse. Let a session hold `zero` in every cell
/// of the previous and the current slice, but `unit` in the current cell
/// `(pr, pc)`, and let that cell and its neighbour `(qr, qc)` be active. After
/// one step the cell `(pr, pc)` holds what `update` returns for `zero`, `unit`
/// and six times `zero`, and the neighbour holds what `update` returns for
/// `zero`, `zero` and six values of which one is `unit` and five are `zero`.
pub proof fn lemma_impulse_response<T: Copy, F: Fn(T, T, [T; 6]) -> T>(
    update: &F,
    s: &SimulationData<T>,
    after: &SimulationData<T>,
    pr: int,
    pc: int,
    qr: int,
    qc: int,
    zero: T,
    unit: T,
)
    requires
        s.wf(),
        s.steps_to(update, after),
        uniform(s.hex_tnm1@, zero),
        s.hex_tn@[pr]@[pc] == unit,
        forall|r: int, c: int|
            0 <= r < s.rows() && 0 <= c < s.cols() && !(r == pr && c == pc) ==> #[trigger] s.hex_tn@[r]@[c]
                == zero,
        active(s.hex_grid@, pr, pc),
        active(s.hex_grid@, qr, qc),
        adjacent(pr, pc, qr, qc),
    ensures
        exists|nb: [T; 6]|
            all_of(nb@, zero) && #[trigger] update.ensures((zero, unit, nb), after.hex_tn@[pr]@[pc]),
        exists|nb: [T; 6]|
            one_of(nb@, unit, zero) && #[trigger] update.ensures(
                (zero, zero, nb),
                after.hex_tn@[qr]@[qc],
            ),
{
    let cur = s.hex_tn@;
    lemma_impulse_seen_once(cur, s.rows(), s.cols(), pr, pc, qr, qc, zero, unit);
    let vp = after.hex_tn@[pr]@[pc];
    let vq = after.hex_tn@[qr]@[qc];
    assert(updated(update, s.hex_tnm1@, cur, pr, pc, vp));
    assert(updated(update, s.hex_tnm1@, cur, qr, qc, vq));
    let np = choose|nb: [T; 6]|
        nb@ =~= around(cur, pr, pc) && #[trigger] update.ensures(
            (s.hex_tnm1@[pr]@[pc], cur[pr]@[pc], nb),
            vp,
        );
    let nq = choose|nb: [T; 6]|
        nb@ =~= around(cur, qr, qc) && #[trigger] update.ensures(
            (s.hex_tnm1@[qr]@[qc], cur[qr]@[qc], nb),
            vq,
        );
    let k = choose|k: int|
        0 <= k < 6 && #[trigger] around(cur, qr, qc)[k] == unit && forall|j: int|
            0 <= j < 6 && j != k ==> #[trigger] around(cur, qr, qc)[j] == zero;
    assert(!(qr == pr && qc == pc)) by {
        let m = choose|m: int| 0 <= m < 6 && #[trigger] neighbours(pr, pc)[m] == (qr, qc);
    }
    assert(cur[qr]@[qc] == zero);
    assert forall|j: int| 0 <= j < 6 implies np@[j] == zero by {
        assert(np@[j] == around(cur, pr, pc)[j]);
    }
    assert(nq@[k] == around(cur, qr, qc)[k]);
    assert forall|j: int| 0 <= j < 6 && j != k implies nq@[j] == zero by {
        assert(nq@[j] == around(cur, qr, qc)[j]);
    }
    assert(all_of(np@, zero));
    assert(one_of(nq@, unit, zero));
    assert(update.ensures((zero, unit, np), vp));
    assert(update.ensures((zero, zero, nq), vq));
}

} // verus!
