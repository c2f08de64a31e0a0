//! Geometry of the offset hexagonal lattice.
//!
//! Cells are addressed by `(row, column)`. Odd rows are shifted to the right by
//! half a cell spacing, so horizontal positions are counted in half spacings.
use vstd::prelude::*;

verus! {

/// The six cells adjacent to `(r, c)`, as `(row, column)` pairs. Which storage
/// offsets are adjacent depends on the phase of the row.
pub open spec fn neighbours(r: int, c: int) -> Seq<(int, int)> {
    if r % 2 == 0 {
        seq![(r - 1, c - 1), (r, c - 1), (r - 1, c), (r + 1, c), (r - 1, c + 1), (r, c + 1)]
    } else {
        seq![(r, c - 1), (r + 1, c - 1), (r - 1, c), (r + 1, c), (r, c + 1), (r + 1, c + 1)]
    }
}

/// `(pr, pc)` is one of the six cells adjacent to `(r, c)`.
pub open spec fn adjacent(r: int, c: int, pr: int, pc: int) -> bool {
    exists|k: int| 0 <= k < 6 && #[trigger] neighbours(r, c)[k] == (pr, pc)
}

/// A cell that has all six neighbours inside a `rows` by `cols` lattice and
/// does not lie on its outermost ring.
pub open spec fn inner(rows: int, cols: int, r: int, c: int) -> bool {
    1 <= r < rows - 1 && 1 <= c < cols - 1
}

/// Horizontal position of column `col` in row `row`, in half spacings from the
/// column `col_off` of an even row.
pub open spec fn half_steps(col: int, row: int, col_off: int) -> int {
    2 * (col - col_off) + row % 2
}

/// The storage indices of the six neighbours of `(r, c)`.
pub fn neighbour_cells(r: usize, c: usize) -> (cells: [(usize, usize); 6])
    requires
        1 <= r < usize::MAX,
        1 <= c < usize::MAX,
    ensures
        forall|k: int|
            0 <= k < 6 ==> (#[trigger] cells@[k]).0 == neighbours(r as int, c as int)[k].0
                && cells@[k].1 == neighbours(r as int, c as int)[k].1,
{
    if r % 2 == 0 {
        [(r - 1, c - 1), (r, c - 1), (r - 1, c), (r + 1, c), (r - 1, c + 1), (r, c + 1)]
    } else {
        [(r, c - 1), (r + 1, c - 1), (r - 1, c), (r + 1, c), (r, c + 1), (r + 1, c + 1)]
    }
}

/// Position of the cell `(i_y, i_x)` relative to the cell `(y_off, x_off)`:
/// first the horizontal position in half spacings, then the number of rows.
///
/// A caller scales the first by half the cell spacing and the second by the
/// row height to obtain continuous coordinates.
pub fn get_cord(i_x: usize, i_y: usize, x_off: usize, y_off: usize) -> (pos: (i128, i128))
    ensures
        pos.0 == half_steps(i_x as int, i_y as int, x_off as int),
        pos.1 == i_y - y_off,
{
    let dx: i128 = i_x as i128 - x_off as i128;
    let dy: i128 = i_y as i128 - y_off as i128;
    if i_y % 2 == 0 {
        (2 * dx, dy)
    } else {
        (2 * dx + 1, dy)
    }
}

/// The cells that are kept free between an outline and the edge of its
/// lattice, on every side.
pub const MARGIN: usize = 3;

/// The extent of a lattice along one axis, for an outline that reaches `low`
/// cells below the origin and `high` cells above it: the index of the origin
/// and the number of cells. Each side gets `MARGIN` cells more than the
/// outline needs. `None` when the number of cells does not fit.
pub fn span(low: usize, high: usize) -> (res: Option<(usize, usize)>)
    ensures
        res is Some <==> low + high + 2 * MARGIN + 1 <= usize::MAX,
        res matches Some((origin, count)) ==> origin == low + MARGIN && count == low + high + 2
            * MARGIN + 1,
{
    let origin = match low.checked_add(MARGIN) {
        Some(v) => v,
        None => {
            return None;
        },
    };
    let top = match high.checked_add(MARGIN) {
        Some(v) => v,
        None => {
            return None;
        },
    };
    let both = match origin.checked_add(top) {
        Some(v) => v,
        None => {
            return None;
        },
    };
    match both.checked_add(1) {
        Some(count) => Some((origin, count)),
        None => None,
    }
}

/// Within a row the position grows strictly with the column, by one whole
/// spacing from each column to the next.
pub proof fn lemma_cord_monotonic(col_a: int, col_b: int, row: int, col_off: int)
    requires
        col_a < col_b,
    ensures
        half_steps(col_a, row, col_off) < half_steps(col_b, row, col_off),
        half_steps(col_a + 1, row, col_off) - half_steps(col_a, row, col_off) == 2,
{
}

/// The same column in two adjacent rows differs by exactly half a spacing,
/// the odd row lying to the right.
pub proof fn lemma_adjacent_rows_half_step(col: int, row: int, col_off: int)
    requires
        0 <= row,
    ensures
        row % 2 == 0 ==> half_steps(col, row + 1, col_off) - half_steps(col, row, col_off) == 1,
        row % 2 == 1 ==> half_steps(col, row, col_off) - half_steps(col, row + 1, col_off) == 1,
{
}

/// Adjacency is symmetric: a cell is a neighbour of each of its neighbours.
pub proof fn lemma_adjacent_symmetric(r: int, c: int, pr: int, pc: int)
    requires
        0 <= r,
        0 <= pr,
        adjacent(r, c, pr, pc),
    ensures
        adjacent(pr, pc, r, c),
{
    let k = choose|k: int| 0 <= k < 6 && #[trigger] neighbours(r, c)[k] == (pr, pc);
    let back = neighbours(pr, pc);
    if r % 2 == 0 {
        if k == 0 {
            assert(back[5] == (r, c));
        } else if k == 1 {
            assert(back[5] == (r, c));
        } else if k == 2 {
            assert(back[3] == (r, c));
        } else if k == 3 {
            assert(back[2] == (r, c));
        } else if k == 4 {
            assert(back[1] == (r, c));
        } else {
            assert(back[1] == (r, c));
        }
    } else {
        if k == 0 {
            assert(back[4] == (r, c));
        } else if k == 1 {
            assert(back[4] == (r, c));
        } else if k == 2 {
            assert(back[3] == (r, c));
        } else if k == 3 {
            assert(back[2] == (r, c));
        } else if k == 4 {
            assert(back[0] == (r, c));
        } else {
            assert(back[0] == (r, c));
        }
    }
}

} // verus!
