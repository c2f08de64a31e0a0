//! Classification of lattice cells against a closed outline.
//!
//! The outline is a set of straight segments. For every lattice row the caller
//! supplies where the line through each segment meets the row's scanline. A
//! cell is interior when an odd number of crossings lies strictly to its
//! right. Outside cells next to anything else are then marked as boundary.
//!
//! Horizontal positions are whole numbers of half cell spacings; a crossing
//! between two whole numbers is rounded up, which keeps every strict
//! comparison with a cell's position. Vertical positions are whole numbers in
//! any unit that keeps their order.
use vstd::prelude::*;
use crate::field::{cells, copy_field, rectangular, shaped, width};
use crate::lattice::{get_cord, half_steps, inner, neighbour_cells, neighbours, adjacent};

verus! {

/// Classification of one lattice cell.
#[derive(Clone, Copy, Debug, PartialEq, Eq, Structural)]
pub enum Tag {
    Outside,
    Interior,
    Boundary,
}

/// The number that stands for a tag: 0 outside, 1 interior, 2 boundary.
pub open spec fn tag_value(t: Tag) -> int {
    match t {
        Tag::Outside => 0,
        Tag::Interior => 1,
        Tag::Boundary => 2,
    }
}

/// How many entries of `s` are strictly greater than `value`.
pub open spec fn count_bigger(s: Seq<i128>, value: i128) -> nat
    decreases s.len(),
{
    if s.len() == 0 {
        0
    } else {
        count_bigger(s.drop_last(), value) + if value < s.last() {
            1nat
        } else {
            0nat
        }
    }
}

/// No entry of `s` is smaller than an entry before it.
pub open spec fn ascending(s: Seq<i128>) -> bool {
    forall|i: int, j: int| 0 <= i < j < s.len() ==> s[i] <= s[j]
}

/// The scanline at height `y` meets the segment between the heights `y1` and
/// `y2`: the segment is not horizontal and `y` lies between its ends, the ends
/// included.
pub open spec fn meets(y: i128, y1: i128, y2: i128) -> bool {
    y1 != y2 && ((y1 <= y && y <= y2) || (y2 <= y && y <= y1))
}

/// The crossings of a scanline with the first `n` segments, in the order of the
/// segments: `x[i]` for every segment `i` that the scanline meets.
pub open spec fn crossings(y: i128, x: Seq<i128>, y1: Seq<i128>, y2: Seq<i128>, n: nat) -> Seq<i128>
    decreases n,
{
    if n == 0 {
        Seq::empty()
    } else {
        let before = crossings(y, x, y1, y2, (n - 1) as nat);
        if meets(y, y1[n - 1], y2[n - 1]) {
            before.push(x[n - 1])
        } else {
            before
        }
    }
}

/// The tag of a cell at position `x` after the parity pass: interior when an
/// odd number of crossings lies strictly to its right.
pub open spec fn parity_tag(crossing: Seq<i128>, x: i128) -> Tag {
    if count_bigger(crossing, x) % 2 == 1 {
        Tag::Interior
    } else {
        Tag::Outside
    }
}

/// The sum of the tag values of the six neighbours of `(r, c)`.
pub open spec fn tag_sum(g: Seq<Seq<Tag>>, r: int, c: int) -> int {
    let at = neighbours(r, c);
    tag_value(g[at[0].0][at[0].1]) + tag_value(g[at[1].0][at[1].1]) + tag_value(
        g[at[2].0][at[2].1],
    ) + tag_value(g[at[3].0][at[3].1]) + tag_value(g[at[4].0][at[4].1]) + tag_value(
        g[at[5].0][at[5].1],
    )
}

/// The number of columns of a grid of tags: the length of its first row.
pub open spec fn columns(g: Seq<Seq<Tag>>) -> int {
    if g.len() == 0 {
        0
    } else {
        g[0].len() as int
    }
}

/// A cell that is at least `margin` cells away from every edge of a `rows` by
/// `cols` lattice.
pub open spec fn off_edge(rows: int, cols: int, margin: int, r: int, c: int) -> bool {
    margin <= r < rows - margin && margin <= c < cols - margin
}

/// The tag of `(r, c)` after boundary marking with the given margin: an
/// outside cell at least `margin` cells away from every edge becomes boundary
/// when one of its neighbours in `g` is not outside. Every other cell keeps
/// its tag.
pub open spec fn marked(g: Seq<Seq<Tag>>, margin: int, r: int, c: int) -> Tag {
    if off_edge(g.len() as int, columns(g), margin, r, c) && g[r][c] == Tag::Outside && tag_sum(g, r, c)
        != 0 {
        Tag::Boundary
    } else {
        g[r][c]
    }
}

/// The whole grid after boundary marking with the given margin.
pub open spec fn marked_grid(g: Seq<Seq<Tag>>, margin: int) -> Seq<Seq<Tag>> {
    Seq::new(g.len(), |r: int| Seq::new(g[r].len(), |c: int| marked(g, margin, r, c)))
}

/// The predicate "greater than `value`".
spec fn bigger_than(value: i128) -> spec_fn(i128) -> bool {
    |e: i128| value < e
}

proof fn lemma_count_by_multiset(s: Seq<i128>, value: i128)
    ensures
        count_bigger(s, value) == s.to_multiset().filter(bigger_than(value)).len(),
    decreases s.len(),
{
    broadcast use vstd::multiset::group_multiset_axioms;

    let p = bigger_than(value);
    if s.len() == 0 {
        s.to_multiset_ensures();
        assert(s.to_multiset().len() == 0);
        assert(s.to_multiset() =~= vstd::multiset::Multiset::<i128>::empty());
        assert(s.to_multiset().filter(p) =~= vstd::multiset::Multiset::<i128>::empty());
    } else {
        let t = s.drop_last();
        let a = s.last();
        lemma_count_by_multiset(t, value);
        assert(s =~= t.push(a));
        vstd::seq_lib::to_multiset_build(t, a);
        let m = t.to_multiset();
        assert(s.to_multiset() =~= m.insert(a));
        if p(a) {
            assert(m.insert(a).filter(p) =~= m.filter(p).insert(a));
            vstd::multiset::lemma_insert_len(m.filter(p), a);
        } else {
            assert(m.insert(a).filter(p) =~= m.filter(p));
        }
    }
}

/// The parity rule on a row that the outline crosses twice, at `a` and at `b`:
/// a cell is interior exactly when it lies at `a` or to the right of it and to
/// the left of `b`.
pub proof fn lemma_parity_between(a: i128, b: i128, x: i128)
    requires
        a <= b,
    ensures
        parity_tag(seq![a, b], x) == if a <= x < b {
            Tag::Interior
        } else {
            Tag::Outside
        },
        parity_tag(Seq::empty(), x) == Tag::Outside,
{
    let s = seq![a, b];
    assert(s.drop_last() =~= seq![a]);
    assert(s.drop_last().drop_last() =~= Seq::<i128>::empty());
    reveal_with_fuel(count_bigger, 3);
}

/// The number of entries greater than a value depends on the entries alone,
/// not on their order.
pub proof fn lemma_count_any_order(a: Seq<i128>, b: Seq<i128>, value: i128)
    requires
        a.to_multiset() == b.to_multiset(),
    ensures
        count_bigger(a, value) == count_bigger(b, value),
{
    lemma_count_by_multiset(a, value);
    lemma_count_by_multiset(b, value);
}

/// Counts the entries of `vector` that are strictly greater than `value`.
pub fn amount_bigger(value: i128, vector: &Vec<i128>) -> (count: usize)
    ensures
        count == count_bigger(vector@, value),
{
    let mut count: usize = 0;
    let mut i: usize = 0;
    while i < vector.len()
        invariant
            i <= vector@.len(),
            count <= i,
            count == count_bigger(vector@.take(i as int), value),
        decreases vector@.len() - i,
    {
        assert(vector@.take(i + 1).drop_last() =~= vector@.take(i as int));
        if value < vector[i] {
            count = count + 1;
        }
        i = i + 1;
    }
    assert(vector@.take(i as int) =~= vector@);
    count
}

/// `sort` of the standard library's slices on a vector of integers: afterwards
/// the vector holds the entries it held before, each as often as before, in
/// ascending order.
#[verifier::external_body]
fn sort_ascending(v: &mut Vec<i128>)
    ensures
        final(v)@.to_multiset() == old(v)@.to_multiset(),
        ascending(final(v)@),
{
    v.sort()
}

/// The crossings of the scanline at height `y_offset` with the outline, in
/// ascending order.
///
/// Segment `i` runs between the heights `y1[i]` and `y2[i]`, and `x[i]` is
/// where the line through it meets the scanline. Only segments that the
/// scanline meets contribute; a horizontal segment contributes nothing, so its
/// `x[i]` is never read.
pub fn get_vec_intersect(y_offset: i128, x: &Vec<i128>, y1: &Vec<i128>, y2: &Vec<i128>) -> (res: Vec<
    i128,
>)
    requires
        x@.len() == y1@.len(),
        x@.len() == y2@.len(),
    ensures
        ascending(res@),
        res@.to_multiset() == crossings(y_offset, x@, y1@, y2@, x@.len()).to_multiset(),
{
    let mut res: Vec<i128> = Vec::new();
    let mut i: usize = 0;
    while i < x.len()
        invariant
            i <= x@.len(),
            x@.len() == y1@.len(),
            x@.len() == y2@.len(),
            res@ == crossings(y_offset, x@, y1@, y2@, i as nat),
        decreases x@.len() - i,
    {
        let lo = y1[i];
        let hi = y2[i];
        if lo != hi && ((lo <= y_offset && y_offset <= hi) || (hi <= y_offset && y_offset <= lo)) {
            res.push(x[i]);
        }
        i = i + 1;
    }
    sort_ascending(&mut res);
    res
}

/// The parity pass over one lattice row: the tag of every column of row `i_y`,
/// given the crossings of the row's scanline.
pub fn classify_row(crossing: &Vec<i128>, i_y: usize, cols: usize, x_off: usize) -> (row: Vec<Tag>)
    ensures
        row@.len() == cols,
        forall|c: int|
            0 <= c < cols ==> #[trigger] row@[c] == parity_tag(
                crossing@,
                half_steps(c, i_y as int, x_off as int) as i128,
            ),
{
    let mut row: Vec<Tag> = Vec::new();
    let mut i_x: usize = 0;
    while i_x < cols
        invariant
            i_x <= cols,
            row@.len() == i_x,
            forall|c: int|
                0 <= c < i_x ==> #[trigger] row@[c] == parity_tag(
                    crossing@,
                    half_steps(c, i_y as int, x_off as int) as i128,
                ),
        decreases cols - i_x,
    {
        let (x, _y) = get_cord(i_x, i_y, x_off, 0);
        let bigger = amount_bigger(x, crossing);
        if bigger % 2 == 0 {
            row.push(Tag::Outside);
        } else {
            row.push(Tag::Interior);
        }
        i_x = i_x + 1;
    }
    row
}

/// Returns the sum of the tag values of the six neighbours of the cell in row
/// `i` and column `j`.
pub fn neighbour_sum(hex_grid: &Vec<Vec<Tag>>, i: usize, j: usize) -> (sum: u8)
    requires
        rectangular(hex_grid@),
        inner(hex_grid@.len() as int, width(hex_grid@), i as int, j as int),
    ensures
        sum == tag_sum(cells(hex_grid@), i as int, j as int),
{
    let rows = hex_grid.len();
    let cols = hex_grid[0].len();
    assert(i < rows - 1 && j < cols - 1);
    let at = neighbour_cells(i, j);
    let mut sum: u8 = 0;
    let mut k: usize = 0;
    let ghost g = hex_grid@;
    let ghost nb = neighbours(i as int, j as int);
    let ghost vals = Seq::new(6, |k: int| tag_value(g[nb[k].0]@[nb[k].1]));
    while k < 6
        invariant
            k <= 6,
            rectangular(hex_grid@),
            inner(hex_grid@.len() as int, width(hex_grid@), i as int, j as int),
            g == hex_grid@,
            nb == neighbours(i as int, j as int),
            vals == Seq::new(6, |k: int| tag_value(g[nb[k].0]@[nb[k].1])),
            forall|m: int| 0 <= m < 6 ==> (#[trigger] at@[m]).0 == nb[m].0 && at@[m].1 == nb[m].1,
            sum <= 2 * k,
            sum == partial_sum(vals, k as int),
        decreases 6 - k,
    {
        let (r, c) = at[k];
        assert(r == nb[k as int].0 && c == nb[k as int].1);
        let v: u8 = match hex_grid[r][c] {
            Tag::Outside => 0,
            Tag::Interior => 1,
            Tag::Boundary => 2,
        };
        assert(v == vals[k as int]);
        sum = sum + v;
        k = k + 1;
    }
    assert(partial_sum(vals, 6) == vals[0] + vals[1] + vals[2] + vals[3] + vals[4] + vals[5]) by {
        reveal_with_fuel(partial_sum, 7);
    }
    sum
}

/// The sum of the first `n` entries of `s`.
spec fn partial_sum(s: Seq<int>, n: int) -> int
    decreases n,
{
    if n <= 0 {
        0
    } else {
        partial_sum(s, n - 1) + s[n - 1]
    }
}

/// Marks the boundary, leaving out a margin: a copy of `grid` in which every
/// outside cell at least `margin` cells away from the edges that has a
/// neighbour other than outside is tagged as boundary. Neighbours are read
/// from `grid` itself, never from the copy.
pub fn mark_boundary_with_margin(grid: &Vec<Vec<Tag>>, margin: usize) -> (out: Vec<Vec<Tag>>)
    requires
        rectangular(grid@),
        margin >= 1,
    ensures
        cells(out@) == marked_grid(cells(grid@), margin as int),
{
    let mut out = copy_field(grid);
    let ghost g = cells(grid@);
    proof {
        assert(cells(out@).len() == out@.len());
        assert(g.len() == grid@.len());
        assert forall|r: int| 0 <= r < grid@.len() implies (#[trigger] out@[r])@ == grid@[r]@ by {
            assert(cells(out@)[r] == out@[r]@);
            assert(g[r] == grid@[r]@);
        }
    }
    let rows = grid.len();
    let cols = if rows == 0 {
        0
    } else {
        grid[0].len()
    };
    if rows <= margin || cols <= margin || rows - margin <= margin || cols - margin <= margin {
        proof {
            if rows > 0 {
                assert(g[0] == grid@[0]@);
            }
            assert forall|r: int| 0 <= r < rows implies #[trigger] cells(out@)[r] =~= marked_grid(
                g,
                margin as int,
            )[r] by {
                assert(g[r] == grid@[r]@);
            }
            assert(cells(out@) =~= marked_grid(g, margin as int));
        }
        return out;
    }
    assert(g[0] == grid@[0]@);
    let mut i: usize = margin;
    while i < rows - margin
        invariant
            rows == grid@.len(),
            cols == width(grid@),
            cols == columns(g),
            1 <= margin,
            margin < rows - margin,
            margin < cols - margin,
            margin <= i <= rows - margin,
            rectangular(grid@),
            g == cells(grid@),
            shaped(out@, rows as int, cols as int),
            forall|r: int, c: int|
                0 <= r < rows && 0 <= c < cols ==> #[trigger] out@[r]@[c] == if r < i {
                    marked(g, margin as int, r, c)
                } else {
                    g[r][c]
                },
        decreases rows - i,
    {
        let mut j: usize = margin;
        while j < cols - margin
            invariant
                rows == grid@.len(),
                cols == width(grid@),
                cols == columns(g),
                1 <= margin,
                margin < rows - margin,
                margin < cols - margin,
                margin <= i < rows - margin,
                margin <= j <= cols - margin,
                rectangular(grid@),
                g == cells(grid@),
                shaped(out@, rows as int, cols as int),
                forall|r: int, c: int|
                    0 <= r < rows && 0 <= c < cols ==> #[trigger] out@[r]@[c] == if r < i || (r == i && c
                        < j) {
                        marked(g, margin as int, r, c)
                    } else {
                        g[r][c]
                    },
            decreases cols - j,
        {
            assert(g[i as int][j as int] == grid@[i as int]@[j as int]);
            if grid[i][j] == Tag::Outside {
                if neighbour_sum(grid, i, j) != 0 {
                    out[i][j] = Tag::Boundary;
                }
            }
            j = j + 1;
        }
        i = i + 1;
    }
    proof {
        assert forall|r: int| 0 <= r < rows implies #[trigger] cells(out@)[r] == marked_grid(
            g,
            margin as int,
        )[r] by {
            assert(g[r] == grid@[r]@);
            assert(cells(out@)[r] =~= marked_grid(g, margin as int)[r]);
        }
        assert(cells(out@) =~= marked_grid(g, margin as int));
    }
    out
}

/// Marks the boundary everywhere but on the outermost ring of the lattice.
pub fn mark_boundary(grid: &Vec<Vec<Tag>>) -> (out: Vec<Vec<Tag>>)
    requires
        rectangular(grid@),
    ensures
        cells(out@) == marked_grid(cells(grid@), 1),
{
    mark_boundary_with_margin(grid, 1)
}

/// The grid after the parity pass over `cols` columns: row `r` holds the
/// parity tags for the crossings of the scanline at height `scan[r]`, where
/// `cross[r][i]` is the position at which the line through segment `i` meets
/// that scanline.
pub open spec fn parity_grid(
    scan: Seq<i128>,
    cross: Seq<Vec<i128>>,
    y1: Seq<i128>,
    y2: Seq<i128>,
    cols: int,
    x_off: int,
) -> Seq<Seq<Tag>> {
    Seq::new(
        scan.len(),
        |r: int|
            Seq::new(
                cols as nat,
                |c: int|
                    parity_tag(
                        crossings(scan[r], cross[r]@, y1, y2, y1.len()),
                        half_steps(c, r, x_off) as i128,
                    ),
            ),
    )
}

/// Classifies every cell of a lattice of `scan.len()` rows and `cols` columns
/// against an outline.
///
/// Row `r` has its scanline at height `scan[r]`; segment `i` of the outline
/// runs between the heights `y1[i]` and `y2[i]`, and the line through it meets
/// the scanline of row `r` at `cross[r][i]`. Column `x_off` of an even row lies
/// at position 0. First every cell is tagged by parity, then the boundary is
/// marked on that grid.
pub fn classify(
    scan: &Vec<i128>,
    cross: &Vec<Vec<i128>>,
    y1: &Vec<i128>,
    y2: &Vec<i128>,
    cols: usize,
    x_off: usize,
) -> (grid: Vec<Vec<Tag>>)
    requires
        y1@.len() == y2@.len(),
        shaped(cross@, scan@.len() as int, y1@.len() as int),
    ensures
        cells(grid@) == marked_grid(parity_grid(scan@, cross@, y1@, y2@, cols as int, x_off as int), 1),
{
    let ghost want = parity_grid(scan@, cross@, y1@, y2@, cols as int, x_off as int);
    let mut hex_grid: Vec<Vec<Tag>> = Vec::new();
    let mut i_y: usize = 0;
    while i_y < scan.len()
        invariant
            i_y <= scan@.len(),
            y1@.len() == y2@.len(),
            shaped(cross@, scan@.len() as int, y1@.len() as int),
            want == parity_grid(scan@, cross@, y1@, y2@, cols as int, x_off as int),
            hex_grid@.len() == i_y,
            forall|r: int| 0 <= r < i_y ==> (#[trigger] hex_grid@[r])@ == want[r],
        decreases scan@.len() - i_y,
    {
        let inter = get_vec_intersect(scan[i_y], &cross[i_y], y1, y2);
        let grid_entry = classify_row(&inter, i_y, cols, x_off);
        proof {
            let kept = crossings(scan@[i_y as int], cross@[i_y as int]@, y1@, y2@, y1@.len());
            assert forall|c: int| 0 <= c < cols implies #[trigger] grid_entry@[c] == want[i_y as int][c] by {
                lemma_count_any_order(inter@, kept, half_steps(c, i_y as int, x_off as int) as i128);
            }
            assert(grid_entry@ =~= want[i_y as int]);
        }
        hex_grid.push(grid_entry);
        i_y = i_y + 1;
    }
    proof {
        assert(cells(hex_grid@) =~= want);
        assert forall|r: int| 0 <= r < hex_grid@.len() implies (#[trigger] hex_grid@[r])@.len() == width(
            hex_grid@,
        ) by {
            assert(want[r].len() == cols);
            assert(want[0].len() == cols);
        }
    }
    mark_boundary(&hex_grid)
}

/// After boundary marking no cell at least `margin` cells away from every
/// edge is outside and adjacent to an interior cell: where it was outside, it
/// has become boundary.
pub proof fn lemma_no_outside_beside_interior(
    g: Seq<Seq<Tag>>,
    margin: int,
    r: int,
    c: int,
    pr: int,
    pc: int,
)
    requires
        margin >= 1,
        forall|i: int| 0 <= i < g.len() ==> (#[trigger] g[i]).len() == columns(g),
        off_edge(g.len() as int, columns(g), margin, r, c),
        adjacent(r, c, pr, pc),
        marked_grid(g, margin)[pr][pc] == Tag::Interior,
    ensures
        marked_grid(g, margin)[r][c] != Tag::Outside,
        g[r][c] == Tag::Outside ==> marked_grid(g, margin)[r][c] == Tag::Boundary,
{
    let k = choose|k: int| 0 <= k < 6 && #[trigger] neighbours(r, c)[k] == (pr, pc);
    assert(0 <= pr < g.len() && 0 <= pc < g[pr].len());
    assert(marked_grid(g, margin)[pr][pc] == marked(g, margin, pr, pc));
    assert(marked_grid(g, margin)[r][c] == marked(g, margin, r, c));
    assert(g[pr][pc] == Tag::Interior);
    assert(tag_value(g[pr][pc]) == 1);
    assert(tag_sum(g, r, c) >= 1);
}

} // verus!
