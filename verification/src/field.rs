//! Rectangular fields of values, stored row by row.
use vstd::prelude::*;

verus! {

/// The number of columns of a field: the length of its first row.
pub open spec fn width<T>(g: Seq<Vec<T>>) -> int {
    if g.len() == 0 {
        0
    } else {
        g[0]@.len() as int
    }
}

/// All rows of the field have the same length.
pub open spec fn rectangular<T>(g: Seq<Vec<T>>) -> bool {
    forall|r: int| 0 <= r < g.len() ==> (#[trigger] g[r])@.len() == width(g)
}

/// The cells of a field as rows of values.
pub open spec fn cells<T>(f: Seq<Vec<T>>) -> Seq<Seq<T>> {
    Seq::new(f.len(), |r: int| f[r]@)
}

/// A field of `rows` rows that all hold `cols` values.
pub open spec fn shaped<T>(f: Seq<Vec<T>>, rows: int, cols: int) -> bool {
    f.len() == rows && forall|r: int| 0 <= r < rows ==> (#[trigger] f[r])@.len() == cols
}

/// Every cell of the field holds `v`.
pub open spec fn uniform<T>(f: Seq<Vec<T>>, v: T) -> bool {
    forall|r: int, c: int| 0 <= r < f.len() && 0 <= c < f[r]@.len() ==> #[trigger] f[r]@[c] == v
}

/// A field of the given shape with `v` in every cell.
pub fn filled<T: Copy>(rows: usize, cols: usize, v: T) -> (f: Vec<Vec<T>>)
    ensures
        shaped(f@, rows as int, cols as int),
        uniform(f@, v),
{
    let mut f: Vec<Vec<T>> = Vec::new();
    let mut r: usize = 0;
    while r < rows
        invariant
            r <= rows,
            shaped(f@, r as int, cols as int),
            uniform(f@, v),
        decreases rows - r,
    {
        let mut row: Vec<T> = Vec::new();
        let mut c: usize = 0;
        while c < cols
            invariant
                c <= cols,
                row@.len() == c,
                forall|k: int| 0 <= k < c ==> row@[k] == v,
            decreases cols - c,
        {
            row.push(v);
            c = c + 1;
        }
        f.push(row);
        r = r + 1;
    }
    f
}

/// A copy of a field, cell by cell.
pub fn copy_field<T: Copy>(src: &Vec<Vec<T>>) -> (f: Vec<Vec<T>>)
    ensures
        cells(f@) == cells(src@),
{
    let mut f: Vec<Vec<T>> = Vec::new();
    let mut r: usize = 0;
    while r < src.len()
        invariant
            r <= src@.len(),
            f@.len() == r,
            forall|i: int| 0 <= i < r ==> (#[trigger] f@[i])@ == src@[i]@,
        decreases src@.len() - r,
    {
        let mut row: Vec<T> = Vec::new();
        let mut c: usize = 0;
        while c < src[r].len()
            invariant
                r < src@.len(),
                c <= src@[r as int]@.len(),
                row@.len() == c,
                forall|k: int| 0 <= k < c ==> row@[k] == src@[r as int]@[k],
            decreases src@[r as int]@.len() - c,
        {
            row.push(src[r][c]);
            c = c + 1;
        }
        assert(row@ =~= src@[r as int]@);
        f.push(row);
        r = r + 1;
    }
    assert(cells(f@) =~= cells(src@));
    f
}

/// Whether a field has `rows` rows that all hold `cols` values.
pub fn has_shape<T>(f: &Vec<Vec<T>>, rows: usize, cols: usize) -> (ok: bool)
    ensures
        ok == shaped(f@, rows as int, cols as int),
{
    if f.len() != rows {
        return false;
    }
    let mut r: usize = 0;
    while r < rows
        invariant
            r <= rows,
            f@.len() == rows,
            forall|i: int| 0 <= i < r ==> (#[trigger] f@[i])@.len() == cols,
        decreases rows - r,
    {
        if f[r].len() != cols {
            return false;
        }
        r = r + 1;
    }
    true
}

} // verus!
