use hexwave::colour::get_cmap;
use hexwave::field::{copy_field, filled, has_shape};
use hexwave::lattice::neighbour_cells;
use hexwave::raster::Tag;
use hexwave::wave::{step, SimulationData};

const SPEED: f64 = 0.7;
const SPACING: f64 = 0.01;
const TIMESPACING: f64 = 0.01;

fn courant_squared() -> f64 {
    (SPEED * TIMESPACING / SPACING).powi(2)
}

fn update(prev: f64, cur: f64, nb: [f64; 6]) -> f64 {
    2.0 * cur - prev
        + courant_squared()
            * (2.0 / 3.0 * (nb[0] + nb[1] + nb[2] + nb[3] + nb[4] + nb[5]) - 4.0 * cur)
}

fn level(v: f64) -> i64 {
    (v * 100.0).round() as i64
}

fn ramp() -> [[u8; 3]; 256] {
    let mut levels: Vec<[i64; 3]> = Vec::new();
    for i in 0..256i64 {
        levels.push([i, 255 - i, 7]);
    }
    get_cmap(&levels)
}

fn ringed(n: usize) -> Vec<Vec<Tag>> {
    let mut grid = vec![vec![Tag::Interior; n]; n];
    for i in 0..n {
        grid[0][i] = Tag::Boundary;
        grid[n - 1][i] = Tag::Boundary;
        grid[i][0] = Tag::Boundary;
        grid[i][n - 1] = Tag::Boundary;
    }
    grid[0][0] = Tag::Outside;
    grid[0][n - 1] = Tag::Outside;
    grid[n - 1][0] = Tag::Outside;
    grid[n - 1][n - 1] = Tag::Outside;
    grid
}

fn close(a: f64, b: f64) -> bool {
    (a - b).abs() < 1.0e-12
}

#[test]
fn filled_field_has_shape_and_value() {
    let f = filled(3, 4, 2.5f64);
    assert_eq!(f, vec![vec![2.5; 4]; 3]);
    assert_eq!(filled(0, 4, 1u8), Vec::<Vec<u8>>::new());
    assert_eq!(filled(2, 0, 1u8), vec![Vec::<u8>::new(), Vec::new()]);
}

#[test]
fn copied_field_is_equal() {
    let f = vec![vec![1, 2, 3], vec![], vec![4]];
    assert_eq!(copy_field(&f), f);
}

#[test]
fn new_session_is_at_rest() {
    let s = SimulationData::new(ringed(7), ramp(), 3000, 0.0f64);
    assert_eq!(s.n, 0);
    assert_eq!(s.n_max, 3000);
    assert_eq!(s.hex_grid, ringed(7));
    assert_eq!(s.hex_tnm1, vec![vec![0.0; 7]; 7]);
    assert_eq!(s.hex_tn, vec![vec![0.0; 7]; 7]);
    assert_eq!(s.hex_temp, vec![vec![0.0; 7]; 7]);
    assert!(!s.is_done());
}

#[test]
fn impulse_at_the_centre_spreads_to_six_neighbours() {
    let mut s = SimulationData::new(ringed(7), ramp(), 10, 0.0f64);
    assert!(s.add_initial(3, 3, 1.0));
    assert_eq!(s.hex_tn[3][3], 1.0);
    s.advance(&update);
    let k2 = courant_squared();
    let around = neighbour_cells(3, 3);
    for r in 0..7 {
        for c in 0..7 {
            let got = s.hex_tn[r][c];
            if (r, c) == (3, 3) {
                assert!(close(got, 2.0 - 4.0 * k2));
            } else if around.contains(&(r, c)) {
                assert!(close(got, k2 * 2.0 / 3.0));
            } else {
                assert_eq!(got, 0.0);
            }
        }
    }
    assert_eq!(s.n, 1);
    assert_eq!(s.hex_tnm1[3][3], 1.0);
    assert_eq!(s.hex_temp, s.hex_tn);
}

#[test]
fn impulse_gives_equal_increments_to_the_neighbours() {
    for (r, c) in [(4usize, 4usize), (5, 4), (4, 5), (5, 5)] {
        let mut s = SimulationData::new(ringed(11), ramp(), 10, 0.0f64);
        assert!(s.add_initial(c, r, 1.0));
        s.advance(&update);
        let around = neighbour_cells(r, c);
        let first = s.hex_tn[around[0].0][around[0].1];
        assert!(first != 0.0);
        for (pr, pc) in around {
            assert_eq!(s.hex_tn[pr][pc], first);
        }
        assert_eq!(s.hex_tn[r][c], update(0.0, 1.0, [0.0; 6]));
    }
}

#[test]
fn second_step_uses_the_previous_slice() {
    let mut s = SimulationData::new(ringed(7), ramp(), 10, 0.0f64);
    s.add_initial(3, 3, 1.0);
    s.advance(&update);
    let first = s.hex_tn.clone();
    s.advance(&update);
    let k2 = courant_squared();
    let mut sum = 0.0;
    for (pr, pc) in neighbour_cells(3, 3) {
        sum += first[pr][pc];
    }
    let want = 2.0 * first[3][3] - 1.0 + k2 * (2.0 / 3.0 * sum - 4.0 * first[3][3]);
    assert!(close(s.hex_tn[3][3], want));
    assert_eq!(s.hex_tnm1, first);
    assert_eq!(s.n, 2);
}

#[test]
fn cells_that_are_not_interior_stay_frozen() {
    let mut s = SimulationData::new(ringed(7), ramp(), 50, 0.0f64);
    s.add_initial(3, 3, 1.0);
    for _ in 0..50 {
        s.advance(&update);
    }
    for i in 0..7 {
        assert_eq!(s.hex_tn[0][i], 0.0);
        assert_eq!(s.hex_tn[6][i], 0.0);
        assert_eq!(s.hex_tn[i][0], 0.0);
        assert_eq!(s.hex_tn[i][6], 0.0);
    }
    assert!(s.hex_tn[3][3] != 0.0);
}

#[test]
fn step_writes_active_cells_only() {
    let mut grid = vec![vec![Tag::Interior; 4]; 4];
    grid[1][2] = Tag::Boundary;
    grid[2][1] = Tag::Outside;
    let prev = vec![vec![1i64; 4]; 4];
    let cur = vec![
        vec![1i64, 2, 3, 4],
        vec![5, 6, 7, 8],
        vec![9, 10, 11, 12],
        vec![13, 14, 15, 16],
    ];
    let mut next = vec![vec![-1i64; 4]; 4];
    let sum = |p: i64, c: i64, nb: [i64; 6]| 1000 * p + 100 * c + nb.iter().sum::<i64>();
    step(&grid, &prev, &cur, &mut next, &sum);
    for r in 0..4 {
        for c in 0..4 {
            if (r, c) == (1, 1) {
                // Odd row: (1,0) (2,0) (0,1) (2,1) (1,2) (2,2).
                assert_eq!(next[r][c], 1000 + 600 + 5 + 9 + 2 + 10 + 7 + 11);
            } else if (r, c) == (2, 2) {
                // Even row: (1,1) (2,1) (1,2) (3,2) (1,3) (2,3).
                assert_eq!(next[r][c], 1000 + 1100 + 6 + 10 + 7 + 15 + 8 + 12);
            } else {
                assert_eq!(next[r][c], -1);
            }
        }
    }
}

#[test]
fn step_hands_the_neighbours_in_lattice_order() {
    let grid = vec![vec![Tag::Interior; 5]; 5];
    let prev = vec![vec![0usize; 5]; 5];
    let mut cur = vec![vec![0usize; 5]; 5];
    for r in 0..5 {
        for c in 0..5 {
            cur[r][c] = 10 * r + c;
        }
    }
    let mut next = vec![vec![0usize; 5]; 5];
    let pick = |_p: usize, _c: usize, nb: [usize; 6]| {
        nb[0] + 100 * nb[1] + 10_000 * nb[2] + 1_000_000 * nb[3] + 100_000_000 * nb[4]
            + 10_000_000_000 * nb[5]
    };
    step(&grid, &prev, &cur, &mut next, &pick);
    for (r, c) in [(2usize, 2usize), (3, 2), (1, 3)] {
        let at = neighbour_cells(r, c);
        let mut want = 0usize;
        let mut scale = 1usize;
        for (pr, pc) in at {
            want += scale * (10 * pr + pc);
            scale *= 100;
        }
        assert_eq!(next[r][c], want);
    }
}

#[test]
fn run_stops_at_the_step_limit() {
    let mut s = SimulationData::new(ringed(7), ramp(), 3, 0.0f64);
    s.add_initial(3, 3, 1.0);
    for k in 0..3 {
        assert!(!s.is_done());
        assert_eq!(s.n, k);
        s.advance(&update);
    }
    assert!(s.is_done());
    assert_eq!(s.n, 3);
    let (prev, cur, temp) = (s.hex_tnm1.clone(), s.hex_tn.clone(), s.hex_temp.clone());
    for _ in 0..5 {
        s.advance(&update);
        assert!(s.is_done());
        assert_eq!(s.n, 3);
        assert_eq!(s.hex_tnm1, prev);
        assert_eq!(s.hex_tn, cur);
        assert_eq!(s.hex_temp, temp);
    }
}

#[test]
fn run_with_limit_zero_is_done_at_once() {
    let mut s = SimulationData::new(ringed(7), ramp(), 0, 0.0f64);
    assert!(s.is_done());
    s.add_initial(3, 3, 1.0);
    let cur = s.hex_tn.clone();
    s.advance(&update);
    assert_eq!(s.hex_tn, cur);
    assert_eq!(s.n, 0);
}

#[test]
fn calc_next_frame_leaves_the_counter() {
    let mut s = SimulationData::new(ringed(7), ramp(), 0, 0.0f64);
    s.add_initial(3, 3, 1.0);
    s.calc_next_frame(&update);
    assert_eq!(s.n, 0);
    assert!(close(s.hex_tn[3][3], 2.0 - 4.0 * courant_squared()));
}

#[test]
fn reset_run_shows_the_same_frames() {
    let mut s = SimulationData::new(ringed(9), ramp(), 20, 0.0f64);
    s.add_initial(4, 3, 1.0);
    let mut first: Vec<Vec<Vec<f64>>> = Vec::new();
    for _ in 0..20 {
        s.advance(&update);
        first.push(s.hex_tn.clone());
    }
    assert!(s.is_done());
    s.reset(0.0);
    assert_eq!(s.n, 0);
    assert_eq!(s.hex_tn, vec![vec![0.0; 9]; 9]);
    assert_eq!(s.hex_tnm1, vec![vec![0.0; 9]; 9]);
    assert_eq!(s.hex_temp, vec![vec![0.0; 9]; 9]);
    assert_eq!(s.hex_grid, ringed(9));
    assert_eq!(s.n_max, 20);
    s.add_initial(4, 3, 1.0);
    for k in 0..20 {
        s.advance(&update);
        assert_eq!(s.hex_tn, first[k]);
    }
}

#[test]
fn impulse_outside_the_interior_changes_nothing() {
    let mut s = SimulationData::new(ringed(7), ramp(), 10, 0.0f64);
    assert!(!s.add_initial(0, 0, 1.0));
    assert!(!s.add_initial(3, 0, 1.0));
    assert!(!s.add_initial(6, 3, 1.0));
    assert_eq!(s.hex_tn, vec![vec![0.0; 7]; 7]);
}

#[test]
fn impulse_off_the_lattice_changes_nothing() {
    let mut s = SimulationData::new(ringed(7), ramp(), 10, 0.0f64);
    assert!(!s.add_initial(7, 3, 1.0));
    assert!(!s.add_initial(3, 7, 1.0));
    assert!(!s.add_initial(usize::MAX, usize::MAX, 1.0));
    assert_eq!(s.hex_tn, vec![vec![0.0; 7]; 7]);
    let mut empty = SimulationData::new(Vec::new(), ramp(), 10, 0.0f64);
    assert!(!empty.add_initial(0, 0, 1.0));
}

#[test]
fn impulse_takes_column_then_row() {
    let mut grid = vec![vec![Tag::Outside; 5]; 4];
    grid[1][3] = Tag::Interior;
    let mut s = SimulationData::new(grid, ramp(), 10, 0.0f64);
    assert!(!s.add_initial(1, 3, 1.0));
    assert!(s.add_initial(3, 1, 1.0));
    assert_eq!(s.hex_tn[1][3], 1.0);
}

#[test]
fn frame_has_three_bytes_per_cell_in_row_order() {
    let grid = vec![
        vec![Tag::Outside, Tag::Interior, Tag::Boundary],
        vec![Tag::Interior, Tag::Outside, Tag::Interior],
    ];
    let cmap = ramp();
    let mut s = SimulationData::new(grid, cmap, 10, 0.0f64);
    s.hex_tn = vec![vec![0.5, 0.25, 9.0], vec![-1.0, 0.1, 1.0]];
    let image = s.render_frame(&level);
    let mut want: Vec<u8> = Vec::new();
    want.extend_from_slice(&[0, 0, 0]);
    want.extend_from_slice(&cmap[25]);
    want.extend_from_slice(&cmap[255]);
    want.extend_from_slice(&cmap[0]);
    want.extend_from_slice(&[0, 0, 0]);
    want.extend_from_slice(&cmap[100]);
    assert_eq!(image, want);
}

#[test]
fn frame_of_an_empty_lattice_is_empty() {
    let s = SimulationData::new(Vec::new(), ramp(), 10, 0.0f64);
    assert_eq!(s.render_frame(&level), Vec::<u8>::new());
}

#[test]
fn shape_is_rows_of_equal_length() {
    let f = vec![vec![1, 2, 3], vec![4, 5, 6]];
    assert!(has_shape(&f, 2, 3));
    assert!(!has_shape(&f, 3, 3));
    assert!(!has_shape(&f, 2, 2));
    assert!(!has_shape(&vec![vec![1, 2], vec![3]], 2, 2));
    assert!(has_shape(&Vec::<Vec<u8>>::new(), 0, 5));
}

#[test]
fn session_with_a_wrong_slice_is_not_well_formed() {
    let mut s = SimulationData::new(ringed(7), ramp(), 10, 0.0f64);
    assert!(s.well_formed());
    s.hex_tn[2].pop();
    assert!(!s.well_formed());
    let mut s = SimulationData::new(ringed(7), ramp(), 10, 0.0f64);
    s.n = 11;
    assert!(!s.well_formed());
    let mut s = SimulationData::new(ringed(7), ramp(), 10, 0.0f64);
    s.hex_grid[6].push(Tag::Outside);
    assert!(!s.well_formed());
}
