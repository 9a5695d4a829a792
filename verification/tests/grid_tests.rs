use mobius::grid::build_grid;
use mobius::grid::cross_product;
use mobius::range::generate_range;

#[test]
fn grid_size_is_product_of_axis_lengths() {
    let u = vec![1, 2];
    let t = vec![10, 20, 30];
    let cells = cross_product(&u, &t);
    assert_eq!(cells.len(), u.len() * t.len());
}

#[test]
fn grid_is_row_major() {
    let u = vec![1, 2];
    let t = vec![10, 20, 30];
    let cells = cross_product(&u, &t);
    assert_eq!(
        cells,
        vec![(1, 10), (1, 20), (1, 30), (2, 10), (2, 20), (2, 30)]
    );
}

#[test]
fn grid_covers_every_pair_once() {
    let u = generate_range(-2, 2, 1);
    let t = generate_range(0, 6, 2);
    let cells = cross_product(&u, &t);
    for &ui in &u {
        for &ti in &t {
            assert_eq!(cells.iter().filter(|c| **c == (ui, ti)).count(), 1);
        }
    }
    assert_eq!(cells.len(), u.len() * t.len());
}

#[test]
fn grid_with_empty_axis_is_empty() {
    let u: Vec<i64> = vec![];
    let t = vec![1, 2, 3];
    assert_eq!(cross_product(&u, &t).len(), 0);
    assert_eq!(cross_product(&t, &u).len(), 0);
}

#[test]
fn grid_evaluation_is_deterministic() {
    // The same axis inputs give the same cells, call after call, however the
    // parallel workers were scheduled.
    let g1 = build_grid(-4, 4, 0, 25, 2);
    let g2 = build_grid(-4, 4, 0, 25, 2);
    assert_eq!(g1.u_axis, g2.u_axis);
    assert_eq!(g1.theta_axis, g2.theta_axis);
    assert_eq!(g1.cells, g2.cells);
}

#[test]
fn strip_sampling_counts() {
    // u in [-1, 1], theta in [0, 2*pi], both at spacing 0.5: 5 offsets,
    // 13 angles, 65 grid points. Carried exactly at scale 2^47.
    let scale = (1u64 << 47) as f64;
    let u_stop = 1i64 << 47;
    let t_stop = (2.0 * std::f64::consts::PI * scale) as i64;
    assert_eq!(t_stop as f64, 2.0 * std::f64::consts::PI * scale);
    let step = 1i64 << 46;
    let g = build_grid(-u_stop, u_stop, 0, t_stop, step);
    assert_eq!(g.u_axis.len(), 5);
    assert_eq!(g.theta_axis.len(), 13);
    assert_eq!(g.cells.len(), 65);
    assert_eq!(g.cells[0], (-u_stop, 0));
    assert_eq!(g.cells[64], (u_stop, 12 * step));
}

#[test]
fn row_pairs_one_value_with_whole_axis() {
    let t = vec![0, 5, 10, 15];
    let row = mobius::grid::row_cells(7, &t);
    assert_eq!(row, vec![(7, 0), (7, 5), (7, 10), (7, 15)]);
}
