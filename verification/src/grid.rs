//! The sampling grid: the cross-product of the two parameter axes.
//!
//! A grid lays out every ordered pair of one `u`-axis value and one
//! `theta`-axis value in row-major order: all pairs for the first `u` value
//! first, each row enumerating the `theta` axis in index order. Every pair of
//! axis positions owns exactly one slot, so no cell is skipped or duplicated.

use crate::range::generate_range;
use crate::range::is_range;
use crate::range::range_len;
use rayon::iter::IntoParallelRefIterator;
use rayon::iter::ParallelIterator;
use vstd::arithmetic::div_mod::lemma_fundamental_div_mod_converse;
use vstd::arithmetic::mul::lemma_mul_basics_2;
use vstd::arithmetic::mul::lemma_mul_inequality;
use vstd::arithmetic::mul::lemma_mul_is_commutative;
use vstd::arithmetic::mul::lemma_mul_is_distributive_add_other_way;
use vstd::arithmetic::mul::lemma_mul_nonnegative;
use vstd::prelude::*;

verus! {

/// The sequence `cells` is the row-major cross-product of the axes `u` and
/// `t`: slot `k` holds the pair of `u` at the row index `k / t.len()` and
/// `t` at the column index `k % t.len()`.
pub open spec fn is_grid(cells: Seq<(i64, i64)>, u: Seq<i64>, t: Seq<i64>) -> bool {
    &&& cells.len() == u.len() * t.len()
    &&& forall|k: int|
        0 <= k < cells.len() ==> #[trigger] cells[k] == (
            u[k / t.len() as int],
            t[k % t.len() as int],
        )
}

/// Every pair of axis positions `(i, j)` owns the slot `i * t.len() + j` of
/// the grid, and that slot holds exactly its cell: no pair is skipped.
pub proof fn lemma_grid_cell(cells: Seq<(i64, i64)>, u: Seq<i64>, t: Seq<i64>, i: int, j: int)
    requires
        is_grid(cells, u, t),
        0 <= i < u.len(),
        0 <= j < t.len(),
    ensures
        0 <= i * t.len() + j < cells.len(),
        cells[i * t.len() + j] == (u[i], t[j]),
{
    let n = t.len() as int;
    lemma_mul_inequality(i + 1, u.len() as int, n);
    lemma_mul_is_distributive_add_other_way(n, i, 1);
    lemma_mul_nonnegative(i, n);
    lemma_fundamental_div_mod_converse(i * n + j, n, i, j);
}

/// No pair of axis positions owns two slots: distinct `(i, j)` pairs map to
/// distinct slots, so no cell is duplicated.
pub proof fn lemma_grid_slot_unique(n: int, i1: int, j1: int, i2: int, j2: int)
    requires
        0 <= i1,
        0 <= i2,
        0 <= j1 < n,
        0 <= j2 < n,
        i1 * n + j1 == i2 * n + j2,
    ensures
        i1 == i2,
        j1 == j2,
{
    let k = i1 * n + j1;
    lemma_mul_nonnegative(i1, n);
    lemma_mul_nonnegative(i2, n);
    lemma_fundamental_div_mod_converse(k, n, i1, j1);
    lemma_fundamental_div_mod_converse(k, n, i2, j2);
}

/// A grid is determined by its axes: any two sequences that are the
/// row-major cross-product of the same axes are equal, whatever produced
/// them or in whatever order their slots were filled.
pub proof fn lemma_grid_deterministic(
    c1: Seq<(i64, i64)>,
    c2: Seq<(i64, i64)>,
    u: Seq<i64>,
    t: Seq<i64>,
)
    requires
        is_grid(c1, u, t),
        is_grid(c2, u, t),
    ensures
        c1 == c2,
{
    assert forall|k: int| 0 <= k < c1.len() implies c1[k] == c2[k] by {
        if t.len() == 0 {
            lemma_mul_basics_2(u.len() as int);
        }
        assert(c1[k] == (u[k / t.len() as int], t[k % t.len() as int]));
        assert(c2[k] == (u[k / t.len() as int], t[k % t.len() as int]));
    }
    assert(c1 =~= c2);
}

/// One row of the grid: the value `ui` paired with every element of `t`, in
/// index order.
pub fn row_cells(ui: i64, t: &Vec<i64>) -> (row: Vec<(i64, i64)>)
    ensures
        row@.len() == t@.len(),
        forall|j: int| 0 <= j < t@.len() ==> #[trigger] row@[j] == (ui, t@[j]),
{
    let mut row: Vec<(i64, i64)> = Vec::new();
    let mut j: usize = 0;
    while j < t.len()
        invariant
            j <= t@.len(),
            row@.len() == j,
            forall|k: int| 0 <= k < j ==> #[trigger] row@[k] == (ui, t@[k]),
        decreases t@.len() - j,
    {
        row.push((ui, t[j]));
        j = j + 1;
    }
    row
}

/// Relies on rayon: mapping a slice's indexed parallel iterator and
/// collecting into a `Vec` yields the per-element results in index order
/// (`collect_into_vec`'s documented behaviour, shared by `collect`). Each
/// row itself comes from the verified `row_cells`.
#[verifier::external_body]
fn par_rows(u: &Vec<i64>, t: &Vec<i64>) -> (rows: Vec<Vec<(i64, i64)>>)
    ensures
        rows@.len() == u@.len(),
        forall|i: int| 0 <= i < u@.len() ==> (#[trigger] rows@[i])@.len() == t@.len(),
        forall|i: int, j: int|
            0 <= i < u@.len() && 0 <= j < t@.len() ==> #[trigger] rows@[i]@[j] == (
                u@[i],
                t@[j],
            ),
{
    u.par_iter().map(|ui| row_cells(*ui, t)).collect()
}

/// The full cross-product of the two axes, in row-major order: one cell for
/// every pair of axis positions, rows computed in parallel and reassembled
/// in axis order.
pub fn cross_product(u: &Vec<i64>, t: &Vec<i64>) -> (cells: Vec<(i64, i64)>)
    requires
        u@.len() * t@.len() <= usize::MAX,
    ensures
        is_grid(cells@, u@, t@),
        cells@.len() == u@.len() * t@.len(),
{
    let rows = par_rows(u, t);
    let n: usize = t.len();
    let mut cells: Vec<(i64, i64)> = Vec::new();
    let mut i: usize = 0;
    proof {
        lemma_mul_basics_2(n as int);
        lemma_mul_is_commutative(n as int, 0);
    }
    while i < rows.len()
        invariant
            i <= rows@.len(),
            n == t@.len(),
            rows@.len() == u@.len(),
            u@.len() * t@.len() <= usize::MAX,
            forall|r: int| 0 <= r < u@.len() ==> (#[trigger] rows@[r])@.len() == t@.len(),
            forall|r: int, c: int|
                0 <= r < u@.len() && 0 <= c < t@.len() ==> #[trigger] rows@[r]@[c] == (
                    u@[r],
                    t@[c],
                ),
            cells@.len() == i * n,
            forall|k: int|
                0 <= k < cells@.len() ==> #[trigger] cells@[k] == (
                    u@[k / n as int],
                    t@[k % n as int],
                ),
        decreases rows@.len() - i,
    {
        proof {
            lemma_mul_inequality(i as int + 1, u@.len() as int, n as int);
            lemma_mul_is_distributive_add_other_way(n as int, i as int, 1);
        }
        let row = &rows[i];
        let mut j: usize = 0;
        while j < n
            invariant
                j <= n,
                i < rows@.len(),
                n == t@.len(),
                rows@.len() == u@.len(),
                row == rows@[i as int],
                row@.len() == n,
                (i + 1) * n <= usize::MAX,
                i * n + n == (i + 1) * n,
                forall|c: int| 0 <= c < t@.len() ==> #[trigger] row@[c] == (u@[i as int], t@[c]),
                cells@.len() == i * n + j,
                forall|k: int|
                    0 <= k < cells@.len() ==> #[trigger] cells@[k] == (
                        u@[k / n as int],
                        t@[k % n as int],
                    ),
            decreases n - j,
        {
            cells.push(row[j]);
            proof {
                lemma_fundamental_div_mod_converse(
                    i as int * n as int + j as int,
                    n as int,
                    i as int,
                    j as int,
                );
            }
            j = j + 1;
        }
        i = i + 1;
    }
    cells
}

/// The two parameter axes of the strip together with their row-major
/// cross-product, all over the same scaled-integer spacing.
pub struct Grid {
    /// The ribbon-offset axis.
    pub u_axis: Vec<i64>,
    /// The angle axis.
    pub theta_axis: Vec<i64>,
    /// The row-major cross-product of the two axes.
    pub cells: Vec<(i64, i64)>,
}

/// The grid `g` samples `[u_start, u_stop]` and `[t_start, t_stop]` at
/// spacing `step`: both axes are evenly spaced ranges and the cells are
/// their row-major cross-product.
pub open spec fn grid_samples(
    g: Grid,
    u_start: int,
    u_stop: int,
    t_start: int,
    t_stop: int,
    step: int,
) -> bool {
    &&& is_range(g.u_axis@, u_start, u_stop, step)
    &&& is_range(g.theta_axis@, t_start, t_stop, step)
    &&& is_grid(g.cells@, g.u_axis@, g.theta_axis@)
}

/// Both axes and their full sampling grid, from the interval bounds and the
/// shared spacing: one cell per pair of axis values, exactly
/// `range_len(u) * range_len(theta)` of them.
pub fn build_grid(u_start: i64, u_stop: i64, t_start: i64, t_stop: i64, step: i64) -> (g: Grid)
    requires
        step > 0,
        u_start <= u_stop,
        t_start <= t_stop,
        u_stop - u_start <= i64::MAX,
        t_stop - t_start <= i64::MAX,
        range_len(u_start as int, u_stop as int, step as int) <= usize::MAX,
        range_len(t_start as int, t_stop as int, step as int) <= usize::MAX,
        range_len(u_start as int, u_stop as int, step as int) * range_len(
            t_start as int,
            t_stop as int,
            step as int,
        ) <= usize::MAX,
    ensures
        grid_samples(
            g,
            u_start as int,
            u_stop as int,
            t_start as int,
            t_stop as int,
            step as int,
        ),
        g.cells@.len() == range_len(u_start as int, u_stop as int, step as int) * range_len(
            t_start as int,
            t_stop as int,
            step as int,
        ),
{
    let u_axis = generate_range(u_start, u_stop, step);
    let theta_axis = generate_range(t_start, t_stop, step);
    let cells = cross_product(&u_axis, &theta_axis);
    Grid { u_axis, theta_axis, cells }
}

/// A fully built grid is determined by its interval bounds and spacing: two
/// grids that sample the same intervals at the same spacing hold the same
/// axes and the same cells, however many workers filled them in.
pub proof fn lemma_grid_samples_deterministic(
    g1: Grid,
    g2: Grid,
    u_start: int,
    u_stop: int,
    t_start: int,
    t_stop: int,
    step: int,
)
    requires
        grid_samples(g1, u_start, u_stop, t_start, t_stop, step),
        grid_samples(g2, u_start, u_stop, t_start, t_stop, step),
    ensures
        g1.u_axis@ == g2.u_axis@,
        g1.theta_axis@ == g2.theta_axis@,
        g1.cells@ == g2.cells@,
{
    crate::range::lemma_range_deterministic(g1.u_axis@, g2.u_axis@, u_start, u_stop, step);
    crate::range::lemma_range_deterministic(
        g1.theta_axis@,
        g2.theta_axis@,
        t_start,
        t_stop,
        step,
    );
    lemma_grid_deterministic(g1.cells@, g2.cells@, g1.u_axis@, g1.theta_axis@);
}

} // verus!
