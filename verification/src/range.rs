//! Evenly spaced parameter ranges over scaled integer values.
//!
//! A range samples the closed interval `[start, stop]` at spacing `step`:
//! element `i` is exactly `start + i * step`, and both endpoints are covered,
//! the upper one by the last element that still lies in the interval.

use rayon::iter::IntoParallelIterator;
use rayon::iter::ParallelIterator;
use vstd::arithmetic::div_mod::lemma_div_nonincreasing;
use vstd::arithmetic::div_mod::lemma_fundamental_div_mod;
use vstd::arithmetic::div_mod::lemma_mod_bound;
use vstd::arithmetic::mul::lemma_mul_basics_2;
use vstd::arithmetic::mul::lemma_mul_inequality;
use vstd::arithmetic::mul::lemma_mul_is_commutative;
use vstd::arithmetic::mul::lemma_mul_is_distributive_sub_other_way;
use vstd::arithmetic::mul::lemma_mul_nonnegative;
use vstd::prelude::*;

verus! {

/// Number of samples of the closed interval `[start, stop]` at spacing
/// `step`: `floor((stop - start) / step) + 1`, counting both endpoints.
pub open spec fn range_len(start: int, stop: int, step: int) -> int {
    (stop - start) / step + 1
}

/// The sequence `r` is the evenly spaced range over `[start, stop]` with
/// spacing `step`: it has exactly `range_len` elements and element `i` is
/// exactly `start + i * step`.
pub open spec fn is_range(r: Seq<i64>, start: int, stop: int, step: int) -> bool {
    &&& r.len() == range_len(start, stop, step)
    &&& forall|i: int| 0 <= i < r.len() ==> r[i] as int == start + i * step
}

/// A range is determined by its interval and spacing: any two sequences that
/// are the evenly spaced range over the same `[start, stop]` and `step` are
/// equal, whatever produced them.
pub proof fn lemma_range_deterministic(
    r1: Seq<i64>,
    r2: Seq<i64>,
    start: int,
    stop: int,
    step: int,
)
    requires
        is_range(r1, start, stop, step),
        is_range(r2, start, stop, step),
    ensures
        r1 == r2,
{
    assert forall|i: int| 0 <= i < r1.len() implies r1[i] == r2[i] by {
        assert(r1[i] as int == start + i * step);
        assert(r2[i] as int == start + i * step);
    }
    assert(r1 =~= r2);
}

/// Element `i` of a range that starts at `start` with spacing `step`.
pub fn range_element(start: i64, step: i64, i: usize) -> (v: i64)
    requires
        step > 0,
        i * step <= i64::MAX,
        start + i * step <= i64::MAX,
    ensures
        v as int == start + i * step,
{
    proof {
        lemma_mul_inequality(1, step as int, i as int);
        lemma_mul_is_commutative(step as int, i as int);
    }
    let offset: i64 = (i as i64) * step;
    start + offset
}

/// Relies on rayon: mapping an indexed parallel iterator (`0..count`) and
/// collecting into a `Vec` yields the per-index results in index order
/// (`collect_into_vec`'s documented behaviour, shared by `collect`). Each
/// element itself comes from the verified `range_element`.
#[verifier::external_body]
fn par_range_values(start: i64, step: i64, count: usize) -> (r: Vec<i64>)
    requires
        step > 0,
        count >= 1,
        (count - 1) * step <= i64::MAX,
        start + (count - 1) * step <= i64::MAX,
    ensures
        r@.len() == count,
        forall|i: int| 0 <= i < count ==> r@[i] as int == start + i * step,
{
    (0..count).into_par_iter().map(|i| range_element(start, step, i)).collect()
}

/// The evenly spaced range over the closed interval `[start, stop]` with
/// spacing `step`: element `i` is exactly `start + i * step`, the first
/// element is `start`, and the last is the largest element still at most
/// `stop`. The elements are computed in parallel and reassembled in index
/// order.
pub fn generate_range(start: i64, stop: i64, step: i64) -> (r: Vec<i64>)
    requires
        step > 0,
        start <= stop,
        stop - start <= i64::MAX,
        range_len(start as int, stop as int, step as int) <= usize::MAX,
    ensures
        is_range(r@, start as int, stop as int, step as int),
        r@.len() >= 1,
        r@[0] == start,
        r@[r@.len() - 1] <= stop,
        r@[r@.len() - 1] as int > stop - step,
        forall|i: int| 1 <= i < r@.len() ==> (#[trigger] r@[i]) as int == r@[i - 1] as int + step,
{
    let span: u64 = (stop - start) as u64;
    let step_w: u64 = step as u64;
    let q: u64 = span / step_w;
    proof {
        lemma_div_nonincreasing(span as int, step as int);
        lemma_fundamental_div_mod(span as int, step as int);
        lemma_mod_bound(span as int, step as int);
        lemma_mul_is_commutative(step as int, q as int);
        lemma_mul_nonnegative(q as int, step as int);
    }
    let count: usize = (q as usize) + 1;
    let r = par_range_values(start, step, count);
    proof {
        assert(r@[0] as int == start + 0 * step) by {
            lemma_mul_basics_2(step as int);
            lemma_mul_is_commutative(step as int, 0);
        }
        assert forall|i: int| 1 <= i < r@.len() implies (#[trigger] r@[i]) as int == r@[i
            - 1] as int + step by {
            lemma_mul_is_distributive_sub_other_way(step as int, i, 1);
        }
    }
    r
}

} // verus!
