//! Escape-time evaluators for the Mandelbrot recurrence.
//!
//! Starting from `z = 0`, the recurrence repeatedly squares `z` and adds
//! the starting point `c = (x0, y0)`. The escape time of a point is the
//! number of completed iterations before the squared magnitude of `z`
//! first exceeds 4, capped at the iteration budget. `iter_count` states
//! that semantics once, over the fixed-point raw values; the scalar and
//! the batch evaluator are both proved to return exactly it.

use vstd::prelude::*;
use vstd::arithmetic::div_mod::{
    lemma_basic_div,
    lemma_div_is_ordered,
    lemma_fundamental_div_mod,
    lemma_mod_bound,
};
use crate::fixed::{Fixed, COORD_BOUND, SCALE};

verus! {

/// Magnitude of an integer.
pub open spec fn abs_val(a: int) -> int {
    if a >= 0 {
        a
    } else {
        -a
    }
}

/// Fixed-point product of two raw values: `a * b / SCALE`, rounded toward
/// zero.
pub open spec fn scaled_mul(a: int, b: int) -> int {
    if (a < 0) == (b < 0) {
        (abs_val(a) * abs_val(b)) / (SCALE as int)
    } else {
        -((abs_val(a) * abs_val(b)) / (SCALE as int))
    }
}

/// Fixed-point square of a raw value.
pub open spec fn scaled_sq(a: int) -> int {
    (abs_val(a) * abs_val(a)) / (SCALE as int)
}

/// The escape predicate: the squared magnitude of `(x, y)` exceeds 4.
pub open spec fn escapes(x: int, y: int) -> bool {
    scaled_sq(x) + scaled_sq(y) > 4 * SCALE
}

/// Real part of the next recurrence value: `x^2 - y^2 + x0`.
pub open spec fn next_x(x: int, y: int, x0: int) -> int {
    scaled_sq(x) - scaled_sq(y) + x0
}

/// Imaginary part of the next recurrence value: `2*x*y + y0`.
pub open spec fn next_y(x: int, y: int, y0: int) -> int {
    2 * scaled_mul(x, y) + y0
}

/// Number of iterations the recurrence runs from state `(x, y)` before it
/// escapes, capped at `fuel`.
pub open spec fn iter_count(x: int, y: int, x0: int, y0: int, fuel: nat) -> nat
    decreases fuel,
{
    if fuel == 0 {
        0
    } else if escapes(x, y) {
        0
    } else {
        (1 + iter_count(next_x(x, y, x0), next_y(x, y, y0), x0, y0, (fuel - 1) as nat)) as nat
    }
}

/// The escape time of the point `(x0, y0)` under budget `max_iter`: the
/// iteration at which the recurrence from `z = 0` is first seen escaped,
/// or `max_iter` if that never happens within the budget.
pub open spec fn spec_escape_time(x0: int, y0: int, max_iter: nat) -> nat {
    iter_count(0, 0, x0, y0, max_iter)
}

/// Headroom needed for intermediate recurrence values: a non-escaped state
/// squares to at most `4 * SCALE`, so the next state stays within
/// `8 * SCALE` of the starting coordinate.
pub const STATE_BOUND: i64 = COORD_BOUND + 8 * SCALE;

/// Bound kept by the evaluators on the raw recurrence state.
pub open spec fn state_wf(v: int) -> bool {
    -(STATE_BOUND as int) <= v <= STATE_BOUND as int
}

/// Magnitude of a raw value.
fn abs_i64(a: i64) -> (r: u64)
    ensures
        r as int == abs_val(a as int),
{
    if a >= 0 {
        a as u64
    } else {
        (-(a as i128)) as u64
    }
}

/// One recurrence step on a single point: reports whether the state has
/// escaped and, if it has not, advances it.
fn step_point(x: i64, y: i64, x0: i64, y0: i64) -> (r: (bool, i64, i64))
    requires
        -COORD_BOUND <= x0 <= COORD_BOUND,
        -COORD_BOUND <= y0 <= COORD_BOUND,
        state_wf(x as int),
        state_wf(y as int),
    ensures
        r.0 == escapes(x as int, y as int),
        !r.0 ==> {
            &&& r.1 as int == next_x(x as int, y as int, x0 as int)
            &&& r.2 as int == next_y(x as int, y as int, y0 as int)
            &&& state_wf(r.1 as int)
            &&& state_wf(r.2 as int)
        },
{
    let xm: u64 = abs_i64(x);
    let ym: u64 = abs_i64(y);
    proof {
        // The state bound is 2^62 + 2^35, so a square of magnitudes stays
        // under 2^125 and fits u128 comfortably.
        assert(xm as u128 <= 4611720378166126272);
        assert(ym as u128 <= 4611720378166126272);
        assert(0 <= (xm as u128) * (xm as u128) <= 42535295865117307932921825928971026432)
            by (nonlinear_arith)
            requires
                0 <= xm as u128 <= 4611720378166126272,
        ;
        assert(0 <= (ym as u128) * (ym as u128) <= 42535295865117307932921825928971026432)
            by (nonlinear_arith)
            requires
                0 <= ym as u128 <= 4611720378166126272,
        ;
        lemma_div_is_ordered(
            (xm as u128) * (xm as u128),
            42535295865117307932921825928971026432,
            SCALE as int,
        );
        lemma_div_is_ordered(
            (ym as u128) * (ym as u128),
            42535295865117307932921825928971026432,
            SCALE as int,
        );
        // 2^125 / 2^32 = 2^93, so each scaled square fits far below u128.
        assert(42535295865117307932921825928971026432int / (SCALE as int)
            == 9903520314283042199192993792int);
    }
    let x2: u128 = ((xm as u128) * (xm as u128)) / (SCALE as u128);
    let y2: u128 = ((ym as u128) * (ym as u128)) / (SCALE as u128);
    if x2 + y2 > 4 * (SCALE as u128) {
        (true, x, y)
    } else {
        proof {
            lemma_magnitude_bound(xm as int, x2 as int);
            lemma_magnitude_bound(ym as int, y2 as int);
            assert((xm as int) * (ym as int) <= (2 * SCALE) * (2 * SCALE)) by (nonlinear_arith)
                requires
                    0 <= xm as int <= 2 * SCALE,
                    0 <= ym as int <= 2 * SCALE,
            ;
            lemma_div_is_ordered((xm as int) * (ym as int), (2 * SCALE) * (2 * SCALE), SCALE as int);
        }
        let prod: u128 = ((xm as u128) * (ym as u128)) / (SCALE as u128);
        let t: i64 = if (x < 0) != (y < 0) {
            -(prod as i64)
        } else {
            prod as i64
        };
        let ny: i64 = 2 * t + y0;
        let nx: i64 = (x2 as i64) - (y2 as i64) + x0;
        (false, nx, ny)
    }
}

/// A magnitude whose fixed-point square is at most 4 is itself at most 2.
proof fn lemma_magnitude_bound(m: int, q: int)
    requires
        0 <= m,
        q == (m * m) / (SCALE as int),
        q <= 4 * SCALE,
    ensures
        m <= 2 * SCALE,
{
    lemma_fundamental_div_mod(m * m, SCALE as int);
    lemma_mod_bound(m * m, SCALE as int);
    assert((SCALE as int) * q <= (SCALE as int) * (4 * SCALE)) by (nonlinear_arith)
        requires
            q <= 4 * SCALE,
    ;
    assert(m <= 2 * SCALE) by (nonlinear_arith)
        requires
            0 <= m,
            m * m <= (SCALE as int) * (4 * SCALE) + SCALE - 1,
    ;
}

/// Escape time of a single point: the iteration at which the recurrence
/// from `z = 0` is first seen escaped, or `max_iter` if it never escapes
/// within the budget. The result is never above the budget.
pub fn escape_time(x0: Fixed, y0: Fixed, max_iter: u32) -> (r: u32)
    requires
        x0.wf(),
        y0.wf(),
    ensures
        r == spec_escape_time(x0@, y0@, max_iter as nat),
        r <= max_iter,
{
    let mut x: i64 = 0;
    let mut y: i64 = 0;
    let mut iteration: u32 = 0;
    while iteration < max_iter
        invariant
            iteration <= max_iter,
            x0.wf(),
            y0.wf(),
            state_wf(x as int),
            state_wf(y as int),
            spec_escape_time(x0@, y0@, max_iter as nat) == iteration + iter_count(
                x as int,
                y as int,
                x0@,
                y0@,
                (max_iter - iteration) as nat,
            ),
        decreases max_iter - iteration,
    {
        let (esc, nx, ny) = step_point(x, y, x0.raw, y0.raw);
        if esc {
            return iteration;
        }
        x = nx;
        y = ny;
        iteration = iteration + 1;
    }
    iteration
}

/// Width of a batch: how many points one call of `escape_time_batch`
/// evaluates in lockstep.
pub const LANES: usize = 16;

/// Escape times of a batch of `LANES` points, evaluated in lockstep with
/// an active-lane mask. Lane `i` of the result is exactly what
/// `escape_time` returns on the lane's own point: the mask freezes a
/// lane's count at the iteration where its point is first seen escaped,
/// while the remaining lanes keep counting, and the loop stops early once
/// every lane has escaped.
pub fn escape_time_batch(x0: &[Fixed; LANES], y0: &[Fixed; LANES], max_iter: u32) -> (r: Vec<u32>)
    requires
        forall|i: int| 0 <= i < LANES ==> x0@[i].wf() && y0@[i].wf(),
    ensures
        r@.len() == LANES,
        forall|i: int| 0 <= i < LANES ==> r@[i] == spec_escape_time(
            x0@[i]@,
            y0@[i]@,
            max_iter as nat,
        ),
        forall|i: int| 0 <= i < LANES ==> r@[i] <= max_iter,
{
    let mut xs: Vec<i64> = vec![0i64; LANES];
    let mut ys: Vec<i64> = vec![0i64; LANES];
    let mut counts: Vec<u32> = vec![0u32; LANES];
    let mut active: Vec<bool> = vec![true; LANES];
    let mut step: u32 = 0;
    let mut all_inactive = false;
    while step < max_iter && !all_inactive
        invariant
            step <= max_iter,
            xs@.len() == LANES,
            ys@.len() == LANES,
            counts@.len() == LANES,
            active@.len() == LANES,
            forall|i: int| 0 <= i < LANES ==> x0@[i].wf() && y0@[i].wf(),
            forall|i: int| 0 <= i < LANES && active@[i] ==> counts@[i] == step
                && state_wf(xs@[i] as int) && state_wf(ys@[i] as int)
                && spec_escape_time(x0@[i]@, y0@[i]@, max_iter as nat) == step + iter_count(
                xs@[i] as int,
                ys@[i] as int,
                x0@[i]@,
                y0@[i]@,
                (max_iter - step) as nat,
            ),
            forall|i: int| 0 <= i < LANES && !active@[i] ==> counts@[i] == spec_escape_time(
                x0@[i]@,
                y0@[i]@,
                max_iter as nat,
            ) && counts@[i] <= max_iter,
            all_inactive ==> forall|i: int| 0 <= i < LANES ==> !active@[i],
        decreases max_iter - step,
    {
        let mut lane: usize = 0;
        let mut any_active = false;
        while lane < LANES
            invariant
                lane <= LANES,
                step < max_iter,
                xs@.len() == LANES,
                ys@.len() == LANES,
                counts@.len() == LANES,
                active@.len() == LANES,
                forall|i: int| 0 <= i < LANES ==> x0@[i].wf() && y0@[i].wf(),
                forall|i: int| 0 <= i < lane && active@[i] ==> counts@[i] == step + 1
                    && state_wf(xs@[i] as int) && state_wf(ys@[i] as int)
                    && spec_escape_time(x0@[i]@, y0@[i]@, max_iter as nat) == step + 1
                    + iter_count(
                    xs@[i] as int,
                    ys@[i] as int,
                    x0@[i]@,
                    y0@[i]@,
                    (max_iter - step - 1) as nat,
                ),
                forall|i: int| lane <= i < LANES && active@[i] ==> counts@[i] == step
                    && state_wf(xs@[i] as int) && state_wf(ys@[i] as int)
                    && spec_escape_time(x0@[i]@, y0@[i]@, max_iter as nat) == step + iter_count(
                    xs@[i] as int,
                    ys@[i] as int,
                    x0@[i]@,
                    y0@[i]@,
                    (max_iter - step) as nat,
                ),
                forall|i: int| 0 <= i < LANES && !active@[i] ==> counts@[i] == spec_escape_time(
                    x0@[i]@,
                    y0@[i]@,
                    max_iter as nat,
                ) && counts@[i] <= max_iter,
                !any_active ==> forall|i: int| 0 <= i < lane ==> !active@[i],
            decreases LANES - lane,
        {
            if active[lane] {
                let (esc, nx, ny) = step_point(xs[lane], ys[lane], x0[lane].raw, y0[lane].raw);
                if esc {
                    active[lane] = false;
                } else {
                    xs[lane] = nx;
                    ys[lane] = ny;
                    counts[lane] = counts[lane] + 1;
                    any_active = true;
                }
            }
            lane = lane + 1;
        }
        if !any_active {
            all_inactive = true;
        }
        step = step + 1;
    }
    counts
}

proof fn lemma_iter_count_bounded(x: int, y: int, x0: int, y0: int, fuel: nat)
    ensures
        iter_count(x, y, x0, y0, fuel) <= fuel,
    decreases fuel,
{
    if fuel > 0 && !escapes(x, y) {
        lemma_iter_count_bounded(
            next_x(x, y, x0),
            next_y(x, y, y0),
            x0,
            y0,
            (fuel - 1) as nat,
        );
    }
}

/// Boundedness: the escape time of any point lies between 0 and the
/// iteration budget.
pub proof fn lemma_escape_time_bounded(x0: int, y0: int, max_iter: nat)
    ensures
        0 <= spec_escape_time(x0, y0, max_iter) <= max_iter,
{
    lemma_iter_count_bounded(0, 0, x0, y0, max_iter);
}

proof fn lemma_iter_count_budget(x: int, y: int, x0: int, y0: int, f1: nat, f2: nat)
    requires
        f1 <= f2,
        iter_count(x, y, x0, y0, f1) < f1,
    ensures
        iter_count(x, y, x0, y0, f2) == iter_count(x, y, x0, y0, f1),
    decreases f1,
{
    if !escapes(x, y) {
        lemma_iter_count_budget(
            next_x(x, y, x0),
            next_y(x, y, y0),
            x0,
            y0,
            (f1 - 1) as nat,
            (f2 - 1) as nat,
        );
    }
}

/// Monotonic saturation: once a point escapes within some budget (its
/// escape time is below the budget), raising the budget does not change
/// its escape time.
pub proof fn lemma_escape_time_budget_monotonic(x0: int, y0: int, m1: nat, m2: nat)
    requires
        m1 <= m2,
        spec_escape_time(x0, y0, m1) < m1,
    ensures
        spec_escape_time(x0, y0, m2) == spec_escape_time(x0, y0, m1),
{
    lemma_iter_count_budget(0, 0, x0, y0, m1, m2);
}

/// The recurrence state after `k` update steps from `z = 0`.
pub open spec fn orbit(x0: int, y0: int, k: nat) -> (int, int)
    decreases k,
{
    if k == 0 {
        (0, 0)
    } else {
        (
            next_x(orbit(x0, y0, (k - 1) as nat).0, orbit(x0, y0, (k - 1) as nat).1, x0),
            next_y(orbit(x0, y0, (k - 1) as nat).0, orbit(x0, y0, (k - 1) as nat).1, y0),
        )
    }
}

/// Whether the escape predicate holds of the state after `k` steps.
pub open spec fn orbit_escaped(x0: int, y0: int, k: nat) -> bool {
    escapes(orbit(x0, y0, k).0, orbit(x0, y0, k).1)
}

proof fn lemma_iter_count_orbit(x0: int, y0: int, k: nat, i: nat, fuel: nat)
    requires
        i <= k,
        forall|j: nat| j < k ==> !orbit_escaped(x0, y0, j),
        orbit_escaped(x0, y0, k),
    ensures
        iter_count(orbit(x0, y0, i).0, orbit(x0, y0, i).1, x0, y0, fuel) == if fuel <= k - i {
            fuel
        } else {
            (k - i) as nat
        },
    decreases fuel,
{
    if i < k {
        assert(!orbit_escaped(x0, y0, i));
        if fuel > 0 {
            lemma_iter_count_orbit(x0, y0, k, (i + 1) as nat, (fuel - 1) as nat);
        }
    }
}

/// Escape detection at a definite step: if the recurrence state first
/// satisfies the escape predicate after `k` steps, and the budget allows
/// more than `k` iterations, the escape time is exactly `k`.
pub proof fn lemma_escape_time_at_first_escape(x0: int, y0: int, k: nat, max_iter: nat)
    requires
        k < max_iter,
        forall|j: nat| j < k ==> !orbit_escaped(x0, y0, j),
        orbit_escaped(x0, y0, k),
    ensures
        spec_escape_time(x0, y0, max_iter) == k,
{
    lemma_iter_count_orbit(x0, y0, k, 0, max_iter);
}

proof fn lemma_iter_count_origin(fuel: nat)
    ensures
        iter_count(0, 0, 0, 0, fuel) == fuel,
    decreases fuel,
{
    if fuel > 0 {
        lemma_basic_div(0, SCALE as int);
        assert(abs_val(0) == 0);
        assert(abs_val(0) * abs_val(0) == 0);
        assert(scaled_sq(0) == 0);
        assert(scaled_mul(0, 0) == 0);
        lemma_iter_count_origin((fuel - 1) as nat);
    }
}

/// Non-escaping fixed point: the origin never escapes, so its escape time
/// is always the full budget.
pub proof fn lemma_origin_escape_time(max_iter: nat)
    ensures
        spec_escape_time(0, 0, max_iter) == max_iter,
{
    lemma_iter_count_origin(max_iter);
}

} // verus!
