//! The linear solver and the diffuser.
//!
//! `lin_solve` relaxes the sparse system
//! `x[i] = (x0[i] + a * sum_of_4_neighbors(x)) / c` over every interior cell
//! by Gauss-Seidel iteration: exactly `RELAX_ITERATIONS` full sweeps, each
//! reusing already-updated neighbor values within the same pass, with
//! boundary enforcement after every sweep.  The iteration count is fixed,
//! trading accuracy for bounded, predictable cost.
//!
//! `diffuse` builds the implicit diffusion system
//! `a = dt * rate * (width-2) * (height-2)`, `c = 1 + 4a` and delegates to
//! `lin_solve`; the interior-cell factor makes the rate
//! resolution-independent.

use vstd::prelude::*;
use crate::fixed::{
    tdiv, sat64, fxmul, lemma_tdiv_bound, lemma_tdiv_nonneg, div_trunc, sat_narrow, FRAC_ONE,
    SAT_MAX,
};
use crate::grids::{ints, bounded, idx, lemma_idx_bound};
use crate::boundary::{bnd, set_boundaries};

verus! {

/// Number of Gauss-Seidel relaxation sweeps per solve.
pub const RELAX_ITERATIONS: usize = 4;

/// The relaxation update for one cell, given its source value and its four
/// current neighbor values.
pub open spec fn gs_val(x0v: int, xl: int, xr: int, xt: int, xb: int, a: int, c: int) -> int
    recommends
        c > 0,
{
    sat64(tdiv((x0v + fxmul(a, xl + xr + xt + xb)) * (FRAC_ONE as int), c))
}

/// The relaxation update for cell `(i, j)` of buffer `x` with source `x0`.
pub open spec fn gs_cell(x: Seq<int>, x0: Seq<int>, a: int, c: int, w: int, i: int, j: int) -> int {
    gs_val(
        x0[idx(i, j, w)],
        x[idx(i - 1, j, w)],
        x[idx(i + 1, j, w)],
        x[idx(i, j - 1, w)],
        x[idx(i, j + 1, w)],
        a,
        c,
    )
}

/// Column `i` after relaxing its cells in rows `1 .. j`, in order, each
/// update seeing the updates before it.
pub open spec fn gs_col(x: Seq<int>, x0: Seq<int>, a: int, c: int, w: int, i: int, j: int) -> Seq<
    int,
>
    decreases j,
{
    if j <= 1 {
        x
    } else {
        let y = gs_col(x, x0, a, c, w, i, j - 1);
        y.update(idx(i, j - 1, w), gs_cell(y, x0, a, c, w, i, j - 1))
    }
}

/// The buffer after fully relaxing columns `1 .. i`, in order.
pub open spec fn gs_cols(
    x: Seq<int>,
    x0: Seq<int>,
    a: int,
    c: int,
    w: int,
    h: int,
    i: int,
) -> Seq<int>
    decreases i,
{
    if i <= 1 {
        x
    } else {
        gs_col(gs_cols(x, x0, a, c, w, h, i - 1), x0, a, c, w, i - 1, h - 1)
    }
}

/// One full Gauss-Seidel sweep over all interior cells.
pub open spec fn gs_sweep(x: Seq<int>, x0: Seq<int>, a: int, c: int, w: int, h: int) -> Seq<int> {
    gs_cols(x, x0, a, c, w, h, w - 1)
}

/// The buffer after `n` sweeps, each followed by boundary enforcement.
pub open spec fn lin_iter(
    x: Seq<int>,
    x0: Seq<int>,
    a: int,
    c: int,
    b: int,
    w: int,
    h: int,
    n: nat,
) -> Seq<int>
    decreases n,
{
    if n == 0 {
        x
    } else {
        bnd(gs_sweep(lin_iter(x, x0, a, c, b, w, h, (n - 1) as nat), x0, a, c, w, h), b, w, h)
    }
}

/// The complete linear solve: `RELAX_ITERATIONS` sweeps with enforcement.
pub open spec fn lin_solve_spec(
    x: Seq<int>,
    x0: Seq<int>,
    a: int,
    c: int,
    b: int,
    w: int,
    h: int,
) -> Seq<int> {
    lin_iter(x, x0, a, c, b, w, h, RELAX_ITERATIONS as nat)
}

/// The diffusion system coefficient `a = dt * rate * (w-2) * (h-2)`,
/// saturated at each stage.
pub open spec fn diffuse_coeff(dt: int, rate: int, w: int, h: int) -> int {
    sat64(sat64(sat64(fxmul(dt, rate)) * (w - 2)) * (h - 2))
}

/// The diffusion system divisor `c = 1 + 4a`, saturated.
pub open spec fn diffuse_c(a: int) -> int {
    sat64(FRAC_ONE as int + 4 * a)
}

/// The diffused field: the linear solve of the implicit diffusion system.
pub open spec fn diffuse_spec(
    x: Seq<int>,
    x0: Seq<int>,
    rate: int,
    dt: int,
    b: int,
    w: int,
    h: int,
) -> Seq<int> {
    lin_solve_spec(
        x,
        x0,
        diffuse_coeff(dt, rate, w, h),
        diffuse_c(diffuse_coeff(dt, rate, w, h)),
        b,
        w,
        h,
    )
}

/// A relaxation update over an all-zero source and all-zero neighbors gives
/// zero, whatever the coefficients.
pub proof fn lemma_gs_val_zero(a: int, c: int)
    requires
        c > 0,
    ensures
        gs_val(0, 0, 0, 0, 0, a, c) == 0,
{
    crate::fixed::lemma_tdiv_zero(FRAC_ONE as int);
    crate::fixed::lemma_tdiv_zero(c);
}

proof fn lemma_gs_col_zeros(a: int, c: int, w: int, h: int, i: int, j: int)
    requires
        w >= 3,
        h >= 3,
        c > 0,
        1 <= i <= w - 2,
        j <= h - 1,
    ensures
        gs_col(
            crate::grids::zeros((w * h) as nat),
            crate::grids::zeros((w * h) as nat),
            a,
            c,
            w,
            i,
            j,
        ) == crate::grids::zeros((w * h) as nat),
    decreases j,
{
    let z = crate::grids::zeros((w * h) as nat);
    if j <= 1 {
    } else {
        lemma_gs_col_zeros(a, c, w, h, i, j - 1);
        lemma_idx_bound(i, j - 1, w, h);
        lemma_idx_bound(i - 1, j - 1, w, h);
        lemma_idx_bound(i + 1, j - 1, w, h);
        lemma_idx_bound(i, j - 2, w, h);
        lemma_idx_bound(i, j, w, h);
        lemma_gs_val_zero(a, c);
        assert(gs_cell(z, z, a, c, w, i, j - 1) == 0);
        assert(z.update(idx(i, j - 1, w), 0) =~= z);
    }
}

proof fn lemma_gs_cols_zeros(a: int, c: int, w: int, h: int, i: int)
    requires
        w >= 3,
        h >= 3,
        c > 0,
        i <= w - 1,
    ensures
        gs_cols(
            crate::grids::zeros((w * h) as nat),
            crate::grids::zeros((w * h) as nat),
            a,
            c,
            w,
            h,
            i,
        ) == crate::grids::zeros((w * h) as nat),
    decreases i,
{
    if i <= 1 {
    } else {
        lemma_gs_cols_zeros(a, c, w, h, i - 1);
        lemma_gs_col_zeros(a, c, w, h, i - 1, h - 1);
    }
}

/// A linear solve over all-zero buffers stays all-zero, whatever the
/// coefficients and the boundary tag.
pub proof fn lemma_lin_iter_zeros(a: int, c: int, b: int, w: int, h: int, n: nat)
    requires
        w >= 3,
        h >= 3,
        c > 0,
    ensures
        lin_iter(
            crate::grids::zeros((w * h) as nat),
            crate::grids::zeros((w * h) as nat),
            a,
            c,
            b,
            w,
            h,
            n,
        ) == crate::grids::zeros((w * h) as nat),
    decreases n,
{
    if n == 0 {
    } else {
        lemma_lin_iter_zeros(a, c, b, w, h, (n - 1) as nat);
        lemma_gs_cols_zeros(a, c, w, h, w - 1);
        crate::boundary::lemma_bnd_zeros(b, w, h);
    }
}

/// The diffusion coefficients: `a` is non-negative and `c` at least 1, so
/// the diffusion system is always solvable.
pub proof fn lemma_diffuse_coeffs(dt: int, rate: int, w: int, h: int)
    requires
        0 <= dt,
        0 <= rate,
        w >= 3,
        h >= 3,
    ensures
        0 <= diffuse_coeff(dt, rate, w, h) <= SAT_MAX as int,
        FRAC_ONE as int <= diffuse_c(diffuse_coeff(dt, rate, w, h)) <= SAT_MAX as int,
{
    assert(dt * rate >= 0) by (nonlinear_arith)
        requires
            0 <= dt,
            0 <= rate,
    ;
    lemma_tdiv_nonneg(dt * rate, FRAC_ONE as int);
    let a0 = sat64(fxmul(dt, rate));
    assert(a0 * (w - 2) >= 0) by (nonlinear_arith)
        requires
            0 <= a0,
            2 < w,
    ;
    let a1 = sat64(a0 * (w - 2));
    assert(a1 * (h - 2) >= 0) by (nonlinear_arith)
        requires
            0 <= a1,
            2 < h,
    ;
}

/// Diffusing an all-zero field from an all-zero source is the identity.
pub proof fn lemma_diffuse_zeros(rate: int, dt: int, b: int, w: int, h: int)
    requires
        0 <= rate,
        0 <= dt,
        w >= 3,
        h >= 3,
    ensures
        diffuse_spec(
            crate::grids::zeros((w * h) as nat),
            crate::grids::zeros((w * h) as nat),
            rate,
            dt,
            b,
            w,
            h,
        ) == crate::grids::zeros((w * h) as nat),
{
    lemma_diffuse_coeffs(dt, rate, w, h);
    lemma_lin_iter_zeros(
        diffuse_coeff(dt, rate, w, h),
        diffuse_c(diffuse_coeff(dt, rate, w, h)),
        b,
        w,
        h,
        RELAX_ITERATIONS as nat,
    );
}

/// One executable relaxation update, exactly `gs_val`.
fn gs_value_exec(x0v: i64, xl: i64, xr: i64, xt: i64, xb: i64, a: i64, c: i64) -> (r: i64)
    requires
        -SAT_MAX <= x0v <= SAT_MAX,
        -SAT_MAX <= xl <= SAT_MAX,
        -SAT_MAX <= xr <= SAT_MAX,
        -SAT_MAX <= xt <= SAT_MAX,
        -SAT_MAX <= xb <= SAT_MAX,
        0 <= a <= SAT_MAX,
        0 < c <= SAT_MAX,
    ensures
        r as int == gs_val(x0v as int, xl as int, xr as int, xt as int, xb as int, a as int,
            c as int),
        -SAT_MAX <= r <= SAT_MAX,
{
    let sum: i128 = xl as i128 + xr as i128 + xt as i128 + xb as i128;
    proof {
        let m = SAT_MAX as int;
        assert((a as int) * (sum as int) <= m * (4 * m) && (a as int) * (sum as int) >= -(m * (4
            * m))) by (nonlinear_arith)
            requires
                0 <= a as int <= m,
                -(4 * m) <= sum as int <= 4 * m,
        ;
    }
    let prod: i128 = (a as i128) * sum;
    let m1 = div_trunc(prod, FRAC_ONE as i128);
    proof {
        lemma_tdiv_bound(
            prod as int,
            FRAC_ONE as int,
            4_000_000_000_000_000_000_000_000_000_000i128 as int,
        );
    }
    let num: i128 = (x0v as i128) + m1;
    let scaled: i128 = num * (FRAC_ONE as i128);
    let q = div_trunc(scaled, c as i128);
    proof {
        lemma_tdiv_bound(scaled as int, c as int, 5_000_000_000_000_000_000_000_000_000_000_000_000i128 as int);
    }
    sat_narrow(q)
}

/// One full Gauss-Seidel sweep over the interior of `x`, in place.
pub fn gs_sweep_pass(x: &mut Vec<i64>, x0: &Vec<i64>, a: i64, c: i64, w: usize, h: usize)
    requires
        w >= 3,
        h >= 3,
        old(x)@.len() == w * h,
        x0@.len() == w * h,
        bounded(ints(old(x)@)),
        bounded(ints(x0@)),
        0 <= a <= SAT_MAX,
        0 < c <= SAT_MAX,
    ensures
        final(x)@.len() == w * h,
        ints(final(x)@) == gs_sweep(ints(old(x)@), ints(x0@), a as int, c as int, w as int,
            h as int),
        bounded(ints(final(x)@)),
{
    let ghost o = ints(old(x)@);
    let ghost s = ints(x0@);
    let ghost wi = w as int;
    let ghost hi = h as int;
    let ghost ai = a as int;
    let ghost ci = c as int;
    let n = x.len();
    let mut i: usize = 1;
    while i < w - 1
        invariant
            w >= 3,
            h >= 3,
            1 <= i <= w - 1,
            n == w * h,
            x@.len() == w * h,
            x0@.len() == w * h,
            bounded(s),
            bounded(ints(x@)),
            s == ints(x0@),
            wi == w as int,
            hi == h as int,
            ai == a as int,
            ci == c as int,
            0 <= a <= SAT_MAX,
            0 < c <= SAT_MAX,
            ints(x@) == gs_cols(o, s, ai, ci, wi, hi, i as int),
        decreases w - 1 - i,
    {
        let mut j: usize = 1;
        while j < h - 1
            invariant
                w >= 3,
                h >= 3,
                1 <= i < w - 1,
                1 <= j <= h - 1,
                n == w * h,
                x@.len() == w * h,
                x0@.len() == w * h,
                bounded(s),
                bounded(ints(x@)),
                s == ints(x0@),
                wi == w as int,
                hi == h as int,
                ai == a as int,
                ci == c as int,
                0 <= a <= SAT_MAX,
                0 < c <= SAT_MAX,
                ints(x@) == gs_col(gs_cols(o, s, ai, ci, wi, hi, i as int), s, ai, ci, wi,
                    i as int, j as int),
            decreases h - 1 - j,
        {
            proof {
                lemma_idx_bound(i as int, j as int, wi, hi);
                lemma_idx_bound(i as int - 1, j as int, wi, hi);
                lemma_idx_bound(i as int + 1, j as int, wi, hi);
                lemma_idx_bound(i as int, j as int - 1, wi, hi);
                lemma_idx_bound(i as int, j as int + 1, wi, hi);
            }
            let x0v = x0[i + j * w];
            let xl = x[(i - 1) + j * w];
            let xr = x[(i + 1) + j * w];
            let xt = x[i + (j - 1) * w];
            let xb = x[i + (j + 1) * w];
            proof {
                assert(ints(x0@)[idx(i as int, j as int, wi)] == x0v as int);
                assert(ints(x@)[idx(i as int - 1, j as int, wi)] == xl as int);
                assert(ints(x@)[idx(i as int + 1, j as int, wi)] == xr as int);
                assert(ints(x@)[idx(i as int, j as int - 1, wi)] == xt as int);
                assert(ints(x@)[idx(i as int, j as int + 1, wi)] == xb as int);
            }
            let v = gs_value_exec(x0v, xl, xr, xt, xb, a, c);
            let ghost pre = ints(x@);
            x.set(i + j * w, v);
            proof {
                assert(v as int == gs_cell(pre, s, ai, ci, wi, i as int, j as int));
                assert(ints(x@) =~= pre.update(idx(i as int, j as int, wi), v as int));
            }
            j = j + 1;
        }
        i = i + 1;
    }
}

/// Solve the linear system by fixed-count Gauss-Seidel relaxation, enforcing
/// the boundary conditions with tag `b` after every sweep.
pub fn lin_solve(b: usize, x: &mut Vec<i64>, x0: &Vec<i64>, a: i64, c: i64, w: usize, h: usize)
    requires
        w >= 3,
        h >= 3,
        old(x)@.len() == w * h,
        x0@.len() == w * h,
        bounded(ints(old(x)@)),
        bounded(ints(x0@)),
        0 <= a <= SAT_MAX,
        0 < c <= SAT_MAX,
    ensures
        final(x)@.len() == w * h,
        ints(final(x)@) == lin_solve_spec(ints(old(x)@), ints(x0@), a as int, c as int, b as int,
            w as int, h as int),
        bounded(ints(final(x)@)),
{
    let ghost o = ints(old(x)@);
    let ghost s = ints(x0@);
    let ghost wi = w as int;
    let ghost hi = h as int;
    let ghost ai = a as int;
    let ghost ci = c as int;
    let ghost bi = b as int;
    let mut it: usize = 0;
    while it < RELAX_ITERATIONS
        invariant
            w >= 3,
            h >= 3,
            it <= RELAX_ITERATIONS,
            x@.len() == w * h,
            x0@.len() == w * h,
            bounded(s),
            bounded(ints(x@)),
            s == ints(x0@),
            wi == w as int,
            hi == h as int,
            ai == a as int,
            ci == c as int,
            bi == b as int,
            0 <= a <= SAT_MAX,
            0 < c <= SAT_MAX,
            ints(x@) == lin_iter(o, s, ai, ci, bi, wi, hi, it as nat),
        decreases RELAX_ITERATIONS - it,
    {
        gs_sweep_pass(x, x0, a, c, w, h);
        set_boundaries(b, x, w, h);
        it = it + 1;
    }
}

/// Diffuse `x0` into `x` with diffusion coefficient `rate`: build the
/// implicit system and solve it.
pub fn diffuse(b: usize, x: &mut Vec<i64>, x0: &Vec<i64>, rate: i64, dt: i64, w: usize, h: usize)
    requires
        w >= 3,
        h >= 3,
        old(x)@.len() == w * h,
        x0@.len() == w * h,
        bounded(ints(old(x)@)),
        bounded(ints(x0@)),
        0 <= rate <= SAT_MAX,
        0 <= dt <= SAT_MAX,
    ensures
        final(x)@.len() == w * h,
        ints(final(x)@) == diffuse_spec(ints(old(x)@), ints(x0@), rate as int, dt as int,
            b as int, w as int, h as int),
        bounded(ints(final(x)@)),
{
    proof {
        let m = SAT_MAX as int;
        assert((dt as int) * (rate as int) <= m * m && (dt as int) * (rate as int) >= 0)
            by (nonlinear_arith)
            requires
                0 <= dt as int <= m,
                0 <= rate as int <= m,
        ;
    }
    let p: i128 = (dt as i128) * (rate as i128);
    proof {
        lemma_tdiv_bound(p as int, FRAC_ONE as int, 1_000_000_000_000_000_000_000_000_000_000i128 as int);
        lemma_tdiv_nonneg(p as int, FRAC_ONE as int);
    }
    let a0 = sat_narrow(div_trunc(p, FRAC_ONE as i128));
    proof {
        let m = SAT_MAX as int;
        let wf = (w - 2) as int;
        assert((a0 as int) * wf <= m * wf && (a0 as int) * wf >= 0) by (nonlinear_arith)
            requires
                0 <= a0 as int <= m,
                0 <= wf,
        ;
        assert(m * wf <= m * (usize::MAX as int)) by (nonlinear_arith)
            requires
                0 <= wf <= usize::MAX as int,
                0 < m,
        ;
    }
    let a1 = sat_narrow((a0 as i128) * ((w - 2) as i128));
    proof {
        let m = SAT_MAX as int;
        let hf = (h - 2) as int;
        assert((a1 as int) * hf <= m * hf && (a1 as int) * hf >= 0) by (nonlinear_arith)
            requires
                0 <= a1 as int <= m,
                0 <= hf,
        ;
        assert(m * hf <= m * (usize::MAX as int)) by (nonlinear_arith)
            requires
                0 <= hf <= usize::MAX as int,
                0 < m,
        ;
    }
    let a2 = sat_narrow((a1 as i128) * ((h - 2) as i128));
    let cden = sat_narrow((FRAC_ONE as i128) + 4i128 * (a2 as i128));
    lin_solve(b, x, x0, a2, cden, w, h);
}

} // verus!
