//! Advection: semi-Lagrangian transport of a scalar field along a velocity
//! field.
//!
//! For every interior cell a particle is traced backward along the velocity
//! by one time step scaled by `width - 2`; both coordinates of the candidate
//! source position are clamped into `[0.5, dim - 1.5]` (in cell units), so
//! the four bilinear-interpolation corners stay in bounds; the transported
//! value is the bilinear sample of the source field at that position.
//! Boundary enforcement runs after the full sweep.

use vstd::prelude::*;
use crate::fixed::{
    tdiv, sat64, fxmul, clampi, lemma_tdiv_bound, div_trunc, sat_narrow,
    FRAC_ONE, FRAC_HALF, SAT_MAX,
};
use crate::grids::{
    ints, bounded, idx, interior, grid_new, lemma_idx_bound, lemma_idx_injective,
    lemma_grid_from_pointwise, MAX_DIM,
};
use crate::boundary::{bnd, set_boundaries};
use vstd::arithmetic::div_mod::{
    lemma_div_is_ordered, lemma_div_multiples_vanish, lemma_fundamental_div_mod,
    lemma_mod_division_less_than_divisor, lemma_multiply_divide_lt,
};

verus! {

/// The clamped, scaled source coordinate for a particle starting at cell
/// coordinate `pos` with velocity `vel`, over scaled step `dt0`.
pub open spec fn backtrace(pos: int, vel: int, dt0: int, dim: int) -> int {
    clampi(
        pos * (FRAC_ONE as int) - fxmul(dt0, vel),
        FRAC_HALF as int,
        (dim - 1) * (FRAC_ONE as int) - (FRAC_HALF as int),
    )
}

/// Bilinear sample of `d0` at scaled position `(x, y)`: the four surrounding
/// grid-aligned cells, weighted by the fractional parts.
pub open spec fn interp(d0: Seq<int>, w: int, x: int, y: int) -> int {
    let i0 = tdiv(x, FRAC_ONE as int);
    let j0 = tdiv(y, FRAC_ONE as int);
    let s1 = x - i0 * (FRAC_ONE as int);
    let s0 = (FRAC_ONE as int) - s1;
    let t1 = y - j0 * (FRAC_ONE as int);
    let t0 = (FRAC_ONE as int) - t1;
    sat64(
        fxmul(s0, fxmul(t0, d0[idx(i0, j0, w)]) + fxmul(t1, d0[idx(i0, j0 + 1, w)])) + fxmul(
            s1,
            fxmul(t0, d0[idx(i0 + 1, j0, w)]) + fxmul(t1, d0[idx(i0 + 1, j0 + 1, w)]),
        ),
    )
}

/// The advected value of interior cell `(i, j)`.
pub open spec fn advect_at(
    d0: Seq<int>,
    u: Seq<int>,
    v: Seq<int>,
    dt0: int,
    w: int,
    h: int,
    i: int,
    j: int,
) -> int {
    interp(d0, w, backtrace(i, u[idx(i, j, w)], dt0, w), backtrace(j, v[idx(i, j, w)], dt0, h))
}

/// One cell of the advection sweep: interior cells take the back-traced
/// sample, the rest keep the output buffer's prior contents (the following
/// boundary enforcement overwrites all of them).
pub open spec fn advect_body_at(
    d_init: Seq<int>,
    d0: Seq<int>,
    u: Seq<int>,
    v: Seq<int>,
    dt0: int,
    w: int,
    h: int,
    i: int,
    j: int,
) -> int {
    if interior(i, j, w, h) {
        advect_at(d0, u, v, dt0, w, h, i, j)
    } else {
        d_init[idx(i, j, w)]
    }
}

/// The whole buffer after the advection sweep, before boundary enforcement.
pub open spec fn advect_body(
    d_init: Seq<int>,
    d0: Seq<int>,
    u: Seq<int>,
    v: Seq<int>,
    dt0: int,
    w: int,
    h: int,
) -> Seq<int> {
    grid_new(w, h, |i: int, j: int| advect_body_at(d_init, d0, u, v, dt0, w, h, i, j))
}

/// The scaled advection step `dt0 = dt * (width - 2)`.
pub open spec fn advect_dt0(dt: int, w: int) -> int {
    sat64(dt * (w - 2))
}

/// The complete advection pass: sweep, then boundary enforcement.
pub open spec fn advect_spec(
    d_init: Seq<int>,
    d0: Seq<int>,
    u: Seq<int>,
    v: Seq<int>,
    dt: int,
    b: int,
    w: int,
    h: int,
) -> Seq<int> {
    bnd(advect_body(d_init, d0, u, v, advect_dt0(dt, w), w, h), b, w, h)
}

/// Law: sampling a field at an exact grid-aligned position returns that
/// cell's value exactly — the interpolation weights collapse to 0 and 1.
pub proof fn lemma_interp_exact_at_grid_point(d0: Seq<int>, w: int, h: int, i: int, j: int)
    requires
        w >= 3,
        h >= 3,
        d0.len() == w * h,
        bounded(d0),
        0 <= i < w - 1,
        0 <= j < h - 1,
    ensures
        interp(d0, w, i * (FRAC_ONE as int), j * (FRAC_ONE as int)) == d0[idx(i, j, w)],
{
    let s = FRAC_ONE as int;
    crate::fixed::lemma_tdiv_exact(i, s);
    crate::fixed::lemma_tdiv_exact(j, s);
    lemma_idx_bound(i, j, w, h);
    lemma_idx_bound(i, j + 1, w, h);
    lemma_idx_bound(i + 1, j, w, h);
    lemma_idx_bound(i + 1, j + 1, w, h);
    crate::fixed::lemma_tdiv_zero(s);
    let d00 = d0[idx(i, j, w)];
    let d01 = d0[idx(i, j + 1, w)];
    let d10 = d0[idx(i + 1, j, w)];
    let d11 = d0[idx(i + 1, j + 1, w)];
    // the weights collapse: s1 == 0, s0 == FRAC_ONE, t1 == 0, t0 == FRAC_ONE
    assert(fxmul(s, d00) == d00) by {
        crate::fixed::lemma_tdiv_exact(d00, s);
        assert(s * d00 == d00 * s) by (nonlinear_arith);
    }
    assert(fxmul(0, d01) == 0);
    assert(fxmul(s, d00 + 0) == d00);
    let inner1 = fxmul(s, d10) + fxmul(0, d11);
    assert(fxmul(0, inner1) == 0);
    assert(interp(d0, w, i * s, j * s) == sat64(d00 + 0));
}

/// With zero velocity, the back-trace of an interior cell is its own scaled
/// position: the clamp is the identity there.
pub proof fn lemma_backtrace_zero_vel(i: int, dt0: int, dim: int)
    requires
        dim >= 3,
        1 <= i <= dim - 2,
    ensures
        backtrace(i, 0, dt0, dim) == i * (FRAC_ONE as int),
{
    crate::fixed::lemma_tdiv_zero(FRAC_ONE as int);
}

/// Advecting the all-zero field along a zero velocity field is the identity:
/// every particle traces back to its own cell and samples a zero.
pub proof fn lemma_advect_zeros(dt: int, b: int, w: int, h: int)
    requires
        w >= 3,
        h >= 3,
    ensures
        advect_spec(
            crate::grids::zeros((w * h) as nat),
            crate::grids::zeros((w * h) as nat),
            crate::grids::zeros((w * h) as nat),
            crate::grids::zeros((w * h) as nat),
            dt,
            b,
            w,
            h,
        ) == crate::grids::zeros((w * h) as nat),
{
    let z = crate::grids::zeros((w * h) as nat);
    let dt0 = advect_dt0(dt, w);
    let g = advect_body(z, z, z, z, dt0, w, h);
    assert forall|k: int| 0 <= k < g.len() implies g[k] == z[k] by {
        let i = k % w;
        let j = k / w;
        lemma_mod_division_less_than_divisor(k, w);
        lemma_multiply_divide_lt(k, w, h);
        lemma_div_is_ordered(0, k, w);
        lemma_div_multiples_vanish(0, w);
        lemma_idx_bound(i, j, w, h);
        assert(g[k] == advect_body_at(z, z, z, z, dt0, w, h, i, j));
        if interior(i, j, w, h) {
            lemma_backtrace_zero_vel(i, dt0, w);
            lemma_backtrace_zero_vel(j, dt0, h);
            lemma_interp_exact_at_grid_point(z, w, h, i, j);
        }
    }
    assert(g =~= z);
    crate::boundary::lemma_bnd_zeros(b, w, h);
}

/// Compute the clamped, scaled source coordinate.
fn backtrace_exec(pos: usize, vel: i64, dt0: i64, dim: usize) -> (r: i64)
    requires
        3 <= dim <= MAX_DIM,
        pos < dim,
        -SAT_MAX <= vel <= SAT_MAX,
        -SAT_MAX <= dt0 <= SAT_MAX,
    ensures
        r as int == backtrace(pos as int, vel as int, dt0 as int, dim as int),
        FRAC_HALF as int <= r as int <= (dim - 1) * (FRAC_ONE as int) - FRAC_HALF as int,
{
    proof {
        let m = SAT_MAX as int;
        assert((dt0 as int) * (vel as int) <= m * m && (dt0 as int) * (vel as int) >= -(m * m))
            by (nonlinear_arith)
            requires
                -m <= dt0 as int <= m,
                -m <= vel as int <= m,
        ;
    }
    let shift = div_trunc((dt0 as i128) * (vel as i128), FRAC_ONE as i128);
    proof {
        lemma_tdiv_bound(
            (dt0 as i128 * vel as i128) as int,
            FRAC_ONE as int,
            1_000_000_000_000_000_000_000_000_000_000i128 as int,
        );
    }
    let raw: i128 = (pos as i128) * (FRAC_ONE as i128) - shift;
    let lo: i128 = FRAC_HALF as i128;
    let hi: i128 = ((dim - 1) as i128) * (FRAC_ONE as i128) - (FRAC_HALF as i128);
    let r128: i128 = if raw < lo {
        lo
    } else if raw > hi {
        hi
    } else {
        raw
    };
    r128 as i64
}

/// Bilinear sample of `d0` at the scaled, already clamped position `(x, y)`.
fn interp_exec(d0: &Vec<i64>, w: usize, h: usize, x: i64, y: i64) -> (r: i64)
    requires
        3 <= w <= MAX_DIM,
        3 <= h <= MAX_DIM,
        d0@.len() == w * h,
        bounded(ints(d0@)),
        FRAC_HALF as int <= x as int <= (w - 1) * (FRAC_ONE as int) - FRAC_HALF as int,
        FRAC_HALF as int <= y as int <= (h - 1) * (FRAC_ONE as int) - FRAC_HALF as int,
    ensures
        r as int == interp(ints(d0@), w as int, x as int, y as int),
        -SAT_MAX <= r <= SAT_MAX,
{
    let ghost wi = w as int;
    let ghost hi_ = h as int;
    let ghost si = FRAC_ONE as int;
    let n = d0.len();
    proof {
        // quotient bounds: 0 <= x / FRAC_ONE <= w - 2, and likewise for y
        lemma_div_is_ordered(0, x as int, si);
        lemma_div_multiples_vanish(0, si);
        lemma_multiply_divide_lt(x as int, si, wi - 1);
        assert(si * (wi - 1) == (wi - 1) * si) by (nonlinear_arith);
        lemma_div_is_ordered(0, y as int, si);
        lemma_multiply_divide_lt(y as int, si, hi_ - 1);
        assert(si * (hi_ - 1) == (hi_ - 1) * si) by (nonlinear_arith);
    }
    let i0 = div_trunc(x as i128, FRAC_ONE as i128) as usize;
    let j0 = div_trunc(y as i128, FRAC_ONE as i128) as usize;
    proof {
        // fractional parts lie in [0, FRAC_ONE)
        lemma_fundamental_div_mod(x as int, si);
        lemma_mod_division_less_than_divisor(x as int, si);
        lemma_fundamental_div_mod(y as int, si);
        lemma_mod_division_less_than_divisor(y as int, si);
        assert(si * (i0 as int) == (i0 as int) * si) by (nonlinear_arith);
        assert(si * (j0 as int) == (j0 as int) * si) by (nonlinear_arith);
        lemma_idx_bound(i0 as int, j0 as int, wi, hi_);
        lemma_idx_bound(i0 as int, j0 as int + 1, wi, hi_);
        lemma_idx_bound(i0 as int + 1, j0 as int, wi, hi_);
        lemma_idx_bound(i0 as int + 1, j0 as int + 1, wi, hi_);
    }
    let s1: i64 = x - (i0 as i64) * FRAC_ONE;
    let s0: i64 = FRAC_ONE - s1;
    let t1: i64 = y - (j0 as i64) * FRAC_ONE;
    let t0: i64 = FRAC_ONE - t1;
    let d00 = d0[i0 + j0 * w];
    let d01 = d0[i0 + (j0 + 1) * w];
    let d10 = d0[(i0 + 1) + j0 * w];
    let d11 = d0[(i0 + 1) + (j0 + 1) * w];
    proof {
        assert(ints(d0@)[idx(i0 as int, j0 as int, wi)] == d00 as int);
        assert(ints(d0@)[idx(i0 as int, j0 as int + 1, wi)] == d01 as int);
        assert(ints(d0@)[idx(i0 as int + 1, j0 as int, wi)] == d10 as int);
        assert(ints(d0@)[idx(i0 as int + 1, j0 as int + 1, wi)] == d11 as int);
        let m = SAT_MAX as int;
        assert forall|t: int, dv: int|
            0 <= t <= si && -m <= dv <= m implies -(m * si) <= #[trigger] (t * dv) <= m * si by {
            assert(0 <= t <= si && -m <= dv <= m ==> -(m * si) <= t * dv <= m * si)
                by (nonlinear_arith);
        }
    }
    let p00 = div_trunc((t0 as i128) * (d00 as i128), FRAC_ONE as i128);
    let p01 = div_trunc((t1 as i128) * (d01 as i128), FRAC_ONE as i128);
    let p10 = div_trunc((t0 as i128) * (d10 as i128), FRAC_ONE as i128);
    let p11 = div_trunc((t1 as i128) * (d11 as i128), FRAC_ONE as i128);
    proof {
        let m = SAT_MAX as int;
        lemma_tdiv_bound((t0 as i128 * d00 as i128) as int, si, m);
        lemma_tdiv_bound((t1 as i128 * d01 as i128) as int, si, m);
        lemma_tdiv_bound((t0 as i128 * d10 as i128) as int, si, m);
        lemma_tdiv_bound((t1 as i128 * d11 as i128) as int, si, m);
    }
    let inner0: i128 = p00 + p01;
    let inner1: i128 = p10 + p11;
    proof {
        let m = SAT_MAX as int;
        assert forall|t: int, dv: int|
            0 <= t <= si && -(2 * m) <= dv <= 2 * m implies -(2 * m * si) <= #[trigger] (t * dv)
                <= 2 * m * si by {
            assert(0 <= t <= si && -(2 * m) <= dv <= 2 * m ==> -(2 * m * si) <= t * dv <= 2 * m
                * si) by (nonlinear_arith);
        }
    }
    let q0 = div_trunc((s0 as i128) * inner0, FRAC_ONE as i128);
    let q1 = div_trunc((s1 as i128) * inner1, FRAC_ONE as i128);
    proof {
        let m = SAT_MAX as int;
        lemma_tdiv_bound((s0 as i128 * inner0) as int, si, 2 * m);
        lemma_tdiv_bound((s1 as i128 * inner1) as int, si, 2 * m);
    }
    sat_narrow(q0 + q1)
}

/// Advect `d0` into `d` along the velocity field `(u, v)`, then enforce the
/// boundary with tag `b`.
pub fn advect(
    b: usize,
    d: &mut Vec<i64>,
    d0: &Vec<i64>,
    u: &Vec<i64>,
    v: &Vec<i64>,
    dt: i64,
    w: usize,
    h: usize,
)
    requires
        3 <= w <= MAX_DIM,
        3 <= h <= MAX_DIM,
        old(d)@.len() == w * h,
        d0@.len() == w * h,
        u@.len() == w * h,
        v@.len() == w * h,
        bounded(ints(old(d)@)),
        bounded(ints(d0@)),
        bounded(ints(u@)),
        bounded(ints(v@)),
        0 <= dt <= SAT_MAX,
    ensures
        final(d)@.len() == w * h,
        ints(final(d)@) == advect_spec(ints(old(d)@), ints(d0@), ints(u@), ints(v@), dt as int,
            b as int, w as int, h as int),
        bounded(ints(final(d)@)),
{
    let ghost od = ints(old(d)@);
    let ghost od0 = ints(d0@);
    let ghost ou = ints(u@);
    let ghost ov = ints(v@);
    let ghost wi = w as int;
    let ghost hi_ = h as int;
    proof {
        let m = SAT_MAX as int;
        assert((dt as int) * (wi - 2) <= m * (wi - 2) && (dt as int) * (wi - 2) >= 0)
            by (nonlinear_arith)
            requires
                0 <= dt as int <= m,
                2 < wi,
        ;
        assert(m * (wi - 2) <= m * (MAX_DIM as int)) by (nonlinear_arith)
            requires
                0 <= wi - 2 <= MAX_DIM as int,
                0 < m,
        ;
    }
    let dt0 = sat_narrow((dt as i128) * ((w - 2) as i128));
    let ghost dt0i = dt0 as int;
    let n = d.len();
    let mut i: usize = 1;
    while i < w - 1
        invariant
            3 <= w <= MAX_DIM,
            3 <= h <= MAX_DIM,
            1 <= i <= w - 1,
            n == w * h,
            d@.len() == w * h,
            d0@.len() == w * h,
            u@.len() == w * h,
            v@.len() == w * h,
            bounded(od0),
            bounded(ou),
            bounded(ov),
            bounded(ints(d@)),
            od0 == ints(d0@),
            ou == ints(u@),
            ov == ints(v@),
            od == ints(old(d)@),
            od.len() == w * h,
            wi == w as int,
            hi_ == h as int,
            dt0i == dt0 as int,
            -SAT_MAX <= dt0 <= SAT_MAX,
            forall|i2: int, j2: int|
                interior(i2, j2, wi, hi_) && i2 < i ==> ints(d@)[#[trigger] idx(i2, j2, wi)]
                    == advect_at(od0, ou, ov, dt0i, wi, hi_, i2, j2),
            forall|i2: int, j2: int|
                0 <= i2 < wi && 0 <= j2 < hi_ && !(interior(i2, j2, wi, hi_) && i2 < i)
                    ==> ints(d@)[#[trigger] idx(i2, j2, wi)] == od[idx(i2, j2, wi)],
        decreases w - 1 - i,
    {
        let mut j: usize = 1;
        while j < h - 1
            invariant
                3 <= w <= MAX_DIM,
                3 <= h <= MAX_DIM,
                1 <= i < w - 1,
                1 <= j <= h - 1,
                n == w * h,
                d@.len() == w * h,
                d0@.len() == w * h,
                u@.len() == w * h,
                v@.len() == w * h,
                bounded(od0),
                bounded(ou),
                bounded(ov),
                bounded(ints(d@)),
                od0 == ints(d0@),
                ou == ints(u@),
                ov == ints(v@),
                od == ints(old(d)@),
                od.len() == w * h,
                wi == w as int,
                hi_ == h as int,
                dt0i == dt0 as int,
                -SAT_MAX <= dt0 <= SAT_MAX,
                forall|i2: int, j2: int|
                    interior(i2, j2, wi, hi_) && (i2 < i || (i2 == i && j2 < j))
                        ==> ints(d@)[#[trigger] idx(i2, j2, wi)]
                        == advect_at(od0, ou, ov, dt0i, wi, hi_, i2, j2),
                forall|i2: int, j2: int|
                    0 <= i2 < wi && 0 <= j2 < hi_ && !(interior(i2, j2, wi, hi_) && (i2 < i || (i2
                        == i && j2 < j))) ==> ints(d@)[#[trigger] idx(i2, j2, wi)]
                        == od[idx(i2, j2, wi)],
            decreases h - 1 - j,
        {
            proof {
                lemma_idx_bound(i as int, j as int, wi, hi_);
            }
            let uv = u[i + j * w];
            let vv = v[i + j * w];
            proof {
                assert(ints(u@)[idx(i as int, j as int, wi)] == uv as int);
                assert(ints(v@)[idx(i as int, j as int, wi)] == vv as int);
            }
            let sx = backtrace_exec(i, uv, dt0, w);
            let sy = backtrace_exec(j, vv, dt0, h);
            let val = interp_exec(d0, w, h, sx, sy);
            let ghost pre = ints(d@);
            d.set(i + j * w, val);
            proof {
                assert(ints(d@) =~= pre.update(idx(i as int, j as int, wi), val as int));
                assert(val as int == advect_at(od0, ou, ov, dt0i, wi, hi_, i as int, j as int));
                assert forall|i2: int, j2: int|
                    interior(i2, j2, wi, hi_) && (i2 < i || (i2 == i && j2 < j + 1))
                        implies ints(d@)[#[trigger] idx(i2, j2, wi)]
                        == advect_at(od0, ou, ov, dt0i, wi, hi_, i2, j2) by {
                    lemma_idx_bound(i2, j2, wi, hi_);
                    if !(i2 == i && j2 == j) {
                        assert(idx(i2, j2, wi) != idx(i as int, j as int, wi)) by {
                            if idx(i2, j2, wi) == idx(i as int, j as int, wi) {
                                lemma_idx_injective(i2, j2, i as int, j as int, wi, hi_);
                            }
                        }
                    }
                }
                assert forall|i2: int, j2: int|
                    0 <= i2 < wi && 0 <= j2 < hi_ && !(interior(i2, j2, wi, hi_) && (i2 < i || (i2
                        == i && j2 < j + 1))) implies ints(d@)[#[trigger] idx(i2, j2, wi)]
                        == od[idx(i2, j2, wi)] by {
                    lemma_idx_bound(i2, j2, wi, hi_);
                    assert(idx(i2, j2, wi) != idx(i as int, j as int, wi)) by {
                        if idx(i2, j2, wi) == idx(i as int, j as int, wi) {
                            lemma_idx_injective(i2, j2, i as int, j as int, wi, hi_);
                        }
                    }
                }
            }
            j = j + 1;
        }
        i = i + 1;
    }
    proof {
        let f = |i2: int, j2: int| advect_body_at(od, od0, ou, ov, dt0i, wi, hi_, i2, j2);
        assert forall|i2: int, j2: int| 0 <= i2 < wi && 0 <= j2 < hi_
            implies ints(d@)[#[trigger] idx(i2, j2, wi)] == f(i2, j2) by {
            lemma_idx_bound(i2, j2, wi, hi_);
        }
        lemma_grid_from_pointwise(ints(d@), wi, hi_, f);
        assert(advect_body(od, od0, ou, ov, dt0i, wi, hi_) =~= grid_new(wi, hi_, f)) by {
            assert forall|k: int| 0 <= k < wi * hi_
                implies advect_body(od, od0, ou, ov, dt0i, wi, hi_)[k] == grid_new(wi, hi_, f)[k]
                by {}
        }
        assert(dt0i == advect_dt0(dt as int, wi));
    }
    set_boundaries(b, d, w, h);
}

} // verus!
