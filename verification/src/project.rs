//! Projection: enforce near-zero divergence (incompressibility) on the
//! velocity field.
//!
//! The pass computes the discrete divergence of the velocity at every
//! interior cell, solves a pressure Poisson system from it with the linear
//! solver (`a = 1`, `c = 4`), and subtracts the discrete pressure gradient
//! from each velocity component, re-enforcing the boundary with tags 1 and 2.

use vstd::prelude::*;
use crate::fixed::{tdiv, sat64, lemma_tdiv_bound, div_trunc, sat_narrow, FRAC_ONE, SAT_MAX};
use crate::grids::{
    ints, bounded, idx, interior, zeros, grid_new, zero_buffer, lemma_idx_bound,
    lemma_idx_injective, lemma_grid_from_pointwise,
};
use crate::boundary::{bnd, set_boundaries};
use crate::solver::{lin_solve, lin_solve_spec};

verus! {

/// Discrete divergence at interior cell `(i, j)`:
/// `-0.5 * (vx[right] - vx[left] + vy[bottom] - vy[top]) / width`.
pub open spec fn div_at(vx: Seq<int>, vy: Seq<int>, w: int, h: int, i: int, j: int) -> int {
    tdiv(
        -(vx[idx(i + 1, j, w)] - vx[idx(i - 1, j, w)] + vy[idx(i, j + 1, w)] - vy[idx(
            i,
            j - 1,
            w,
        )]),
        2 * w,
    )
}

/// The divergence buffer before boundary enforcement: interior cells hold
/// the discrete divergence, the rest stay zero.
pub open spec fn div_pre(vx: Seq<int>, vy: Seq<int>, w: int, h: int) -> Seq<int> {
    grid_new(
        w,
        h,
        |i: int, j: int| if interior(i, j, w, h) {
            div_at(vx, vy, w, h, i, j)
        } else {
            0
        },
    )
}

/// The divergence field handed to the pressure solve.
pub open spec fn div_field(vx: Seq<int>, vy: Seq<int>, w: int, h: int) -> Seq<int> {
    bnd(div_pre(vx, vy, w, h), 0, w, h)
}

/// The pressure field: a linear solve with `a = 1`, `c = 4` from a
/// zero-seeded, boundary-enforced initial guess.
pub open spec fn pressure(vx: Seq<int>, vy: Seq<int>, w: int, h: int) -> Seq<int> {
    lin_solve_spec(
        bnd(zeros((w * h) as nat), 0, w, h),
        div_field(vx, vy, w, h),
        FRAC_ONE as int,
        4 * (FRAC_ONE as int),
        0,
        w,
        h,
    )
}

/// The horizontal velocity after the pressure-gradient subtraction at
/// interior cell `(i, j)`: `vx[i] - 0.5 * (p[right] - p[left]) * width`.
pub open spec fn grad_x_at(vx: Seq<int>, p: Seq<int>, w: int, i: int, j: int) -> int {
    sat64(vx[idx(i, j, w)] - tdiv((p[idx(i + 1, j, w)] - p[idx(i - 1, j, w)]) * w, 2))
}

/// The vertical velocity after the pressure-gradient subtraction.
pub open spec fn grad_y_at(vy: Seq<int>, p: Seq<int>, w: int, i: int, j: int) -> int {
    sat64(vy[idx(i, j, w)] - tdiv((p[idx(i, j + 1, w)] - p[idx(i, j - 1, w)]) * w, 2))
}

/// The projected horizontal velocity component.
pub open spec fn project_x(vx: Seq<int>, vy: Seq<int>, w: int, h: int) -> Seq<int> {
    let p = pressure(vx, vy, w, h);
    bnd(
        grid_new(
            w,
            h,
            |i: int, j: int| if interior(i, j, w, h) {
                grad_x_at(vx, p, w, i, j)
            } else {
                vx[idx(i, j, w)]
            },
        ),
        1,
        w,
        h,
    )
}

/// The projected vertical velocity component.
pub open spec fn project_y(vx: Seq<int>, vy: Seq<int>, w: int, h: int) -> Seq<int> {
    let p = pressure(vx, vy, w, h);
    bnd(
        grid_new(
            w,
            h,
            |i: int, j: int| if interior(i, j, w, h) {
                grad_y_at(vy, p, w, i, j)
            } else {
                vy[idx(i, j, w)]
            },
        ),
        2,
        w,
        h,
    )
}

/// Projecting a zero velocity field is the identity: the divergence is zero,
/// the pressure solve stays zero, and the gradient subtraction removes
/// nothing.
pub proof fn lemma_project_zeros(w: int, h: int)
    requires
        w >= 3,
        h >= 3,
    ensures
        project_x(
            crate::grids::zeros((w * h) as nat),
            crate::grids::zeros((w * h) as nat),
            w,
            h,
        ) == crate::grids::zeros((w * h) as nat),
        project_y(
            crate::grids::zeros((w * h) as nat),
            crate::grids::zeros((w * h) as nat),
            w,
            h,
        ) == crate::grids::zeros((w * h) as nat),
{
    let z = crate::grids::zeros((w * h) as nat);
    assert(div_pre(z, z, w, h) =~= z) by {
        assert forall|k: int| 0 <= k < (w * h) implies div_pre(z, z, w, h)[k] == z[k] by {
            let i = k % w;
            let j = k / w;
            vstd::arithmetic::div_mod::lemma_mod_division_less_than_divisor(k, w);
            vstd::arithmetic::div_mod::lemma_multiply_divide_lt(k, w, h);
            vstd::arithmetic::div_mod::lemma_div_is_ordered(0, k, w);
            vstd::arithmetic::div_mod::lemma_div_multiples_vanish(0, w);
            if interior(i, j, w, h) {
                lemma_idx_bound(i - 1, j, w, h);
                lemma_idx_bound(i + 1, j, w, h);
                lemma_idx_bound(i, j - 1, w, h);
                lemma_idx_bound(i, j + 1, w, h);
                crate::fixed::lemma_tdiv_zero(2 * w);
            } else {
                lemma_idx_bound(i, j, w, h);
            }
        }
    }
    crate::boundary::lemma_bnd_zeros(0, w, h);
    assert(div_field(z, z, w, h) == z);
    crate::solver::lemma_lin_iter_zeros(FRAC_ONE as int, 4 * (FRAC_ONE as int), 0, w, h,
        crate::solver::RELAX_ITERATIONS as nat);
    assert(pressure(z, z, w, h) == z);
    let gx = grid_new(
        w,
        h,
        |i: int, j: int| if interior(i, j, w, h) {
            grad_x_at(z, pressure(z, z, w, h), w, i, j)
        } else {
            z[idx(i, j, w)]
        },
    );
    assert(gx =~= z) by {
        assert forall|k: int| 0 <= k < (w * h) implies gx[k] == z[k] by {
            let i = k % w;
            let j = k / w;
            vstd::arithmetic::div_mod::lemma_mod_division_less_than_divisor(k, w);
            vstd::arithmetic::div_mod::lemma_multiply_divide_lt(k, w, h);
            vstd::arithmetic::div_mod::lemma_div_is_ordered(0, k, w);
            vstd::arithmetic::div_mod::lemma_div_multiples_vanish(0, w);
            lemma_idx_bound(i, j, w, h);
            if interior(i, j, w, h) {
                lemma_idx_bound(i - 1, j, w, h);
                lemma_idx_bound(i + 1, j, w, h);
                crate::fixed::lemma_tdiv_zero(2);
            }
        }
    }
    let gy = grid_new(
        w,
        h,
        |i: int, j: int| if interior(i, j, w, h) {
            grad_y_at(z, pressure(z, z, w, h), w, i, j)
        } else {
            z[idx(i, j, w)]
        },
    );
    assert(gy =~= z) by {
        assert forall|k: int| 0 <= k < (w * h) implies gy[k] == z[k] by {
            let i = k % w;
            let j = k / w;
            vstd::arithmetic::div_mod::lemma_mod_division_less_than_divisor(k, w);
            vstd::arithmetic::div_mod::lemma_multiply_divide_lt(k, w, h);
            vstd::arithmetic::div_mod::lemma_div_is_ordered(0, k, w);
            vstd::arithmetic::div_mod::lemma_div_multiples_vanish(0, w);
            lemma_idx_bound(i, j, w, h);
            if interior(i, j, w, h) {
                lemma_idx_bound(i, j - 1, w, h);
                lemma_idx_bound(i, j + 1, w, h);
                crate::fixed::lemma_tdiv_zero(2);
            }
        }
    }
    crate::boundary::lemma_bnd_zeros(1, w, h);
    crate::boundary::lemma_bnd_zeros(2, w, h);
}

/// Project the velocity field `(vx, vy)` onto its divergence-free part, in
/// place: divergence, pressure solve, gradient subtraction, boundary
/// enforcement.
#[verifier::rlimit(80)]
pub fn project(vx: &mut Vec<i64>, vy: &mut Vec<i64>, w: usize, h: usize)
    requires
        w >= 3,
        h >= 3,
        old(vx)@.len() == w * h,
        old(vy)@.len() == w * h,
        bounded(ints(old(vx)@)),
        bounded(ints(old(vy)@)),
    ensures
        final(vx)@.len() == w * h,
        final(vy)@.len() == w * h,
        ints(final(vx)@) == project_x(ints(old(vx)@), ints(old(vy)@), w as int, h as int),
        ints(final(vy)@) == project_y(ints(old(vx)@), ints(old(vy)@), w as int, h as int),
        bounded(ints(final(vx)@)),
        bounded(ints(final(vy)@)),
{
    let ghost ovx = ints(old(vx)@);
    let ghost ovy = ints(old(vy)@);
    let ghost wi = w as int;
    let ghost hi_ = h as int;
    let n = vx.len();

    // divergence of the velocity field at every interior cell
    let mut div = zero_buffer(n);
    proof {
        assert forall|i2: int, j2: int| 0 <= i2 < wi && 0 <= j2 < hi_
            implies ints(div@)[#[trigger] idx(i2, j2, wi)] == 0 by {
            lemma_idx_bound(i2, j2, wi, hi_);
        }
    }
    let mut i: usize = 1;
    while i < w - 1
        invariant
            w >= 3,
            h >= 3,
            1 <= i <= w - 1,
            n == w * h,
            div@.len() == w * h,
            vx@.len() == w * h,
            vy@.len() == w * h,
            bounded(ints(vx@)),
            bounded(ints(vy@)),
            bounded(ints(div@)),
            ovx == ints(vx@),
            ovy == ints(vy@),
            wi == w as int,
            hi_ == h as int,
            forall|i2: int, j2: int|
                interior(i2, j2, wi, hi_) && i2 < i ==> ints(div@)[#[trigger] idx(i2, j2, wi)]
                    == div_at(ovx, ovy, wi, hi_, i2, j2),
            forall|i2: int, j2: int|
                0 <= i2 < wi && 0 <= j2 < hi_ && !(interior(i2, j2, wi, hi_) && i2 < i)
                    ==> ints(div@)[#[trigger] idx(i2, j2, wi)] == 0,
        decreases w - 1 - i,
    {
        let mut j: usize = 1;
        while j < h - 1
            invariant
                w >= 3,
                h >= 3,
                1 <= i < w - 1,
                1 <= j <= h - 1,
                n == w * h,
                div@.len() == w * h,
                vx@.len() == w * h,
                vy@.len() == w * h,
                bounded(ints(vx@)),
                bounded(ints(vy@)),
                bounded(ints(div@)),
                ovx == ints(vx@),
                ovy == ints(vy@),
                wi == w as int,
                hi_ == h as int,
                forall|i2: int, j2: int|
                    interior(i2, j2, wi, hi_) && (i2 < i || (i2 == i && j2 < j))
                        ==> ints(div@)[#[trigger] idx(i2, j2, wi)]
                        == div_at(ovx, ovy, wi, hi_, i2, j2),
                forall|i2: int, j2: int|
                    0 <= i2 < wi && 0 <= j2 < hi_ && !(interior(i2, j2, wi, hi_) && (i2 < i || (i2
                        == i && j2 < j))) ==> ints(div@)[#[trigger] idx(i2, j2, wi)] == 0,
            decreases h - 1 - j,
        {
            proof {
                lemma_idx_bound(i as int, j as int, wi, hi_);
                lemma_idx_bound(i as int - 1, j as int, wi, hi_);
                lemma_idx_bound(i as int + 1, j as int, wi, hi_);
                lemma_idx_bound(i as int, j as int - 1, wi, hi_);
                lemma_idx_bound(i as int, j as int + 1, wi, hi_);
            }
            let vxr = vx[(i + 1) + j * w];
            let vxl = vx[(i - 1) + j * w];
            let vyb = vy[i + (j + 1) * w];
            let vyt = vy[i + (j - 1) * w];
            proof {
                assert(ints(vx@)[idx(i as int + 1, j as int, wi)] == vxr as int);
                assert(ints(vx@)[idx(i as int - 1, j as int, wi)] == vxl as int);
                assert(ints(vy@)[idx(i as int, j as int + 1, wi)] == vyb as int);
                assert(ints(vy@)[idx(i as int, j as int - 1, wi)] == vyt as int);
            }
            let sum: i128 = vxr as i128 - vxl as i128 + vyb as i128 - vyt as i128;
            let q = div_trunc(-sum, 2 * (w as i128));
            proof {
                lemma_tdiv_bound(-sum as int, 2 * wi, SAT_MAX as int);
            }
            let val = q as i64;
            let ghost pre = ints(div@);
            div.set(i + j * w, val);
            proof {
                assert(ints(div@) =~= pre.update(idx(i as int, j as int, wi), val as int));
                assert(val as int == div_at(ovx, ovy, wi, hi_, i as int, j as int));
                assert forall|i2: int, j2: int|
                    interior(i2, j2, wi, hi_) && (i2 < i || (i2 == i && j2 < j + 1))
                        implies ints(div@)[#[trigger] idx(i2, j2, wi)]
                        == div_at(ovx, ovy, wi, hi_, i2, j2) by {
                    lemma_idx_bound(i2, j2, wi, hi_);
                    if !(i2 == i && j2 == j) {
                        assert(idx(i2, j2, wi) != idx(i as int, j as int, wi)) by {
                            if idx(i2, j2, wi) == idx(i as int, j as int, wi) {
                                lemma_idx_injective(i2, j2, i as int, j as int, wi, hi_);
                            }
                        }
                    }
                }
                assert forall|i2: int, j2: int|
                    0 <= i2 < wi && 0 <= j2 < hi_ && !(interior(i2, j2, wi, hi_) && (i2 < i || (i2
                        == i && j2 < j + 1))) implies ints(div@)[#[trigger] idx(i2, j2, wi)] == 0
                    by {
                    lemma_idx_bound(i2, j2, wi, hi_);
                    assert(idx(i2, j2, wi) != idx(i as int, j as int, wi)) by {
                        if idx(i2, j2, wi) == idx(i as int, j as int, wi) {
                            lemma_idx_injective(i2, j2, i as int, j as int, wi, hi_);
                        }
                    }
                }
            }
            j = j + 1;
        }
        i = i + 1;
    }
    proof {
        let fd = |i2: int, j2: int|
            if interior(i2, j2, wi, hi_) {
                div_at(ovx, ovy, wi, hi_, i2, j2)
            } else {
                0
            };
        assert forall|i2: int, j2: int| 0 <= i2 < wi && 0 <= j2 < hi_
            implies ints(div@)[#[trigger] idx(i2, j2, wi)] == fd(i2, j2) by {
            lemma_idx_bound(i2, j2, wi, hi_);
        }
        lemma_grid_from_pointwise(ints(div@), wi, hi_, fd);
        assert(div_pre(ovx, ovy, wi, hi_) =~= grid_new(wi, hi_, fd)) by {
            assert forall|k: int| 0 <= k < wi * hi_
                implies div_pre(ovx, ovy, wi, hi_)[k] == grid_new(wi, hi_, fd)[k] by {}
        }
    }
    set_boundaries(0, &mut div, w, h);

    // pressure solve from a zero-seeded, boundary-enforced initial guess
    let mut p = zero_buffer(n);
    proof {
        assert(ints(p@) =~= zeros((wi * hi_) as nat));
    }
    set_boundaries(0, &mut p, w, h);
    lin_solve(0, &mut p, &div, FRAC_ONE, 4 * FRAC_ONE, w, h);
    proof {
        assert(ints(p@) == pressure(ovx, ovy, wi, hi_));
    }
    let ghost op = ints(p@);

    // subtract the pressure gradient from both velocity components
    let mut i: usize = 1;
    while i < w - 1
        invariant
            w >= 3,
            h >= 3,
            1 <= i <= w - 1,
            n == w * h,
            p@.len() == w * h,
            vx@.len() == w * h,
            vy@.len() == w * h,
            bounded(ints(vx@)),
            bounded(ints(vy@)),
            bounded(op),
            op == ints(p@),
            ovx.len() == w * h,
            ovy.len() == w * h,
            bounded(ovx),
            bounded(ovy),
            wi == w as int,
            hi_ == h as int,
            forall|i2: int, j2: int|
                interior(i2, j2, wi, hi_) && i2 < i ==> ints(vx@)[#[trigger] idx(i2, j2, wi)]
                    == grad_x_at(ovx, op, wi, i2, j2),
            forall|i2: int, j2: int|
                0 <= i2 < wi && 0 <= j2 < hi_ && !(interior(i2, j2, wi, hi_) && i2 < i)
                    ==> ints(vx@)[#[trigger] idx(i2, j2, wi)] == ovx[idx(i2, j2, wi)],
            forall|i2: int, j2: int|
                interior(i2, j2, wi, hi_) && i2 < i ==> ints(vy@)[#[trigger] idx(i2, j2, wi)]
                    == grad_y_at(ovy, op, wi, i2, j2),
            forall|i2: int, j2: int|
                0 <= i2 < wi && 0 <= j2 < hi_ && !(interior(i2, j2, wi, hi_) && i2 < i)
                    ==> ints(vy@)[#[trigger] idx(i2, j2, wi)] == ovy[idx(i2, j2, wi)],
        decreases w - 1 - i,
    {
        let mut j: usize = 1;
        while j < h - 1
            invariant
                w >= 3,
                h >= 3,
                1 <= i < w - 1,
                1 <= j <= h - 1,
                n == w * h,
                p@.len() == w * h,
                vx@.len() == w * h,
                vy@.len() == w * h,
                bounded(ints(vx@)),
                bounded(ints(vy@)),
                bounded(op),
                op == ints(p@),
                ovx.len() == w * h,
                ovy.len() == w * h,
                bounded(ovx),
                bounded(ovy),
                wi == w as int,
                hi_ == h as int,
                forall|i2: int, j2: int|
                    interior(i2, j2, wi, hi_) && (i2 < i || (i2 == i && j2 < j))
                        ==> ints(vx@)[#[trigger] idx(i2, j2, wi)] == grad_x_at(ovx, op, wi, i2,
                        j2),
                forall|i2: int, j2: int|
                    0 <= i2 < wi && 0 <= j2 < hi_ && !(interior(i2, j2, wi, hi_) && (i2 < i || (i2
                        == i && j2 < j))) ==> ints(vx@)[#[trigger] idx(i2, j2, wi)] == ovx[idx(
                        i2,
                        j2,
                        wi,
                    )],
                forall|i2: int, j2: int|
                    interior(i2, j2, wi, hi_) && (i2 < i || (i2 == i && j2 < j))
                        ==> ints(vy@)[#[trigger] idx(i2, j2, wi)] == grad_y_at(ovy, op, wi, i2,
                        j2),
                forall|i2: int, j2: int|
                    0 <= i2 < wi && 0 <= j2 < hi_ && !(interior(i2, j2, wi, hi_) && (i2 < i || (i2
                        == i && j2 < j))) ==> ints(vy@)[#[trigger] idx(i2, j2, wi)] == ovy[idx(
                        i2,
                        j2,
                        wi,
                    )],
            decreases h - 1 - j,
        {
            proof {
                lemma_idx_bound(i as int, j as int, wi, hi_);
                lemma_idx_bound(i as int - 1, j as int, wi, hi_);
                lemma_idx_bound(i as int + 1, j as int, wi, hi_);
                lemma_idx_bound(i as int, j as int - 1, wi, hi_);
                lemma_idx_bound(i as int, j as int + 1, wi, hi_);
            }
            let pr = p[(i + 1) + j * w];
            let pl = p[(i - 1) + j * w];
            let pb = p[i + (j + 1) * w];
            let pt = p[i + (j - 1) * w];
            let vxv = vx[i + j * w];
            let vyv = vy[i + j * w];
            proof {
                assert(ints(p@)[idx(i as int + 1, j as int, wi)] == pr as int);
                assert(ints(p@)[idx(i as int - 1, j as int, wi)] == pl as int);
                assert(ints(p@)[idx(i as int, j as int + 1, wi)] == pb as int);
                assert(ints(p@)[idx(i as int, j as int - 1, wi)] == pt as int);
                assert(ints(vx@)[idx(i as int, j as int, wi)] == vxv as int);
                assert(ints(vy@)[idx(i as int, j as int, wi)] == vyv as int);
                let m = SAT_MAX as int;
                assert forall|dd: int, ww: int|
                    -(2 * m) <= dd <= 2 * m && 0 <= ww <= usize::MAX as int implies -(2 * m * (
                    usize::MAX as int)) <= #[trigger] (dd * ww) <= 2 * m * (usize::MAX as int) by {
                    assert(-(2 * m) <= dd <= 2 * m && 0 <= ww <= usize::MAX as int ==> -(2 * m * (
                    usize::MAX as int)) <= dd * ww <= 2 * m * (usize::MAX as int))
                        by (nonlinear_arith);
                }
            }
            let gx = div_trunc((pr as i128 - pl as i128) * (w as i128), 2);
            let gy = div_trunc((pb as i128 - pt as i128) * (w as i128), 2);
            proof {
                let m = SAT_MAX as int;
                lemma_tdiv_bound(((pr as i128 - pl as i128) * (w as i128)) as int, 2, m * (
                usize::MAX as int));
                lemma_tdiv_bound(((pb as i128 - pt as i128) * (w as i128)) as int, 2, m * (
                usize::MAX as int));
            }
            let nvx = sat_narrow((vxv as i128) - gx);
            let nvy = sat_narrow((vyv as i128) - gy);
            let ghost prex = ints(vx@);
            let ghost prey = ints(vy@);
            vx.set(i + j * w, nvx);
            vy.set(i + j * w, nvy);
            proof {
                assert(ints(vx@) =~= prex.update(idx(i as int, j as int, wi), nvx as int));
                assert(ints(vy@) =~= prey.update(idx(i as int, j as int, wi), nvy as int));
                assert(nvx as int == grad_x_at(ovx, op, wi, i as int, j as int));
                assert(nvy as int == grad_y_at(ovy, op, wi, i as int, j as int));
                assert forall|i2: int, j2: int|
                    interior(i2, j2, wi, hi_) && (i2 < i || (i2 == i && j2 < j + 1))
                        implies ints(vx@)[#[trigger] idx(i2, j2, wi)]
                        == grad_x_at(ovx, op, wi, i2, j2) && ints(vy@)[idx(i2, j2, wi)]
                        == grad_y_at(ovy, op, wi, i2, j2) by {
                    lemma_idx_bound(i2, j2, wi, hi_);
                    if !(i2 == i && j2 == j) {
                        assert(idx(i2, j2, wi) != idx(i as int, j as int, wi)) by {
                            if idx(i2, j2, wi) == idx(i as int, j as int, wi) {
                                lemma_idx_injective(i2, j2, i as int, j as int, wi, hi_);
                            }
                        }
                    }
                }
                assert forall|i2: int, j2: int|
                    0 <= i2 < wi && 0 <= j2 < hi_ && !(interior(i2, j2, wi, hi_) && (i2 < i || (i2
                        == i && j2 < j + 1))) implies ints(vx@)[#[trigger] idx(i2, j2, wi)]
                        == ovx[idx(i2, j2, wi)] && ints(vy@)[idx(i2, j2, wi)] == ovy[idx(
                        i2,
                        j2,
                        wi,
                    )] by {
                    lemma_idx_bound(i2, j2, wi, hi_);
                    assert(idx(i2, j2, wi) != idx(i as int, j as int, wi)) by {
                        if idx(i2, j2, wi) == idx(i as int, j as int, wi) {
                            lemma_idx_injective(i2, j2, i as int, j as int, wi, hi_);
                        }
                    }
                }
            }
            j = j + 1;
        }
        i = i + 1;
    }
    proof {
        let fx = |i2: int, j2: int|
            if interior(i2, j2, wi, hi_) {
                grad_x_at(ovx, op, wi, i2, j2)
            } else {
                ovx[idx(i2, j2, wi)]
            };
        let fy = |i2: int, j2: int|
            if interior(i2, j2, wi, hi_) {
                grad_y_at(ovy, op, wi, i2, j2)
            } else {
                ovy[idx(i2, j2, wi)]
            };
        assert forall|i2: int, j2: int| 0 <= i2 < wi && 0 <= j2 < hi_
            implies ints(vx@)[#[trigger] idx(i2, j2, wi)] == fx(i2, j2) && ints(vy@)[idx(
            i2,
            j2,
            wi,
        )] == fy(i2, j2) by {
            lemma_idx_bound(i2, j2, wi, hi_);
        }
        lemma_grid_from_pointwise(ints(vx@), wi, hi_, fx);
        lemma_grid_from_pointwise(ints(vy@), wi, hi_, fy);
        let px = |i2: int, j2: int|
            if interior(i2, j2, wi, hi_) {
                grad_x_at(ovx, pressure(ovx, ovy, wi, hi_), wi, i2, j2)
            } else {
                ovx[idx(i2, j2, wi)]
            };
        let py = |i2: int, j2: int|
            if interior(i2, j2, wi, hi_) {
                grad_y_at(ovy, pressure(ovx, ovy, wi, hi_), wi, i2, j2)
            } else {
                ovy[idx(i2, j2, wi)]
            };
        assert(grid_new(wi, hi_, px) =~= grid_new(wi, hi_, fx)) by {
            assert forall|k: int| 0 <= k < wi * hi_
                implies grid_new(wi, hi_, px)[k] == grid_new(wi, hi_, fx)[k] by {}
        }
        assert(grid_new(wi, hi_, py) =~= grid_new(wi, hi_, fy)) by {
            assert forall|k: int| 0 <= k < wi * hi_
                implies grid_new(wi, hi_, py)[k] == grid_new(wi, hi_, fy)[k] by {}
        }
    }
    set_boundaries(1, vx, w, h);
    set_boundaries(2, vy, w, h);
}

} // verus!
