//! Boundary enforcement: reflective / no-penetration conditions at the grid
//! edges and corner averaging, applied after every relaxation sweep and after
//! every advection pass.
//!
//! Tag 0 marks a scalar field (copy the interior neighbor), tag 1 a
//! horizontal velocity (negate at the vertical walls), tag 2 a vertical
//! velocity (negate at the horizontal walls).  Corners hold the truncated
//! average of their two adjacent post-enforcement edge neighbors.

use vstd::prelude::*;
use crate::fixed::{tdiv, lemma_tdiv_bound, div_trunc, SAT_MAX};
use crate::grids::{
    ints, bounded, idx, grid_new, lemma_idx_bound, lemma_grid_new_at, lemma_grid_from_pointwise,
};
use vstd::arithmetic::div_mod::{lemma_mod_division_less_than_divisor, lemma_multiply_divide_lt};

verus! {

/// Value an edge (non-corner) cell takes from its interior neighbor.
pub open spec fn edge_val(x: Seq<int>, b: int, w: int, h: int, i: int, j: int) -> int {
    if i == 0 {
        if b == 1 { -x[idx(1, j, w)] } else { x[idx(1, j, w)] }
    } else if i == w - 1 {
        if b == 1 { -x[idx(w - 2, j, w)] } else { x[idx(w - 2, j, w)] }
    } else if j == 0 {
        if b == 2 { -x[idx(i, 1, w)] } else { x[idx(i, 1, w)] }
    } else {
        if b == 2 { -x[idx(i, h - 2, w)] } else { x[idx(i, h - 2, w)] }
    }
}

/// Value cell `(i, j)` takes under boundary enforcement of `x` with tag `b`.
pub open spec fn bnd_at(x: Seq<int>, b: int, w: int, h: int, i: int, j: int) -> int {
    if (i == 0 || i == w - 1) && (j == 0 || j == h - 1) {
        // a corner: average of the two adjacent post-enforcement edge cells
        let ei: int = if i == 0 { 1 } else { w - 2 };
        let ej: int = if j == 0 { 1 } else { h - 2 };
        tdiv(edge_val(x, b, w, h, ei, j) + edge_val(x, b, w, h, i, ej), 2)
    } else if i == 0 || i == w - 1 || j == 0 || j == h - 1 {
        edge_val(x, b, w, h, i, j)
    } else {
        x[idx(i, j, w)]
    }
}

/// The whole field after boundary enforcement.
pub open spec fn bnd(x: Seq<int>, b: int, w: int, h: int) -> Seq<int> {
    grid_new(w, h, |i: int, j: int| bnd_at(x, b, w, h, i, j))
}

/// Law: after enforcement, every left/right edge cell equals its interior
/// neighbor, negated exactly when the tag selects the horizontal velocity,
/// and every top/bottom edge cell likewise for the vertical tag.
pub proof fn lemma_boundary_reflection(x: Seq<int>, b: int, w: int, h: int)
    requires
        w >= 3,
        h >= 3,
        x.len() == w * h,
    ensures
        forall|j: int| 1 <= j < h - 1 ==> bnd(x, b, w, h)[#[trigger] idx(0, j, w)]
            == if b == 1 { -x[idx(1, j, w)] } else { x[idx(1, j, w)] },
        forall|j: int| 1 <= j < h - 1 ==> bnd(x, b, w, h)[#[trigger] idx(w - 1, j, w)]
            == if b == 1 { -x[idx(w - 2, j, w)] } else { x[idx(w - 2, j, w)] },
        forall|i: int| 1 <= i < w - 1 ==> bnd(x, b, w, h)[#[trigger] idx(i, 0, w)]
            == if b == 2 { -x[idx(i, 1, w)] } else { x[idx(i, 1, w)] },
        forall|i: int| 1 <= i < w - 1 ==> bnd(x, b, w, h)[#[trigger] idx(i, h - 1, w)]
            == if b == 2 { -x[idx(i, h - 2, w)] } else { x[idx(i, h - 2, w)] },
        forall|i: int, j: int| 1 <= i < w - 1 && 1 <= j < h - 1
            ==> bnd(x, b, w, h)[#[trigger] idx(i, j, w)] == x[idx(i, j, w)],
{
    let f = |i: int, j: int| bnd_at(x, b, w, h, i, j);
    assert forall|j: int| 1 <= j < h - 1 implies bnd(x, b, w, h)[#[trigger] idx(0, j, w)]
        == if b == 1 { -x[idx(1, j, w)] } else { x[idx(1, j, w)] } by {
        lemma_grid_new_at(w, h, f, 0, j);
    }
    assert forall|j: int| 1 <= j < h - 1 implies bnd(x, b, w, h)[#[trigger] idx(w - 1, j, w)]
        == if b == 1 { -x[idx(w - 2, j, w)] } else { x[idx(w - 2, j, w)] } by {
        lemma_grid_new_at(w, h, f, w - 1, j);
    }
    assert forall|i: int| 1 <= i < w - 1 implies bnd(x, b, w, h)[#[trigger] idx(i, 0, w)]
        == if b == 2 { -x[idx(i, 1, w)] } else { x[idx(i, 1, w)] } by {
        lemma_grid_new_at(w, h, f, i, 0);
    }
    assert forall|i: int| 1 <= i < w - 1 implies bnd(x, b, w, h)[#[trigger] idx(i, h - 1, w)]
        == if b == 2 { -x[idx(i, h - 2, w)] } else { x[idx(i, h - 2, w)] } by {
        lemma_grid_new_at(w, h, f, i, h - 1);
    }
    assert forall|i: int, j: int| 1 <= i < w - 1 && 1 <= j < h - 1
        implies bnd(x, b, w, h)[#[trigger] idx(i, j, w)] == x[idx(i, j, w)] by {
        lemma_grid_new_at(w, h, f, i, j);
    }
}

/// Law: each corner equals the truncated average of its two adjacent
/// post-enforcement edge neighbors.
pub proof fn lemma_corner_average(x: Seq<int>, b: int, w: int, h: int)
    requires
        w >= 3,
        h >= 3,
        x.len() == w * h,
    ensures
        bnd(x, b, w, h)[idx(0, 0, w)]
            == tdiv(bnd(x, b, w, h)[idx(1, 0, w)] + bnd(x, b, w, h)[idx(0, 1, w)], 2),
        bnd(x, b, w, h)[idx(w - 1, 0, w)]
            == tdiv(bnd(x, b, w, h)[idx(w - 2, 0, w)] + bnd(x, b, w, h)[idx(w - 1, 1, w)], 2),
        bnd(x, b, w, h)[idx(0, h - 1, w)]
            == tdiv(bnd(x, b, w, h)[idx(1, h - 1, w)] + bnd(x, b, w, h)[idx(0, h - 2, w)], 2),
        bnd(x, b, w, h)[idx(w - 1, h - 1, w)]
            == tdiv(
                bnd(x, b, w, h)[idx(w - 2, h - 1, w)] + bnd(x, b, w, h)[idx(w - 1, h - 2, w)],
                2,
            ),
{
    let f = |i: int, j: int| bnd_at(x, b, w, h, i, j);
    lemma_grid_new_at(w, h, f, 0, 0);
    lemma_grid_new_at(w, h, f, 1, 0);
    lemma_grid_new_at(w, h, f, 0, 1);
    lemma_grid_new_at(w, h, f, w - 1, 0);
    lemma_grid_new_at(w, h, f, w - 2, 0);
    lemma_grid_new_at(w, h, f, w - 1, 1);
    lemma_grid_new_at(w, h, f, 0, h - 1);
    lemma_grid_new_at(w, h, f, 1, h - 1);
    lemma_grid_new_at(w, h, f, 0, h - 2);
    lemma_grid_new_at(w, h, f, w - 1, h - 1);
    lemma_grid_new_at(w, h, f, w - 2, h - 1);
    lemma_grid_new_at(w, h, f, w - 1, h - 2);
}

/// Enforcement keeps every value inside the saturation range.
pub proof fn lemma_bnd_bounded(x: Seq<int>, b: int, w: int, h: int)
    requires
        w >= 3,
        h >= 3,
        x.len() == w * h,
        bounded(x),
    ensures
        bounded(bnd(x, b, w, h)),
        bnd(x, b, w, h).len() == w * h,
{
    let g = bnd(x, b, w, h);
    assert forall|k: int| 0 <= k < g.len()
        implies -(SAT_MAX as int) <= #[trigger] g[k] <= SAT_MAX as int by {
        let i = k % w;
        let j = k / w;
        lemma_mod_division_less_than_divisor(k, w);
        lemma_multiply_divide_lt(k, w, h);
        vstd::arithmetic::div_mod::lemma_div_is_ordered(0, k, w);
        vstd::arithmetic::div_mod::lemma_div_multiples_vanish(0, w);
        assert(g[k] == bnd_at(x, b, w, h, i, j));
        lemma_idx_bound(1, j, w, h);
        lemma_idx_bound(w - 2, j, w, h);
        lemma_idx_bound(i, 1, w, h);
        lemma_idx_bound(i, h - 2, w, h);
        lemma_idx_bound(i, j, w, h);
        if (i == 0 || i == w - 1) && (j == 0 || j == h - 1) {
            let ei: int = if i == 0 { 1 } else { w - 2 };
            let ej: int = if j == 0 { 1 } else { h - 2 };
            lemma_idx_bound(1, ej, w, h);
            lemma_idx_bound(w - 2, ej, w, h);
            lemma_idx_bound(ei, 1, w, h);
            lemma_idx_bound(ei, h - 2, w, h);
            let a = edge_val(x, b, w, h, ei, j);
            let c = edge_val(x, b, w, h, i, ej);
            lemma_tdiv_bound(a + c, 2, SAT_MAX as int);
        }
    }
}

/// Enforcement of the all-zero field leaves it all-zero: every edge copies
/// or negates a zero and every corner averages two zeros.
pub proof fn lemma_bnd_zeros(b: int, w: int, h: int)
    requires
        w >= 3,
        h >= 3,
    ensures
        bnd(crate::grids::zeros((w * h) as nat), b, w, h) == crate::grids::zeros((w * h) as nat),
{
    let z = crate::grids::zeros((w * h) as nat);
    let g = bnd(z, b, w, h);
    assert forall|k: int| 0 <= k < g.len() implies g[k] == z[k] by {
        let i = k % w;
        let j = k / w;
        lemma_mod_division_less_than_divisor(k, w);
        lemma_multiply_divide_lt(k, w, h);
        vstd::arithmetic::div_mod::lemma_div_is_ordered(0, k, w);
        vstd::arithmetic::div_mod::lemma_div_multiples_vanish(0, w);
        assert(g[k] == bnd_at(z, b, w, h, i, j));
        lemma_idx_bound(1, j, w, h);
        lemma_idx_bound(w - 2, j, w, h);
        lemma_idx_bound(i, 1, w, h);
        lemma_idx_bound(i, h - 2, w, h);
        lemma_idx_bound(i, j, w, h);
        if (i == 0 || i == w - 1) && (j == 0 || j == h - 1) {
            let ei: int = if i == 0 { 1 } else { w - 2 };
            let ej: int = if j == 0 { 1 } else { h - 2 };
            lemma_idx_bound(1, ej, w, h);
            lemma_idx_bound(w - 2, ej, w, h);
            lemma_idx_bound(ei, 1, w, h);
            lemma_idx_bound(ei, h - 2, w, h);
            crate::fixed::lemma_tdiv_zero(2);
        }
    }
    assert(g =~= z);
}

/// Enforce the boundary conditions on `x` in place, with tag `b`.
///
/// Left/right edges take the (tag-1-negated) value of their horizontal
/// interior neighbor, top/bottom edges the (tag-2-negated) value of their
/// vertical interior neighbor, and each corner the truncated average of its
/// two adjacent edge cells, read after edge enforcement.
pub fn set_boundaries(b: usize, x: &mut Vec<i64>, w: usize, h: usize)
    requires
        w >= 3,
        h >= 3,
        old(x)@.len() == w * h,
        bounded(ints(old(x)@)),
    ensures
        final(x)@.len() == w * h,
        ints(final(x)@) == bnd(ints(old(x)@), b as int, w as int, h as int),
        bounded(ints(final(x)@)),
{
    let ghost o = old(x)@;
    let ghost wi = w as int;
    let ghost hi = h as int;
    let n = x.len();

    // left and right edges, excluding corners
    let mut j: usize = 1;
    while j < h - 1
        invariant
            w >= 3,
            h >= 3,
            1 <= j <= h - 1,
            x@.len() == w * h,
            o.len() == w * h,
            n == w * h,
            bounded(ints(o)),
            wi == w as int,
            hi == h as int,
            forall|jj: int| 1 <= jj < j ==> x@[#[trigger] idx(0, jj, wi)] as int
                == edge_val(ints(o), b as int, wi, hi, 0, jj),
            forall|jj: int| 1 <= jj < j ==> x@[#[trigger] idx(wi - 1, jj, wi)] as int
                == edge_val(ints(o), b as int, wi, hi, wi - 1, jj),
            forall|i2: int, j2: int|
                0 <= i2 < wi && 0 <= j2 < hi && !((i2 == 0 || i2 == wi - 1) && 1 <= j2 < j)
                    ==> x@[#[trigger] idx(i2, j2, wi)] == o[idx(i2, j2, wi)],
        decreases h - 1 - j,
    {
        proof {
            lemma_idx_bound(0, j as int, wi, hi);
            lemma_idx_bound(1, j as int, wi, hi);
            lemma_idx_bound(wi - 2, j as int, wi, hi);
            lemma_idx_bound(wi - 1, j as int, wi, hi);
            assert forall|i2: int, j2: int|
                0 <= i2 < wi && 0 <= j2 < hi && !(i2 == 0 && j2 == j)
                    implies #[trigger] idx(i2, j2, wi) != idx(0, j as int, wi) by {
                if idx(i2, j2, wi) == idx(0, j as int, wi) {
                    crate::grids::lemma_idx_injective(i2, j2, 0, j as int, wi, hi);
                }
            }
            assert forall|i2: int, j2: int|
                0 <= i2 < wi && 0 <= j2 < hi && !(i2 == wi - 1 && j2 == j)
                    implies #[trigger] idx(i2, j2, wi) != idx(wi - 1, j as int, wi) by {
                if idx(i2, j2, wi) == idx(wi - 1, j as int, wi) {
                    crate::grids::lemma_idx_injective(i2, j2, wi - 1, j as int, wi, hi);
                }
            }
        }
        let nl = x[1 + j * w];
        proof {
            assert(ints(o)[idx(1, j as int, wi)] == nl as int);
        }
        let vl: i64 = if b == 1 { -nl } else { nl };
        x.set(j * w, vl);
        let nr = x[(w - 2) + j * w];
        proof {
            assert(ints(o)[idx(wi - 2, j as int, wi)] == nr as int);
        }
        let vr: i64 = if b == 1 { -nr } else { nr };
        x.set((w - 1) + j * w, vr);
        proof {
            assert(x@[idx(0, j as int, wi)] == vl);
            assert(vl as int == edge_val(ints(o), b as int, wi, hi, 0, j as int));
            assert(x@[idx(wi - 1, j as int, wi)] == vr);
            assert(vr as int == edge_val(ints(o), b as int, wi, hi, wi - 1, j as int));
            assert forall|jj: int| 1 <= jj < j implies x@[#[trigger] idx(0, jj, wi)] as int
                == edge_val(ints(o), b as int, wi, hi, 0, jj) by {
                lemma_idx_bound(0, jj, wi, hi);
                assert(idx(0, jj, wi) != idx(0, j as int, wi));
                assert(idx(0, jj, wi) != idx(wi - 1, j as int, wi));
            }
            assert forall|jj: int| 1 <= jj < j implies x@[#[trigger] idx(wi - 1, jj, wi)] as int
                == edge_val(ints(o), b as int, wi, hi, wi - 1, jj) by {
                lemma_idx_bound(wi - 1, jj, wi, hi);
                assert(idx(wi - 1, jj, wi) != idx(0, j as int, wi));
                assert(idx(wi - 1, jj, wi) != idx(wi - 1, j as int, wi));
            }
            assert forall|i2: int, j2: int|
                0 <= i2 < wi && 0 <= j2 < hi && !((i2 == 0 || i2 == wi - 1) && 1 <= j2 < j + 1)
                    implies x@[#[trigger] idx(i2, j2, wi)] == o[idx(i2, j2, wi)] by {
                lemma_idx_bound(i2, j2, wi, hi);
            }
        }
        j = j + 1;
    }

    // top and bottom edges, excluding corners
    let mut i: usize = 1;
    while i < w - 1
        invariant
            w >= 3,
            h >= 3,
            1 <= i <= w - 1,
            x@.len() == w * h,
            o.len() == w * h,
            n == w * h,
            bounded(ints(o)),
            wi == w as int,
            hi == h as int,
            forall|jj: int| 1 <= jj < hi - 1 ==> x@[#[trigger] idx(0, jj, wi)] as int
                == edge_val(ints(o), b as int, wi, hi, 0, jj),
            forall|jj: int| 1 <= jj < hi - 1 ==> x@[#[trigger] idx(wi - 1, jj, wi)] as int
                == edge_val(ints(o), b as int, wi, hi, wi - 1, jj),
            forall|ii: int| 1 <= ii < i ==> x@[#[trigger] idx(ii, 0, wi)] as int
                == edge_val(ints(o), b as int, wi, hi, ii, 0),
            forall|ii: int| 1 <= ii < i ==> x@[#[trigger] idx(ii, hi - 1, wi)] as int
                == edge_val(ints(o), b as int, wi, hi, ii, hi - 1),
            forall|i2: int, j2: int|
                0 <= i2 < wi && 0 <= j2 < hi && !((i2 == 0 || i2 == wi - 1) && 1 <= j2 < hi - 1)
                    && !((j2 == 0 || j2 == hi - 1) && 1 <= i2 < i)
                    ==> x@[#[trigger] idx(i2, j2, wi)] == o[idx(i2, j2, wi)],
        decreases w - 1 - i,
    {
        proof {
            lemma_idx_bound(i as int, 0, wi, hi);
            lemma_idx_bound(i as int, 1, wi, hi);
            lemma_idx_bound(i as int, hi - 2, wi, hi);
            lemma_idx_bound(i as int, hi - 1, wi, hi);
            assert forall|i2: int, j2: int|
                0 <= i2 < wi && 0 <= j2 < hi && !(i2 == i && j2 == 0)
                    implies #[trigger] idx(i2, j2, wi) != idx(i as int, 0, wi) by {
                if idx(i2, j2, wi) == idx(i as int, 0, wi) {
                    crate::grids::lemma_idx_injective(i2, j2, i as int, 0, wi, hi);
                }
            }
            assert forall|i2: int, j2: int|
                0 <= i2 < wi && 0 <= j2 < hi && !(i2 == i && j2 == hi - 1)
                    implies #[trigger] idx(i2, j2, wi) != idx(i as int, hi - 1, wi) by {
                if idx(i2, j2, wi) == idx(i as int, hi - 1, wi) {
                    crate::grids::lemma_idx_injective(i2, j2, i as int, hi - 1, wi, hi);
                }
            }
        }
        let nt = x[i + w];
        proof {
            assert(ints(o)[idx(i as int, 1, wi)] == nt as int);
        }
        let vt: i64 = if b == 2 { -nt } else { nt };
        x.set(i, vt);
        let nb = x[i + (h - 2) * w];
        proof {
            assert(ints(o)[idx(i as int, hi - 2, wi)] == nb as int);
        }
        let vb: i64 = if b == 2 { -nb } else { nb };
        x.set(i + (h - 1) * w, vb);
        proof {
            assert forall|jj: int| 1 <= jj < hi - 1 implies x@[#[trigger] idx(0, jj, wi)] as int
                == edge_val(ints(o), b as int, wi, hi, 0, jj) by {
                lemma_idx_bound(0, jj, wi, hi);
                assert(idx(0, jj, wi) != idx(i as int, 0, wi));
                assert(idx(0, jj, wi) != idx(i as int, hi - 1, wi));
            }
            assert forall|jj: int| 1 <= jj < hi - 1 implies x@[#[trigger] idx(wi - 1, jj, wi)] as int
                == edge_val(ints(o), b as int, wi, hi, wi - 1, jj) by {
                lemma_idx_bound(wi - 1, jj, wi, hi);
                assert(idx(wi - 1, jj, wi) != idx(i as int, 0, wi));
                assert(idx(wi - 1, jj, wi) != idx(i as int, hi - 1, wi));
            }
            assert forall|i2: int, j2: int|
                0 <= i2 < wi && 0 <= j2 < hi && !((i2 == 0 || i2 == wi - 1) && 1 <= j2 < hi - 1)
                    && !((j2 == 0 || j2 == hi - 1) && 1 <= i2 < i + 1)
                    implies x@[#[trigger] idx(i2, j2, wi)] == o[idx(i2, j2, wi)] by {
                lemma_idx_bound(i2, j2, wi, hi);
            }
        }
        i = i + 1;
    }

    // corners: average the two adjacent edge cells, post-enforcement
    proof {
        lemma_idx_bound(0, 0, wi, hi);
        lemma_idx_bound(1, 0, wi, hi);
        lemma_idx_bound(0, 1, wi, hi);
        lemma_idx_bound(wi - 1, 0, wi, hi);
        lemma_idx_bound(wi - 2, 0, wi, hi);
        lemma_idx_bound(wi - 1, 1, wi, hi);
        lemma_idx_bound(0, hi - 1, wi, hi);
        lemma_idx_bound(1, hi - 1, wi, hi);
        lemma_idx_bound(0, hi - 2, wi, hi);
        lemma_idx_bound(wi - 1, hi - 1, wi, hi);
        lemma_idx_bound(wi - 2, hi - 1, wi, hi);
        lemma_idx_bound(wi - 1, hi - 2, wi, hi);
        lemma_idx_bound(1, 1, wi, hi);
        lemma_idx_bound(wi - 2, 1, wi, hi);
        lemma_idx_bound(1, hi - 2, wi, hi);
        lemma_idx_bound(wi - 2, hi - 2, wi, hi);
    }
    let c_tl = corner_avg(x[1], x[w]);
    let c_tr = corner_avg(x[w - 2], x[(w - 1) + w]);
    let c_bl = corner_avg(x[1 + (h - 1) * w], x[(h - 2) * w]);
    let c_br = corner_avg(x[(w - 2) + (h - 1) * w], x[(w - 1) + (h - 2) * w]);
    proof {
        assert forall|i2: int, j2: int|
            0 <= i2 < wi && 0 <= j2 < hi
                && !((i2 == 0 || i2 == wi - 1) && (j2 == 0 || j2 == hi - 1))
                implies #[trigger] idx(i2, j2, wi) != idx(0, 0, wi) && idx(i2, j2, wi) != idx(wi - 1, 0, wi)
                    && idx(i2, j2, wi) != idx(0, hi - 1, wi)
                    && idx(i2, j2, wi) != idx(wi - 1, hi - 1, wi) by {
            if idx(i2, j2, wi) == idx(0, 0, wi) {
                crate::grids::lemma_idx_injective(i2, j2, 0, 0, wi, hi);
            }
            if idx(i2, j2, wi) == idx(wi - 1, 0, wi) {
                crate::grids::lemma_idx_injective(i2, j2, wi - 1, 0, wi, hi);
            }
            if idx(i2, j2, wi) == idx(0, hi - 1, wi) {
                crate::grids::lemma_idx_injective(i2, j2, 0, hi - 1, wi, hi);
            }
            if idx(i2, j2, wi) == idx(wi - 1, hi - 1, wi) {
                crate::grids::lemma_idx_injective(i2, j2, wi - 1, hi - 1, wi, hi);
            }
        }
        assert(idx(0, 0, wi) != idx(wi - 1, 0, wi)) by {
            if idx(0, 0, wi) == idx(wi - 1, 0, wi) {
                crate::grids::lemma_idx_injective(0, 0, wi - 1, 0, wi, hi);
            }
        }
        assert(idx(0, 0, wi) != idx(0, hi - 1, wi)) by {
            if idx(0, 0, wi) == idx(0, hi - 1, wi) {
                crate::grids::lemma_idx_injective(0, 0, 0, hi - 1, wi, hi);
            }
        }
        assert(idx(0, 0, wi) != idx(wi - 1, hi - 1, wi)) by {
            if idx(0, 0, wi) == idx(wi - 1, hi - 1, wi) {
                crate::grids::lemma_idx_injective(0, 0, wi - 1, hi - 1, wi, hi);
            }
        }
        assert(idx(wi - 1, 0, wi) != idx(0, hi - 1, wi)) by {
            if idx(wi - 1, 0, wi) == idx(0, hi - 1, wi) {
                crate::grids::lemma_idx_injective(wi - 1, 0, 0, hi - 1, wi, hi);
            }
        }
        assert(idx(wi - 1, 0, wi) != idx(wi - 1, hi - 1, wi)) by {
            if idx(wi - 1, 0, wi) == idx(wi - 1, hi - 1, wi) {
                crate::grids::lemma_idx_injective(wi - 1, 0, wi - 1, hi - 1, wi, hi);
            }
        }
        assert(idx(0, hi - 1, wi) != idx(wi - 1, hi - 1, wi)) by {
            if idx(0, hi - 1, wi) == idx(wi - 1, hi - 1, wi) {
                crate::grids::lemma_idx_injective(0, hi - 1, wi - 1, hi - 1, wi, hi);
            }
        }
    }
    x.set(0, c_tl);
    x.set(w - 1, c_tr);
    x.set((h - 1) * w, c_bl);
    x.set((w - 1) + (h - 1) * w, c_br);

    proof {
        let oi = ints(o);
        let bi = b as int;
        let f = |i2: int, j2: int| bnd_at(oi, bi, wi, hi, i2, j2);
        assert forall|i2: int, j2: int| 0 <= i2 < wi && 0 <= j2 < hi
            implies ints(x@)[#[trigger] idx(i2, j2, wi)] == f(i2, j2) by {
            lemma_idx_bound(i2, j2, wi, hi);
            assert(ints(x@)[idx(i2, j2, wi)] == x@[idx(i2, j2, wi)] as int);
        }
        lemma_grid_from_pointwise(ints(x@), wi, hi, f);
        lemma_bnd_bounded(oi, bi, wi, hi);
    }
}

/// Truncated average of two adjacent edge values, used at the corners.
fn corner_avg(a: i64, c: i64) -> (r: i64)
    requires
        -SAT_MAX <= a <= SAT_MAX,
        -SAT_MAX <= c <= SAT_MAX,
    ensures
        r as int == tdiv(a as int + c as int, 2),
        -SAT_MAX <= r <= SAT_MAX,
{
    let s: i128 = a as i128 + c as i128;
    let q = div_trunc(s, 2);
    proof {
        lemma_tdiv_bound(s as int, 2, SAT_MAX as int);
    }
    q as i64
}

} // verus!
