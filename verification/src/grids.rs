//! The mathematical model of a field buffer.
//!
//! A field over a `width x height` grid is a flat row-major sequence of
//! `width * height` scalars (`index = x + y * width`).  Contracts are stated
//! over `Seq<int>`; `ints` maps an executable buffer to that model.

use vstd::prelude::*;
use vstd::arithmetic::div_mod::{
    lemma_fundamental_div_mod, lemma_fundamental_div_mod_converse_div,
    lemma_fundamental_div_mod_converse_mod, lemma_mod_division_less_than_divisor,
    lemma_multiply_divide_lt,
};
use crate::fixed::SAT_MAX;

verus! {

/// Largest supported grid side: keeps every scaled coordinate that advection
/// builds from a cell position comfortably inside the scalar range.
pub const MAX_DIM: usize = 1_000_000;

/// Mathematical contents of a buffer.
pub open spec fn ints(s: Seq<i64>) -> Seq<int> {
    s.map_values(|v: i64| v as int)
}

/// Every element lies within the saturation range.
pub open spec fn bounded(s: Seq<int>) -> bool {
    forall|k: int| 0 <= k < s.len() ==> -(SAT_MAX as int) <= #[trigger] s[k] <= SAT_MAX as int
}

/// The all-zero field of `n` cells.
pub open spec fn zeros(n: nat) -> Seq<int> {
    Seq::new(n, |k: int| 0)
}

/// Row-major index of the cell in column `i`, row `j`.
pub open spec fn idx(i: int, j: int, w: int) -> int {
    i + j * w
}

/// Is `(i, j)` an interior cell (not on any edge)?
pub open spec fn interior(i: int, j: int, w: int, h: int) -> bool {
    1 <= i < w - 1 && 1 <= j < h - 1
}

/// The field whose cell `(i, j)` holds `f(i, j)`.
pub open spec fn grid_new(w: int, h: int, f: spec_fn(int, int) -> int) -> Seq<int> {
    Seq::new((w * h) as nat, |k: int| f(k % w, k / w))
}

/// Row-major indices of in-range cells are in range.
pub proof fn lemma_idx_bound(i: int, j: int, w: int, h: int)
    requires
        0 <= i < w,
        0 <= j < h,
    ensures
        0 <= idx(i, j, w) < w * h,
        j * w <= idx(i, j, w),
        0 <= j * w,
{
    assert(0 <= j * w && i + j * w < w * h) by (nonlinear_arith)
        requires
            0 <= i < w,
            0 <= j < h,
    ;
}

/// Looking a cell up in a `grid_new` field gives the generating function.
pub proof fn lemma_grid_new_at(w: int, h: int, f: spec_fn(int, int) -> int, i: int, j: int)
    requires
        0 <= i < w,
        0 <= j < h,
    ensures
        grid_new(w, h, f)[idx(i, j, w)] == f(i, j),
{
    lemma_idx_bound(i, j, w, h);
    lemma_fundamental_div_mod_converse_div(i + j * w, w, j, i);
    lemma_fundamental_div_mod_converse_mod(i + j * w, w, j, i);
}

/// A buffer that agrees with `f` at every cell is the `grid_new` field.
pub proof fn lemma_grid_from_pointwise(s: Seq<int>, w: int, h: int, f: spec_fn(int, int) -> int)
    requires
        w >= 1,
        h >= 1,
        s.len() == w * h,
        forall|i: int, j: int|
            0 <= i < w && 0 <= j < h ==> s[#[trigger] idx(i, j, w)] == f(i, j),
    ensures
        s == grid_new(w, h, f),
{
    let g = grid_new(w, h, f);
    assert forall|k: int| 0 <= k < s.len() implies s[k] == g[k] by {
        let i = k % w;
        let j = k / w;
        lemma_mod_division_less_than_divisor(k, w);
        lemma_multiply_divide_lt(k, w, h);
        lemma_fundamental_div_mod(k, w);
        assert(k / w >= 0) by {
            vstd::arithmetic::div_mod::lemma_div_is_ordered(0, k, w);
            vstd::arithmetic::div_mod::lemma_div_multiples_vanish(0, w);
        }
        assert(w * (k / w) == (k / w) * w) by (nonlinear_arith);
        assert(k == idx(i, j, w));
        assert(s[idx(i, j, w)] == f(i, j));
    }
    assert(s =~= g);
}

/// Distinct in-range cells have distinct row-major indices.
pub proof fn lemma_idx_injective(i1: int, j1: int, i2: int, j2: int, w: int, h: int)
    requires
        0 <= i1 < w,
        0 <= j1 < h,
        0 <= i2 < w,
        0 <= j2 < h,
        idx(i1, j1, w) == idx(i2, j2, w),
    ensures
        i1 == i2,
        j1 == j2,
{
    let k = idx(i1, j1, w);
    lemma_fundamental_div_mod_converse_div(k, w, j1, i1);
    lemma_fundamental_div_mod_converse_mod(k, w, j1, i1);
    lemma_fundamental_div_mod_converse_div(k, w, j2, i2);
    lemma_fundamental_div_mod_converse_mod(k, w, j2, i2);
}

/// A fresh all-zero buffer of `n` cells.
pub fn zero_buffer(n: usize) -> (v: Vec<i64>)
    ensures
        v@.len() == n,
        ints(v@) == zeros(n as nat),
        bounded(ints(v@)),
{
    let mut v: Vec<i64> = Vec::new();
    let mut k: usize = 0;
    while k < n
        invariant
            k <= n,
            v@.len() == k,
            forall|m: int| 0 <= m < k ==> v@[m] == 0i64,
        decreases n - k,
    {
        v.push(0i64);
        k = k + 1;
    }
    proof {
        assert(ints(v@) =~= zeros(n as nat));
    }
    v
}

} // verus!
