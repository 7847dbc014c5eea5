//! Tests of the individual solver passes: boundary enforcement, advection,
//! and projection.

use fluid_sim::advect::advect;
use fluid_sim::boundary::set_boundaries;
use fluid_sim::fixed::FRAC_ONE;
use fluid_sim::project::project;

fn base16() -> Vec<i64> {
    (0..16).map(|k| (k + 1) * 10).collect()
}

#[test]
fn boundary_tag0_copies_neighbors() {
    let mut x = base16();
    set_boundaries(0, &mut x, 4, 4);
    let expected: Vec<i64> = vec![
        60, 60, 70, 70, 60, 60, 70, 70, 100, 100, 110, 110, 100, 100, 110, 110,
    ];
    assert_eq!(x, expected);
}

#[test]
fn boundary_tag1_negates_left_right() {
    let mut x = base16();
    set_boundaries(1, &mut x, 4, 4);
    let expected: Vec<i64> = vec![
        0, 60, 70, 0, -60, 60, 70, -70, -100, 100, 110, -110, 0, 100, 110, 0,
    ];
    assert_eq!(x, expected);
}

#[test]
fn boundary_tag2_negates_top_bottom() {
    let mut x = base16();
    set_boundaries(2, &mut x, 4, 4);
    let expected: Vec<i64> = vec![
        0, -60, -70, 0, 60, 60, 70, 70, 100, 100, 110, 110, 0, -100, -110, 0,
    ];
    assert_eq!(x, expected);
}

#[test]
fn boundary_reflection_all_tags_all_edges() {
    // after enforcement every edge cell relates to its interior neighbor
    // exactly as the tag prescribes, for every tag
    let w = 6;
    let h = 5;
    for b in 0..3usize {
        let mut x: Vec<i64> = (0..(w * h) as i64).map(|k| 3 * k - 20).collect();
        let orig = x.clone();
        set_boundaries(b, &mut x, w, h);
        for j in 1..h - 1 {
            let left = x[0 + j * w];
            let right = x[(w - 1) + j * w];
            let nl = orig[1 + j * w];
            let nr = orig[(w - 2) + j * w];
            if b == 1 {
                assert_eq!(left, -nl);
                assert_eq!(right, -nr);
            } else {
                assert_eq!(left, nl);
                assert_eq!(right, nr);
            }
        }
        for i in 1..w - 1 {
            let top = x[i];
            let bottom = x[i + (h - 1) * w];
            let nt = orig[i + w];
            let nb = orig[i + (h - 2) * w];
            if b == 2 {
                assert_eq!(top, -nt);
                assert_eq!(bottom, -nb);
            } else {
                assert_eq!(top, nt);
                assert_eq!(bottom, nb);
            }
        }
        // corners average their two adjacent post-enforcement edge cells
        assert_eq!(x[0], (x[1] + x[w]) / 2);
        assert_eq!(x[w - 1], (x[w - 2] + x[(w - 1) + w]) / 2);
        assert_eq!(x[(h - 1) * w], (x[1 + (h - 1) * w] + x[(h - 2) * w]) / 2);
        assert_eq!(
            x[(w - 1) + (h - 1) * w],
            (x[(w - 2) + (h - 1) * w] + x[(w - 1) + (h - 2) * w]) / 2
        );
    }
}

#[test]
fn advect_zero_velocity_is_exact_on_interior() {
    // bilinear sampling at a grid-aligned point returns the cell's exact
    // value, so advection along a zero velocity field copies the interior
    let n = 25usize;
    let d0: Vec<i64> = (0..n as i64).map(|k| (k + 1) * 1000).collect();
    let u = vec![0i64; n];
    let v = vec![0i64; n];
    let mut d = vec![0i64; n];
    advect(0, &mut d, &d0, &u, &v, 700_000, 5, 5);
    for i in 1..4usize {
        for j in 1..4usize {
            assert_eq!(d[i + j * 5], d0[i + j * 5]);
        }
    }
}

#[test]
fn advect_fractional_shift_interpolates() {
    let n = 25usize;
    let d0: Vec<i64> = (0..n as i64).map(|k| (k + 1) * 1000).collect();
    let u = vec![166_666i64; n];
    let v = vec![0i64; n];
    let mut d = vec![0i64; n];
    advect(0, &mut d, &d0, &u, &v, FRAC_ONE, 5, 5);
    let expected: Vec<i64> = vec![
        6499, 6499, 7499, 8499, 8499, 6499, 6499, 7499, 8499, 8499, 11499, 11499, 12499, 13499,
        13499, 16499, 16499, 17499, 18499, 18499, 16499, 16499, 17499, 18499, 18499,
    ];
    assert_eq!(d, expected);
}

fn recomputed_divergence_max(vx: &[i64], vy: &[i64], w: usize, h: usize) -> i64 {
    let mut mx = 0i64;
    for i in 1..w - 1 {
        for j in 1..h - 1 {
            let s = vx[(i + 1) + j * w] - vx[(i - 1) + j * w] + vy[i + (j + 1) * w]
                - vy[i + (j - 1) * w];
            let dv = -s / (2 * w as i64);
            mx = mx.max(dv.abs());
        }
    }
    mx
}

#[test]
fn projection_reduces_divergence_to_residual() {
    // after projection the recomputed discrete divergence is near zero at
    // every interior cell, within the residual of the fixed sweep count
    let w = 10usize;
    let h = 10usize;
    let n = w * h;
    let mut vx = vec![0i64; n];
    let mut vy = vec![0i64; n];
    vx[5 + 5 * w] = 3 * FRAC_ONE;
    vy[5 + 5 * w] = -2 * FRAC_ONE;
    let before = recomputed_divergence_max(&vx, &vy, w, h);
    project(&mut vx, &mut vy, w, h);
    let after = recomputed_divergence_max(&vx, &vy, w, h);
    assert!(before >= 100_000);
    assert!(after < before);
    // empirical residual bound: under a tenth of a unit
    assert!(after < 100_000);
}
