//! Tests of the full simulation: construction, sources, stepping, and the
//! observable behavior of the solver.

use fluid_sim::fixed::{FRAC_ONE, SAT_MAX};
use fluid_sim::{FluidSimulation, GridError};

fn grid_sum(sim: &FluidSimulation) -> i64 {
    let mut total = 0i64;
    for y in 0..sim.height() {
        for x in 0..sim.width() {
            total += sim.density_at(x, y).unwrap();
        }
    }
    total
}

#[test]
fn new_rejects_too_small_grids() {
    assert_eq!(
        FluidSimulation::new(2, 5, 0, 0, 0).err(),
        Some(GridError::GridTooSmall)
    );
    assert_eq!(
        FluidSimulation::new(5, 2, 0, 0, 0).err(),
        Some(GridError::GridTooSmall)
    );
    assert_eq!(
        FluidSimulation::new(0, 0, 0, 0, 0).err(),
        Some(GridError::GridTooSmall)
    );
}

#[test]
fn new_rejects_oversized_grids() {
    assert_eq!(
        FluidSimulation::new(1_000_001, 3, 0, 0, 0).err(),
        Some(GridError::GridTooLarge)
    );
}

#[test]
fn new_zero_fills_all_fields() {
    let sim = FluidSimulation::new(4, 6, 100, 200, 300).unwrap();
    assert_eq!(sim.width(), 4);
    assert_eq!(sim.height(), 6);
    assert_eq!(sim.density_field().len(), 24);
    for y in 0..6 {
        for x in 0..4 {
            assert_eq!(sim.density_at(x, y).unwrap(), 0);
            assert_eq!(sim.velocity_x_at(x, y).unwrap(), 0);
            assert_eq!(sim.velocity_y_at(x, y).unwrap(), 0);
        }
    }
}

#[test]
fn add_density_accumulates() {
    let mut sim = FluidSimulation::new(5, 5, 0, 0, 0).unwrap();
    sim.add_density(2, 3, 1500).unwrap();
    sim.add_density(2, 3, -400).unwrap();
    assert_eq!(sim.density_at(2, 3).unwrap(), 1100);
    assert_eq!(sim.density_at(3, 2).unwrap(), 0);
}

#[test]
fn add_density_saturates() {
    let mut sim = FluidSimulation::new(5, 5, 0, 0, 0).unwrap();
    sim.add_density(2, 2, SAT_MAX).unwrap();
    sim.add_density(2, 2, SAT_MAX).unwrap();
    assert_eq!(sim.density_at(2, 2).unwrap(), SAT_MAX);
}

#[test]
fn add_density_rejects_out_of_range() {
    let mut sim = FluidSimulation::new(5, 5, 0, 0, 0).unwrap();
    assert_eq!(sim.add_density(5, 0, 10), Err(GridError::OutOfBounds));
    assert_eq!(sim.add_density(0, 5, 10), Err(GridError::OutOfBounds));
    assert_eq!(grid_sum(&sim), 0);
}

#[test]
fn add_velocity_accumulates_both_components() {
    let mut sim = FluidSimulation::new(5, 5, 0, 0, 0).unwrap();
    sim.add_velocity(1, 2, 700, -300).unwrap();
    sim.add_velocity(1, 2, 100, -100).unwrap();
    assert_eq!(sim.velocity_x_at(1, 2).unwrap(), 800);
    assert_eq!(sim.velocity_y_at(1, 2).unwrap(), -400);
    assert_eq!(sim.density_at(1, 2).unwrap(), 0);
}

#[test]
fn add_velocity_rejects_out_of_range() {
    let mut sim = FluidSimulation::new(5, 5, 0, 0, 0).unwrap();
    assert_eq!(sim.add_velocity(9, 9, 1, 1), Err(GridError::OutOfBounds));
}

#[test]
fn accessors_reject_out_of_range() {
    let sim = FluidSimulation::new(5, 5, 0, 0, 0).unwrap();
    assert_eq!(sim.density_at(5, 0), Err(GridError::OutOfBounds));
    assert_eq!(sim.velocity_x_at(0, 5), Err(GridError::OutOfBounds));
    assert_eq!(sim.velocity_y_at(7, 7), Err(GridError::OutOfBounds));
}

#[test]
fn untouched_grid_stays_zero_under_steps() {
    // no sources: repeated steps leave every field zero, even with nonzero
    // coefficients
    let mut sim =
        FluidSimulation::new(6, 6, 300_000, 200_000, 100_000).unwrap();
    for _ in 0..3 {
        sim.step();
    }
    for y in 0..6 {
        for x in 0..6 {
            assert_eq!(sim.density_at(x, y).unwrap(), 0);
            assert_eq!(sim.velocity_x_at(x, y).unwrap(), 0);
            assert_eq!(sim.velocity_y_at(x, y).unwrap(), 0);
        }
    }
}

#[test]
fn zero_coefficients_preserve_an_impulse() {
    // a 5x5 grid, all coefficients zero, one impulse, one step: no
    // diffusion and no flow, so the density field is unchanged
    let mut sim = FluidSimulation::new(5, 5, 0, 0, 0).unwrap();
    sim.add_density(2, 2, 10 * FRAC_ONE).unwrap();
    sim.step();
    assert_eq!(sim.density_at(2, 2).unwrap(), 10 * FRAC_ONE);
    for y in 0..5 {
        for x in 0..5 {
            if (x, y) != (2, 2) {
                assert_eq!(sim.density_at(x, y).unwrap(), 0);
            }
        }
    }
}

#[test]
fn diffusion_spreads_an_impulse() {
    // a 10x10 grid, diffusion 0.1, time step 0.1, impulse 100 at (5,5),
    // one step: the center drops below 100, the four direct neighbors rise
    // above zero, and the total over the grid stays at most 100
    let mut sim = FluidSimulation::new(10, 10, 100_000, 0, 100_000).unwrap();
    sim.add_density(5, 5, 100 * FRAC_ONE).unwrap();
    sim.step();
    let center = sim.density_at(5, 5).unwrap();
    assert!(center < 100 * FRAC_ONE);
    assert_eq!(center, 33_156_821);
    assert!(sim.density_at(4, 5).unwrap() > 0);
    assert!(sim.density_at(6, 5).unwrap() > 0);
    assert!(sim.density_at(5, 4).unwrap() > 0);
    assert!(sim.density_at(5, 6).unwrap() > 0);
    assert!(grid_sum(&sim) <= 100 * FRAC_ONE);
}

#[test]
fn diffused_impulse_decays_monotonically() {
    // with nonzero diffusion the peak decreases strictly with every step
    // and the total density never grows
    let mut sim = FluidSimulation::new(10, 10, 100_000, 0, 100_000).unwrap();
    sim.add_density(5, 5, 100 * FRAC_ONE).unwrap();
    let mut last_peak = 100 * FRAC_ONE;
    let mut last_sum = 100 * FRAC_ONE;
    for _ in 0..6 {
        sim.step();
        let peak = sim.density_at(5, 5).unwrap();
        let total = grid_sum(&sim);
        assert!(peak < last_peak);
        assert!(total <= last_sum);
        last_peak = peak;
        last_sum = total;
    }
    assert_eq!(last_peak, 1_873_830);
}

#[test]
fn velocity_impulse_keeps_divergence_small_after_step() {
    // a step ends with a projection, so the recomputed divergence of the
    // velocity field is small at every interior cell
    let mut sim = FluidSimulation::new(10, 10, 0, 0, 100_000).unwrap();
    sim.add_velocity(5, 5, 3 * FRAC_ONE, -2 * FRAC_ONE).unwrap();
    sim.step();
    let w = sim.width();
    let h = sim.height();
    let mut max_div = 0i64;
    for i in 1..w - 1 {
        for j in 1..h - 1 {
            let s = sim.velocity_x_at(i + 1, j).unwrap() - sim.velocity_x_at(i - 1, j).unwrap()
                + sim.velocity_y_at(i, j + 1).unwrap()
                - sim.velocity_y_at(i, j - 1).unwrap();
            let dv = -s / (2 * w as i64);
            max_div = max_div.max(dv.abs());
        }
    }
    // empirical residual bound for the fixed sweep count
    assert!(max_div < 100_000);
}
