//! A verified 2D incompressible-fluid solver on a fixed-resolution grid,
//! advancing density and velocity fields in discrete time steps with the
//! stable semi-Lagrangian / Gauss-Seidel method: implicit diffusion,
//! backward-tracing advection with bilinear interpolation, and a pressure
//! projection enforcing incompressibility.
//!
//! All scalars are signed 64-bit fixed-point numbers with
//! [`fixed::FRAC_ONE`] fractional units per 1.0; arithmetic saturates at
//! [`fixed::SAT_MAX`], so every operation is total and none panics.

use vstd::prelude::*;

pub mod fixed;
pub mod grids;
pub mod boundary;
pub mod solver;
pub mod advect;
pub mod project;

use crate::fixed::{sat64, SAT_MAX};
use crate::grids::{ints, bounded, idx, zeros, zero_buffer, lemma_idx_bound, MAX_DIM};
use crate::solver::{diffuse, diffuse_spec};
use crate::advect::{advect, advect_spec};
use crate::project::{project, project_x, project_y};

verus! {

/// The ways a grid operation can be refused.
#[derive(Clone, Copy, Debug, PartialEq, Eq, Structural)]
pub enum GridError {
    /// The requested grid has no interior cell in some dimension.
    GridTooSmall,
    /// The requested grid is larger than the solver supports.
    GridTooLarge,
    /// A cell coordinate lies outside the grid.
    OutOfBounds,
}

/// A fluid simulation: three equal-length scalar fields over a
/// `width x height` grid, plus the fixed coefficients.
pub struct FluidSimulation {
    width: usize,
    height: usize,
    density: Vec<i64>,
    velocity_x: Vec<i64>,
    velocity_y: Vec<i64>,
    diff: i64,
    visc: i64,
    dt: i64,
}

/// The velocity field after one velocity step: diffuse both components,
/// project, advect both along the projected field, project again.
pub open spec fn velocity_step_spec(
    vx: Seq<int>,
    vy: Seq<int>,
    visc: int,
    dt: int,
    w: int,
    h: int,
) -> (Seq<int>, Seq<int>) {
    let z = zeros((w * h) as nat);
    let dvx = diffuse_spec(z, vx, visc, dt, 1, w, h);
    let dvy = diffuse_spec(z, vy, visc, dt, 2, w, h);
    let pvx = project_x(dvx, dvy, w, h);
    let pvy = project_y(dvx, dvy, w, h);
    let avx = advect_spec(z, pvx, pvx, pvy, dt, 1, w, h);
    let avy = advect_spec(z, pvy, pvx, pvy, dt, 2, w, h);
    (project_x(avx, avy, w, h), project_y(avx, avy, w, h))
}

/// The density field after one density step: diffuse, then advect along the
/// (already updated) velocity field.
pub open spec fn density_step_spec(
    d: Seq<int>,
    vx: Seq<int>,
    vy: Seq<int>,
    diff: int,
    dt: int,
    w: int,
    h: int,
) -> Seq<int> {
    let z = zeros((w * h) as nat);
    advect_spec(z, diffuse_spec(z, d, diff, dt, 0, w, h), vx, vy, dt, 0, w, h)
}

/// Law (no sources, no change): with zero density and velocity everywhere,
/// one step leaves all three fields exactly zero, for any non-negative
/// coefficients — in particular with zero diffusion and viscosity, repeated
/// steps of an untouched grid change nothing.
pub proof fn lemma_step_preserves_zero(visc: int, diff: int, dt: int, w: int, h: int)
    requires
        w >= 3,
        h >= 3,
        0 <= visc,
        0 <= diff,
        0 <= dt,
    ensures
        velocity_step_spec(zeros((w * h) as nat), zeros((w * h) as nat), visc, dt, w, h) == (
            zeros((w * h) as nat),
            zeros((w * h) as nat),
        ),
        density_step_spec(
            zeros((w * h) as nat),
            zeros((w * h) as nat),
            zeros((w * h) as nat),
            diff,
            dt,
            w,
            h,
        ) == zeros((w * h) as nat),
{
    crate::solver::lemma_diffuse_zeros(visc, dt, 1, w, h);
    crate::solver::lemma_diffuse_zeros(visc, dt, 2, w, h);
    crate::project::lemma_project_zeros(w, h);
    crate::advect::lemma_advect_zeros(dt, 1, w, h);
    crate::advect::lemma_advect_zeros(dt, 2, w, h);
    crate::solver::lemma_diffuse_zeros(diff, dt, 0, w, h);
    crate::advect::lemma_advect_zeros(dt, 0, w, h);
}

impl FluidSimulation {
    /// Structural well-formedness: dimensions in range, all three buffers of
    /// exactly `width * height` saturation-bounded scalars, coefficients
    /// non-negative and in range.
    pub closed spec fn wf(&self) -> bool {
        &&& 3 <= self.width <= MAX_DIM
        &&& 3 <= self.height <= MAX_DIM
        &&& self.density@.len() == self.width * self.height
        &&& self.velocity_x@.len() == self.width * self.height
        &&& self.velocity_y@.len() == self.width * self.height
        &&& bounded(ints(self.density@))
        &&& bounded(ints(self.velocity_x@))
        &&& bounded(ints(self.velocity_y@))
        &&& 0 <= self.diff <= SAT_MAX
        &&& 0 <= self.visc <= SAT_MAX
        &&& 0 <= self.dt <= SAT_MAX
    }

    /// The grid width.
    pub closed spec fn spec_width(&self) -> usize {
        self.width
    }

    /// The grid height.
    pub closed spec fn spec_height(&self) -> usize {
        self.height
    }

    /// The diffusion-rate coefficient.
    pub closed spec fn spec_diff(&self) -> i64 {
        self.diff
    }

    /// The viscosity coefficient.
    pub closed spec fn spec_visc(&self) -> i64 {
        self.visc
    }

    /// The time-step coefficient.
    pub closed spec fn spec_dt(&self) -> i64 {
        self.dt
    }

    /// The density field's mathematical contents.
    pub closed spec fn density_model(&self) -> Seq<int> {
        ints(self.density@)
    }

    /// The horizontal velocity field's mathematical contents.
    pub closed spec fn velocity_x_model(&self) -> Seq<int> {
        ints(self.velocity_x@)
    }

    /// The vertical velocity field's mathematical contents.
    pub closed spec fn velocity_y_model(&self) -> Seq<int> {
        ints(self.velocity_y@)
    }

    /// Create a grid with zero-filled fields.  Rejects a grid too small to
    /// have an interior cell, or larger than the solver supports.
    pub fn new(width: usize, height: usize, diff: i64, visc: i64, dt: i64) -> (r: Result<
        FluidSimulation,
        GridError,
    >)
        requires
            width * height <= usize::MAX,
            0 <= diff <= SAT_MAX,
            0 <= visc <= SAT_MAX,
            0 <= dt <= SAT_MAX,
        ensures
            (3 <= width && 3 <= height && width <= MAX_DIM && height <= MAX_DIM) <==> r is Ok,
            !(3 <= width && 3 <= height) ==> r == Result::<FluidSimulation, GridError>::Err(
                GridError::GridTooSmall,
            ),
            r matches Ok(g) ==> {
                &&& g.wf()
                &&& g.spec_width() == width
                &&& g.spec_height() == height
                &&& g.density_model() == zeros((width * height) as nat)
                &&& g.velocity_x_model() == zeros((width * height) as nat)
                &&& g.velocity_y_model() == zeros((width * height) as nat)
                &&& g.spec_diff() == diff
                &&& g.spec_visc() == visc
                &&& g.spec_dt() == dt
            },
    {
        if width < 3 || height < 3 {
            return Err(GridError::GridTooSmall);
        }
        if width > MAX_DIM || height > MAX_DIM {
            return Err(GridError::GridTooLarge);
        }
        let size = width * height;
        Ok(
            FluidSimulation {
                width,
                height,
                density: zero_buffer(size),
                velocity_x: zero_buffer(size),
                velocity_y: zero_buffer(size),
                diff,
                visc,
                dt,
            },
        )
    }

    /// The grid width.
    pub fn width(&self) -> (r: usize)
        ensures
            r == self.spec_width(),
    {
        self.width
    }

    /// The grid height.
    pub fn height(&self) -> (r: usize)
        ensures
            r == self.spec_height(),
    {
        self.height
    }

    /// Read access to the density field as a flat row-major array, for a
    /// rendering collaborator.
    pub fn density_field(&self) -> (r: &Vec<i64>)
        ensures
            ints(r@) == self.density_model(),
    {
        &self.density
    }

    /// The density at cell `(x, y)`; out-of-range coordinates are rejected,
    /// never clamped.
    pub fn density_at(&self, x: usize, y: usize) -> (r: Result<i64, GridError>)
        requires
            self.wf(),
        ensures
            (x < self.spec_width() && y < self.spec_height()) <==> r is Ok,
            r matches Ok(v) ==> v as int == self.density_model()[idx(
                x as int,
                y as int,
                self.spec_width() as int,
            )],
            r is Err ==> r == Result::<i64, GridError>::Err(GridError::OutOfBounds),
    {
        if x >= self.width || y >= self.height {
            return Err(GridError::OutOfBounds);
        }
        let n = self.density.len();
        proof {
            lemma_idx_bound(x as int, y as int, self.width as int, self.height as int);
        }
        Ok(self.density[x + y * self.width])
    }

    /// The horizontal velocity at cell `(x, y)`.
    pub fn velocity_x_at(&self, x: usize, y: usize) -> (r: Result<i64, GridError>)
        requires
            self.wf(),
        ensures
            (x < self.spec_width() && y < self.spec_height()) <==> r is Ok,
            r matches Ok(v) ==> v as int == self.velocity_x_model()[idx(
                x as int,
                y as int,
                self.spec_width() as int,
            )],
            r is Err ==> r == Result::<i64, GridError>::Err(GridError::OutOfBounds),
    {
        if x >= self.width || y >= self.height {
            return Err(GridError::OutOfBounds);
        }
        let n = self.velocity_x.len();
        proof {
            lemma_idx_bound(x as int, y as int, self.width as int, self.height as int);
        }
        Ok(self.velocity_x[x + y * self.width])
    }

    /// The vertical velocity at cell `(x, y)`.
    pub fn velocity_y_at(&self, x: usize, y: usize) -> (r: Result<i64, GridError>)
        requires
            self.wf(),
        ensures
            (x < self.spec_width() && y < self.spec_height()) <==> r is Ok,
            r matches Ok(v) ==> v as int == self.velocity_y_model()[idx(
                x as int,
                y as int,
                self.spec_width() as int,
            )],
            r is Err ==> r == Result::<i64, GridError>::Err(GridError::OutOfBounds),
    {
        if x >= self.width || y >= self.height {
            return Err(GridError::OutOfBounds);
        }
        let n = self.velocity_y.len();
        proof {
            lemma_idx_bound(x as int, y as int, self.width as int, self.height as int);
        }
        Ok(self.velocity_y[x + y * self.width])
    }

    /// Accumulate `amount` into one cell's density, saturating.
    /// Out-of-range coordinates are rejected and leave the grid unchanged.
    pub fn add_density(&mut self, x: usize, y: usize, amount: i64) -> (r: Result<(), GridError>)
        requires
            old(self).wf(),
            -SAT_MAX <= amount <= SAT_MAX,
        ensures
            final(self).wf(),
            (x < old(self).spec_width() && y < old(self).spec_height()) <==> r is Ok,
            r is Ok ==> final(self).density_model() == old(self).density_model().update(
                idx(x as int, y as int, old(self).spec_width() as int),
                sat64(
                    old(self).density_model()[idx(
                        x as int,
                        y as int,
                        old(self).spec_width() as int,
                    )] + amount,
                ),
            ),
            r is Err ==> r == Result::<(), GridError>::Err(GridError::OutOfBounds) && *final(self)
                == *old(self),
            final(self).velocity_x_model() == old(self).velocity_x_model(),
            final(self).velocity_y_model() == old(self).velocity_y_model(),
            final(self).spec_width() == old(self).spec_width(),
            final(self).spec_height() == old(self).spec_height(),
            final(self).spec_diff() == old(self).spec_diff(),
            final(self).spec_visc() == old(self).spec_visc(),
            final(self).spec_dt() == old(self).spec_dt(),
    {
        if x >= self.width || y >= self.height {
            return Err(GridError::OutOfBounds);
        }
        let n = self.density.len();
        proof {
            lemma_idx_bound(x as int, y as int, self.width as int, self.height as int);
        }
        let k = x + y * self.width;
        let cur = self.density[k];
        proof {
            assert(ints(self.density@)[idx(x as int, y as int, self.width as int)] == cur as int);
        }
        let nv = crate::fixed::sat_narrow((cur as i128) + (amount as i128));
        let ghost pre = ints(self.density@);
        self.density.set(k, nv);
        proof {
            assert(ints(self.density@) =~= pre.update(
                idx(x as int, y as int, self.width as int),
                nv as int,
            ));
        }
        Ok(())
    }

    /// Accumulate `(amount_x, amount_y)` into one cell's velocity,
    /// saturating.  Out-of-range coordinates are rejected.
    pub fn add_velocity(&mut self, x: usize, y: usize, amount_x: i64, amount_y: i64) -> (r: Result<
        (),
        GridError,
    >)
        requires
            old(self).wf(),
            -SAT_MAX <= amount_x <= SAT_MAX,
            -SAT_MAX <= amount_y <= SAT_MAX,
        ensures
            final(self).wf(),
            (x < old(self).spec_width() && y < old(self).spec_height()) <==> r is Ok,
            r is Ok ==> final(self).velocity_x_model() == old(self).velocity_x_model().update(
                idx(x as int, y as int, old(self).spec_width() as int),
                sat64(
                    old(self).velocity_x_model()[idx(
                        x as int,
                        y as int,
                        old(self).spec_width() as int,
                    )] + amount_x,
                ),
            ) && final(self).velocity_y_model() == old(self).velocity_y_model().update(
                idx(x as int, y as int, old(self).spec_width() as int),
                sat64(
                    old(self).velocity_y_model()[idx(
                        x as int,
                        y as int,
                        old(self).spec_width() as int,
                    )] + amount_y,
                ),
            ),
            r is Err ==> r == Result::<(), GridError>::Err(GridError::OutOfBounds) && *final(self)
                == *old(self),
            final(self).density_model() == old(self).density_model(),
            final(self).spec_width() == old(self).spec_width(),
            final(self).spec_height() == old(self).spec_height(),
            final(self).spec_diff() == old(self).spec_diff(),
            final(self).spec_visc() == old(self).spec_visc(),
            final(self).spec_dt() == old(self).spec_dt(),
    {
        if x >= self.width || y >= self.height {
            return Err(GridError::OutOfBounds);
        }
        let n = self.density.len();
        proof {
            lemma_idx_bound(x as int, y as int, self.width as int, self.height as int);
        }
        let k = x + y * self.width;
        let cx = self.velocity_x[k];
        let cy = self.velocity_y[k];
        proof {
            assert(ints(self.velocity_x@)[idx(x as int, y as int, self.width as int)]
                == cx as int);
            assert(ints(self.velocity_y@)[idx(x as int, y as int, self.width as int)]
                == cy as int);
        }
        let nx = crate::fixed::sat_narrow((cx as i128) + (amount_x as i128));
        let ny = crate::fixed::sat_narrow((cy as i128) + (amount_y as i128));
        let ghost prex = ints(self.velocity_x@);
        let ghost prey = ints(self.velocity_y@);
        self.velocity_x.set(k, nx);
        self.velocity_y.set(k, ny);
        proof {
            assert(ints(self.velocity_x@) =~= prex.update(
                idx(x as int, y as int, self.width as int),
                nx as int,
            ));
            assert(ints(self.velocity_y@) =~= prey.update(
                idx(x as int, y as int, self.width as int),
                ny as int,
            ));
        }
        Ok(())
    }

    /// One velocity step: diffuse both components into fresh buffers,
    /// project, advect both along the projected field, project again on the
    /// freshly advected pair.
    fn velocity_step(&mut self)
        requires
            old(self).wf(),
        ensures
            final(self).wf(),
            (
                final(self).velocity_x_model(),
                final(self).velocity_y_model(),
            ) == velocity_step_spec(
                old(self).velocity_x_model(),
                old(self).velocity_y_model(),
                old(self).spec_visc() as int,
                old(self).spec_dt() as int,
                old(self).spec_width() as int,
                old(self).spec_height() as int,
            ),
            final(self).density_model() == old(self).density_model(),
            final(self).spec_width() == old(self).spec_width(),
            final(self).spec_height() == old(self).spec_height(),
            final(self).spec_diff() == old(self).spec_diff(),
            final(self).spec_visc() == old(self).spec_visc(),
            final(self).spec_dt() == old(self).spec_dt(),
    {
        let n = self.density.len();
        let mut vx0 = zero_buffer(n);
        let mut vy0 = zero_buffer(n);
        diffuse(1, &mut vx0, &self.velocity_x, self.visc, self.dt, self.width, self.height);
        diffuse(2, &mut vy0, &self.velocity_y, self.visc, self.dt, self.width, self.height);
        project(&mut vx0, &mut vy0, self.width, self.height);
        let mut vx1 = zero_buffer(n);
        let mut vy1 = zero_buffer(n);
        advect(1, &mut vx1, &vx0, &vx0, &vy0, self.dt, self.width, self.height);
        advect(2, &mut vy1, &vy0, &vx0, &vy0, self.dt, self.width, self.height);
        project(&mut vx1, &mut vy1, self.width, self.height);
        self.velocity_x = vx1;
        self.velocity_y = vy1;
    }

    /// One density step: diffuse the density, then advect it along the
    /// current (already updated) velocity field.
    fn density_step(&mut self)
        requires
            old(self).wf(),
        ensures
            final(self).wf(),
            final(self).density_model() == density_step_spec(
                old(self).density_model(),
                old(self).velocity_x_model(),
                old(self).velocity_y_model(),
                old(self).spec_diff() as int,
                old(self).spec_dt() as int,
                old(self).spec_width() as int,
                old(self).spec_height() as int,
            ),
            final(self).velocity_x_model() == old(self).velocity_x_model(),
            final(self).velocity_y_model() == old(self).velocity_y_model(),
            final(self).spec_width() == old(self).spec_width(),
            final(self).spec_height() == old(self).spec_height(),
            final(self).spec_diff() == old(self).spec_diff(),
            final(self).spec_visc() == old(self).spec_visc(),
            final(self).spec_dt() == old(self).spec_dt(),
    {
        let n = self.density.len();
        let mut d0 = zero_buffer(n);
        diffuse(0, &mut d0, &self.density, self.diff, self.dt, self.width, self.height);
        let mut d1 = zero_buffer(n);
        advect(0, &mut d1, &d0, &self.velocity_x, &self.velocity_y, self.dt, self.width,
            self.height);
        self.density = d1;
    }

    /// Advance the simulation by one tick: the velocity step, then the
    /// density step, so density is transported by the updated velocity.
    pub fn step(&mut self)
        requires
            old(self).wf(),
        ensures
            final(self).wf(),
            (
                final(self).velocity_x_model(),
                final(self).velocity_y_model(),
            ) == velocity_step_spec(
                old(self).velocity_x_model(),
                old(self).velocity_y_model(),
                old(self).spec_visc() as int,
                old(self).spec_dt() as int,
                old(self).spec_width() as int,
                old(self).spec_height() as int,
            ),
            final(self).density_model() == density_step_spec(
                old(self).density_model(),
                velocity_step_spec(
                    old(self).velocity_x_model(),
                    old(self).velocity_y_model(),
                    old(self).spec_visc() as int,
                    old(self).spec_dt() as int,
                    old(self).spec_width() as int,
                    old(self).spec_height() as int,
                ).0,
                velocity_step_spec(
                    old(self).velocity_x_model(),
                    old(self).velocity_y_model(),
                    old(self).spec_visc() as int,
                    old(self).spec_dt() as int,
                    old(self).spec_width() as int,
                    old(self).spec_height() as int,
                ).1,
                old(self).spec_diff() as int,
                old(self).spec_dt() as int,
                old(self).spec_width() as int,
                old(self).spec_height() as int,
            ),
            final(self).spec_width() == old(self).spec_width(),
            final(self).spec_height() == old(self).spec_height(),
            final(self).spec_diff() == old(self).spec_diff(),
            final(self).spec_visc() == old(self).spec_visc(),
            final(self).spec_dt() == old(self).spec_dt(),
    {
        self.velocity_step();
        self.density_step();
    }
}

} // verus!
