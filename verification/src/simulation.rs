//! The host-side simulation engine: owned state, configuration, and the
//! step state machine.
//!
//! The engine owns the dense grids, the obstacle mask and its neighbour
//! counts, the sources, and the iteration counter. Geometry is painted
//! through the engine, neighbours are recomputed on demand, and `step`
//! advances the field by one time slice: stencil passes in the scheme's
//! fixed order, then source injection, then the counters. Per-step
//! transcendental source amplitudes are computed by the caller and handed
//! in as samples; everything else is decided and proved here.

use vstd::prelude::*;

use crate::grid::Grid3;
use crate::grid::WALL_FLAG;
use crate::grid::is_air;
use crate::grid::lemma_idx_bounds;
use crate::neighbours::neighbours_of;
use crate::neighbours::neighbours_valid;
use crate::analysis::analysis_pass;
use crate::analysis::analysis_value;
use crate::source::Source;
use crate::split::pressure_pass;
use crate::split::pressure_value;
use crate::split::velocity_pass_x;
use crate::split::velocity_pass_y;
use crate::split::velocity_pass_z;
use crate::split::velocity_x_value;
use crate::split::velocity_y_value;
use crate::split::velocity_z_value;
use crate::stencil::COEF_LIMIT;
use crate::stencil::coef_ok;
use crate::stencil::compact_pass;
use crate::stencil::compact_value;
use crate::stencil::div_trunc;
use crate::stencil::in_i128;
use crate::stencil::in_i64;
use crate::stencil::lemma_mul_bounds;
use crate::stencil::loss_ok;

verus! {

/// The integer part of the discretization: grid extents, total cell count,
/// and the time step in nanoseconds. The physical derivation that produces
/// these from room lengths and a maximum frequency is floating-point work
/// and happens outside the library; the engine takes its result as plain
/// values.
#[derive(Clone, Copy, Debug, PartialEq, Eq, Structural)]
pub struct SimulationParameters {
    /// Grid extent along the width axis; positive.
    pub w_parts: usize,
    /// Grid extent along the height axis; positive.
    pub h_parts: usize,
    /// Grid extent along the depth axis; positive.
    pub d_parts: usize,
    /// Total cell count, `w_parts * h_parts * d_parts`.
    pub grid_size: usize,
    /// Length of one time step, in nanoseconds; positive.
    pub dt_nanos: u64,
}

impl SimulationParameters {
    /// Positive extents, a consistent total, and a positive time step.
    pub open spec fn wf(self) -> bool {
        &&& self.w_parts >= 1
        &&& self.h_parts >= 1
        &&& self.d_parts >= 1
        &&& self.w_parts * self.h_parts * self.d_parts == self.grid_size
        &&& self.dt_nanos >= 1
    }

    /// Build a parameter record from the extents and the time step.
    /// Rejected exactly when an extent or the time step is zero or the
    /// cell count overflows the machine word.
    pub fn new(w_parts: usize, h_parts: usize, d_parts: usize, dt_nanos: u64) -> (r: Result<
        SimulationParameters,
        SimulationError,
    >)
        ensures
            r is Ok <==> (w_parts >= 1 && h_parts >= 1 && d_parts >= 1 && dt_nanos >= 1
                && w_parts * h_parts * d_parts <= usize::MAX),
            r is Ok ==> {
                let p = r->Ok_0;
                &&& p.wf()
                &&& p.w_parts == w_parts
                &&& p.h_parts == h_parts
                &&& p.d_parts == d_parts
                &&& p.grid_size == w_parts * h_parts * d_parts
                &&& p.dt_nanos == dt_nanos
            },
            r is Err ==> r->Err_0 == SimulationError::InvalidParameter,
    {
        if w_parts == 0 || h_parts == 0 || d_parts == 0 || dt_nanos == 0 {
            return Err(SimulationError::InvalidParameter);
        }
        let wh: usize = match w_parts.checked_mul(h_parts) {
            Some(x) => x,
            None => {
                proof {
                    assert(w_parts * h_parts <= w_parts * h_parts * d_parts) by (nonlinear_arith)
                        requires
                            d_parts >= 1,
                            w_parts >= 1,
                            h_parts >= 1,
                    ;
                }
                return Err(SimulationError::InvalidParameter);
            },
        };
        let n: usize = match wh.checked_mul(d_parts) {
            Some(x) => x,
            None => {
                return Err(SimulationError::InvalidParameter);
            },
        };
        Ok(SimulationParameters { w_parts, h_parts, d_parts, grid_size: n, dt_nanos })
    }
}

/// Which stencil family the engine runs, with its integer coefficients.
/// `Split` is the velocity/pressure leapfrog; `Compact` the single-field
/// second-order scheme.
#[derive(Clone, Copy, Debug)]
pub enum Scheme {
    /// Velocity/pressure split scheme: `kappa_coef` stands for `κ·dt/dx`,
    /// `rho_coef` for `dt/(ρ·dx)`, and the per-step loss factor in (0, 1]
    /// is the exact rational `damp_num / damp_den`.
    Split { kappa_coef: i64, rho_coef: i64, damp_num: i64, damp_den: i64 },
    /// Compact single-field scheme with its four stencil coefficients.
    Compact { d1: i64, d2: i64, d3: i64, d4: i64 },
}

impl Scheme {
    /// Every coefficient within the magnitude bound of the passes.
    pub open spec fn wf(self) -> bool {
        match self {
            Scheme::Split { kappa_coef, rho_coef, damp_num, damp_den } => coef_ok(kappa_coef)
                && coef_ok(rho_coef) && loss_ok(damp_num, damp_den),
            Scheme::Compact { d1, d2, d3, d4 } => coef_ok(d1) && coef_ok(d2) && coef_ok(d3)
                && coef_ok(d4),
        }
    }

    /// Decide well-formedness of the coefficients.
    pub fn is_wf(&self) -> (b: bool)
        ensures
            b == self.wf(),
    {
        match self {
            Scheme::Split { kappa_coef, rho_coef, damp_num, damp_den } => {
                -COEF_LIMIT <= *kappa_coef && *kappa_coef <= COEF_LIMIT && -COEF_LIMIT <= *rho_coef
                    && *rho_coef <= COEF_LIMIT && 1 <= *damp_num && *damp_num <= *damp_den
                    && *damp_den <= COEF_LIMIT
            },
            Scheme::Compact { d1, d2, d3, d4 } => {
                -COEF_LIMIT <= *d1 && *d1 <= COEF_LIMIT && -COEF_LIMIT <= *d2 && *d2 <= COEF_LIMIT
                    && -COEF_LIMIT <= *d3 && *d3 <= COEF_LIMIT && -COEF_LIMIT <= *d4 && *d4
                    <= COEF_LIMIT
            },
        }
    }
}

/// What can go wrong inside the engine. Device-side failures belong to the
/// device path outside the library.
#[derive(Clone, Copy, Debug, PartialEq, Eq, Structural)]
pub enum SimulationError {
    /// An extent, frequency-derived count or time step was rejected.
    InvalidParameter,
    /// `step` was invoked on non-empty geometry before any neighbour
    /// computation.
    UninitializedNeighbours,
    /// An exact field value left the integer sample range.
    SampleOverflow,
}

/// The simulation engine.
pub struct Simulation {
    /// The integer discretization parameters.
    pub params: SimulationParameters,
    /// Which kernel family runs, with its coefficients.
    pub scheme: Scheme,
    /// Whether the analysis accumulator is kept.
    pub analysis_enabled: bool,
    /// The obstacle mask; 0 is air, a set `WALL_FLAG` bit is solid.
    pub geometry: Grid3<i8>,
    /// Per-cell open-neighbour counts; valid once computed.
    pub neighbours: Grid3<i8>,
    /// Whether `calculate_neighbours` has run since construction.
    pub neighbours_ready: bool,
    /// Pressure at the present time slice.
    pub pressure: Grid3<i64>,
    /// Pressure one time slice back (compact scheme).
    pub pressure_previous: Grid3<i64>,
    /// Particle velocity along w (split scheme).
    pub velocity_x: Grid3<i64>,
    /// Particle velocity along h (split scheme).
    pub velocity_y: Grid3<i64>,
    /// Particle velocity along d (split scheme).
    pub velocity_z: Grid3<i64>,
    /// Running intensity accumulator.
    pub analysis: Grid3<i128>,
    /// The point sources.
    pub sources: Vec<Source>,
    /// How many steps have run.
    pub iteration: u64,
}

/// Whether the mask holds any solid cell at all.
pub open spec fn geometry_nonempty(g: Grid3<i8>) -> bool {
    exists|j: int| 0 <= j < g.cells@.len() && g.cells@[j] != 0
}

impl Simulation {
    /// Everything an engine state promises between calls: well-formed
    /// parameters, scheme and grids, one shared shape, and sources that
    /// are well-formed and on the grid.
    pub open spec fn wf(self) -> bool {
        &&& self.params.wf()
        &&& self.scheme.wf()
        &&& self.geometry.wf()
        &&& self.geometry.w == self.params.w_parts
        &&& self.geometry.h == self.params.h_parts
        &&& self.geometry.d == self.params.d_parts
        &&& self.neighbours.wf() && self.neighbours.same_shape(self.geometry)
        &&& self.pressure.wf() && self.pressure.same_shape(self.geometry)
        &&& self.pressure_previous.wf() && self.pressure_previous.same_shape(self.geometry)
        &&& self.velocity_x.wf() && self.velocity_x.same_shape(self.geometry)
        &&& self.velocity_y.wf() && self.velocity_y.same_shape(self.geometry)
        &&& self.velocity_z.wf() && self.velocity_z.same_shape(self.geometry)
        &&& self.analysis.wf() && self.analysis.same_shape(self.geometry)
        &&& forall|k: int|
            0 <= k < self.sources@.len() ==> {
                &&& (#[trigger] self.sources@[k]).wf()
                &&& self.geometry.in_bounds(
                    self.sources@[k].position[0] as int,
                    self.sources@[k].position[1] as int,
                    self.sources@[k].position[2] as int,
                )
            }
    }

    /// The simulated time of the present iteration, in nanoseconds:
    /// `iteration · dt`.
    pub open spec fn time_nanos_of(self) -> int {
        self.iteration * self.params.dt_nanos
    }

    /// Build an engine from validated parameters: all fields zeroed, no
    /// sources, neighbours not yet computed. Rejected exactly when the
    /// parameters or the scheme coefficients are out of shape.
    pub fn new(params: SimulationParameters, scheme: Scheme, analysis_enabled: bool) -> (r: Result<
        Simulation,
        SimulationError,
    >)
        ensures
            r is Ok <==> (params.wf() && scheme.wf()),
            r is Ok ==> {
                let s = r->Ok_0;
                &&& s.wf()
                &&& s.params == params
                &&& s.scheme == scheme
                &&& s.analysis_enabled == analysis_enabled
                &&& s.iteration == 0
                &&& s.sources@.len() == 0
                &&& !s.neighbours_ready
                &&& forall|j: int| 0 <= j < s.geometry.cells@.len() ==> s.geometry.cells@[j] == 0i8
                &&& forall|j: int| 0 <= j < s.neighbours.cells@.len() ==> s.neighbours.cells@[j]
                    == 0i8
                &&& forall|j: int| 0 <= j < s.pressure.cells@.len() ==> s.pressure.cells@[j] == 0i64
                &&& forall|j: int|
                    0 <= j < s.pressure_previous.cells@.len() ==> s.pressure_previous.cells@[j]
                        == 0i64
                &&& forall|j: int|
                    0 <= j < s.velocity_x.cells@.len() ==> s.velocity_x.cells@[j] == 0i64
                &&& forall|j: int|
                    0 <= j < s.velocity_y.cells@.len() ==> s.velocity_y.cells@[j] == 0i64
                &&& forall|j: int|
                    0 <= j < s.velocity_z.cells@.len() ==> s.velocity_z.cells@[j] == 0i64
                &&& forall|j: int| 0 <= j < s.analysis.cells@.len() ==> s.analysis.cells@[j]
                    == 0i128
            },
            r is Err ==> r->Err_0 == SimulationError::InvalidParameter,
    {
        if params.w_parts == 0 || params.h_parts == 0 || params.d_parts == 0 || params.dt_nanos == 0
        {
            return Err(SimulationError::InvalidParameter);
        }
        let wh: usize = match params.w_parts.checked_mul(params.h_parts) {
            Some(x) => x,
            None => {
                proof {
                    assert(params.w_parts * params.h_parts <= params.w_parts * params.h_parts
                        * params.d_parts) by (nonlinear_arith)
                        requires
                            params.d_parts >= 1,
                            params.w_parts >= 1,
                            params.h_parts >= 1,
                    ;
                }
                return Err(SimulationError::InvalidParameter);
            },
        };
        let n: usize = match wh.checked_mul(params.d_parts) {
            Some(x) => x,
            None => {
                return Err(SimulationError::InvalidParameter);
            },
        };
        if n != params.grid_size {
            return Err(SimulationError::InvalidParameter);
        }
        if !scheme.is_wf() {
            return Err(SimulationError::InvalidParameter);
        }
        let geometry: Grid3<i8> = match Grid3::<i8>::new(
            params.w_parts,
            params.h_parts,
            params.d_parts,
            0i8,
        ) {
            Some(g) => g,
            None => {
                return Err(SimulationError::InvalidParameter);
            },
        };
        let neighbours: Grid3<i8> = match Grid3::<i8>::new(
            params.w_parts,
            params.h_parts,
            params.d_parts,
            0i8,
        ) {
            Some(g) => g,
            None => {
                return Err(SimulationError::InvalidParameter);
            },
        };
        let pressure: Grid3<i64> = match Grid3::<i64>::new(
            params.w_parts,
            params.h_parts,
            params.d_parts,
            0i64,
        ) {
            Some(g) => g,
            None => {
                return Err(SimulationError::InvalidParameter);
            },
        };
        let pressure_previous: Grid3<i64> = match Grid3::<i64>::new(
            params.w_parts,
            params.h_parts,
            params.d_parts,
            0i64,
        ) {
            Some(g) => g,
            None => {
                return Err(SimulationError::InvalidParameter);
            },
        };
        let velocity_x: Grid3<i64> = match Grid3::<i64>::new(
            params.w_parts,
            params.h_parts,
            params.d_parts,
            0i64,
        ) {
            Some(g) => g,
            None => {
                return Err(SimulationError::InvalidParameter);
            },
        };
        let velocity_y: Grid3<i64> = match Grid3::<i64>::new(
            params.w_parts,
            params.h_parts,
            params.d_parts,
            0i64,
        ) {
            Some(g) => g,
            None => {
                return Err(SimulationError::InvalidParameter);
            },
        };
        let velocity_z: Grid3<i64> = match Grid3::<i64>::new(
            params.w_parts,
            params.h_parts,
            params.d_parts,
            0i64,
        ) {
            Some(g) => g,
            None => {
                return Err(SimulationError::InvalidParameter);
            },
        };
        let analysis: Grid3<i128> = match Grid3::<i128>::new(
            params.w_parts,
            params.h_parts,
            params.d_parts,
            0i128,
        ) {
            Some(g) => g,
            None => {
                return Err(SimulationError::InvalidParameter);
            },
        };
        Ok(
            Simulation {
                params,
                scheme,
                analysis_enabled,
                geometry,
                neighbours,
                neighbours_ready: false,
                pressure,
                pressure_previous,
                velocity_x,
                velocity_y,
                velocity_z,
                analysis,
                sources: Vec::new(),
                iteration: 0,
            },
        )
    }

    /// Mark the cell solid by setting the wall bit, leaving the rest of
    /// the mask and all other state as they were. The caller must
    /// recompute neighbours before the next step.
    pub fn paint_solid(&mut self, wi: usize, hi: usize, di: usize)
        requires
            old(self).wf(),
            old(self).geometry.in_bounds(wi as int, hi as int, di as int),
        ensures
            final(self).wf(),
            final(self).geometry.same_shape(old(self).geometry),
            final(self).geometry.cell(wi as int, hi as int, di as int) == (old(self).geometry.cell(
                wi as int,
                hi as int,
                di as int,
            ) | WALL_FLAG),
            !is_air(final(self).geometry.cell(wi as int, hi as int, di as int)),
            forall|x: int, y: int, z: int|
                old(self).geometry.in_bounds(x, y, z) && !(x == wi && y == hi && z == di)
                    ==> final(self).geometry.cell(x, y, z) == old(self).geometry.cell(x, y, z),
            final(self).params == old(self).params,
            final(self).scheme == old(self).scheme,
            final(self).analysis_enabled == old(self).analysis_enabled,
            final(self).neighbours == old(self).neighbours,
            final(self).neighbours_ready == old(self).neighbours_ready,
            final(self).pressure == old(self).pressure,
            final(self).pressure_previous == old(self).pressure_previous,
            final(self).velocity_x == old(self).velocity_x,
            final(self).velocity_y == old(self).velocity_y,
            final(self).velocity_z == old(self).velocity_z,
            final(self).analysis == old(self).analysis,
            final(self).sources == old(self).sources,
            final(self).iteration == old(self).iteration,
    {
        let v: i8 = self.geometry.get(wi, hi, di);
        let painted: i8 = v | WALL_FLAG;
        proof {
            assert((v | 1i8) != 0i8) by (bit_vector);
        }
        self.geometry.set(wi, hi, di, painted);
    }

    /// Overwrite one cell of the mask, leaving the rest of the mask and
    /// all other state as they were. The caller must recompute neighbours
    /// before the next step.
    pub fn set_geometry_cell(&mut self, wi: usize, hi: usize, di: usize, value: i8)
        requires
            old(self).wf(),
            old(self).geometry.in_bounds(wi as int, hi as int, di as int),
        ensures
            final(self).wf(),
            final(self).geometry.same_shape(old(self).geometry),
            final(self).geometry.cell(wi as int, hi as int, di as int) == value,
            forall|x: int, y: int, z: int|
                old(self).geometry.in_bounds(x, y, z) && !(x == wi && y == hi && z == di)
                    ==> final(self).geometry.cell(x, y, z) == old(self).geometry.cell(x, y, z),
            final(self).params == old(self).params,
            final(self).scheme == old(self).scheme,
            final(self).analysis_enabled == old(self).analysis_enabled,
            final(self).neighbours == old(self).neighbours,
            final(self).neighbours_ready == old(self).neighbours_ready,
            final(self).pressure == old(self).pressure,
            final(self).pressure_previous == old(self).pressure_previous,
            final(self).velocity_x == old(self).velocity_x,
            final(self).velocity_y == old(self).velocity_y,
            final(self).velocity_z == old(self).velocity_z,
            final(self).analysis == old(self).analysis,
            final(self).sources == old(self).sources,
            final(self).iteration == old(self).iteration,
    {
        self.geometry.set(wi, hi, di, value);
    }

    /// Recompute the per-cell open-neighbour counts from the present mask
    /// and mark them valid. Deterministic in the mask; everything else is
    /// left as it was.
    pub fn calculate_neighbours(&mut self)
        requires
            old(self).wf(),
        ensures
            final(self).wf(),
            neighbours_valid(final(self).geometry, final(self).neighbours),
            final(self).neighbours_ready,
            final(self).geometry == old(self).geometry,
            final(self).params == old(self).params,
            final(self).scheme == old(self).scheme,
            final(self).analysis_enabled == old(self).analysis_enabled,
            final(self).pressure == old(self).pressure,
            final(self).pressure_previous == old(self).pressure_previous,
            final(self).velocity_x == old(self).velocity_x,
            final(self).velocity_y == old(self).velocity_y,
            final(self).velocity_z == old(self).velocity_z,
            final(self).analysis == old(self).analysis,
            final(self).sources == old(self).sources,
            final(self).iteration == old(self).iteration,
    {
        self.neighbours = neighbours_of(&self.geometry);
        self.neighbours_ready = true;
    }

    /// Add a point source; it takes part in every later step. The position
    /// must name a cell of the grid.
    pub fn add_source(&mut self, s: Source)
        requires
            old(self).wf(),
            s.wf(),
            old(self).geometry.in_bounds(
                s.position[0] as int,
                s.position[1] as int,
                s.position[2] as int,
            ),
        ensures
            final(self).wf(),
            final(self).sources@ == old(self).sources@.push(s),
            final(self).params == old(self).params,
            final(self).scheme == old(self).scheme,
            final(self).analysis_enabled == old(self).analysis_enabled,
            final(self).geometry == old(self).geometry,
            final(self).neighbours == old(self).neighbours,
            final(self).neighbours_ready == old(self).neighbours_ready,
            final(self).pressure == old(self).pressure,
            final(self).pressure_previous == old(self).pressure_previous,
            final(self).velocity_x == old(self).velocity_x,
            final(self).velocity_y == old(self).velocity_y,
            final(self).velocity_z == old(self).velocity_z,
            final(self).analysis == old(self).analysis,
            final(self).iteration == old(self).iteration,
    {
        self.sources.push(s);
    }

    /// Whether any source sits at the given cell.
    pub fn is_source_position(&self, wi: usize, hi: usize, di: usize) -> (b: bool)
        ensures
            b == exists|k: int|
                0 <= k < self.sources@.len() && (#[trigger] self.sources@[k]).position[0] == wi
                    && self.sources@[k].position[1] == hi && self.sources@[k].position[2] == di,
    {
        let mut k: usize = 0;
        while k < self.sources.len()
            invariant
                k <= self.sources@.len(),
                forall|i: int|
                    0 <= i < k ==> !((#[trigger] self.sources@[i]).position[0] == wi
                        && self.sources@[i].position[1] == hi && self.sources@[i].position[2]
                        == di),
            decreases self.sources@.len() - k,
        {
            let s: Source = self.sources[k];
            if s.position[0] == wi && s.position[1] == hi && s.position[2] == di {
                return true;
            }
            k = k + 1;
        }
        false
    }

    /// Whether the mask holds any solid cell.
    pub fn has_solid_geometry(&self) -> (b: bool)
        requires
            self.wf(),
        ensures
            b == geometry_nonempty(self.geometry),
    {
        let mut j: usize = 0;
        while j < self.geometry.cells.len()
            invariant
                j <= self.geometry.cells@.len(),
                forall|i: int| 0 <= i < j ==> self.geometry.cells@[i] == 0i8,
            decreases self.geometry.cells@.len() - j,
        {
            if self.geometry.cells[j] != 0 {
                return true;
            }
            j = j + 1;
        }
        false
    }

    /// Read-only view of the present pressure slice.
    pub fn pressure(&self) -> (r: &Grid3<i64>)
        ensures
            *r == self.pressure,
    {
        &self.pressure
    }

    /// Read-only view of the analysis accumulator.
    pub fn analysis(&self) -> (r: &Grid3<i128>)
        ensures
            *r == self.analysis,
    {
        &self.analysis
    }

    /// Read-only view of the neighbour counts.
    pub fn neighbours(&self) -> (r: &Grid3<i8>)
        ensures
            *r == self.neighbours,
    {
        &self.neighbours
    }

    /// Read-only view of the obstacle mask.
    pub fn geometry(&self) -> (r: &Grid3<i8>)
        ensures
            *r == self.geometry,
    {
        &self.geometry
    }

    /// How many steps have run.
    pub fn iteration(&self) -> (r: u64)
        ensures
            r == self.iteration,
    {
        self.iteration
    }

    /// The simulated time of the present iteration, in nanoseconds.
    pub fn time_nanos(&self) -> (r: u128)
        ensures
            r as int == self.time_nanos_of(),
    {
        proof {
            assert(self.iteration * self.params.dt_nanos <= u64::MAX * u64::MAX <= u128::MAX)
                by (nonlinear_arith)
                requires
                    self.iteration <= u64::MAX,
                    self.params.dt_nanos <= u64::MAX,
            ;
        }
        (self.iteration as u128) * (self.params.dt_nanos as u128)
    }
}

/// What one source adds to the cell with linear index `j` at time `t`:
/// its signed amplitude when it injects and sits there, else nothing.
pub open spec fn source_contrib(geo: Grid3<i8>, s: Source, amp: i64, t: int, j: int) -> int {
    if s.injects_at(t) && geo.in_bounds(s.position[0] as int, s.position[1] as int, s.position[2] as int)
        && geo.idx(s.position[0] as int, s.position[1] as int, s.position[2] as int) == j {
        s.phase_factor() * amp
    } else {
        0
    }
}

/// What the first `k` sources together add to the cell with linear index
/// `j` at time `t`, in source order.
pub open spec fn injected_total(
    geo: Grid3<i8>,
    sources: Seq<Source>,
    amps: Seq<i64>,
    t: int,
    j: int,
    k: nat,
) -> int
    decreases k,
{
    if k == 0 {
        0
    } else {
        injected_total(geo, sources, amps, t, j, (k - 1) as nat)
            + source_contrib(geo, sources[k as int - 1], amps[k as int - 1], t, j)
    }
}

/// Injection of the first `k` sources into the grid `base` stays within
/// the sample range at every intermediate value.
pub open spec fn inject_ok_grid(
    geo: Grid3<i8>,
    base: Grid3<i64>,
    sources: Seq<Source>,
    amps: Seq<i64>,
    t: int,
    k: nat,
) -> bool
    decreases k,
{
    if k == 0 {
        true
    } else {
        let s = sources[k as int - 1];
        &&& inject_ok_grid(geo, base, sources, amps, t, (k - 1) as nat)
        &&& (s.injects_at(t) && geo.in_bounds(s.position[0] as int, s.position[1] as int, s.position[2] as int)
            ==> in_i64(
                base.cell(s.position[0] as int, s.position[1] as int, s.position[2] as int)
                    + injected_total(
                    geo,
                    sources,
                    amps,
                    t,
                    geo.idx(s.position[0] as int, s.position[1] as int, s.position[2] as int),
                    k,
                ),
            ))
    }
}

/// A shorter prefix of an in-range injection is in range.
pub proof fn lemma_inject_ok_prefix(
    geo: Grid3<i8>,
    base: Grid3<i64>,
    sources: Seq<Source>,
    amps: Seq<i64>,
    t: int,
    k1: nat,
    k2: nat,
)
    requires
        k1 <= k2,
        inject_ok_grid(geo, base, sources, amps, t, k2),
    ensures
        inject_ok_grid(geo, base, sources, amps, t, k1),
    decreases k2,
{
    if k1 < k2 {
        lemma_inject_ok_prefix(geo, base, sources, amps, t, k1, (k2 - 1) as nat);
    }
}

/// Add every active source's signed amplitude to its cell of `base`, in
/// source order; `None` exactly when an intermediate value leaves the
/// sample range, in which case nothing is reported back.
#[verifier::loop_isolation(false)]
#[verifier::rlimit(60)]
fn inject_all_into(
    geo: &Grid3<i8>,
    base: &Grid3<i64>,
    sources: &Vec<Source>,
    amps: &Vec<i64>,
    t_nanos: u128,
) -> (r: Option<Grid3<i64>>)
    requires
        geo.wf(),
        base.wf(),
        base.same_shape(*geo),
        amps@.len() == sources@.len(),
        forall|k: int|
            0 <= k < sources@.len() ==> {
                &&& (#[trigger] sources@[k]).wf()
                &&& geo.in_bounds(
                    sources@[k].position[0] as int,
                    sources@[k].position[1] as int,
                    sources@[k].position[2] as int,
                )
            },
    ensures
        r is Some <==> inject_ok_grid(*geo, *base, sources@, amps@, t_nanos as int, sources@.len() as nat),
        r is Some ==> {
            let g = r->Some_0;
            &&& g.wf()
            &&& g.same_shape(*geo)
            &&& forall|x: int, y: int, z: int|
                geo.in_bounds(x, y, z) ==> g.cell(x, y, z) == base.cell(x, y, z) + injected_total(
                    *geo,
                    sources@,
                    amps@,
                    t_nanos as int,
                    geo.idx(x, y, z),
                    sources@.len() as nat,
                )
        },
{
    let ghost t: int = t_nanos as int;
    let mut cells: Vec<i64> = Vec::new();
    let mut j: usize = 0;
    let n: usize = base.cells.len();
    while j < n
        invariant
            j <= n,
            n == base.cells@.len(),
            cells@.len() == j,
            forall|i: int| 0 <= i < j ==> cells@[i] == base.cells@[i],
        decreases n - j,
    {
        cells.push(base.cells[j]);
        j = j + 1;
    }
    proof {
        assert forall|x: int, y: int, z: int|
            geo.in_bounds(x, y, z) implies cells@[geo.idx(x, y, z)] == base.cell(x, y, z)
                + injected_total(*geo, sources@, amps@, t, geo.idx(x, y, z), 0nat) by {
            lemma_idx_bounds(geo.w as int, geo.h as int, geo.d as int, x, y, z);
        }
    }
    let mut k: usize = 0;
    while k < sources.len()
        invariant
            k <= sources@.len(),
            amps@.len() == sources@.len(),
            cells@.len() == base.cells@.len(),
            inject_ok_grid(*geo, *base, sources@, amps@, t, k as nat),
            forall|x: int, y: int, z: int|
                geo.in_bounds(x, y, z) ==> cells@[geo.idx(x, y, z)] == base.cell(x, y, z)
                    + injected_total(*geo, sources@, amps@, t, geo.idx(x, y, z), k as nat),
        decreases sources@.len() - k,
    {
        let s: Source = sources[k];
        let active: bool = if s.pulses == 1 {
            true
        } else {
            s.is_active(t_nanos)
        };
        if active {
            let sign: i64 = s.injection_sign();
            let amp: i64 = amps[k];
            let p0: usize = s.position[0];
            let p1: usize = s.position[1];
            let p2: usize = s.position[2];
            proof {
                lemma_idx_bounds(geo.w as int, geo.h as int, geo.d as int, p0 as int, p1 as int, p2 as int);
                lemma_mul_bounds(sign as int, amp as int, 1, i64::MAX as int + 1);
            }
            let j0: usize = (p0 * geo.h + p1) * geo.d + p2;
            let cur: i64 = cells[j0];
            let nv: i128 = (cur as i128) + (sign as i128) * (amp as i128);
            if nv < i64::MIN as i128 || nv > i64::MAX as i128 {
                proof {
                    assert(!inject_ok_grid(*geo, *base, sources@, amps@, t, (k + 1) as nat));
                    if inject_ok_grid(*geo, *base, sources@, amps@, t, sources@.len() as nat) {
                        lemma_inject_ok_prefix(
                            *geo,
                            *base,
                            sources@,
                            amps@,
                            t,
                            (k + 1) as nat,
                            sources@.len() as nat,
                        );
                    }
                }
                return None;
            }
            cells.set(j0, nv as i64);
            proof {
                assert forall|x: int, y: int, z: int|
                    geo.in_bounds(x, y, z) implies cells@[geo.idx(x, y, z)] == base.cell(x, y, z)
                        + injected_total(*geo, sources@, amps@, t, geo.idx(x, y, z), (k + 1) as nat) by {
                    lemma_idx_bounds(geo.w as int, geo.h as int, geo.d as int, x, y, z);
                    if geo.idx(x, y, z) == j0 {
                        crate::grid::lemma_idx_injective(
                            geo.w as int, geo.h as int, geo.d as int,
                            x, y, z,
                            p0 as int, p1 as int, p2 as int,
                        );
                    }
                }
            }
        } else {
            proof {
                assert forall|x: int, y: int, z: int|
                    geo.in_bounds(x, y, z) implies cells@[geo.idx(x, y, z)] == base.cell(x, y, z)
                        + injected_total(*geo, sources@, amps@, t, geo.idx(x, y, z), (k + 1) as nat) by {
                    lemma_idx_bounds(geo.w as int, geo.h as int, geo.d as int, x, y, z);
                }
            }
        }
        k = k + 1;
    }
    let g = Grid3 { w: geo.w, h: geo.h, d: geo.d, cells };
    proof {
        assert forall|x: int, y: int, z: int|
            geo.in_bounds(x, y, z) implies g.cell(x, y, z) == base.cell(x, y, z) + injected_total(
                *geo,
                sources@,
                amps@,
                t,
                geo.idx(x, y, z),
                sources@.len() as nat,
            ) by {
            lemma_idx_bounds(geo.w as int, geo.h as int, geo.d as int, x, y, z);
        }
    }
    Some(g)
}

impl Simulation {
    /// The split-scheme gradient coefficient, zero under the compact scheme.
    pub open spec fn split_coef_kappa(self) -> int {
        match self.scheme {
            Scheme::Split { kappa_coef, .. } => kappa_coef as int,
            Scheme::Compact { .. } => 0,
        }
    }

    /// The split-scheme divergence coefficient, zero under the compact scheme.
    pub open spec fn split_coef_rho(self) -> int {
        match self.scheme {
            Scheme::Split { rho_coef, .. } => rho_coef as int,
            Scheme::Compact { .. } => 0,
        }
    }

    /// The split-scheme loss-factor numerator, one under the compact scheme.
    pub open spec fn split_damp_num(self) -> int {
        match self.scheme {
            Scheme::Split { damp_num, .. } => damp_num as int,
            Scheme::Compact { .. } => 1,
        }
    }

    /// The split-scheme loss-factor denominator, one under the compact scheme.
    pub open spec fn split_damp_den(self) -> int {
        match self.scheme {
            Scheme::Split { damp_den, .. } => damp_den as int,
            Scheme::Compact { .. } => 1,
        }
    }

    /// The w-axis velocity the split scheme's velocity kernel writes at
    /// (x, y, z) this step.
    pub open spec fn velocity_next_x(self, x: int, y: int, z: int) -> int {
        velocity_x_value(self.geometry, self.pressure, self.velocity_x, self.split_coef_kappa(), x, y, z)
    }

    /// The h-axis velocity the split scheme writes this step.
    pub open spec fn velocity_next_y(self, x: int, y: int, z: int) -> int {
        velocity_y_value(self.geometry, self.pressure, self.velocity_y, self.split_coef_kappa(), x, y, z)
    }

    /// The d-axis velocity the split scheme writes this step.
    pub open spec fn velocity_next_z(self, x: int, y: int, z: int) -> int {
        velocity_z_value(self.geometry, self.pressure, self.velocity_z, self.split_coef_kappa(), x, y, z)
    }

    /// `velocity_next_x` read as a neighbour: zero out of bounds.
    pub open spec fn velocity_next_raw_x(self, x: int, y: int, z: int) -> int {
        if self.geometry.in_bounds(x, y, z) {
            self.velocity_next_x(x, y, z)
        } else {
            0
        }
    }

    /// `velocity_next_y` read as a neighbour: zero out of bounds.
    pub open spec fn velocity_next_raw_y(self, x: int, y: int, z: int) -> int {
        if self.geometry.in_bounds(x, y, z) {
            self.velocity_next_y(x, y, z)
        } else {
            0
        }
    }

    /// `velocity_next_z` read as a neighbour: zero out of bounds.
    pub open spec fn velocity_next_raw_z(self, x: int, y: int, z: int) -> int {
        if self.geometry.in_bounds(x, y, z) {
            self.velocity_next_z(x, y, z)
        } else {
            0
        }
    }

    /// The pressure the scheme's kernels write at (x, y, z) this step,
    /// before source injection: the compact stencil value, or the split
    /// scheme's divergence update from this step's fresh velocities. Zero
    /// for a solid cell under either scheme.
    pub open spec fn stencil_p_value(self, x: int, y: int, z: int) -> int {
        match self.scheme {
            Scheme::Compact { d1, d2, d3, d4 } => compact_value(
                self.geometry,
                self.pressure,
                self.pressure_previous,
                d1 as int,
                d2 as int,
                d3 as int,
                d4 as int,
                x,
                y,
                z,
            ),
            Scheme::Split { kappa_coef, rho_coef, damp_num, damp_den } => {
                if !is_air(self.geometry.cell(x, y, z)) {
                    0
                } else {
                    div_trunc(
                        damp_num * (self.pressure.cell(x, y, z) - rho_coef * ((self.velocity_next_x(
                            x,
                            y,
                            z,
                        ) - self.velocity_next_raw_x(x - 1, y, z)) + (self.velocity_next_y(x, y, z)
                            - self.velocity_next_raw_y(x, y - 1, z)) + (self.velocity_next_z(
                            x,
                            y,
                            z,
                        ) - self.velocity_next_raw_z(x, y, z - 1)))),
                        damp_den as int,
                    )
                }
            },
        }
    }

    /// The analysis accumulator after this step's kernel: grown by the
    /// square of the fresh pressure for air cells.
    pub open spec fn analysis_next(self, x: int, y: int, z: int) -> int {
        if is_air(self.geometry.cell(x, y, z)) {
            self.analysis.cell(x, y, z) + self.stencil_p_value(x, y, z) * self.stencil_p_value(x, y, z)
        } else {
            self.analysis.cell(x, y, z) as int
        }
    }

    /// Injection into this step's stencil output stays within the sample
    /// range at every intermediate value.
    pub open spec fn inject_ok_model(self, amps: Seq<i64>, k: nat) -> bool
        decreases k,
    {
        if k == 0 {
            true
        } else {
            let s = self.sources@[k as int - 1];
            &&& self.inject_ok_model(amps, (k - 1) as nat)
            &&& (s.injects_at(self.time_nanos_of()) && self.geometry.in_bounds(
                s.position[0] as int,
                s.position[1] as int,
                s.position[2] as int,
            ) ==> in_i64(
                self.stencil_p_value(s.position[0] as int, s.position[1] as int, s.position[2] as int)
                    + injected_total(
                    self.geometry,
                    self.sources@,
                    amps,
                    self.time_nanos_of(),
                    self.geometry.idx(s.position[0] as int, s.position[1] as int, s.position[2] as int),
                    k,
                ),
            ))
        }
    }

    /// `step` is refused outright: the mask holds solid cells but
    /// neighbours were never computed.
    pub open spec fn step_blocked(self) -> bool {
        !self.neighbours_ready && geometry_nonempty(self.geometry)
    }

    /// Every value the scheme's kernels would write this step fits the
    /// sample range.
    pub open spec fn stencil_in_range(self) -> bool {
        match self.scheme {
            Scheme::Compact { .. } => forall|x: int, y: int, z: int|
                self.geometry.in_bounds(x, y, z) ==> in_i64(#[trigger] self.stencil_p_value(x, y, z)),
            Scheme::Split { .. } => forall|x: int, y: int, z: int|
                #![trigger self.stencil_p_value(x, y, z)]
                #![trigger self.velocity_next_x(x, y, z)]
                #![trigger self.velocity_next_y(x, y, z)]
                #![trigger self.velocity_next_z(x, y, z)]
                self.geometry.in_bounds(x, y, z) ==> {
                    &&& in_i64(self.velocity_next_x(x, y, z))
                    &&& in_i64(self.velocity_next_y(x, y, z))
                    &&& in_i64(self.velocity_next_z(x, y, z))
                    &&& in_i64(self.stencil_p_value(x, y, z))
                },
        }
    }

    /// The analysis accumulator, if kept, also stays in range this step.
    pub open spec fn analysis_in_range(self) -> bool {
        !self.analysis_enabled || forall|x: int, y: int, z: int|
            self.geometry.in_bounds(x, y, z) ==> in_i128(#[trigger] self.analysis_next(x, y, z))
    }

    /// Every exact value of this step fits its machine range: the stencil
    /// writes, the analysis accumulator, and each injection in turn.
    pub open spec fn step_in_range(self, amps: Seq<i64>) -> bool {
        &&& self.stencil_in_range()
        &&& self.analysis_in_range()
        &&& self.inject_ok_model(amps, self.sources@.len() as nat)
    }
}

/// The full effect of one successful step from `a` with amplitudes `amps`:
/// configuration, mask, neighbours and sources carry over; the counters
/// advance; and every cell of every written field holds exactly the value
/// the scheme's update rules and the source injection call for.
pub open spec fn step_to(a: Simulation, amps: Seq<i64>, b: Simulation) -> bool {
    &&& b.params == a.params
    &&& b.scheme == a.scheme
    &&& b.analysis_enabled == a.analysis_enabled
    &&& b.geometry == a.geometry
    &&& b.neighbours == a.neighbours
    &&& b.neighbours_ready == a.neighbours_ready
    &&& b.sources == a.sources
    &&& b.iteration == a.iteration + 1
    &&& b.pressure.wf() && b.pressure.same_shape(a.geometry)
    &&& forall|x: int, y: int, z: int|
        a.geometry.in_bounds(x, y, z) ==> b.pressure.cell(x, y, z) == a.stencil_p_value(x, y, z)
            + injected_total(
            a.geometry,
            a.sources@,
            amps,
            a.time_nanos_of(),
            a.geometry.idx(x, y, z),
            a.sources@.len() as nat,
        )
    &&& match a.scheme {
        Scheme::Split { .. } => {
            &&& b.pressure_previous == a.pressure_previous
            &&& b.velocity_x.wf() && b.velocity_x.same_shape(a.geometry)
            &&& b.velocity_y.wf() && b.velocity_y.same_shape(a.geometry)
            &&& b.velocity_z.wf() && b.velocity_z.same_shape(a.geometry)
            &&& forall|x: int, y: int, z: int|
                a.geometry.in_bounds(x, y, z) ==> b.velocity_x.cell(x, y, z)
                    == a.velocity_next_x(x, y, z)
            &&& forall|x: int, y: int, z: int|
                a.geometry.in_bounds(x, y, z) ==> b.velocity_y.cell(x, y, z)
                    == a.velocity_next_y(x, y, z)
            &&& forall|x: int, y: int, z: int|
                a.geometry.in_bounds(x, y, z) ==> b.velocity_z.cell(x, y, z)
                    == a.velocity_next_z(x, y, z)
        },
        Scheme::Compact { .. } => {
            &&& b.pressure_previous == a.pressure
            &&& b.velocity_x == a.velocity_x
            &&& b.velocity_y == a.velocity_y
            &&& b.velocity_z == a.velocity_z
        },
    }
    &&& if a.analysis_enabled {
        &&& b.analysis.wf() && b.analysis.same_shape(a.geometry)
        &&& forall|x: int, y: int, z: int|
            a.geometry.in_bounds(x, y, z) ==> b.analysis.cell(x, y, z) == a.analysis_next(x, y, z)
    } else {
        b.analysis == a.analysis
    }
}

/// Injection into a grid that holds exactly this step's stencil values is
/// in range exactly when the step's own injection condition holds.
proof fn lemma_inject_ok_bridge(a: Simulation, base: Grid3<i64>, amps: Seq<i64>, k: nat)
    requires
        a.wf(),
        base.wf(),
        base.same_shape(a.geometry),
        k <= a.sources@.len(),
        forall|x: int, y: int, z: int|
            a.geometry.in_bounds(x, y, z) ==> #[trigger] base.cell(x, y, z) == a.stencil_p_value(x, y, z),
    ensures
        inject_ok_grid(a.geometry, base, a.sources@, amps, a.time_nanos_of(), k) == a.inject_ok_model(amps, k),
    decreases k,
{
    if k > 0 {
        lemma_inject_ok_bridge(a, base, amps, (k - 1) as nat);
    }
}

impl Simulation {
    /// Advance the simulation by one time slice: run the scheme's kernels
    /// in their fixed order, then the analysis accumulator if kept, then
    /// inject every active source's amplitude, then advance the counter.
    /// `amps[k]` is the caller-evaluated signal sample of source `k` for
    /// the present time. Refused without touching any state when
    /// neighbours are missing for a non-empty mask, or when an exact value
    /// would leave its machine range.
    #[verifier::rlimit(100)]
    pub fn step(&mut self, amps: &Vec<i64>) -> (r: Result<(), SimulationError>)
        requires
            old(self).wf(),
            amps@.len() == old(self).sources@.len(),
            old(self).iteration < u64::MAX,
        ensures
            final(self).wf(),
            r is Ok <==> (!old(self).step_blocked() && old(self).step_in_range(amps@)),
            r is Ok ==> step_to(*old(self), amps@, *final(self)),
            r is Err ==> *final(self) == *old(self),
            r is Err ==> ((r->Err_0 == SimulationError::UninitializedNeighbours)
                <==> old(self).step_blocked()),
    {
        if !self.neighbours_ready {
            if self.has_solid_geometry() {
                return Err(SimulationError::UninitializedNeighbours);
            }
        }
        let t: u128 = self.time_nanos();
        match self.scheme {
            Scheme::Compact { d1, d2, d3, d4 } => {
                let p2: Grid3<i64> = match compact_pass(
                    &self.geometry,
                    &self.pressure,
                    &self.pressure_previous,
                    d1,
                    d2,
                    d3,
                    d4,
                ) {
                    Some(g) => g,
                    None => {
                        proof {
                            let (x, y, z): (int, int, int) = choose|x: int, y: int, z: int|
                                self.geometry.in_bounds(x, y, z) && !in_i64(
                                    compact_value(
                                        self.geometry,
                                        self.pressure,
                                        self.pressure_previous,
                                        d1 as int,
                                        d2 as int,
                                        d3 as int,
                                        d4 as int,
                                        x,
                                        y,
                                        z,
                                    ),
                                );
                            assert(!in_i64(self.stencil_p_value(x, y, z)));
                            assert(!self.stencil_in_range());
                        }
                        return Err(SimulationError::SampleOverflow);
                    },
                };
                let a2opt: Option<Grid3<i128>> = if self.analysis_enabled {
                    proof {
                        assert forall|x: int, y: int, z: int|
                            self.geometry.in_bounds(x, y, z) implies analysis_value(
                                self.geometry,
                                self.analysis,
                                p2,
                                x,
                                y,
                                z,
                            ) == self.analysis_next(x, y, z) by {}
                    }
                    match analysis_pass(&self.geometry, &self.analysis, &p2) {
                        Some(g) => Some(g),
                        None => {
                            proof {
                                let (x, y, z): (int, int, int) = choose|x: int, y: int, z: int|
                                    self.geometry.in_bounds(x, y, z) && !in_i128(
                                        analysis_value(self.geometry, self.analysis, p2, x, y, z),
                                    );
                                assert(!in_i128(self.analysis_next(x, y, z)));
                                assert(!self.analysis_in_range());
                            }
                            return Err(SimulationError::SampleOverflow);
                        },
                    }
                } else {
                    None
                };
                let p3: Grid3<i64> = match inject_all_into(
                    &self.geometry,
                    &p2,
                    &self.sources,
                    amps,
                    t,
                ) {
                    Some(g) => g,
                    None => {
                        proof {
                            lemma_inject_ok_bridge(*self, p2, amps@, self.sources@.len() as nat);
                        }
                        return Err(SimulationError::SampleOverflow);
                    },
                };
                proof {
                    lemma_inject_ok_bridge(*self, p2, amps@, self.sources@.len() as nat);
                    assert forall|x: int, y: int, z: int|
                        self.geometry.in_bounds(x, y, z) implies in_i64(
                            #[trigger] self.stencil_p_value(x, y, z),
                        ) by {
                        assert(in_i64(
                            compact_value(
                                self.geometry,
                                self.pressure,
                                self.pressure_previous,
                                d1 as int,
                                d2 as int,
                                d3 as int,
                                d4 as int,
                                x,
                                y,
                                z,
                            ),
                        ));
                    }
                    assert(self.stencil_in_range());
                    if self.analysis_enabled {
                        assert forall|x: int, y: int, z: int|
                            self.geometry.in_bounds(x, y, z) implies in_i128(
                                #[trigger] self.analysis_next(x, y, z),
                            ) by {
                            assert(in_i128(analysis_value(self.geometry, self.analysis, p2, x, y, z)));
                        }
                    }
                    assert(self.analysis_in_range());
                    assert(self.step_in_range(amps@));
                }
                core::mem::swap(&mut self.pressure, &mut self.pressure_previous);
                self.pressure = p3;
                match a2opt {
                    Some(a2) => {
                        self.analysis = a2;
                    },
                    None => {},
                }
                self.iteration = self.iteration + 1;
                Ok(())
            },
            Scheme::Split { kappa_coef, rho_coef, damp_num, damp_den } => {
                let vx2: Grid3<i64> = match velocity_pass_x(
                    &self.geometry,
                    &self.pressure,
                    &self.velocity_x,
                    kappa_coef,
                ) {
                    Some(g) => g,
                    None => {
                        proof {
                            let (x, y, z): (int, int, int) = choose|x: int, y: int, z: int|
                                self.geometry.in_bounds(x, y, z) && !in_i64(
                                    velocity_x_value(
                                        self.geometry,
                                        self.pressure,
                                        self.velocity_x,
                                        kappa_coef as int,
                                        x,
                                        y,
                                        z,
                                    ),
                                );
                            assert(!in_i64(self.velocity_next_x(x, y, z)));
                            assert(!self.stencil_in_range());
                        }
                        return Err(SimulationError::SampleOverflow);
                    },
                };
                let vy2: Grid3<i64> = match velocity_pass_y(
                    &self.geometry,
                    &self.pressure,
                    &self.velocity_y,
                    kappa_coef,
                ) {
                    Some(g) => g,
                    None => {
                        proof {
                            let (x, y, z): (int, int, int) = choose|x: int, y: int, z: int|
                                self.geometry.in_bounds(x, y, z) && !in_i64(
                                    velocity_y_value(
                                        self.geometry,
                                        self.pressure,
                                        self.velocity_y,
                                        kappa_coef as int,
                                        x,
                                        y,
                                        z,
                                    ),
                                );
                            assert(!in_i64(self.velocity_next_y(x, y, z)));
                            assert(!self.stencil_in_range());
                        }
                        return Err(SimulationError::SampleOverflow);
                    },
                };
                let vz2: Grid3<i64> = match velocity_pass_z(
                    &self.geometry,
                    &self.pressure,
                    &self.velocity_z,
                    kappa_coef,
                ) {
                    Some(g) => g,
                    None => {
                        proof {
                            let (x, y, z): (int, int, int) = choose|x: int, y: int, z: int|
                                self.geometry.in_bounds(x, y, z) && !in_i64(
                                    velocity_z_value(
                                        self.geometry,
                                        self.pressure,
                                        self.velocity_z,
                                        kappa_coef as int,
                                        x,
                                        y,
                                        z,
                                    ),
                                );
                            assert(!in_i64(self.velocity_next_z(x, y, z)));
                            assert(!self.stencil_in_range());
                        }
                        return Err(SimulationError::SampleOverflow);
                    },
                };
                proof {
                    assert forall|x: int, y: int, z: int|
                        self.geometry.in_bounds(x, y, z) implies pressure_value(
                            self.geometry,
                            self.pressure,
                            vx2,
                            vy2,
                            vz2,
                            rho_coef as int,
                            damp_num as int,
                            damp_den as int,
                            x,
                            y,
                            z,
                        ) == self.stencil_p_value(x, y, z) by {
                        if self.geometry.in_bounds(x - 1, y, z) {
                            assert(vx2.cell(x - 1, y, z) == self.velocity_next_x(x - 1, y, z));
                        }
                        if self.geometry.in_bounds(x, y - 1, z) {
                            assert(vy2.cell(x, y - 1, z) == self.velocity_next_y(x, y - 1, z));
                        }
                        if self.geometry.in_bounds(x, y, z - 1) {
                            assert(vz2.cell(x, y, z - 1) == self.velocity_next_z(x, y, z - 1));
                        }
                    }
                }
                let p2: Grid3<i64> = match pressure_pass(
                    &self.geometry,
                    &self.pressure,
                    &vx2,
                    &vy2,
                    &vz2,
                    rho_coef,
                    damp_num,
                    damp_den,
                ) {
                    Some(g) => g,
                    None => {
                        proof {
                            let (x, y, z): (int, int, int) = choose|x: int, y: int, z: int|
                                self.geometry.in_bounds(x, y, z) && !in_i64(
                                    pressure_value(
                                        self.geometry,
                                        self.pressure,
                                        vx2,
                                        vy2,
                                        vz2,
                                        rho_coef as int,
                                        damp_num as int,
                                        damp_den as int,
                                        x,
                                        y,
                                        z,
                                    ),
                                );
                            assert(!in_i64(self.stencil_p_value(x, y, z)));
                            assert(!self.stencil_in_range());
                        }
                        return Err(SimulationError::SampleOverflow);
                    },
                };
                let a2opt: Option<Grid3<i128>> = if self.analysis_enabled {
                    proof {
                        assert forall|x: int, y: int, z: int|
                            self.geometry.in_bounds(x, y, z) implies analysis_value(
                                self.geometry,
                                self.analysis,
                                p2,
                                x,
                                y,
                                z,
                            ) == self.analysis_next(x, y, z) by {}
                    }
                    match analysis_pass(&self.geometry, &self.analysis, &p2) {
                        Some(g) => Some(g),
                        None => {
                            proof {
                                let (x, y, z): (int, int, int) = choose|x: int, y: int, z: int|
                                    self.geometry.in_bounds(x, y, z) && !in_i128(
                                        analysis_value(self.geometry, self.analysis, p2, x, y, z),
                                    );
                                assert(!in_i128(self.analysis_next(x, y, z)));
                                assert(!self.analysis_in_range());
                            }
                            return Err(SimulationError::SampleOverflow);
                        },
                    }
                } else {
                    None
                };
                let p3: Grid3<i64> = match inject_all_into(
                    &self.geometry,
                    &p2,
                    &self.sources,
                    amps,
                    t,
                ) {
                    Some(g) => g,
                    None => {
                        proof {
                            lemma_inject_ok_bridge(*self, p2, amps@, self.sources@.len() as nat);
                        }
                        return Err(SimulationError::SampleOverflow);
                    },
                };
                proof {
                    lemma_inject_ok_bridge(*self, p2, amps@, self.sources@.len() as nat);
                    assert forall|x: int, y: int, z: int|
                        self.geometry.in_bounds(x, y, z) implies {
                            &&& in_i64(self.velocity_next_x(x, y, z))
                            &&& in_i64(self.velocity_next_y(x, y, z))
                            &&& in_i64(self.velocity_next_z(x, y, z))
                            &&& in_i64(#[trigger] self.stencil_p_value(x, y, z))
                        } by {
                        assert(in_i64(
                            velocity_x_value(
                                self.geometry,
                                self.pressure,
                                self.velocity_x,
                                kappa_coef as int,
                                x,
                                y,
                                z,
                            ),
                        ));
                        assert(in_i64(
                            velocity_y_value(
                                self.geometry,
                                self.pressure,
                                self.velocity_y,
                                kappa_coef as int,
                                x,
                                y,
                                z,
                            ),
                        ));
                        assert(in_i64(
                            velocity_z_value(
                                self.geometry,
                                self.pressure,
                                self.velocity_z,
                                kappa_coef as int,
                                x,
                                y,
                                z,
                            ),
                        ));
                        assert(in_i64(
                            pressure_value(
                                self.geometry,
                                self.pressure,
                                vx2,
                                vy2,
                                vz2,
                                rho_coef as int,
                                damp_num as int,
                                damp_den as int,
                                x,
                                y,
                                z,
                            ),
                        ));
                    }
                    assert(self.stencil_in_range());
                    if self.analysis_enabled {
                        assert forall|x: int, y: int, z: int|
                            self.geometry.in_bounds(x, y, z) implies in_i128(
                                #[trigger] self.analysis_next(x, y, z),
                            ) by {
                            assert(in_i128(analysis_value(self.geometry, self.analysis, p2, x, y, z)));
                        }
                    }
                    assert(self.analysis_in_range());
                    assert(self.step_in_range(amps@));
                }
                self.velocity_x = vx2;
                self.velocity_y = vy2;
                self.velocity_z = vz2;
                self.pressure = p3;
                match a2opt {
                    Some(a2) => {
                        self.analysis = a2;
                    },
                    None => {},
                }
                self.iteration = self.iteration + 1;
                Ok(())
            },
        }
    }

    /// Run source injection alone on the present pressure slice: add every
    /// active source's signed amplitude to its cell, in source order, at
    /// the present time. Refused without touching any state when an
    /// intermediate value would leave the sample range.
    pub fn sources_step(&mut self, amps: &Vec<i64>) -> (r: Result<(), SimulationError>)
        requires
            old(self).wf(),
            amps@.len() == old(self).sources@.len(),
        ensures
            final(self).wf(),
            r is Ok <==> inject_ok_grid(
                old(self).geometry,
                old(self).pressure,
                old(self).sources@,
                amps@,
                old(self).time_nanos_of(),
                old(self).sources@.len() as nat,
            ),
            r is Ok ==> {
                &&& final(self).pressure.wf() && final(self).pressure.same_shape(old(self).geometry)
                &&& forall|x: int, y: int, z: int|
                    old(self).geometry.in_bounds(x, y, z) ==> final(self).pressure.cell(x, y, z)
                        == old(self).pressure.cell(x, y, z) + injected_total(
                        old(self).geometry,
                        old(self).sources@,
                        amps@,
                        old(self).time_nanos_of(),
                        old(self).geometry.idx(x, y, z),
                        old(self).sources@.len() as nat,
                    )
                &&& final(self).params == old(self).params
                &&& final(self).scheme == old(self).scheme
                &&& final(self).analysis_enabled == old(self).analysis_enabled
                &&& final(self).geometry == old(self).geometry
                &&& final(self).neighbours == old(self).neighbours
                &&& final(self).neighbours_ready == old(self).neighbours_ready
                &&& final(self).pressure_previous == old(self).pressure_previous
                &&& final(self).velocity_x == old(self).velocity_x
                &&& final(self).velocity_y == old(self).velocity_y
                &&& final(self).velocity_z == old(self).velocity_z
                &&& final(self).analysis == old(self).analysis
                &&& final(self).sources == old(self).sources
                &&& final(self).iteration == old(self).iteration
            },
            r is Err ==> *final(self) == *old(self) && r->Err_0 == SimulationError::SampleOverflow,
    {
        let t: u128 = self.time_nanos();
        match inject_all_into(&self.geometry, &self.pressure, &self.sources, amps, t) {
            Some(g) => {
                self.pressure = g;
                Ok(())
            },
            None => Err(SimulationError::SampleOverflow),
        }
    }
}

/// The per-step amplitude batches carried by one flat sequence: batch `j`
/// holds the `k` samples of step `j`.
pub open spec fn batch_amps(amps: Seq<i64>, n: int, k: int) -> Seq<Seq<i64>> {
    Seq::new(n as nat, |j: int| amps.subrange(j * k, (j + 1) * k))
}

/// A chain of successful steps from `a` through the given amplitude
/// batches, ending at `b`.
pub open spec fn steps_to(a: Simulation, ampss: Seq<Seq<i64>>, b: Simulation) -> bool
    decreases ampss.len(),
{
    if ampss.len() == 0 {
        b == a
    } else {
        exists|mid: Simulation| #[trigger] step_to(a, ampss[0], mid) && steps_to(mid, ampss.skip(1), b)
    }
}

/// A chain grows at its end: stepping once more from the end of a chain
/// extends the chain by that batch.
pub proof fn lemma_steps_to_snoc(a: Simulation, s: Seq<Seq<i64>>, mid: Simulation, q: Seq<i64>, b: Simulation)
    requires
        steps_to(a, s, mid),
        step_to(mid, q, b),
    ensures
        steps_to(a, s.push(q), b),
    decreases s.len(),
{
    if s.len() == 0 {
        assert(mid == a);
        assert(s.push(q)[0] == q);
        assert(s.push(q).skip(1) =~= Seq::<Seq<i64>>::empty());
        assert(steps_to(b, s.push(q).skip(1), b));
        assert(step_to(a, s.push(q)[0], b) && steps_to(b, s.push(q).skip(1), b));
    } else {
        let m1: Simulation = choose|m1: Simulation| #[trigger] step_to(a, s[0], m1) && steps_to(m1, s.skip(1), mid);
        lemma_steps_to_snoc(m1, s.skip(1), mid, q, b);
        assert(s.push(q)[0] == s[0]);
        assert(s.push(q).skip(1) =~= s.skip(1).push(q));
        assert(step_to(a, s.push(q)[0], m1) && steps_to(m1, s.push(q).skip(1), b));
    }
}

/// Batching law: running a chain over two batch sequences in a row is the
/// same as running it over their concatenation — stepping N times and
/// stepping one batch of N land in the same chain.
pub proof fn lemma_step_batching(a: Simulation, s1: Seq<Seq<i64>>, s2: Seq<Seq<i64>>, b: Simulation)
    ensures
        steps_to(a, s1 + s2, b) <==> exists|mid: Simulation|
            #[trigger] steps_to(a, s1, mid) && steps_to(mid, s2, b),
    decreases s1.len(),
{
    if s1.len() == 0 {
        assert(s1 + s2 =~= s2);
        if steps_to(a, s1 + s2, b) {
            assert(steps_to(a, s1, a) && steps_to(a, s2, b));
        }
        if exists|mid: Simulation| #[trigger] steps_to(a, s1, mid) && steps_to(mid, s2, b) {
            let mid: Simulation = choose|mid: Simulation| #[trigger] steps_to(a, s1, mid) && steps_to(mid, s2, b);
            assert(mid == a);
        }
    } else {
        assert((s1 + s2)[0] == s1[0]);
        assert((s1 + s2).skip(1) =~= s1.skip(1) + s2);
        if steps_to(a, s1 + s2, b) {
            let m1: Simulation = choose|m1: Simulation|
                #[trigger] step_to(a, (s1 + s2)[0], m1) && steps_to(m1, (s1 + s2).skip(1), b);
            lemma_step_batching(m1, s1.skip(1), s2, b);
            let mid: Simulation = choose|mid: Simulation|
                #[trigger] steps_to(m1, s1.skip(1), mid) && steps_to(mid, s2, b);
            assert(step_to(a, s1[0], m1) && steps_to(m1, s1.skip(1), mid));
            assert(steps_to(a, s1, mid) && steps_to(mid, s2, b));
        }
        if exists|mid: Simulation| #[trigger] steps_to(a, s1, mid) && steps_to(mid, s2, b) {
            let mid: Simulation = choose|mid: Simulation| #[trigger] steps_to(a, s1, mid) && steps_to(mid, s2, b);
            let m1: Simulation = choose|m1: Simulation| #[trigger] step_to(a, s1[0], m1) && steps_to(m1, s1.skip(1), mid);
            lemma_step_batching(m1, s1.skip(1), s2, b);
            assert(steps_to(m1, s1.skip(1), mid) && steps_to(mid, s2, b));
            assert(steps_to(m1, s1.skip(1) + s2, b));
            assert(step_to(a, (s1 + s2)[0], m1) && steps_to(m1, (s1 + s2).skip(1), b));
        }
    }
}

impl Simulation {
    /// Advance the simulation by `n` steps in one call, reading the
    /// amplitudes of step `j` from `amps[j·k .. (j+1)·k]` for `k` sources.
    /// Stops at the first refused step, leaving the successfully stepped
    /// prefix in place and reporting that step's error.
    #[verifier::loop_isolation(false)]
    #[verifier::rlimit(60)]
    pub fn step_many(&mut self, n: usize, amps: &Vec<i64>) -> (r: Result<(), SimulationError>)
        requires
            old(self).wf(),
            amps@.len() == n * old(self).sources@.len(),
            old(self).iteration + n <= u64::MAX,
        ensures
            final(self).wf(),
            r is Ok ==> steps_to(
                *old(self),
                batch_amps(amps@, n as int, old(self).sources@.len() as int),
                *final(self),
            ),
            r is Err ==> exists|m: int|
                {
                    &&& 0 <= m < n
                    &&& #[trigger] steps_to(
                        *old(self),
                        batch_amps(amps@, m, old(self).sources@.len() as int),
                        *final(self),
                    )
                    &&& (final(self).step_blocked() || !final(self).step_in_range(
                        amps@.subrange(
                            m * old(self).sources@.len(),
                            (m + 1) * old(self).sources@.len(),
                        ),
                    ))
                },
            r is Err ==> ((r->Err_0 == SimulationError::UninitializedNeighbours)
                <==> final(self).step_blocked()),
    {
        let k: usize = self.sources.len();
        let total: usize = amps.len();
        let mut j: usize = 0;
        proof {
            assert(batch_amps(amps@, 0int, k as int) =~= Seq::<Seq<i64>>::empty());
        }
        while j < n
            invariant
                j <= n,
                self.wf(),
                self.sources == old(self).sources,
                k == old(self).sources@.len(),
                total == amps@.len(),
                self.iteration == old(self).iteration + j,
                steps_to(*old(self), batch_amps(amps@, j as int, k as int), *self),
            decreases n - j,
        {
            let ghost pre: Simulation = *self;
            let mut step_amps: Vec<i64> = Vec::new();
            let mut i: usize = 0;
            proof {
                assert(j * k + k <= n * k && j * k >= 0 && (j as int + 1) * (k as int) == j * k + k)
                    by (nonlinear_arith)
                    requires
                        0 <= j < n,
                        k >= 0,
                ;
            }
            while i < k
                invariant
                    i <= k,
                    j < n,
                    j * k + k <= n * k,
                    n * k == total,
                    total == amps@.len(),
                    step_amps@.len() == i,
                    forall|q: int| 0 <= q < i ==> step_amps@[q] == amps@[j * k + q],
                decreases k - i,
            {
                step_amps.push(amps[j * k + i]);
                i = i + 1;
            }
            proof {
                assert((j as int + 1) * (k as int) == j * k + k) by (nonlinear_arith);
                assert(step_amps@ =~= amps@.subrange(j * k, j * k + k));
            }
            let result: Result<(), SimulationError> = self.step(&step_amps);
            match result {
                Ok(()) => {},
                Err(e) => {
                    proof {
                        assert(amps@.subrange(j * k, j * k + k) == amps@.subrange(
                            (j as int) * (k as int),
                            (j as int + 1) * (k as int),
                        ));
                        assert(steps_to(*old(self), batch_amps(amps@, j as int, k as int), *self)
                            && (self.step_blocked() || !self.step_in_range(
                            amps@.subrange((j as int) * (k as int), (j as int + 1) * (k as int)),
                        )));
                    }
                    return Err(e);
                },
            }
            proof {
                lemma_steps_to_snoc(
                    *old(self),
                    batch_amps(amps@, j as int, k as int),
                    pre,
                    step_amps@,
                    *self,
                );
                assert(batch_amps(amps@, j as int + 1, k as int) =~= batch_amps(
                    amps@,
                    j as int,
                    k as int,
                ).push(step_amps@));
            }
            j = j + 1;
        }
        Ok(())
    }
}

} // verus!
