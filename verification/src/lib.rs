//! Core of a three-dimensional room-acoustics simulator based on the
//! finite-difference time-domain (FDTD) method.
//!
//! The library holds the verified host-side state of the simulation: the
//! dense 3-D grids, the obstacle mask and its precomputed open-neighbour
//! counts, the point sources with their gating rules, and the engine state
//! machine that advances the field one step at a time. Field samples are
//! kept as signed 64-bit integers; the stencil updates are exact integer
//! arithmetic, so every per-cell update rule is pinned down by its contract.
//! The floating-point device path (kernel compilation, buffer shuttling,
//! transcendental signal evaluation) lives outside the library and feeds it
//! plain values.

pub mod analysis;
pub mod grid;
pub mod laws;
pub mod neighbours;
pub mod simulation;
pub mod source;
pub mod split;
pub mod stencil;

pub use grid::Grid3;
pub use grid::WALL_FLAG;
pub use grid::create_grid_i8;
pub use grid::create_grid_i64;
pub use neighbours::neighbours_of;
pub use simulation::Scheme;
pub use simulation::Simulation;
pub use simulation::SimulationError;
pub use simulation::SimulationParameters;
pub use source::PULSE_WINDOW_SCALE;
pub use source::Source;
