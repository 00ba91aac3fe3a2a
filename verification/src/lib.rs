//! Fixed-step simulation of point masses under mutual gravitation in the plane,
//! with a sampler that bounds how many snapshots of a long run are retained.
//!
//! The library owns the state of a run and decides what is computed from what,
//! in which order, and which results are kept. It is generic in the number
//! type and does no arithmetic on it: the arithmetic of a force, of a move and
//! of the clock is done by kernels that the caller passes in, and every
//! contract is stated relative to what those kernels promise.

pub mod body;
pub mod config;
pub mod determinism;
pub mod dynamics;
pub mod engine;
pub mod render;
pub mod sampler;
pub mod simulation;

pub use body::{Body, Snapshot, Vector2};
pub use config::{ConfigurationError, SimulationConfig};
pub use dynamics::{accelerate, advance, SingularPair};
pub use engine::{Engine, SimulationError};
pub use sampler::Sampler;
pub use simulation::run;
