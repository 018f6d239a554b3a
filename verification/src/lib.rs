//! Two real-time 2D fluid solvers over fixed-point arithmetic: a grid-based
//! incompressible Euler solver and a particle-based SPH solver. Each solver
//! owns its state, is advanced one step per `update` call, and regenerates a
//! buffer of renderable point instances that a host rendering loop consumes.

pub mod euler;
pub mod fixed;
pub mod input_handler;
pub mod instance;
pub mod sph;
