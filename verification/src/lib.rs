//! Kernel of a particle-interaction simulator: the particle store, the table
//! of group-to-group relations, the order in which a tick visits them, and the
//! round-robin rule that lets particles sit out a force pass.
//!
//! The kernel is generic over the scalar type `S` of coordinates, velocities
//! and force parameters. It never computes with scalars: it decides where they
//! are stored, which of them change, and in which order. The arithmetic of a
//! tick is handed to it as functions, and the random scalars as vectors.

pub mod error;
pub mod schedule;
pub mod particles;
pub mod relations;
pub mod state;
pub mod tick;
