use vstd::prelude::*;

verus! {

/// Why a simulation could not be built from the values it was given.
#[derive(Clone, Copy, Debug, PartialEq, Eq, Structural)]
pub enum ConfigError {
    /// The number of groups is zero.
    ZeroGroups,
    /// The round-robin period is zero.
    ZeroPeriod,
    /// The particles cannot all be given an identifier of 32 bits.
    TooManyParticles,
    /// The number of positions or velocities differs from the number of particles.
    DrawCount,
    /// The number of relation values differs from the square of the number of groups.
    RelationSize,
}

} // verus!
