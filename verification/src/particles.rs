//! The particle store: every particle of every group, in one dense array.
//!
//! All groups have the same size, the density. The particle at place `index`
//! of group `group` lies in slot `group * density + index`, and its identifier
//! is its slot. Groups and identifiers are fixed for the store's lifetime; only
//! positions and velocities change.

use vstd::prelude::*;
use vstd::arithmetic::div_mod::{
    lemma_fundamental_div_mod, lemma_fundamental_div_mod_converse, lemma_mod_bound,
};
use crate::error::ConfigError;

verus! {

/// A point of the world.
#[derive(Clone, Copy, Debug, PartialEq)]
pub struct GridPosition<S> {
    pub x: S,
    pub y: S,
}

/// One particle: where it is, how fast it moves, the group it belongs to and
/// the identifier of the slot it is drawn in.
#[derive(Clone, Copy, Debug, PartialEq)]
pub struct Particle<S> {
    pub pos: GridPosition<S>,
    pub vx: S,
    pub vy: S,
    pub group: usize,
    pub id: u32,
}

/// What a drawing of one particle needs: its position, its group and its identifier.
#[derive(Clone, Copy, Debug, PartialEq)]
pub struct Sprite<S> {
    pub pos: GridPosition<S>,
    pub group: usize,
    pub id: u32,
}

/// The particle that a fresh store holds in slot `slot`.
pub open spec fn seeded_particle<S>(
    slot: int,
    density: int,
    positions: Seq<GridPosition<S>>,
    velocities: Seq<(S, S)>,
) -> Particle<S> {
    Particle {
        pos: positions[slot],
        vx: velocities[slot].0,
        vy: velocities[slot].1,
        group: (slot / density) as usize,
        id: slot as u32,
    }
}

/// The slot of the particle at place `index` of group `group`.
pub open spec fn slot_of(group: int, index: int, density: int) -> int {
    group * density + index
}

/// A slot determines its group and its place in the group.
pub proof fn lemma_slot_inverse(group: int, index: int, group_count: int, density: int)
    requires
        0 <= group < group_count,
        0 <= index < density,
    ensures
        0 <= slot_of(group, index, density) < group_count * density,
        slot_of(group, index, density) / density == group,
        slot_of(group, index, density) % density == index,
{
    lemma_fundamental_div_mod_converse(slot_of(group, index, density), density, group, index);
    assert(group * density + index < group_count * density) by (nonlinear_arith)
        requires
            0 <= group < group_count,
            0 <= index < density,
    ;
    assert(0 <= group * density) by (nonlinear_arith)
        requires
            0 <= group,
            0 < density,
    ;
}

/// A slot is the only one with its group and its place in the group.
pub proof fn lemma_slot_unique(k: int, group: int, index: int, density: int)
    requires
        density > 0,
        k / density == group,
        k % density == index,
    ensures
        k == slot_of(group, index, density),
{
    lemma_fundamental_div_mod(k, density);
    assert(density * group == group * density) by (nonlinear_arith);
}

/// All particles, grouped.
pub struct ParticleStore<S> {
    group_count: usize,
    density: usize,
    particles: Vec<Particle<S>>,
}

impl<S: Copy> ParticleStore<S> {
    /// The particles, slot by slot.
    pub closed spec fn view(&self) -> Seq<Particle<S>> {
        self.particles@
    }

    /// The number of groups.
    pub closed spec fn groups(&self) -> nat {
        self.group_count as nat
    }

    /// The number of particles of each group.
    pub closed spec fn per_group(&self) -> nat {
        self.density as nat
    }

    /// The store's invariant: there is a group, every group is full, and each
    /// particle carries its slot as identifier and the group its slot lies in.
    pub open spec fn wf(&self) -> bool {
        &&& self.groups() > 0
        &&& self@.len() == self.groups() * self.per_group()
        &&& self@.len() <= u32::MAX
        &&& forall|k: int|
            0 <= k < self@.len() ==> {
                &&& (#[trigger] self@[k]).id == k
                &&& self@[k].group == k / (self.per_group() as int)
            }
    }

    /// In a well-formed store, a slot's group is below the number of groups.
    pub proof fn lemma_group_of_slot(&self, k: int)
        requires
            self.wf(),
            0 <= k < self@.len(),
        ensures
            self.per_group() > 0,
            0 <= k / (self.per_group() as int) < self.groups(),
    {
        let d = self.per_group() as int;
        let g = self.groups() as int;
        assert(d > 0) by (nonlinear_arith)
            requires
                0 <= k < g * d,
                g > 0,
                d >= 0,
        ;
        lemma_fundamental_div_mod(k, d);
        lemma_mod_bound(k, d);
        let q = k / d;
        assert(0 <= q < g) by (nonlinear_arith)
            requires
                k == d * q + k % d,
                0 <= k % d < d,
                0 <= k < g * d,
                d > 0,
        ;
    }

    /// Builds a store of `group_count` groups of `density` particles each. The
    /// particle in slot `k` starts at `positions[k]` with velocity
    /// `velocities[k]`.
    pub fn seed(
        group_count: usize,
        density: usize,
        positions: &Vec<GridPosition<S>>,
        velocities: &Vec<(S, S)>,
    ) -> (r: Result<Self, ConfigError>)
        ensures
            match r {
                Ok(store) => {
                    &&& group_count > 0
                    &&& group_count * density <= u32::MAX
                    &&& positions@.len() == group_count * density
                    &&& velocities@.len() == group_count * density
                    &&& store.wf()
                    &&& store.groups() == group_count
                    &&& store.per_group() == density
                    &&& forall|k: int|
                        0 <= k < store@.len() ==> #[trigger] store@[k] == seeded_particle(
                            k,
                            density as int,
                            positions@,
                            velocities@,
                        )
                },
                Err(ConfigError::ZeroGroups) => group_count == 0,
                Err(ConfigError::TooManyParticles) => group_count > 0 && group_count * density
                    > u32::MAX,
                Err(ConfigError::DrawCount) => {
                    &&& group_count > 0
                    &&& group_count * density <= u32::MAX
                    &&& (positions@.len() != group_count * density || velocities@.len()
                        != group_count * density)
                },
                Err(_) => false,
            },
    {
        if group_count == 0 {
            return Err(ConfigError::ZeroGroups);
        }
        let total: usize = match group_count.checked_mul(density) {
            Some(n) => n,
            None => {
                return Err(ConfigError::TooManyParticles);
            },
        };
        if total > u32::MAX as usize {
            return Err(ConfigError::TooManyParticles);
        }
        if positions.len() != total || velocities.len() != total {
            return Err(ConfigError::DrawCount);
        }
        let mut particles: Vec<Particle<S>> = Vec::new();
        let mut k: usize = 0;
        while k < total
            invariant
                k <= total,
                total == group_count * density,
                total <= u32::MAX,
                positions@.len() == total,
                velocities@.len() == total,
                particles@.len() == k,
                forall|j: int|
                    0 <= j < k ==> #[trigger] particles@[j] == seeded_particle(
                        j,
                        density as int,
                        positions@,
                        velocities@,
                    ),
                forall|j: int|
                    0 <= j < k ==> (#[trigger] particles@[j]).id == j && particles@[j].group == j
                        / (density as int),
            decreases total - k,
        {
            assert(density > 0) by (nonlinear_arith)
                requires
                    k < group_count * density,
            ;
            let velocity = velocities[k];
            particles.push(
                Particle {
                    pos: positions[k],
                    vx: velocity.0,
                    vy: velocity.1,
                    group: k / density,
                    id: k as u32,
                },
            );
            k += 1;
        }
        Ok(ParticleStore { group_count, density, particles })
    }

    /// The number of groups.
    pub fn group_count(&self) -> (n: usize)
        ensures
            n == self.groups(),
    {
        self.group_count
    }

    /// The number of particles of group `group`.
    pub fn size_of(&self, group: usize) -> (n: usize)
        requires
            group < self.groups(),
        ensures
            n == self.per_group(),
    {
        self.density
    }

    /// The number of particles of all groups together.
    pub fn particle_count(&self) -> (n: usize)
        ensures
            n == self@.len(),
    {
        self.particles.len()
    }

    /// The particle at place `index` of group `group`.
    pub fn particle_at(&self, group: usize, index: usize) -> (p: Particle<S>)
        requires
            self.wf(),
            group < self.groups(),
            index < self.per_group(),
        ensures
            p == self@[slot_of(group as int, index as int, self.per_group() as int)],
            p.group == group,
            p.id == slot_of(group as int, index as int, self.per_group() as int),
    {
        proof {
            lemma_slot_inverse(
                group as int,
                index as int,
                self.group_count as int,
                self.density as int,
            );
        }
        self.particles[group * self.density + index]
    }

    /// The particles of group `group`, in the order of their places.
    pub fn each_particle(&self, group: usize) -> (r: Vec<Particle<S>>)
        requires
            self.wf(),
            group < self.groups(),
        ensures
            r@.len() == self.per_group(),
            forall|index: int|
                0 <= index < self.per_group() ==> #[trigger] r@[index] == self@[slot_of(
                    group as int,
                    index,
                    self.per_group() as int,
                )],
    {
        let mut out: Vec<Particle<S>> = Vec::new();
        let mut index: usize = 0;
        while index < self.density
            invariant
                self.wf(),
                group < self.groups(),
                index <= self.density,
                out@.len() == index,
                forall|j: int|
                    0 <= j < index ==> #[trigger] out@[j] == self@[slot_of(
                        group as int,
                        j,
                        self.per_group() as int,
                    )],
            decreases self.density - index,
        {
            out.push(self.particle_at(group, index));
            index += 1;
        }
        out
    }

    /// Moves the particle at place `index` of group `group` to `pos`. Nothing
    /// else changes.
    pub fn set_position(&mut self, group: usize, index: usize, pos: GridPosition<S>)
        requires
            old(self).wf(),
            group < old(self).groups(),
            index < old(self).per_group(),
        ensures
            final(self).wf(),
            final(self).groups() == old(self).groups(),
            final(self).per_group() == old(self).per_group(),
            final(self)@ == old(self)@.update(
                slot_of(group as int, index as int, old(self).per_group() as int),
                (Particle {
                    pos,
                    ..old(self)@[slot_of(group as int, index as int, old(self).per_group() as int)]
                }),
            ),
    {
        proof {
            lemma_slot_inverse(
                group as int,
                index as int,
                self.group_count as int,
                self.density as int,
            );
        }
        let slot: usize = group * self.density + index;
        let mut p = self.particles[slot];
        p.pos = pos;
        self.particles.set(slot, p);
    }

    /// Gives the particle at place `index` of group `group` the velocity
    /// (`vx`, `vy`). Nothing else changes.
    pub fn set_velocity(&mut self, group: usize, index: usize, vx: S, vy: S)
        requires
            old(self).wf(),
            group < old(self).groups(),
            index < old(self).per_group(),
        ensures
            final(self).wf(),
            final(self).groups() == old(self).groups(),
            final(self).per_group() == old(self).per_group(),
            final(self)@ == old(self)@.update(
                slot_of(group as int, index as int, old(self).per_group() as int),
                (Particle {
                    vx,
                    vy,
                    ..old(self)@[slot_of(group as int, index as int, old(self).per_group() as int)]
                }),
            ),
    {
        proof {
            lemma_slot_inverse(
                group as int,
                index as int,
                self.group_count as int,
                self.density as int,
            );
        }
        let slot: usize = group * self.density + index;
        let mut p = self.particles[slot];
        p.vx = vx;
        p.vy = vy;
        self.particles.set(slot, p);
    }

    /// Overwrites every position: the particle in slot `k` moves to
    /// `positions[k]`. Velocities, groups and identifiers stay. With a wrong
    /// number of positions nothing changes.
    pub fn reshuffle(&mut self, positions: &Vec<GridPosition<S>>) -> (r: Result<(), ConfigError>)
        requires
            old(self).wf(),
        ensures
            final(self).wf(),
            final(self).groups() == old(self).groups(),
            final(self).per_group() == old(self).per_group(),
            final(self)@.len() == old(self)@.len(),
            match r {
                Ok(()) => {
                    &&& positions@.len() == old(self)@.len()
                    &&& forall|k: int|
                        0 <= k < old(self)@.len() ==> #[trigger] final(self)@[k] == (Particle {
                            pos: positions@[k],
                            ..old(self)@[k]
                        })
                },
                Err(e) => {
                    &&& e == ConfigError::DrawCount
                    &&& positions@.len() != old(self)@.len()
                    &&& final(self)@ == old(self)@
                },
            },
    {
        let total: usize = self.particles.len();
        if positions.len() != total {
            return Err(ConfigError::DrawCount);
        }
        let mut k: usize = 0;
        while k < total
            invariant
                k <= total,
                total == old(self)@.len(),
                positions@.len() == total,
                self.group_count == old(self).group_count,
                self.density == old(self).density,
                self@.len() == total,
                forall|j: int|
                    0 <= j < k ==> #[trigger] self@[j] == (Particle {
                        pos: positions@[j],
                        ..old(self)@[j]
                    }),
                forall|j: int| k <= j < total ==> #[trigger] self@[j] == old(self)@[j],
            decreases total - k,
        {
            let mut p = self.particles[k];
            p.pos = positions[k];
            self.particles.set(k, p);
            k += 1;
        }
        Ok(())
    }

    /// What a drawing needs of every particle, slot by slot.
    pub fn snapshot(&self) -> (r: Vec<Sprite<S>>)
        ensures
            r@.len() == self@.len(),
            forall|k: int|
                0 <= k < r@.len() ==> #[trigger] r@[k] == (Sprite {
                    pos: self@[k].pos,
                    group: self@[k].group,
                    id: self@[k].id,
                }),
    {
        let mut out: Vec<Sprite<S>> = Vec::new();
        let mut k: usize = 0;
        while k < self.particles.len()
            invariant
                k <= self@.len(),
                out@.len() == k,
                forall|j: int|
                    0 <= j < k ==> #[trigger] out@[j] == (Sprite {
                        pos: self@[j].pos,
                        group: self@[j].group,
                        id: self@[j].id,
                    }),
            decreases self@.len() - k,
        {
            let p = self.particles[k];
            out.push(Sprite { pos: p.pos, group: p.group, id: p.id });
            k += 1;
        }
        out
    }
}

} // verus!
