//! The simulation state: the particles, the relations between their groups,
//! the tick counter and the round-robin period.
//!
//! The state never computes with scalars. A tick takes the arithmetic as
//! three functions: `pull`, the force on a particle once one more particle of
//! the target group is taken into account; `kick`, the velocity after a
//! force; and `drift`, the position and velocity after friction, movement and
//! the boundary policy. What a tick does is stated over what those functions
//! return.

use vstd::prelude::*;
use vstd::arithmetic::div_mod::{lemma_fundamental_div_mod, lemma_mod_bound};
use crate::error::ConfigError;
use crate::particles::{
    GridPosition, Particle, ParticleStore, Sprite, lemma_slot_inverse, lemma_slot_unique,
    seeded_particle, slot_of,
};
use crate::relations::{RelationEntry, RelationTable, assembled};
use crate::schedule::{flat_index, is_skipped, pair_order};
use crate::tick::{drifted, forced, pair_forced, particle_drifted, particle_forced, pulled};

verus! {

/// The tick that a fresh simulation starts at.
pub const FIRST_TICK: usize = 1;

/// Everything that a simulation owns.
pub struct GameState<S> {
    store: ParticleStore<S>,
    relations: RelationTable<S>,
    ticks: usize,
    period: usize,
}

impl<S: Copy> GameState<S> {
    /// The particles.
    pub closed spec fn particles(&self) -> ParticleStore<S> {
        self.store
    }

    /// The relations between the groups.
    pub closed spec fn relation_table(&self) -> RelationTable<S> {
        self.relations
    }

    /// The number of the tick in progress.
    pub closed spec fn tick(&self) -> nat {
        self.ticks as nat
    }

    /// The round-robin period.
    pub closed spec fn round_robin(&self) -> nat {
        self.period as nat
    }

    /// The state's invariant: store and table are well formed and speak of
    /// the same groups, and the period is positive.
    pub open spec fn wf(&self) -> bool {
        &&& self.particles().wf()
        &&& self.relation_table().wf()
        &&& self.relation_table().groups() == self.particles().groups()
        &&& self.round_robin() > 0
    }

    /// Whether `other` has the groups, identifiers, tick and period of `self`:
    /// all that no command but the end of a tick may change.
    pub open spec fn same_frame(&self, other: &Self) -> bool {
        &&& other.particles().groups() == self.particles().groups()
        &&& other.particles().per_group() == self.particles().per_group()
        &&& other.particles()@.len() == self.particles()@.len()
        &&& other.relation_table().groups() == self.relation_table().groups()
        &&& other.tick() == self.tick()
        &&& other.round_robin() == self.round_robin()
    }

    /// Builds a simulation at its first tick. The particle in slot `k` starts
    /// at `positions[k]` with velocity `velocities[k]`; the relation at place
    /// `k` has the gravity `gravities[k]`, the reach `distances[k]` and a
    /// freshly drawn sign.
    pub fn new(
        group_count: usize,
        density: usize,
        period: usize,
        positions: &Vec<GridPosition<S>>,
        velocities: &Vec<(S, S)>,
        gravities: &Vec<S>,
        distances: &Vec<S>,
    ) -> (r: Result<Self, ConfigError>)
        ensures
            match r {
                Ok(state) => {
                    &&& group_count > 0
                    &&& period > 0
                    &&& group_count * density <= u32::MAX
                    &&& positions@.len() == group_count * density
                    &&& velocities@.len() == group_count * density
                    &&& gravities@.len() == group_count * group_count
                    &&& distances@.len() == group_count * group_count
                    &&& state.wf()
                    &&& state.tick() == FIRST_TICK
                    &&& state.round_robin() == period
                    &&& state.particles().groups() == group_count
                    &&& state.particles().per_group() == density
                    &&& forall|k: int|
                        0 <= k < state.particles()@.len() ==> #[trigger] state.particles()@[k]
                            == seeded_particle(k, density as int, positions@, velocities@)
                    &&& exists|signs: Seq<i8>|
                        signs.len() == gravities@.len() && state.relation_table()@
                            == #[trigger] assembled(signs, gravities@, distances@)
                },
                Err(ConfigError::ZeroGroups) => group_count == 0,
                Err(ConfigError::ZeroPeriod) => group_count > 0 && period == 0,
                Err(ConfigError::TooManyParticles) => {
                    &&& group_count > 0
                    &&& period > 0
                    &&& group_count * density > u32::MAX
                },
                Err(ConfigError::DrawCount) => {
                    &&& group_count > 0
                    &&& period > 0
                    &&& group_count * density <= u32::MAX
                    &&& (positions@.len() != group_count * density || velocities@.len()
                        != group_count * density)
                },
                Err(ConfigError::RelationSize) => {
                    &&& group_count > 0
                    &&& period > 0
                    &&& group_count * density <= u32::MAX
                    &&& positions@.len() == group_count * density
                    &&& velocities@.len() == group_count * density
                    &&& (gravities@.len() != group_count * group_count || distances@.len()
                        != group_count * group_count)
                },
            },
    {
        if group_count == 0 {
            return Err(ConfigError::ZeroGroups);
        }
        if period == 0 {
            return Err(ConfigError::ZeroPeriod);
        }
        let store = match ParticleStore::seed(group_count, density, positions, velocities) {
            Ok(store) => store,
            Err(e) => {
                return Err(e);
            },
        };
        let relations = match RelationTable::random_relations(group_count, gravities, distances) {
            Ok(relations) => relations,
            Err(e) => {
                return Err(e);
            },
        };
        Ok(GameState { store, relations, ticks: FIRST_TICK, period })
    }

    /// The particles.
    pub fn store(&self) -> (s: &ParticleStore<S>)
        ensures
            *s == self.particles(),
    {
        &self.store
    }

    /// The relations between the groups.
    pub fn relations(&self) -> (t: &RelationTable<S>)
        ensures
            *t == self.relation_table(),
    {
        &self.relations
    }

    /// The number of the tick in progress.
    pub fn ticks(&self) -> (n: usize)
        ensures
            n == self.tick(),
    {
        self.ticks
    }

    /// The round-robin period.
    pub fn period(&self) -> (n: usize)
        ensures
            n == self.round_robin(),
    {
        self.period
    }

    /// One force pass: every particle of group `source` that does not sit out
    /// the tick in progress is pulled by every particle of group `target` in
    /// turn, starting from the force `rest`, and then kicked by the force that
    /// came of it. Positions, the other groups and the particles that sit out
    /// stay as they are.
    pub fn particle_relation<P, K>(
        &mut self,
        source: usize,
        target: usize,
        rest: (S, S),
        pull: &P,
        kick: &K,
    ) where
        P: Fn(GridPosition<S>, GridPosition<S>, RelationEntry<S>, (S, S)) -> (S, S),
        K: Fn((S, S), (S, S)) -> (S, S),

        requires
            old(self).wf(),
            source < old(self).particles().groups(),
            target < old(self).particles().groups(),
            forall|at: GridPosition<S>, other: GridPosition<S>, e: RelationEntry<S>, f: (S, S)|
                call_requires(*pull, (at, other, e, f)),
            forall|v: (S, S), f: (S, S)| call_requires(*kick, (v, f)),
        ensures
            final(self).wf(),
            old(self).same_frame(final(self)),
            final(self).relation_table() == old(self).relation_table(),
            pair_forced(
                *pull,
                *kick,
                rest,
                old(self).particles()@,
                final(self).particles()@,
                source as int,
                target as int,
                old(self).particles().per_group() as int,
                old(self).relation_table()@[flat_index(
                    source as int,
                    target as int,
                    old(self).particles().groups() as int,
                )],
                old(self).tick() as int,
                old(self).round_robin() as int,
            ),
    {
        let entry = self.relations.entry(source, target);
        let density: usize = self.store.size_of(source);
        let ghost before = self.store@;
        let ghost groups = self.store.groups() as int;
        let mut p1: usize = 0;
        while p1 < density
            invariant
                self.wf(),
                old(self).same_frame(self),
                self.relations == old(self).relations,
                before == old(self).store@,
                groups == self.store.groups(),
                source < groups,
                target < groups,
                density == self.store.per_group(),
                p1 <= density,
                forall|at: GridPosition<S>, other: GridPosition<S>, e: RelationEntry<S>, f: (S, S)|
                    call_requires(*pull, (at, other, e, f)),
                forall|v: (S, S), f: (S, S)| call_requires(*kick, (v, f)),
                forall|k: int|
                    0 <= k < before.len() ==> (#[trigger] self.store@[k]).pos == before[k].pos,
                forall|k: int|
                    0 <= k < before.len() && !(k / (density as int) == source && k % (
                    density as int) < p1) ==> #[trigger] self.store@[k] == before[k],
                forall|k: int|
                    0 <= k < before.len() && k / (density as int) == source && k % (density as int)
                        < p1 ==> particle_forced(
                        *pull,
                        *kick,
                        rest,
                        before,
                        k,
                        #[trigger] self.store@[k],
                        source as int,
                        target as int,
                        density as int,
                        entry,
                        self.ticks as int,
                        self.period as int,
                    ),
            decreases density - p1,
        {
            let ghost slot = slot_of(source as int, p1 as int, density as int);
            let ghost earlier = self.store@;
            proof {
                lemma_slot_inverse(source as int, p1 as int, groups, density as int);
            }
            if !is_skipped(p1, self.ticks, self.period) {
                let me = self.store.particle_at(source, p1);
                let mut force = rest;
                let mut p2: usize = 0;
                while p2 < density
                    invariant
                        self.wf(),
                        self.store@ == earlier,
                        groups == self.store.groups(),
                        target < groups,
                        density == self.store.per_group(),
                        before.len() == earlier.len(),
                        p2 <= density,
                        forall|
                            at: GridPosition<S>,
                            other: GridPosition<S>,
                            e: RelationEntry<S>,
                            f: (S, S),
                        |
                            call_requires(*pull, (at, other, e, f)),
                        forall|k: int|
                            0 <= k < before.len() ==> (#[trigger] earlier[k]).pos == before[k].pos,
                        pulled(
                            *pull,
                            me.pos,
                            before,
                            target * density,
                            p2 as nat,
                            entry,
                            rest,
                            force,
                        ),
                    decreases density - p2,
                {
                    proof {
                        lemma_slot_inverse(target as int, p2 as int, groups, density as int);
                    }
                    let other = self.store.particle_at(target, p2);
                    let ghost mid = force;
                    force = pull(me.pos, other.pos, entry, force);
                    p2 += 1;
                    proof {
                        let count = p2 as nat;
                        assert(pulled(
                            *pull,
                            me.pos,
                            before,
                            target * density,
                            (count - 1) as nat,
                            entry,
                            rest,
                            mid,
                        ));
                        assert(before[target * density + count - 1].pos == other.pos);
                        assert(call_ensures(
                            *pull,
                            (me.pos, before[target * density + count - 1].pos, entry, mid),
                            force,
                        ));
                    }
                }
                let velocity = kick((me.vx, me.vy), force);
                self.store.set_velocity(source, p1, velocity.0, velocity.1);
                assert((self.store@[slot].vx, self.store@[slot].vy) == velocity);
                assert(particle_forced(
                    *pull,
                    *kick,
                    rest,
                    before,
                    slot,
                    self.store@[slot],
                    source as int,
                    target as int,
                    density as int,
                    entry,
                    self.ticks as int,
                    self.period as int,
                ));
            }
            p1 += 1;
            proof {
                assert forall|k: int|
                    0 <= k < before.len() && k / (density as int) == source && k % (density as int)
                        < p1 implies particle_forced(
                    *pull,
                    *kick,
                    rest,
                    before,
                    k,
                    #[trigger] self.store@[k],
                    source as int,
                    target as int,
                    density as int,
                    entry,
                    self.ticks as int,
                    self.period as int,
                ) by {
                    if k != slot {
                        if k % (density as int) == p1 - 1 {
                            lemma_slot_unique(k, source as int, p1 - 1, density as int);
                        }
                        assert(self.store@[k] == earlier[k]);
                    }
                }
                assert forall|k: int|
                    0 <= k < before.len() && !(k / (density as int) == source && k % (
                    density as int) < p1) implies #[trigger] self.store@[k] == before[k] by {
                    assert(k != slot);
                    assert(self.store@[k] == earlier[k]);
                }
            }
        }
    }

    /// One tick: a force pass for every ordered pair of groups, rows first,
    /// each under the pair's relation; then every particle drifts, which
    /// gives it a new position and velocity; then the counter goes up by one.
    pub fn update_particles<P, K, D>(&mut self, rest: (S, S), pull: &P, kick: &K, drift: &D) where
        P: Fn(GridPosition<S>, GridPosition<S>, RelationEntry<S>, (S, S)) -> (S, S),
        K: Fn((S, S), (S, S)) -> (S, S),
        D: Fn(GridPosition<S>, (S, S)) -> (GridPosition<S>, (S, S)),
        requires
            old(self).wf(),
            old(self).tick() < usize::MAX,
            forall|at: GridPosition<S>, other: GridPosition<S>, e: RelationEntry<S>, f: (S, S)|
                call_requires(*pull, (at, other, e, f)),
            forall|v: (S, S), f: (S, S)| call_requires(*kick, (v, f)),
            forall|pos: GridPosition<S>, v: (S, S)| call_requires(*drift, (pos, v)),
        ensures
            final(self).wf(),
            final(self).particles().groups() == old(self).particles().groups(),
            final(self).particles().per_group() == old(self).particles().per_group(),
            final(self).relation_table() == old(self).relation_table(),
            final(self).round_robin() == old(self).round_robin(),
            final(self).tick() == old(self).tick() + 1,
            exists|mid: Seq<Particle<S>>|
                forced(
                    *pull,
                    *kick,
                    rest,
                    old(self).particles()@,
                    mid,
                    old(self).relation_table()@.len(),
                    old(self).particles().groups() as int,
                    old(self).particles().per_group() as int,
                    old(self).relation_table()@,
                    old(self).tick() as int,
                    old(self).round_robin() as int,
                ) && #[trigger] drifted(*drift, mid, final(self).particles()@),
    {
        let group_count: usize = self.store.group_count();
        let total: usize = self.relations.len();
        let pairs = pair_order(group_count);
        let ghost table = self.relations@;
        let ghost density = self.store.per_group() as int;
        let mut step: usize = 0;
        while step < total
            invariant
                total == pairs@.len(),
                self.wf(),
                old(self).same_frame(self),
                self.relations == old(self).relations,
                table == self.relations@,
                density == self.store.per_group(),
                group_count == self.store.groups(),
                pairs@.len() == group_count * group_count,
                step <= pairs@.len(),
                forall|k: int|
                    0 <= k < pairs@.len() ==> #[trigger] pairs@[k] == (
                        (k / group_count as int) as usize,
                        (k % group_count as int) as usize,
                    ),
                forall|at: GridPosition<S>, other: GridPosition<S>, e: RelationEntry<S>, f: (S, S)|
                    call_requires(*pull, (at, other, e, f)),
                forall|v: (S, S), f: (S, S)| call_requires(*kick, (v, f)),
                forced(
                    *pull,
                    *kick,
                    rest,
                    old(self).store@,
                    self.store@,
                    step as nat,
                    group_count as int,
                    density,
                    table,
                    self.ticks as int,
                    self.period as int,
                ),
            decreases pairs@.len() - step,
        {
            let ghost earlier = self.store@;
            let (source, target) = pairs[step];
            proof {
                lemma_fundamental_div_mod(step as int, group_count as int);
                lemma_mod_bound(step as int, group_count as int);
                assert(source < group_count) by (nonlinear_arith)
                    requires
                        step < group_count * group_count,
                        step == group_count * source + target,
                        0 <= target,
                ;
                assert(flat_index(source as int, target as int, group_count as int) == step)
                    by (nonlinear_arith)
                    requires
                        step == group_count * source + target,
                        flat_index(source as int, target as int, group_count as int) == source
                            * group_count + target,
                ;
            }
            self.particle_relation(source, target, rest, pull, kick);
            step += 1;
            proof {
                let steps = step as nat;
                assert(forced(
                    *pull,
                    *kick,
                    rest,
                    old(self).store@,
                    earlier,
                    (steps - 1) as nat,
                    group_count as int,
                    density,
                    table,
                    self.ticks as int,
                    self.period as int,
                ));
                assert(pair_forced(
                    *pull,
                    *kick,
                    rest,
                    earlier,
                    self.store@,
                    (steps - 1) / (group_count as int),
                    (steps - 1) % (group_count as int),
                    density,
                    table[steps - 1],
                    self.ticks as int,
                    self.period as int,
                ));
            }
        }
        let ghost mid = self.store@;
        let density_now: usize = self.store.size_of(0);
        let mut group: usize = 0;
        while group < group_count
            invariant
                self.wf(),
                old(self).same_frame(self),
                self.relations == old(self).relations,
                density_now == self.store.per_group(),
                group_count == self.store.groups(),
                group <= group_count,
                mid.len() == self.store@.len(),
                forall|pos: GridPosition<S>, v: (S, S)| call_requires(*drift, (pos, v)),
                forall|k: int|
                    0 <= k < mid.len() && k / (density_now as int) < group ==> particle_drifted(
                        *drift,
                        mid[k],
                        #[trigger] self.store@[k],
                    ),
                forall|k: int|
                    0 <= k < mid.len() && k / (density_now as int) >= group
                        ==> #[trigger] self.store@[k] == mid[k],
            decreases group_count - group,
        {
            let mut index: usize = 0;
            while index < density_now
                invariant
                    self.wf(),
                    old(self).same_frame(self),
                    self.relations == old(self).relations,
                    density_now == self.store.per_group(),
                    group_count == self.store.groups(),
                    group < group_count,
                    index <= density_now,
                    mid.len() == self.store@.len(),
                    forall|pos: GridPosition<S>, v: (S, S)| call_requires(*drift, (pos, v)),
                    forall|k: int|
                        0 <= k < mid.len() && (k / (density_now as int) < group || (k / (
                        density_now as int) == group && k % (density_now as int) < index))
                            ==> particle_drifted(*drift, mid[k], #[trigger] self.store@[k]),
                    forall|k: int|
                        0 <= k < mid.len() && !(k / (density_now as int) < group || (k / (
                        density_now as int) == group && k % (density_now as int) < index))
                            ==> #[trigger] self.store@[k] == mid[k],
                decreases density_now - index,
            {
                let ghost slot = slot_of(group as int, index as int, density_now as int);
                let ghost earlier = self.store@;
                proof {
                    lemma_slot_inverse(
                        group as int,
                        index as int,
                        group_count as int,
                        density_now as int,
                    );
                }
                let p = self.store.particle_at(group, index);
                let (pos, velocity) = drift(p.pos, (p.vx, p.vy));
                self.store.set_velocity(group, index, velocity.0, velocity.1);
                self.store.set_position(group, index, pos);
                index += 1;
                proof {
                    assert(particle_drifted(*drift, mid[slot], self.store@[slot]));
                    assert forall|k: int|
                        0 <= k < mid.len() && (k / (density_now as int) < group || (k / (
                        density_now as int) == group && k % (density_now as int) < index))
                        implies particle_drifted(*drift, mid[k], #[trigger] self.store@[k]) by {
                        if k != slot {
                            if k / (density_now as int) == group && k % (density_now as int)
                                == index - 1 {
                                lemma_slot_unique(k, group as int, index - 1, density_now as int);
                            }
                            assert(self.store@[k] == earlier[k]);
                        }
                    }
                    assert forall|k: int|
                        0 <= k < mid.len() && !(k / (density_now as int) < group || (k / (
                        density_now as int) == group && k % (density_now as int) < index))
                        implies #[trigger] self.store@[k] == mid[k] by {
                        assert(k != slot);
                        assert(self.store@[k] == earlier[k]);
                    }
                }
            }
            proof {
                assert forall|k: int|
                    0 <= k < mid.len() && k / (density_now as int) < group + 1
                    implies particle_drifted(*drift, mid[k], #[trigger] self.store@[k]) by {
                    lemma_mod_bound(k, density_now as int);
                }
            }
            group += 1;
        }
        self.ticks = self.ticks + 1;
        proof {
            assert forall|k: int| 0 <= k < mid.len() implies particle_drifted(
                *drift,
                mid[k],
                #[trigger] self.store@[k],
            ) by {
                self.store.lemma_group_of_slot(k);
            }
            assert(drifted(*drift, mid, self.store@));
        }
    }

    /// Moves every particle and redraws every relation: the particle in slot
    /// `k` moves to `positions[k]`, and the relation at place `k` gets the
    /// gravity `gravities[k]`, the reach `distances[k]` and a freshly drawn
    /// sign. Groups, identifiers, velocities, tick and period stay. With a
    /// wrong number of values nothing changes.
    pub fn reshuffle(
        &mut self,
        positions: &Vec<GridPosition<S>>,
        gravities: &Vec<S>,
        distances: &Vec<S>,
    ) -> (r: Result<(), ConfigError>)
        requires
            old(self).wf(),
        ensures
            final(self).wf(),
            old(self).same_frame(final(self)),
            match r {
                Ok(()) => {
                    &&& positions@.len() == old(self).particles()@.len()
                    &&& gravities@.len() == old(self).relation_table()@.len()
                    &&& distances@.len() == old(self).relation_table()@.len()
                    &&& forall|k: int|
                        0 <= k < old(self).particles()@.len()
                            ==> #[trigger] final(self).particles()@[k] == (Particle {
                            pos: positions@[k],
                            ..old(self).particles()@[k]
                        })
                    &&& exists|signs: Seq<i8>|
                        signs.len() == gravities@.len() && final(self).relation_table()@
                            == #[trigger] assembled(signs, gravities@, distances@)
                },
                Err(ConfigError::DrawCount) => {
                    &&& positions@.len() != old(self).particles()@.len()
                    &&& final(self).particles()@ == old(self).particles()@
                    &&& final(self).relation_table() == old(self).relation_table()
                },
                Err(ConfigError::RelationSize) => {
                    &&& positions@.len() == old(self).particles()@.len()
                    &&& (gravities@.len() != old(self).relation_table()@.len() || distances@.len()
                        != old(self).relation_table()@.len())
                    &&& final(self).particles()@ == old(self).particles()@
                    &&& final(self).relation_table() == old(self).relation_table()
                },
                Err(_) => false,
            },
    {
        if positions.len() != self.store.particle_count() {
            return Err(ConfigError::DrawCount);
        }
        let relations = match RelationTable::random_relations(
            self.relations.group_count(),
            gravities,
            distances,
        ) {
            Ok(relations) => relations,
            Err(e) => {
                return Err(e);
            },
        };
        let _ = self.store.reshuffle(positions);
        self.relations = relations;
        Ok(())
    }

    /// What a drawing needs of every particle, slot by slot.
    pub fn snapshot(&self) -> (r: Vec<Sprite<S>>)
        ensures
            r@.len() == self.particles()@.len(),
            forall|k: int|
                0 <= k < r@.len() ==> #[trigger] r@[k] == (Sprite {
                    pos: self.particles()@[k].pos,
                    group: self.particles()@[k].group,
                    id: self.particles()@[k].id,
                }),
    {
        self.store.snapshot()
    }
}

} // verus!
