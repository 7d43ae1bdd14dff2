//! What a tick makes of the particles, stated over the three functions that
//! supply its arithmetic: `pull`, the force on a particle once one more
//! particle of the target group is taken into account; `kick`, the velocity
//! after a force; and `drift`, the position and velocity after friction,
//! movement and the boundary policy.

use vstd::prelude::*;
use crate::particles::{GridPosition, Particle};
use crate::relations::RelationEntry;
use crate::schedule::skipped;

verus! {

/// Whether `force` is what the pulls of the first `count` particles from
/// slot `from` of `others`, taken in turn and starting from `rest`, make of
/// the force on a particle at `at`.
pub open spec fn pulled<S, P>(
    pull: P,
    at: GridPosition<S>,
    others: Seq<Particle<S>>,
    from: int,
    count: nat,
    entry: RelationEntry<S>,
    rest: (S, S),
    force: (S, S),
) -> bool where P: Fn(GridPosition<S>, GridPosition<S>, RelationEntry<S>, (S, S)) -> (S, S)
    decreases count,
{
    if count == 0 {
        force == rest
    } else {
        exists|mid: (S, S)|
            pulled(pull, at, others, from, (count - 1) as nat, entry, rest, mid)
                && #[trigger] call_ensures(
                pull,
                (at, others[from + count - 1].pos, entry, mid),
                force,
            )
    }
}

/// Whether `after` is what the force pass of group `source` under group
/// `target` makes of the particle in slot `k` of `before`. A particle of
/// another group, or one that sits out the tick, stays as it is. Any other
/// keeps its position, group and identifier, and its velocity is kicked by
/// the force that the whole target group pulled.
pub open spec fn particle_forced<S, P, K>(
    pull: P,
    kick: K,
    rest: (S, S),
    before: Seq<Particle<S>>,
    k: int,
    after: Particle<S>,
    source: int,
    target: int,
    density: int,
    entry: RelationEntry<S>,
    tick: int,
    period: int,
) -> bool where
    P: Fn(GridPosition<S>, GridPosition<S>, RelationEntry<S>, (S, S)) -> (S, S),
    K: Fn((S, S), (S, S)) -> (S, S),
{
    if k / density == source && !skipped(k % density, tick, period) {
        &&& after.pos == before[k].pos
        &&& after.group == before[k].group
        &&& after.id == before[k].id
        &&& exists|force: (S, S)|
            pulled(
                pull,
                before[k].pos,
                before,
                target * density,
                density as nat,
                entry,
                rest,
                force,
            ) && #[trigger] call_ensures(
                kick,
                ((before[k].vx, before[k].vy), force),
                (after.vx, after.vy),
            )
    } else {
        after == before[k]
    }
}

/// Whether `after` is what the force pass of group `source` under group
/// `target` makes of the particles `before`.
pub open spec fn pair_forced<S, P, K>(
    pull: P,
    kick: K,
    rest: (S, S),
    before: Seq<Particle<S>>,
    after: Seq<Particle<S>>,
    source: int,
    target: int,
    density: int,
    entry: RelationEntry<S>,
    tick: int,
    period: int,
) -> bool where
    P: Fn(GridPosition<S>, GridPosition<S>, RelationEntry<S>, (S, S)) -> (S, S),
    K: Fn((S, S), (S, S)) -> (S, S),
{
    &&& after.len() == before.len()
    &&& forall|k: int|
        0 <= k < before.len() ==> particle_forced(
            pull,
            kick,
            rest,
            before,
            k,
            #[trigger] after[k],
            source,
            target,
            density,
            entry,
            tick,
            period,
        )
}

/// Whether `after` is what the force passes of the first `steps` ordered
/// pairs of groups, rows first, make of the particles `before`. The pass at
/// place `k` of that order is the one of group `k / groups` under group
/// `k % groups`, with the relation `table[k]`.
pub open spec fn forced<S, P, K>(
    pull: P,
    kick: K,
    rest: (S, S),
    before: Seq<Particle<S>>,
    after: Seq<Particle<S>>,
    steps: nat,
    groups: int,
    density: int,
    table: Seq<RelationEntry<S>>,
    tick: int,
    period: int,
) -> bool where
    P: Fn(GridPosition<S>, GridPosition<S>, RelationEntry<S>, (S, S)) -> (S, S),
    K: Fn((S, S), (S, S)) -> (S, S),
    decreases steps,
{
    if steps == 0 {
        after == before
    } else {
        exists|mid: Seq<Particle<S>>|
            forced(
                pull,
                kick,
                rest,
                before,
                mid,
                (steps - 1) as nat,
                groups,
                density,
                table,
                tick,
                period,
            ) && #[trigger] pair_forced(
                pull,
                kick,
                rest,
                mid,
                after,
                (steps - 1) / groups,
                (steps - 1) % groups,
                density,
                table[steps - 1],
                tick,
                period,
            )
    }
}

/// Whether `after` is what drifting makes of the particle `before`: group and
/// identifier stay, position and velocity are what `drift` gave.
pub open spec fn particle_drifted<S, D>(drift: D, before: Particle<S>, after: Particle<S>) -> bool where
    D: Fn(GridPosition<S>, (S, S)) -> (GridPosition<S>, (S, S)),
{
    &&& after.group == before.group
    &&& after.id == before.id
    &&& call_ensures(
        drift,
        (before.pos, (before.vx, before.vy)),
        (after.pos, (after.vx, after.vy)),
    )
}

/// Whether `after` is what drifting makes of the particles `before`.
pub open spec fn drifted<S, D>(drift: D, before: Seq<Particle<S>>, after: Seq<Particle<S>>) -> bool where
    D: Fn(GridPosition<S>, (S, S)) -> (GridPosition<S>, (S, S)),
{
    &&& after.len() == before.len()
    &&& forall|k: int|
        0 <= k < before.len() ==> particle_drifted(drift, before[k], #[trigger] after[k])
}

/// The force phase of a tick moves nothing and renames nothing, and a
/// particle that sits out the tick leaves it as it entered it.
pub proof fn lemma_forced_keeps_frame<S, P, K>(
    pull: P,
    kick: K,
    rest: (S, S),
    before: Seq<Particle<S>>,
    after: Seq<Particle<S>>,
    steps: nat,
    groups: int,
    density: int,
    table: Seq<RelationEntry<S>>,
    tick: int,
    period: int,
) where
    P: Fn(GridPosition<S>, GridPosition<S>, RelationEntry<S>, (S, S)) -> (S, S),
    K: Fn((S, S), (S, S)) -> (S, S),

    requires
        forced(pull, kick, rest, before, after, steps, groups, density, table, tick, period),
    ensures
        after.len() == before.len(),
        forall|k: int|
            0 <= k < before.len() ==> {
                &&& (#[trigger] after[k]).pos == before[k].pos
                &&& after[k].group == before[k].group
                &&& after[k].id == before[k].id
            },
        forall|k: int|
            0 <= k < before.len() && skipped(k % density, tick, period) ==> #[trigger] after[k]
                == before[k],
    decreases steps,
{
    if steps > 0 {
        let mid = choose|mid: Seq<Particle<S>>|
            forced(
                pull,
                kick,
                rest,
                before,
                mid,
                (steps - 1) as nat,
                groups,
                density,
                table,
                tick,
                period,
            ) && #[trigger] pair_forced(
                pull,
                kick,
                rest,
                mid,
                after,
                (steps - 1) / groups,
                (steps - 1) % groups,
                density,
                table[steps - 1],
                tick,
                period,
            );
        lemma_forced_keeps_frame(
            pull,
            kick,
            rest,
            before,
            mid,
            (steps - 1) as nat,
            groups,
            density,
            table,
            tick,
            period,
        );
        assert forall|k: int| 0 <= k < before.len() implies {
            &&& (#[trigger] after[k]).pos == before[k].pos
            &&& after[k].group == before[k].group
            &&& after[k].id == before[k].id
            &&& (skipped(k % density, tick, period) ==> after[k] == before[k])
        } by {
            assert(particle_forced(
                pull,
                kick,
                rest,
                mid,
                k,
                after[k],
                (steps - 1) / groups,
                (steps - 1) % groups,
                density,
                table[steps - 1],
                tick,
                period,
            ));
            assert(mid[k].pos == before[k].pos);
        }
    }
}

/// Where no particle pulls, the force stays at rest: if `pull` hands back the
/// force it was given for every particle counted, the force that comes of
/// them is `rest`.
pub proof fn lemma_idle_pulls_leave_rest<S, P>(
    pull: P,
    at: GridPosition<S>,
    others: Seq<Particle<S>>,
    from: int,
    count: nat,
    entry: RelationEntry<S>,
    rest: (S, S),
    force: (S, S),
) where P: Fn(GridPosition<S>, GridPosition<S>, RelationEntry<S>, (S, S)) -> (S, S)
    requires
        pulled(pull, at, others, from, count, entry, rest, force),
        forall|j: int, given: (S, S), got: (S, S)|
            from <= j < from + count && #[trigger] call_ensures(
                pull,
                (at, others[j].pos, entry, given),
                got,
            ) ==> got == given,
    ensures
        force == rest,
    decreases count,
{
    if count > 0 {
        let mid = choose|mid: (S, S)|
            pulled(pull, at, others, from, (count - 1) as nat, entry, rest, mid)
                && #[trigger] call_ensures(
                pull,
                (at, others[from + count - 1].pos, entry, mid),
                force,
            );
        lemma_idle_pulls_leave_rest(pull, at, others, from, (count - 1) as nat, entry, rest, mid);
    }
}

/// Without forces nothing but the drift changes a particle: if `pull` always
/// hands back the force it was given, and `kick` hands back the velocity it
/// was given whenever the force is `rest`, the force phase of a tick leaves
/// every particle as it was.
pub proof fn lemma_idle_forces_change_nothing<S, P, K>(
    pull: P,
    kick: K,
    rest: (S, S),
    before: Seq<Particle<S>>,
    after: Seq<Particle<S>>,
    steps: nat,
    groups: int,
    density: int,
    table: Seq<RelationEntry<S>>,
    tick: int,
    period: int,
) where
    P: Fn(GridPosition<S>, GridPosition<S>, RelationEntry<S>, (S, S)) -> (S, S),
    K: Fn((S, S), (S, S)) -> (S, S),

    requires
        forced(pull, kick, rest, before, after, steps, groups, density, table, tick, period),
        forall|
            at: GridPosition<S>,
            other: GridPosition<S>,
            e: RelationEntry<S>,
            given: (S, S),
            got: (S, S),
        | #[trigger]
            call_ensures(pull, (at, other, e, given), got) ==> got == given,
        forall|v: (S, S), got: (S, S)| #[trigger] call_ensures(kick, (v, rest), got) ==> got == v,
    ensures
        after == before,
    decreases steps,
{
    if steps > 0 {
        let source = (steps - 1) / groups;
        let target = (steps - 1) % groups;
        let entry = table[steps - 1];
        let mid = choose|mid: Seq<Particle<S>>|
            forced(
                pull,
                kick,
                rest,
                before,
                mid,
                (steps - 1) as nat,
                groups,
                density,
                table,
                tick,
                period,
            ) && #[trigger] pair_forced(
                pull,
                kick,
                rest,
                mid,
                after,
                source,
                target,
                density,
                entry,
                tick,
                period,
            );
        lemma_idle_forces_change_nothing(
            pull,
            kick,
            rest,
            before,
            mid,
            (steps - 1) as nat,
            groups,
            density,
            table,
            tick,
            period,
        );
        assert forall|k: int| 0 <= k < mid.len() implies after[k] == mid[k] by {
            assert(particle_forced(
                pull,
                kick,
                rest,
                mid,
                k,
                after[k],
                source,
                target,
                density,
                entry,
                tick,
                period,
            ));
            if k / density == source && !skipped(k % density, tick, period) {
                let force = choose|force: (S, S)|
                    pulled(
                        pull,
                        mid[k].pos,
                        mid,
                        target * density,
                        density as nat,
                        entry,
                        rest,
                        force,
                    ) && #[trigger] call_ensures(
                        kick,
                        ((mid[k].vx, mid[k].vy), force),
                        (after[k].vx, after[k].vy),
                    );
                lemma_idle_pulls_leave_rest(
                    pull,
                    mid[k].pos,
                    mid,
                    target * density,
                    density as nat,
                    entry,
                    rest,
                    force,
                );
                assert((after[k].vx, after[k].vy) == (mid[k].vx, mid[k].vy));
            }
        }
        assert(after =~= mid);
    }
}

/// Drifting puts a particle nowhere but where `drift` put it: a property that
/// holds of every position that `drift` returns holds of every particle after
/// the drift.
pub proof fn lemma_drifted_positions<S, D>(
    drift: D,
    before: Seq<Particle<S>>,
    after: Seq<Particle<S>>,
    inside: spec_fn(GridPosition<S>) -> bool,
) where D: Fn(GridPosition<S>, (S, S)) -> (GridPosition<S>, (S, S))
    requires
        drifted(drift, before, after),
        forall|pos: GridPosition<S>, v: (S, S), moved: (GridPosition<S>, (S, S))| #[trigger]
            call_ensures(drift, (pos, v), moved) ==> inside(moved.0),
    ensures
        forall|k: int| 0 <= k < after.len() ==> inside((#[trigger] after[k]).pos),
{
    assert forall|k: int| 0 <= k < after.len() implies inside((#[trigger] after[k]).pos) by {
        assert(particle_drifted(drift, before[k], after[k]));
    }
}

} // verus!
