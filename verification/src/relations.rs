//! The relation table: one entry for each ordered pair of groups, rows first.
//! Entry (`source`, `target`) governs the force on particles of group `source`
//! by particles of group `target`; the entry of the opposite pair is
//! independent of it.

use vstd::prelude::*;
use rand::Rng;
use crate::error::ConfigError;
use crate::schedule::{flat_index, relation_index};

verus! {

/// How one group's particles are forced by another's.
#[derive(Clone, Copy, Debug, PartialEq)]
pub struct RelationEntry<S> {
    /// A signed byte drawn with the entry.
    pub sign: i8,
    /// The strength of the force; negative repels, positive attracts.
    pub gravity: S,
    /// The distance beyond which the target group has no effect.
    pub max_distance: S,
}

/// The entries made of the given draws, place by place.
pub open spec fn assembled<S>(signs: Seq<i8>, gravities: Seq<S>, distances: Seq<S>) -> Seq<
    RelationEntry<S>,
> {
    Seq::new(
        signs.len(),
        |k: int| RelationEntry { sign: signs[k], gravity: gravities[k], max_distance: distances[k] },
    )
}

/// Equal draws give equal entries: what is assembled depends on nothing but
/// the draws.
pub proof fn lemma_assembly_reproducible<S>(
    signs_a: Seq<i8>,
    gravities_a: Seq<S>,
    distances_a: Seq<S>,
    signs_b: Seq<i8>,
    gravities_b: Seq<S>,
    distances_b: Seq<S>,
)
    requires
        signs_a =~= signs_b,
        gravities_a =~= gravities_b,
        distances_a =~= distances_b,
    ensures
        assembled(signs_a, gravities_a, distances_a) == assembled(
            signs_b,
            gravities_b,
            distances_b,
        ),
{
}

/// Draws one signed byte from the thread-local generator of `rand`, by
/// `rand::thread_rng` and `Rng::gen`. The value depends on chance, so nothing
/// is stated of it.
#[verifier::external_body]
fn random_i8() -> (sign: i8) {
    let mut rng = rand::thread_rng();
    rng.gen::<i8>()
}

/// Draws `count` signed bytes.
pub fn random_signs(count: usize) -> (signs: Vec<i8>)
    ensures
        signs@.len() == count,
{
    let mut signs: Vec<i8> = Vec::new();
    let mut k: usize = 0;
    while k < count
        invariant
            k <= count,
            signs@.len() == k,
        decreases count - k,
    {
        signs.push(random_i8());
        k += 1;
    }
    signs
}

/// The relation entries of all ordered pairs of groups.
pub struct RelationTable<S> {
    group_count: usize,
    entries: Vec<RelationEntry<S>>,
}

impl<S: Copy> RelationTable<S> {
    /// The entries, rows first.
    pub closed spec fn view(&self) -> Seq<RelationEntry<S>> {
        self.entries@
    }

    /// The number of groups.
    pub closed spec fn groups(&self) -> nat {
        self.group_count as nat
    }

    /// The table's invariant: there is a group, and there is one entry for
    /// each ordered pair of groups.
    pub open spec fn wf(&self) -> bool {
        &&& self.groups() > 0
        &&& self@.len() == self.groups() * self.groups()
    }

    /// Builds the table whose entry at place `k` has the sign `signs[k]`, the
    /// gravity `gravities[k]` and the reach `distances[k]`.
    pub fn assemble(
        group_count: usize,
        signs: &Vec<i8>,
        gravities: &Vec<S>,
        distances: &Vec<S>,
    ) -> (r: Result<Self, ConfigError>)
        ensures
            match r {
                Ok(table) => {
                    &&& group_count > 0
                    &&& signs@.len() == group_count * group_count
                    &&& gravities@.len() == group_count * group_count
                    &&& distances@.len() == group_count * group_count
                    &&& table.wf()
                    &&& table.groups() == group_count
                    &&& table@ == assembled(signs@, gravities@, distances@)
                },
                Err(ConfigError::ZeroGroups) => group_count == 0,
                Err(ConfigError::RelationSize) => {
                    &&& group_count > 0
                    &&& (signs@.len() != group_count * group_count || gravities@.len()
                        != group_count * group_count || distances@.len() != group_count
                        * group_count)
                },
                Err(_) => false,
            },
    {
        if group_count == 0 {
            return Err(ConfigError::ZeroGroups);
        }
        let given: usize = signs.len();
        let total: usize = match group_count.checked_mul(group_count) {
            Some(n) => n,
            None => {
                return Err(ConfigError::RelationSize);
            },
        };
        if given != total || gravities.len() != total || distances.len() != total {
            return Err(ConfigError::RelationSize);
        }
        let mut entries: Vec<RelationEntry<S>> = Vec::new();
        let mut k: usize = 0;
        while k < total
            invariant
                k <= total,
                signs@.len() == total,
                gravities@.len() == total,
                distances@.len() == total,
                entries@.len() == k,
                forall|j: int|
                    0 <= j < k ==> #[trigger] entries@[j] == (RelationEntry {
                        sign: signs@[j],
                        gravity: gravities@[j],
                        max_distance: distances@[j],
                    }),
            decreases total - k,
        {
            entries.push(
                RelationEntry { sign: signs[k], gravity: gravities[k], max_distance: distances[k] },
            );
            k += 1;
        }
        assert(entries@ =~= assembled(signs@, gravities@, distances@));
        Ok(RelationTable { group_count, entries })
    }

    /// Builds a table with freshly drawn signs: the entry at place `k` has the
    /// gravity `gravities[k]` and the reach `distances[k]`, and a sign that
    /// was drawn for it.
    pub fn random_relations(group_count: usize, gravities: &Vec<S>, distances: &Vec<S>) -> (r:
        Result<Self, ConfigError>)
        ensures
            match r {
                Ok(table) => {
                    &&& group_count > 0
                    &&& gravities@.len() == group_count * group_count
                    &&& distances@.len() == group_count * group_count
                    &&& table.wf()
                    &&& table.groups() == group_count
                    &&& exists|signs: Seq<i8>|
                        signs.len() == gravities@.len() && table@ == #[trigger] assembled(
                            signs,
                            gravities@,
                            distances@,
                        )
                },
                Err(ConfigError::ZeroGroups) => group_count == 0,
                Err(ConfigError::RelationSize) => {
                    &&& group_count > 0
                    &&& (gravities@.len() != group_count * group_count || distances@.len()
                        != group_count * group_count)
                },
                Err(_) => false,
            },
    {
        if group_count == 0 {
            return Err(ConfigError::ZeroGroups);
        }
        if gravities.len() != distances.len() {
            return Err(ConfigError::RelationSize);
        }
        let signs = random_signs(gravities.len());
        Self::assemble(group_count, &signs, gravities, distances)
    }

    /// The number of groups.
    pub fn group_count(&self) -> (n: usize)
        ensures
            n == self.groups(),
    {
        self.group_count
    }

    /// The number of entries.
    pub fn len(&self) -> (n: usize)
        ensures
            n == self@.len(),
    {
        self.entries.len()
    }

    /// The entry that governs the force on particles of group `source` by
    /// particles of group `target`.
    pub fn entry(&self, source: usize, target: usize) -> (e: RelationEntry<S>)
        requires
            self.wf(),
            source < self.groups(),
            target < self.groups(),
        ensures
            e == self@[flat_index(source as int, target as int, self.groups() as int)],
    {
        assert(self.entries@.len() == self.entries.len());
        let place: usize = relation_index(source, target, self.group_count);
        self.entries[place]
    }
}

} // verus!
