//! The order of work inside one tick: which ordered pairs of groups are
//! visited, where a pair's relation lies in the flat table, and which
//! particles sit out the force pass.

use vstd::prelude::*;
use vstd::arithmetic::div_mod::{
    lemma_add_mod_noop, lemma_fundamental_div_mod, lemma_fundamental_div_mod_converse,
    lemma_mod_bound, lemma_mod_twice,
};

verus! {

/// The round-robin rule: the particle at `index` sits out the force pass of
/// tick `tick` when both leave the same remainder modulo `period`.
pub open spec fn skipped(index: int, tick: int, period: int) -> bool {
    index % period == tick % period
}

/// The place of the ordered pair (`source`, `target`) in a row-major table.
pub open spec fn flat_index(source: int, target: int, group_count: int) -> int {
    source * group_count + target
}

/// Over any `period` consecutive ticks, a particle index is skipped on exactly
/// one of them.
pub proof fn lemma_skipped_once_per_period(index: int, start: int, period: int)
    requires
        period > 0,
    ensures
        exists|t: int| start <= t < start + period && #[trigger] skipped(index, t, period),
        forall|t1: int, t2: int|
            start <= t1 < start + period && start <= t2 < start + period
            && #[trigger] skipped(index, t1, period) && #[trigger] skipped(index, t2, period)
            ==> t1 == t2,
{
    let offset = (index - start) % period;
    let t = start + offset;
    lemma_mod_bound(index - start, period);
    lemma_add_mod_noop(start, index - start, period);
    lemma_add_mod_noop(start, offset, period);
    lemma_mod_twice(index - start, period);
    assert(t % period == index % period);
    assert(skipped(index, t, period));
    assert forall|t1: int, t2: int|
        start <= t1 < start + period && start <= t2 < start + period
        && #[trigger] skipped(index, t1, period) && #[trigger] skipped(index, t2, period)
        implies t1 == t2 by {
        lemma_same_remainder_close(t1, t2, period);
    }
}

/// Two integers with the same remainder that lie less than `period` apart are equal.
proof fn lemma_same_remainder_close(a: int, b: int, period: int)
    requires
        period > 0,
        a % period == b % period,
        -period < a - b < period,
    ensures
        a == b,
{
    lemma_fundamental_div_mod(a, period);
    lemma_fundamental_div_mod(b, period);
    let qa = a / period;
    let qb = b / period;
    assert(a - b == period * (qa - qb)) by (nonlinear_arith)
        requires
            a == period * qa + a % period,
            b == period * qb + b % period,
            a % period == b % period,
    ;
    assert(qa - qb == 0) by (nonlinear_arith)
        requires
            period > 0,
            -period < period * (qa - qb) < period,
    ;
}

/// A row-major place determines its pair: dividing by the number of groups
/// gives the source back, the remainder gives the target.
pub proof fn lemma_flat_index_inverse(source: int, target: int, group_count: int)
    requires
        0 <= source < group_count,
        0 <= target < group_count,
    ensures
        0 <= flat_index(source, target, group_count) < group_count * group_count,
        flat_index(source, target, group_count) / group_count == source,
        flat_index(source, target, group_count) % group_count == target,
{
    lemma_fundamental_div_mod_converse(
        flat_index(source, target, group_count),
        group_count,
        source,
        target,
    );
    assert(source * group_count + target < group_count * group_count) by (nonlinear_arith)
        requires
            0 <= source < group_count,
            0 <= target < group_count,
    ;
    assert(0 <= source * group_count) by (nonlinear_arith)
        requires
            0 <= source,
            0 < group_count,
    ;
}

/// Whether the particle at `index` sits out the force pass of tick `tick`.
pub fn is_skipped(index: usize, tick: usize, period: usize) -> (r: bool)
    requires
        period > 0,
    ensures
        r == skipped(index as int, tick as int, period as int),
{
    index % period == tick % period
}

/// The place in the flat relation table of the entry that governs the force
/// on particles of group `source` by particles of group `target`.
pub fn relation_index(source: usize, target: usize, group_count: usize) -> (r: usize)
    requires
        source < group_count,
        target < group_count,
        group_count * group_count <= usize::MAX,
    ensures
        r == flat_index(source as int, target as int, group_count as int),
        r < group_count * group_count,
{
    proof {
        lemma_flat_index_inverse(source as int, target as int, group_count as int);
    }
    source * group_count + target
}

/// Every ordered pair of groups, rows first: the order in which a tick visits
/// them. The pair at place `k` is the one whose relation lies at place `k`.
pub fn pair_order(group_count: usize) -> (r: Vec<(usize, usize)>)
    requires
        group_count * group_count <= usize::MAX,
    ensures
        r@.len() == group_count * group_count,
        forall|k: int| 0 <= k < r@.len() ==> #[trigger] r@[k] == ((k / group_count as int) as usize, (k % group_count as int) as usize),
        forall|s: int, t: int| 0 <= s < group_count && 0 <= t < group_count
            ==> #[trigger] r@[flat_index(s, t, group_count as int)] == (s as usize, t as usize),
{
    let mut out: Vec<(usize, usize)> = Vec::new();
    let mut source: usize = 0;
    while source < group_count
        invariant
            source <= group_count,
            group_count * group_count <= usize::MAX,
            out@.len() == source * group_count,
            forall|k: int| 0 <= k < out@.len() ==> #[trigger] out@[k] == ((k / group_count as int) as usize, (k % group_count as int) as usize),
        decreases group_count - source,
    {
        let mut target: usize = 0;
        while target < group_count
            invariant
                source < group_count,
                target <= group_count,
                group_count * group_count <= usize::MAX,
                out@.len() == source * group_count + target,
                forall|k: int| 0 <= k < out@.len() ==> #[trigger] out@[k] == ((k / group_count as int) as usize, (k % group_count as int) as usize),
            decreases group_count - target,
        {
            proof {
                lemma_flat_index_inverse(source as int, target as int, group_count as int);
            }
            out.push((source, target));
            target += 1;
        }
        assert(source * group_count + group_count == (source + 1) * group_count) by (nonlinear_arith);
        source += 1;
    }
    proof {
        assert forall|s: int, t: int| 0 <= s < group_count && 0 <= t < group_count
            implies #[trigger] out@[flat_index(s, t, group_count as int)] == (s as usize, t as usize) by {
            lemma_flat_index_inverse(s, t, group_count as int);
        }
    }
    out
}

} // verus!
