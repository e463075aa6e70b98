//! The timelines that a benchmark works on.

use vstd::prelude::*;
use vstd::relations::sorted_by;
use vstd::relations::total_ordering;
use crate::layer::ShardIndex;

verus! {

/// A timeline of a tenant.
#[derive(Clone, Copy, Debug, PartialEq, Eq, Structural)]
pub struct TenantTimelineId {
    pub tenant_id: u128,
    pub timeline_id: u128,
}

/// One shard of a tenant.
#[derive(Clone, Copy, Debug, PartialEq, Eq, Structural)]
pub struct TenantShardId {
    pub tenant_id: u128,
    pub shard: ShardIndex,
}

/// What a server tells of one tenant.
#[derive(Debug)]
pub struct TenantDetails {
    pub tenant_id: u128,
    pub timelines: Vec<u128>,
}

/// Why no targets could be given.
#[derive(Clone, Copy, Debug, PartialEq, Eq, Structural)]
pub enum TargetsError {
    /// The server holds a tenant that is split into shards.
    ShardedTenant { tenant: TenantShardId },
    /// Fewer timelines are there than were asked for.
    InsufficientTimelines { requested: usize, available: usize },
}

/// Which targets a benchmark is to use.
#[derive(Debug)]
pub struct Spec {
    /// A cap on the number of targets.
    pub limit_to_first_n_targets: Option<usize>,
    /// The targets that the caller named; where it named none, they are
    /// asked of the server.
    pub targets: Option<Vec<TenantTimelineId>>,
}

/// The order of targets: by tenant, then by timeline.
pub open spec fn target_leq(a: TenantTimelineId, b: TenantTimelineId) -> bool {
    a.tenant_id < b.tenant_id || (a.tenant_id == b.tenant_id && a.timeline_id <= b.timeline_id)
}

/// [`target_leq`] as a relation.
pub open spec fn target_order() -> spec_fn(TenantTimelineId, TenantTimelineId) -> bool {
    |a: TenantTimelineId, b: TenantTimelineId| target_leq(a, b)
}

/// The order of targets is total.
pub proof fn lemma_target_order_total()
    ensures
        total_ordering(target_order()),
{
    let order = target_order();
    assert(vstd::relations::reflexive(order));
    assert(vstd::relations::antisymmetric(order)) by {
        assert forall|a: TenantTimelineId, b: TenantTimelineId| #[trigger]
            order(a, b) && #[trigger] order(b, a) implies a == b by {
            assert(target_leq(a, b) && target_leq(b, a));
        }
    }
    assert(vstd::relations::transitive(order));
    assert(vstd::relations::strongly_connected(order));
}

/// The tenants of `tenants`, none of which may be split into shards.
pub open spec fn tenant_ids(tenants: Seq<TenantShardId>) -> Seq<u128> {
    tenants.map_values(|tenant: TenantShardId| tenant.tenant_id)
}

/// Whether `tenant` is the only shard of its tenant.
pub open spec fn is_unsharded(tenant: TenantShardId) -> bool {
    tenant.shard.shard_number == 0 && tenant.shard.shard_count == 0
}

/// The ids of the tenants that a server lists. It fails at the first tenant
/// that is split into shards.
pub fn unsharded_tenants(tenants: &Vec<TenantShardId>) -> (ids: Result<Vec<u128>, TargetsError>)
    ensures
        match ids {
            Ok(ids) => ids@ == tenant_ids(tenants@) && forall|i: int|
                0 <= i < tenants@.len() ==> is_unsharded(#[trigger] tenants@[i]),
            Err(e) => exists|i: int|
                0 <= i < tenants@.len() && !is_unsharded(#[trigger] tenants@[i]) && e
                    == (TargetsError::ShardedTenant { tenant: tenants@[i] }) && forall|j: int|
                    0 <= j < i ==> is_unsharded(#[trigger] tenants@[j]),
        },
{
    let mut ids: Vec<u128> = Vec::new();
    let mut i: usize = 0;
    while i < tenants.len()
        invariant
            i <= tenants.len(),
            ids@ == tenant_ids(tenants@.subrange(0, i as int)),
            forall|j: int| 0 <= j < i ==> is_unsharded(#[trigger] tenants@[j]),
        decreases tenants.len() - i,
    {
        let tenant = tenants[i];
        if !tenant.shard.is_unsharded() {
            return Err(TargetsError::ShardedTenant { tenant });
        }
        ids.push(tenant.tenant_id);
        assert(ids@ =~= tenant_ids(tenants@.subrange(0, i + 1)));
        i += 1;
    }
    assert(tenants@.subrange(0, i as int) =~= tenants@);
    Ok(ids)
}

/// The timelines of one tenant as targets, in their order.
pub open spec fn targets_of(details: TenantDetails) -> Seq<TenantTimelineId> {
    details.timelines@.map_values(
        |timeline_id: u128| TenantTimelineId { tenant_id: details.tenant_id, timeline_id },
    )
}

/// The timelines of the first `upto` tenants as targets, tenant after
/// tenant.
pub open spec fn all_targets(details: Seq<TenantDetails>, upto: int) -> Seq<TenantTimelineId>
    decreases upto,
{
    if upto <= 0 {
        Seq::empty()
    } else {
        all_targets(details, upto - 1) + targets_of(details[upto - 1])
    }
}

/// Every timeline of the tenants in `details`, which hold what the server
/// told of each tenant, in the order in which the answers came.
pub fn get_pageserver_tenant_timelines_unsharded(details: &Vec<TenantDetails>) -> (timelines: Vec<
    TenantTimelineId,
>)
    ensures
        timelines@ == all_targets(details@, details@.len() as int),
{
    let mut timelines: Vec<TenantTimelineId> = Vec::new();
    let mut i: usize = 0;
    while i < details.len()
        invariant
            i <= details.len(),
            timelines@ == all_targets(details@, i as int),
        decreases details.len() - i,
    {
        let tenant = &details[i];
        let ghost before = timelines@;
        let mut j: usize = 0;
        while j < tenant.timelines.len()
            invariant
                j <= tenant.timelines.len(),
                tenant == &details@[i as int],
                timelines@ == before + targets_of(*tenant).subrange(0, j as int),
            decreases tenant.timelines.len() - j,
        {
            timelines.push(
                TenantTimelineId { tenant_id: tenant.tenant_id, timeline_id: tenant.timelines[j] },
            );
            assert(timelines@ =~= before + targets_of(*tenant).subrange(0, j + 1));
            j += 1;
        }
        assert(targets_of(*tenant).subrange(0, j as int) =~= targets_of(*tenant));
        i += 1;
    }
    timelines
}

/// Tells whether `a` comes before `b` or is `b`.
pub fn target_le(a: &TenantTimelineId, b: &TenantTimelineId) -> (le: bool)
    ensures
        le == target_leq(*a, *b),
{
    a.tenant_id < b.tenant_id || (a.tenant_id == b.tenant_id && a.timeline_id <= b.timeline_id)
}

/// Puts `targets` in order: what comes back holds the targets that went in,
/// each as often, in ascending order.
pub fn sort_targets(targets: &Vec<TenantTimelineId>) -> (sorted: Vec<TenantTimelineId>)
    ensures
        sorted_by(sorted@, target_order()),
        sorted@.to_multiset() == targets@.to_multiset(),
        sorted@ == targets@.sort_by(target_order()),
{
    let mut sorted: Vec<TenantTimelineId> = Vec::new();
    let mut i: usize = 0;
    assert(targets@.subrange(0, 0) =~= Seq::empty());
    while i < targets.len()
        invariant
            i <= targets.len(),
            sorted@.len() == i,
            sorted_by(sorted@, target_order()),
            sorted@.to_multiset() == targets@.subrange(0, i as int).to_multiset(),
        decreases targets.len() - i,
    {
        let target = targets[i];
        let mut at: usize = 0;
        while at < sorted.len() && target_le(&sorted[at], &target)
            invariant
                at <= sorted.len(),
                forall|k: int| 0 <= k < at ==> target_leq(#[trigger] sorted@[k], target),
            decreases sorted.len() - at,
        {
            at += 1;
        }
        let ghost before = sorted@;
        sorted.insert(at, target);
        proof {
            let order = target_order();
            assert forall|a: int, b: int| 0 <= a < b < sorted@.len() implies #[trigger] order(
                sorted@[a],
                sorted@[b],
            ) by {
                let from_a = if a < at { a } else { a - 1 };
                let from_b = if b < at { b } else { b - 1 };
                if a != at && b != at {
                    assert(order(before[from_a], before[from_b]));
                } else if a == at {
                    assert(!target_leq(before[at as int], target));
                    if from_b > at {
                        assert(order(before[at as int], before[from_b]));
                    }
                }
            }
            let prefix = targets@.subrange(0, i as int);
            assert(targets@.subrange(0, i + 1) =~= prefix.push(target));
            assert(sorted@ == before.insert(at as int, target));
            vstd::seq_lib::to_multiset_insert(before, at as int, target);
            vstd::seq_lib::to_multiset_build(prefix, target);
            assert(sorted@.to_multiset() == before.to_multiset().insert(target));
            assert(prefix.push(target).to_multiset() == prefix.to_multiset().insert(target));
        }
        i += 1;
    }
    proof {
        assert(targets@.subrange(0, i as int) =~= targets@);
        lemma_target_order_total();
        targets@.lemma_sort_by_ensures(target_order());
        vstd::seq_lib::lemma_sorted_unique(
            sorted@,
            targets@.sort_by(target_order()),
            target_order(),
        );
    }
    sorted
}

/// The targets of a benchmark among `timelines`: all of them where no
/// limit is set; with a limit, the first so many in order, and a failure
/// where there are fewer.
pub fn limit_targets(timelines: Vec<TenantTimelineId>, limit: Option<usize>) -> (targets: Result<
    Vec<TenantTimelineId>,
    TargetsError,
>)
    ensures
        match limit {
            None => targets matches Ok(kept) && kept@ == timelines@,
            Some(limit) => if timelines@.len() < limit {
                targets == Err::<Vec<TenantTimelineId>, TargetsError>(
                    TargetsError::InsufficientTimelines {
                        requested: limit,
                        available: timelines@.len() as usize,
                    },
                )
            } else {
                targets matches Ok(kept) && kept@ == timelines@.sort_by(target_order()).take(
                    limit as int,
                )
            },
        },
{
    match limit {
        None => Ok(timelines),
        Some(limit) => {
            let mut sorted = sort_targets(&timelines);
            proof {
                lemma_target_order_total();
                timelines@.lemma_sort_by_ensures(target_order());
                vstd::seq_lib::to_multiset_len(timelines@);
                vstd::seq_lib::to_multiset_len(sorted@);
            }
            sorted.truncate(limit);
            if sorted.len() < limit {
                return Err(
                    TargetsError::InsufficientTimelines {
                        requested: limit,
                        available: sorted.len(),
                    },
                );
            }
            Ok(sorted)
        },
    }
}

} // verus!
