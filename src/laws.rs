use vstd::prelude::*;

use crate::model::{
    claim_effect, complete_effect, find_pending, lemma_find_pending, lemma_outstanding_push,
    lemma_outstanding_remove, pick_from, total_of, BoxModel, ClaimError, ClaimOutcomeModel,
    QuestModel, StatusModel,
};
use crate::pools::{lemma_pool_bounds, PoolKindModel, PoolModel};
use crate::types::{chance_passes, threshold_of};

verus! {

/// In a well-formed quest no pool offers more units than it was filled with.
/// Every operation of `Quest` keeps the quest well formed, so this holds at
/// every point where a quest can be observed.
pub proof fn law_pool_bounds(q: QuestModel)
    requires
        q.wf(),
    ensures
        forall|i: int|
            0 <= i < q.pools.len() ==> (#[trigger] q.pools[i]).availability() <= q.pools[i].capacity(),
{
    assert forall|i: int| 0 <= i < q.pools.len() implies (#[trigger] q.pools[i]).availability()
        <= q.pools[i].capacity() by {
        lemma_pool_bounds(q.pools[i]);
    }
}

/// A claim moves a unit from a pool's availability to the claims in flight:
/// for every pool, availability plus outstanding claims stays the same.
pub proof fn law_claim_conserves(q: QuestModel, caller: Seq<char>, box_id: u128, chance_byte: u8, selection: u64)
    requires
        q.wf(),
    ensures
        ({
            let q2 = claim_effect(q, caller, box_id, chance_byte, selection).0;
            &&& q2.pools.len() == q.pools.len()
            &&& forall|p: int| 0 <= p < q.pools.len() ==> #[trigger] q2.committed(p) == q.committed(p)
        }),
{
    let r = claim_effect(q, caller, box_id, chance_byte, selection);
    let q2 = r.0;
    if let Ok(ClaimOutcomeModel::Pending(c)) = r.1 {
        let b = q.box_at(box_id)->0;
        crate::model::lemma_claim_pick(q, b.rarity, selection);
        let p0 = c.pool_id as int;
        crate::pools::lemma_take_unit_wf(q.pools[p0]);
        assert forall|p: int| 0 <= p < q.pools.len() implies #[trigger] q2.committed(p) == q.committed(p) by {
            lemma_outstanding_push(q.pending, c, p);
        }
    }
}

/// A failed transfer gives the unit back: availability plus outstanding
/// claims is the same for every pool after the compensation. A successful
/// transfer makes the unit leave for good: the sum drops by one for the
/// claim's pool and stays for every other pool.
pub proof fn law_completion_conserves(q: QuestModel, box_id: u128, success: bool)
    requires
        q.wf(),
    ensures
        ({
            let r = complete_effect(q, box_id, success);
            let k = find_pending(q.pending, box_id, 0);
            &&& r.0.pools.len() == q.pools.len()
            &&& r.1 is Ok ==> 0 <= k < q.pending.len()
            &&& forall|p: int|
                0 <= p < q.pools.len() ==> #[trigger] r.0.committed(p) + if r.1 is Ok && success
                    && q.pending[k].pool_id as int == p {
                    1nat
                } else {
                    0nat
                } == q.committed(p)
        }),
{
    let r = complete_effect(q, box_id, success);
    let k = find_pending(q.pending, box_id, 0);
    lemma_find_pending(q.pending, box_id, 0);
    if k >= 0 {
        let c = q.pending[k];
        assert(q.pending_ok(c));
        if !success {
            crate::pools::lemma_put_unit_wf(q.pools[c.pool_id as int], c.reward);
        }
        assert forall|p: int| 0 <= p < q.pools.len() implies #[trigger] r.0.committed(p) + if r.1 is Ok
            && success && q.pending[k].pool_id as int == p {
            1nat
        } else {
            0nat
        } == q.committed(p) by {
            lemma_outstanding_remove(q.pending, k, p);
        }
    }
}

/// A box that is already claimed cannot be claimed again: the claim is
/// refused and nothing changes.
pub proof fn law_claimed_box_is_refused(
    q: QuestModel,
    caller: Seq<char>,
    box_id: u128,
    chance_byte: u8,
    selection: u64,
)
    requires
        q.box_at(box_id) is Some,
        q.box_at(box_id)->0.status is Claimed,
    ensures
        claim_effect(q, caller, box_id, chance_byte, selection).0 == q,
        claim_effect(q, caller, box_id, chance_byte, selection).1 is Err,
{
}

/// A box settles at most once: after a successful settlement no claim of
/// the box is in flight any more, so a second completion is refused, and the
/// box stays claimed, so a new claim is refused as well.
pub proof fn law_settles_at_most_once(q: QuestModel, box_id: u128, again: bool)
    requires
        q.wf(),
        complete_effect(q, box_id, true).1 is Ok,
    ensures
        ({
            let q2 = complete_effect(q, box_id, true).0;
            &&& complete_effect(q2, box_id, again) == (q2, Err::<crate::model::SettlementModel, _>(
                ClaimError::UnknownClaim,
            ))
            &&& q2.box_at(box_id) is Some
            &&& q2.box_at(box_id)->0.status is Claimed
        }),
{
    let q2 = complete_effect(q, box_id, true).0;
    let k = find_pending(q.pending, box_id, 0);
    lemma_find_pending(q.pending, box_id, 0);
    assert(q.pending_ok(q.pending[k]));
    let rest = q.pending.remove(k);
    assert forall|j: int| 0 <= j < rest.len() implies (#[trigger] rest[j]).box_id != box_id by {
        let o = if j < k { j } else { j + 1 };
        assert(rest[j] == q.pending[o]);
    }
    lemma_find_pending(rest, box_id, 0);
}

/// The chance check's two ends: with threshold 0 a claim never draws a reward, and
/// with threshold 255 it never ends with nothing won.
pub proof fn law_chance_boundaries(q: QuestModel, caller: Seq<char>, box_id: u128, chance_byte: u8, selection: u64)
    requires
        q.box_at(box_id) is Some,
    ensures
        ({
            let t = threshold_of(q.probability_for(q.box_at(box_id)->0.rarity));
            let r = claim_effect(q, caller, box_id, chance_byte, selection).1;
            &&& t == 0 ==> !(r matches Ok(ClaimOutcomeModel::Pending(_)))
            &&& t == 255 ==> !(r matches Ok(ClaimOutcomeModel::NothingWon))
        }),
{
    assert(!chance_passes(0, chance_byte));
    assert(chance_passes(255, chance_byte));
}

/// A claim followed by a failed transfer leaves the quest exactly as it was:
/// the box is unclaimed with the same owner, and every pool offers what it
/// offered before.
pub proof fn law_revert_round_trip(q: QuestModel, caller: Seq<char>, box_id: u128, chance_byte: u8, selection: u64)
    requires
        q.wf(),
        claim_effect(q, caller, box_id, chance_byte, selection).1 matches Ok(ClaimOutcomeModel::Pending(_)),
    ensures
        complete_effect(claim_effect(q, caller, box_id, chance_byte, selection).0, box_id, false).0 == q,
{
    let q1 = claim_effect(q, caller, box_id, chance_byte, selection).0;
    let c = match claim_effect(q, caller, box_id, chance_byte, selection).1 {
        Ok(ClaimOutcomeModel::Pending(c)) => c,
        _ => arbitrary(),
    };
    let b = q.box_at(box_id)->0;
    assert forall|j: int| 0 <= j < q.pending.len() implies (#[trigger] q.pending[j]).box_id != box_id by {
        assert(q.pending_ok(q.pending[j]));
    }
    lemma_find_pending(q1.pending, box_id, 0);
    let k = find_pending(q1.pending, box_id, 0);
    assert(q1.pending[q.pending.len() as int] == c);
    assert(k == q.pending.len());
    let q2 = complete_effect(q1, box_id, false).0;
    assert(q2.pending =~= q.pending);
    let p = c.pool_id as int;
    let pool = q.pools[p];
    crate::model::lemma_claim_pick(q, b.rarity, selection);
    assert(pool.availability() > 0);
    assert(pool.take_unit().0.put_unit(pool.take_unit().1) == pool) by {
        match pool.kind {
            PoolKindModel::Tokens { available, .. } => {
                assert(seq![available[0]] + available.subrange(1, available.len() as int) =~= available);
            },
            _ => {},
        }
    }
    assert(q2.pools =~= q.pools);
    assert(BoxModel { status: StatusModel::NonClaimed, ..b } == b);
    assert(q2.boxes =~= q.boxes);
}

proof fn lemma_total_step(pools: Seq<PoolModel>, ids: Seq<int>, i: int)
    requires
        0 <= i < ids.len(),
    ensures
        total_of(pools, ids.take(i + 1)) == total_of(pools, ids.take(i)) + pools[ids[i]].availability(),
{
    assert(ids.take(i + 1).drop_last() =~= ids.take(i));
}

proof fn lemma_total_monotone(pools: Seq<PoolModel>, ids: Seq<int>, i: int, j: int)
    requires
        0 <= i <= j <= ids.len(),
    ensures
        total_of(pools, ids.take(i)) <= total_of(pools, ids.take(j)),
    decreases j - i,
{
    if i < j {
        lemma_total_step(pools, ids, j - 1);
        lemma_total_monotone(pools, ids, i, j - 1);
    }
}

proof fn lemma_pick_interval(pools: Seq<PoolModel>, ids: Seq<int>, r: nat, from: int)
    requires
        0 <= from < ids.len(),
        total_of(pools, ids.take(from)) <= r < total_of(pools, ids),
    ensures
        from <= pick_from(pools, ids, r, from) < ids.len(),
        total_of(pools, ids.take(pick_from(pools, ids, r, from))) <= r,
        r < total_of(pools, ids.take(pick_from(pools, ids, r, from) + 1)),
    decreases ids.len() - from,
{
    if from == ids.len() - 1 {
        assert(ids.take(from + 1) =~= ids);
    } else if r >= total_of(pools, ids.take(from + 1)) {
        lemma_pick_interval(pools, ids, r, from + 1);
    }
}

/// Selection is fair unit by unit: lay the offered units out pool after pool;
/// draw number `r` picks position `j` exactly when `r` falls in the interval
/// of that pool's units, and that interval is as long as the pool's
/// availability. Every unit is thus drawn by exactly one number of
/// `[0, total)`, so over uniform draws pools are picked in proportion to
/// what they offer.
pub proof fn law_selection_interval(pools: Seq<PoolModel>, ids: Seq<int>, r: nat, j: int)
    requires
        0 <= j < ids.len(),
        forall|k: int| 0 <= k < ids.len() ==> 0 <= #[trigger] ids[k] < pools.len(),
        r < total_of(pools, ids),
    ensures
        pick_from(pools, ids, r, 0) == j <==> total_of(pools, ids.take(j)) <= r < total_of(pools, ids.take(j + 1)),
        total_of(pools, ids.take(j + 1)) - total_of(pools, ids.take(j)) == pools[ids[j]].availability(),
{
    assert(ids.take(0) =~= Seq::<int>::empty());
    lemma_pick_interval(pools, ids, r, 0);
    lemma_total_step(pools, ids, j);
    let pj = pick_from(pools, ids, r, 0);
    if total_of(pools, ids.take(j)) <= r && r < total_of(pools, ids.take(j + 1)) && pj != j {
        if pj < j {
            lemma_total_monotone(pools, ids, pj + 1, j);
        } else {
            lemma_total_monotone(pools, ids, j + 1, pj);
        }
    }
}

} // verus!
