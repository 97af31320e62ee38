use vstd::prelude::*;

use crate::pools::{lemma_put_unit_wf, lemma_take_unit_wf, PoolKindModel, PoolModel};
use crate::types::{chance_passes, probability_valid, threshold_of, BoxRarity, Probability, RewardModel};

verus! {

pub enum StatusModel {
    NonClaimed,
    Claimed { reward: Option<RewardModel> },
}

pub struct BoxModel {
    pub quest_id: u64,
    pub box_id: u128,
    pub rarity: BoxRarity,
    pub status: StatusModel,
    pub owner: Seq<char>,
}

/// A reward that was taken from a pool and handed to an outside transfer
/// whose result has not come back yet.
pub struct PendingModel {
    pub box_id: u128,
    pub pool_id: u32,
    pub reward: RewardModel,
}

/// The state of one quest: its pools, its boxes (indexed by box id, `None`
/// once deleted), a probability per rarity, and the claims in flight.
pub struct QuestModel {
    pub id: u64,
    pub title: Seq<char>,
    pub owner: Seq<char>,
    pub pools: Seq<PoolModel>,
    pub boxes: Seq<Option<BoxModel>>,
    pub probabilities: Seq<Option<Probability>>,
    pub pending: Seq<PendingModel>,
    pub users: Seq<Seq<char>>,
}

pub enum ClaimOutcomeModel {
    NothingWon,
    Pending(PendingModel),
}

/// Why a claim, or the completion of one, was refused. Nothing changes when
/// one of these is returned.
#[derive(Clone, Copy, Debug, PartialEq, Eq, Structural)]
pub enum ClaimError {
    BoxNotFound,
    NotOwner,
    AlreadyClaimed,
    NoPoolsAvailable,
    /// No claim of this box awaits a result.
    UnknownClaim,
    /// A callback saw a number of outside results other than one.
    UnexpectedResultCount,
}

pub enum SettlementModel {
    Settled(RewardModel),
    Reverted,
}

/// Claims in `s` that hold a unit of pool `p`.
pub open spec fn outstanding(s: Seq<PendingModel>, p: int) -> nat
    decreases s.len(),
{
    if s.len() == 0 {
        0
    } else {
        outstanding(s.drop_last(), p) + if s.last().pool_id as int == p {
            1nat
        } else {
            0nat
        }
    }
}

/// First position at or after `from` of a claim of box `box_id`, or -1.
pub open spec fn find_pending(s: Seq<PendingModel>, box_id: u128, from: int) -> int
    decreases s.len() - from,
{
    if from < 0 || from >= s.len() {
        -1
    } else if s[from].box_id == box_id {
        from
    } else {
        find_pending(s, box_id, from + 1)
    }
}

/// Indices of the pools of `rarity` among the first `n`, that still offer a
/// unit, in id order.
pub open spec fn candidates_upto(pools: Seq<PoolModel>, rarity: BoxRarity, n: int) -> Seq<int>
    decreases n,
{
    if n <= 0 {
        Seq::empty()
    } else {
        let c = candidates_upto(pools, rarity, n - 1);
        if pools[n - 1].rarity == rarity && pools[n - 1].availability() > 0 {
            c.push(n - 1)
        } else {
            c
        }
    }
}

/// Sum of the availabilities of the pools at `ids`.
pub open spec fn total_of(pools: Seq<PoolModel>, ids: Seq<int>) -> nat
    decreases ids.len(),
{
    if ids.len() == 0 {
        0
    } else {
        total_of(pools, ids.drop_last()) + pools[ids.last()].availability()
    }
}

/// The first position `j >= from` whose running total passes `r`: the pool
/// that owns unit number `r` when units are laid out pool after pool.
pub open spec fn pick_from(pools: Seq<PoolModel>, ids: Seq<int>, r: nat, from: int) -> int
    decreases ids.len() - from,
{
    if from < 0 || from >= ids.len() {
        ids.len() as int
    } else if r < total_of(pools, ids.take(from + 1)) {
        from
    } else {
        pick_from(pools, ids, r, from + 1)
    }
}

impl QuestModel {
    pub open spec fn box_at(self, box_id: u128) -> Option<BoxModel> {
        if box_id < self.boxes.len() {
            self.boxes[box_id as int]
        } else {
            None
        }
    }

    /// The probability set for a rarity; certain reward where none was set.
    pub open spec fn probability_for(self, rarity: BoxRarity) -> Probability {
        match self.probabilities[crate::types::rarity_index(rarity)] {
            Some(p) => p,
            None => Probability { numerator: 1, denominator: 1 },
        }
    }

    pub open spec fn candidates(self, rarity: BoxRarity) -> Seq<int> {
        candidates_upto(self.pools, rarity, self.pools.len() as int)
    }

    /// What `available + outstanding claims` adds up to for pool `p`.
    pub open spec fn committed(self, p: int) -> nat {
        self.pools[p].availability() + outstanding(self.pending, p)
    }

    pub open spec fn pending_ok(self, c: PendingModel) -> bool {
        &&& c.pool_id < self.pools.len()
        &&& self.box_at(c.box_id) is Some
        &&& self.box_at(c.box_id)->0.status == (StatusModel::Claimed { reward: Some(c.reward) })
        &&& self.pools[c.pool_id as int].accepts(c.reward)
    }

    pub open spec fn wf(self) -> bool {
        &&& self.probabilities.len() == 3
        &&& forall|k: int|
            0 <= k < 3 && #[trigger] self.probabilities[k] is Some ==> probability_valid(
                self.probabilities[k]->0,
            )
        &&& self.pools.len() <= u32::MAX
        &&& forall|i: int| 0 <= i < self.pools.len() ==> (#[trigger] self.pools[i]).id == i && self.pools[i].wf()
        &&& forall|i: int|
            0 <= i < self.boxes.len() && (#[trigger] self.boxes[i]) is Some ==> self.boxes[i]->0.box_id == i
                && self.boxes[i]->0.quest_id == self.id
        &&& forall|k: int| 0 <= k < self.pending.len() ==> self.pending_ok(#[trigger] self.pending[k])
        &&& forall|k1: int, k2: int|
            0 <= k1 < self.pending.len() && 0 <= k2 < self.pending.len() && (#[trigger] self.pending[k1]).box_id
                == (#[trigger] self.pending[k2]).box_id ==> k1 == k2
        &&& forall|k1: int, k2: int|
            0 <= k1 < self.pending.len() && 0 <= k2 < self.pending.len() && k1 != k2
                && (#[trigger] self.pending[k1]).pool_id == (#[trigger] self.pending[k2]).pool_id
                && self.pending[k1].reward is Token ==> self.pending[k1].reward != self.pending[k2].reward
        &&& forall|p: int|
            0 <= p < self.pools.len() && (#[trigger] self.pools[p]).kind is Amount ==> self.committed(p)
                <= self.pools[p].capacity()
    }
}

/// The claim protocol up to the outside transfer. Refusals, in this order:
/// unknown box, caller not its owner, box already claimed. Then the chance check:
/// when the drawn byte does not pass, the box is settled with no reward.
/// Otherwise unit number `selection % total` of the rarity's offered units is
/// taken, the box is marked claimed with it, and the claim waits for the
/// transfer; with no unit offered the claim is refused.
pub open spec fn claim_effect(
    q: QuestModel,
    caller: Seq<char>,
    box_id: u128,
    chance_byte: u8,
    selection: u64,
) -> (QuestModel, Result<ClaimOutcomeModel, ClaimError>) {
    match q.box_at(box_id) {
        None => (q, Err(ClaimError::BoxNotFound)),
        Some(b) => {
            if b.owner != caller {
                (q, Err(ClaimError::NotOwner))
            } else if b.status != StatusModel::NonClaimed {
                (q, Err(ClaimError::AlreadyClaimed))
            } else if !chance_passes(threshold_of(q.probability_for(b.rarity)) as u8, chance_byte) {
                (
                    QuestModel {
                        boxes: q.boxes.update(
                            box_id as int,
                            Some(BoxModel { status: StatusModel::Claimed { reward: None }, ..b }),
                        ),
                        ..q
                    },
                    Ok(ClaimOutcomeModel::NothingWon),
                )
            } else {
                let ids = q.candidates(b.rarity);
                if ids.len() == 0 {
                    (q, Err(ClaimError::NoPoolsAvailable))
                } else {
                    let r = (selection as nat) % total_of(q.pools, ids);
                    let p = ids[pick_from(q.pools, ids, r, 0)];
                    let (pool, reward) = q.pools[p].take_unit();
                    let c = PendingModel { box_id, pool_id: p as u32, reward };
                    (
                        QuestModel {
                            pools: q.pools.update(p, pool),
                            boxes: q.boxes.update(
                                box_id as int,
                                Some(BoxModel { status: StatusModel::Claimed { reward: Some(reward) }, ..b }),
                            ),
                            pending: q.pending.push(c),
                            ..q
                        },
                        Ok(ClaimOutcomeModel::Pending(c)),
                    )
                }
            }
        },
    }
}

/// The end of a claim in flight. On success the claim is settled and nothing
/// else changes. On failure the unit goes back to its pool and the box is
/// unclaimed again, so that its owner may retry.
pub open spec fn complete_effect(q: QuestModel, box_id: u128, success: bool) -> (
    QuestModel,
    Result<SettlementModel, ClaimError>,
) {
    let k = find_pending(q.pending, box_id, 0);
    if k < 0 {
        (q, Err(ClaimError::UnknownClaim))
    } else {
        let c = q.pending[k];
        if success {
            (QuestModel { pending: q.pending.remove(k), ..q }, Ok(SettlementModel::Settled(c.reward)))
        } else {
            let b = q.box_at(box_id)->0;
            (
                QuestModel {
                    pools: q.pools.update(c.pool_id as int, q.pools[c.pool_id as int].put_unit(c.reward)),
                    boxes: q.boxes.update(
                        box_id as int,
                        Some(BoxModel { status: StatusModel::NonClaimed, ..b }),
                    ),
                    pending: q.pending.remove(k),
                    ..q
                },
                Ok(SettlementModel::Reverted),
            )
        }
    }
}

pub proof fn lemma_outstanding_push(s: Seq<PendingModel>, c: PendingModel, p: int)
    ensures
        outstanding(s.push(c), p) == outstanding(s, p) + if c.pool_id as int == p {
            1nat
        } else {
            0nat
        },
{
    assert(s.push(c).drop_last() =~= s);
}

pub proof fn lemma_outstanding_remove(s: Seq<PendingModel>, k: int, p: int)
    requires
        0 <= k < s.len(),
    ensures
        outstanding(s, p) == outstanding(s.remove(k), p) + if s[k].pool_id as int == p {
            1nat
        } else {
            0nat
        },
    decreases s.len(),
{
    if k == s.len() - 1 {
        assert(s.remove(k) =~= s.drop_last());
    } else {
        let t = s.drop_last();
        lemma_outstanding_remove(t, k, p);
        assert(s.remove(k).drop_last() =~= t.remove(k));
        assert(s.remove(k).last() == s.last());
    }
}

pub proof fn lemma_outstanding_none(s: Seq<PendingModel>, p: int)
    requires
        forall|k: int| 0 <= k < s.len() ==> (#[trigger] s[k]).pool_id as int != p,
    ensures
        outstanding(s, p) == 0,
    decreases s.len(),
{
    if s.len() > 0 {
        lemma_outstanding_none(s.drop_last(), p);
    }
}

/// `find_pending` finds a claim of the box exactly when one is at or after `from`.
pub proof fn lemma_find_pending(s: Seq<PendingModel>, box_id: u128, from: int)
    requires
        0 <= from,
    ensures
        find_pending(s, box_id, from) == -1 || (from <= find_pending(s, box_id, from) < s.len()
            && s[find_pending(s, box_id, from)].box_id == box_id),
        find_pending(s, box_id, from) == -1 ==> forall|k: int|
            from <= k < s.len() ==> (#[trigger] s[k]).box_id != box_id,
        forall|k: int|
            from <= k < find_pending(s, box_id, from) ==> (#[trigger] s[k]).box_id != box_id,
    decreases s.len() - from,
{
    if from < s.len() && s[from].box_id != box_id {
        lemma_find_pending(s, box_id, from + 1);
    }
}

pub proof fn lemma_candidates(pools: Seq<PoolModel>, rarity: BoxRarity, n: int)
    requires
        0 <= n <= pools.len(),
    ensures
        candidates_upto(pools, rarity, n).len() <= n,
        forall|k: int|
            0 <= k < candidates_upto(pools, rarity, n).len() ==> {
                let i = #[trigger] candidates_upto(pools, rarity, n)[k];
                &&& 0 <= i < n
                &&& pools[i].rarity == rarity
                &&& pools[i].availability() > 0
            },
    decreases n,
{
    if n > 0 {
        lemma_candidates(pools, rarity, n - 1);
    }
}

/// With `r` below the total, the walk stops at a position of `ids`.
pub proof fn lemma_pick_in_range(pools: Seq<PoolModel>, ids: Seq<int>, r: nat, from: int)
    requires
        0 <= from < ids.len(),
        r < total_of(pools, ids),
    ensures
        from <= pick_from(pools, ids, r, from) < ids.len(),
    decreases ids.len() - from,
{
    if from == ids.len() - 1 {
        assert(ids.take(from + 1) =~= ids);
    } else if r >= total_of(pools, ids.take(from + 1)) {
        lemma_pick_in_range(pools, ids, r, from + 1);
    }
}

/// A claim keeps a well-formed quest well formed.
pub proof fn lemma_claim_wf(q: QuestModel, caller: Seq<char>, box_id: u128, chance_byte: u8, selection: u64)
    requires
        q.wf(),
    ensures
        claim_effect(q, caller, box_id, chance_byte, selection).0.wf(),
{
    let q2 = claim_effect(q, caller, box_id, chance_byte, selection).0;
    if let Some(b) = q.box_at(box_id) {
        if b.owner == caller && b.status == StatusModel::NonClaimed {
            assert forall|k: int| 0 <= k < q.pending.len() implies (#[trigger] q.pending[k]).box_id != box_id by {
                assert(q.pending_ok(q.pending[k]));
            }
            if !chance_passes(threshold_of(q.probability_for(b.rarity)) as u8, chance_byte) {
                assert forall|k: int| 0 <= k < q2.pending.len() implies q2.pending_ok(#[trigger] q2.pending[k]) by {
                    assert(q.pending_ok(q.pending[k]));
                }
                assert forall|i: int| 0 <= i < q2.boxes.len() && (#[trigger] q2.boxes[i]) is Some implies q2.boxes[i]->0.box_id == i
                    && q2.boxes[i]->0.quest_id == q2.id by {
                    assert(q.boxes[i] is Some);
                }
                assert forall|p: int| 0 <= p < q2.pools.len() && (#[trigger] q2.pools[p]).kind is Amount implies q2.committed(p)
                    <= q2.pools[p].capacity() by {
                    assert(q.pools[p].kind is Amount);
                }
            } else {
                let ids = q.candidates(b.rarity);
                if ids.len() > 0 {
                    lemma_candidates(q.pools, b.rarity, q.pools.len() as int);
                    let total = total_of(q.pools, ids);
                    assert(total > 0) by {
                        assert(ids.drop_last().len() < ids.len());
                        assert(q.pools[ids.last()].availability() > 0);
                    }
                    let r = (selection as nat) % total;
                    lemma_pick_in_range(q.pools, ids, r, 0);
                    let j = pick_from(q.pools, ids, r, 0);
                    let p = ids[j];
                    assert(0 <= p < q.pools.len());
                    let pool = q.pools[p];
                    assert(pool.wf());
                    lemma_take_unit_wf(pool);
                    let (np, reward) = pool.take_unit();
                    let c = PendingModel { box_id, pool_id: p as u32, reward };
                    assert(q2.pools == q.pools.update(p, np));
                    assert(q2.pending == q.pending.push(c));
                    assert forall|i: int| 0 <= i < q2.pools.len() implies (#[trigger] q2.pools[i]).id == i && q2.pools[i].wf() by {
                        assert(q.pools[i].id == i);
                    }
                    assert forall|i: int| 0 <= i < q2.boxes.len() && (#[trigger] q2.boxes[i]) is Some implies q2.boxes[i]->0.box_id == i
                        && q2.boxes[i]->0.quest_id == q2.id by {
                        assert(q.boxes[i] is Some);
                    }
                    assert forall|k: int| 0 <= k < q2.pending.len() implies q2.pending_ok(#[trigger] q2.pending[k]) by {
                        if k < q.pending.len() {
                            let e = q.pending[k];
                            assert(q.pending_ok(e));
                            assert(q2.pending[k] == e);
                            if e.pool_id as int == p {
                                match (pool.kind, e.reward) {
                                    (PoolKindModel::Tokens { available, .. }, RewardModel::Token { token, .. }) => {
                                        let na = available.subrange(1, available.len() as int);
                                        if na.contains(token) {
                                            let i = choose|i: int| 0 <= i < na.len() && na[i] == token;
                                            assert(na[i] == available[i + 1]);
                                        }
                                    },
                                    _ => {},
                                }
                            }
                        } else {
                            assert(q2.pending[k] == c);
                        }
                    }
                    assert forall|k1: int, k2: int|
                        0 <= k1 < q2.pending.len() && 0 <= k2 < q2.pending.len() && (#[trigger] q2.pending[k1]).box_id
                            == (#[trigger] q2.pending[k2]).box_id implies k1 == k2 by {
                        if k1 < q.pending.len() && k2 < q.pending.len() {
                            assert(q.pending[k1].box_id == q.pending[k2].box_id);
                        }
                    }
                    assert forall|k1: int, k2: int|
                        0 <= k1 < q2.pending.len() && 0 <= k2 < q2.pending.len() && k1 != k2
                            && (#[trigger] q2.pending[k1]).pool_id == (#[trigger] q2.pending[k2]).pool_id
                            && q2.pending[k1].reward is Token implies q2.pending[k1].reward != q2.pending[k2].reward by {
                        if k1 < q.pending.len() && k2 < q.pending.len() {
                            assert(q.pending[k1].pool_id == q.pending[k2].pool_id);
                        } else if k1 < q.pending.len() {
                            let e = q.pending[k1];
                            assert(q.pending_ok(e));
                            assert(q2.pending[k2] == c);
                            match (pool.kind, e.reward) {
                                (PoolKindModel::Tokens { available, .. }, RewardModel::Token { .. }) => {
                                    assert(available.contains(available[0]));
                                },
                                _ => {},
                            }
                        } else {
                            let e = q.pending[k2];
                            assert(q.pending_ok(e));
                            assert(q2.pending[k1] == c);
                            match (pool.kind, e.reward) {
                                (PoolKindModel::Tokens { available, .. }, RewardModel::Token { .. }) => {
                                    assert(available.contains(available[0]));
                                },
                                _ => {},
                            }
                        }
                    }
                    assert forall|pp: int| 0 <= pp < q2.pools.len() && (#[trigger] q2.pools[pp]).kind is Amount implies q2.committed(pp)
                        <= q2.pools[pp].capacity() by {
                        lemma_outstanding_push(q.pending, c, pp);
                        assert(q.pools[pp].kind is Amount);
                        assert(q.committed(pp) <= q.pools[pp].capacity());
                    }
                }
            }
        }
    }
}

/// Two different claims on one pool mean at least two outstanding units.
pub proof fn lemma_outstanding_two(s: Seq<PendingModel>, k1: int, k2: int)
    requires
        0 <= k1 < s.len(),
        0 <= k2 < s.len(),
        k1 != k2,
        s[k1].pool_id == s[k2].pool_id,
    ensures
        outstanding(s, s[k1].pool_id as int) >= 2,
{
    let p = s[k1].pool_id as int;
    lemma_outstanding_remove(s, k1, p);
    let t = s.remove(k1);
    let k2b = if k2 < k1 { k2 } else { k2 - 1 };
    assert(t[k2b] == s[k2]);
    lemma_outstanding_remove(t, k2b, p);
}

/// Completing a claim keeps a well-formed quest well formed.
pub proof fn lemma_complete_wf(q: QuestModel, box_id: u128, success: bool)
    requires
        q.wf(),
    ensures
        complete_effect(q, box_id, success).0.wf(),
{
    let q2 = complete_effect(q, box_id, success).0;
    let k = find_pending(q.pending, box_id, 0);
    lemma_find_pending(q.pending, box_id, 0);
    if k >= 0 {
        let c = q.pending[k];
        assert(q.pending_ok(c));
        let rest = q.pending.remove(k);
        assert(q2.pending == rest);
        assert forall|k2: int| 0 <= k2 < rest.len() implies (#[trigger] rest[k2]) == q.pending[if k2 < k { k2 } else { k2 + 1 }] by {}
        if success {
            assert forall|i: int| 0 <= i < q2.pools.len() implies (#[trigger] q2.pools[i]).id == i && q2.pools[i].wf() by {
                assert(q.pools[i].id == i);
            }
            assert forall|i: int| 0 <= i < q2.boxes.len() && (#[trigger] q2.boxes[i]) is Some implies q2.boxes[i]->0.box_id == i
                && q2.boxes[i]->0.quest_id == q2.id by {
                assert(q.boxes[i] is Some);
            }
            assert forall|kk: int| 0 <= kk < rest.len() implies q2.pending_ok(#[trigger] rest[kk]) by {
                let o = if kk < k { kk } else { kk + 1 };
                assert(q.pending_ok(q.pending[o]));
            }
            assert forall|k1: int, k2: int|
                0 <= k1 < rest.len() && 0 <= k2 < rest.len() && (#[trigger] rest[k1]).box_id == (#[trigger] rest[k2]).box_id implies k1
                == k2 by {
                let o1 = if k1 < k { k1 } else { k1 + 1 };
                let o2 = if k2 < k { k2 } else { k2 + 1 };
                assert(q.pending[o1].box_id == q.pending[o2].box_id);
            }
            assert forall|k1: int, k2: int|
                0 <= k1 < rest.len() && 0 <= k2 < rest.len() && k1 != k2 && (#[trigger] rest[k1]).pool_id
                    == (#[trigger] rest[k2]).pool_id && rest[k1].reward is Token implies rest[k1].reward != rest[k2].reward by {
                let o1 = if k1 < k { k1 } else { k1 + 1 };
                let o2 = if k2 < k { k2 } else { k2 + 1 };
                assert(q.pending[o1].pool_id == q.pending[o2].pool_id);
            }
            assert forall|pp: int| 0 <= pp < q2.pools.len() && (#[trigger] q2.pools[pp]).kind is Amount implies q2.committed(pp)
                <= q2.pools[pp].capacity() by {
                lemma_outstanding_remove(q.pending, k, pp);
                assert(q.pools[pp].kind is Amount);
                assert(q.committed(pp) <= q.pools[pp].capacity());
            }
        } else {
            let pid = c.pool_id as int;
            let pool = q.pools[pid];
            assert(pool.wf());
            lemma_put_unit_wf(pool, c.reward);
            let np = pool.put_unit(c.reward);
            assert(q2.pools == q.pools.update(pid, np));
            assert forall|kk: int| 0 <= kk < q.pending.len() && kk != k implies (#[trigger] q.pending[kk]).box_id != box_id by {}
            assert forall|i: int| 0 <= i < q2.pools.len() implies (#[trigger] q2.pools[i]).id == i && q2.pools[i].wf() by {
                assert(q.pools[i].id == i);
            }
            assert forall|i: int| 0 <= i < q2.boxes.len() && (#[trigger] q2.boxes[i]) is Some implies q2.boxes[i]->0.box_id == i
                && q2.boxes[i]->0.quest_id == q2.id by {
                assert(q.boxes[i] is Some);
            }
            assert forall|kk: int| 0 <= kk < rest.len() implies q2.pending_ok(#[trigger] rest[kk]) by {
                let o = if kk < k { kk } else { kk + 1 };
                let e = q.pending[o];
                assert(q.pending_ok(e));
                assert(e.box_id != box_id);
                if e.pool_id as int == pid {
                    match (pool.kind, e.reward, c.reward) {
                        (PoolKindModel::Amount { .. }, RewardModel::Amount { .. }, _) => {
                            lemma_outstanding_two(q.pending, k, o);
                            assert(q.committed(pid) <= q.pools[pid].capacity());
                        },
                        (PoolKindModel::Tokens { available, .. }, RewardModel::Token { token: t1, .. }, RewardModel::Token { token: t0, .. }) => {
                            assert(e.reward != c.reward);
                            assert(t1 != t0);
                            let na = seq![t0] + available;
                            if na.contains(t1) {
                                let i = choose|i: int| 0 <= i < na.len() && na[i] == t1;
                                if i > 0 {
                                    assert(na[i] == available[i - 1]);
                                }
                            }
                        },
                        _ => {},
                    }
                }
            }
            assert forall|k1: int, k2: int|
                0 <= k1 < rest.len() && 0 <= k2 < rest.len() && (#[trigger] rest[k1]).box_id == (#[trigger] rest[k2]).box_id implies k1
                == k2 by {
                let o1 = if k1 < k { k1 } else { k1 + 1 };
                let o2 = if k2 < k { k2 } else { k2 + 1 };
                assert(q.pending[o1].box_id == q.pending[o2].box_id);
            }
            assert forall|k1: int, k2: int|
                0 <= k1 < rest.len() && 0 <= k2 < rest.len() && k1 != k2 && (#[trigger] rest[k1]).pool_id
                    == (#[trigger] rest[k2]).pool_id && rest[k1].reward is Token implies rest[k1].reward != rest[k2].reward by {
                let o1 = if k1 < k { k1 } else { k1 + 1 };
                let o2 = if k2 < k { k2 } else { k2 + 1 };
                assert(q.pending[o1].pool_id == q.pending[o2].pool_id);
            }
            assert forall|pp: int| 0 <= pp < q2.pools.len() && (#[trigger] q2.pools[pp]).kind is Amount implies q2.committed(pp)
                <= q2.pools[pp].capacity() by {
                lemma_outstanding_remove(q.pending, k, pp);
                assert(q.pools[pp].kind is Amount);
                assert(q.committed(pp) <= q.pools[pp].capacity());
            }
        }
    }
}

/// The pool a claim draws from is a valid pool of the box's rarity that
/// offers a unit.
pub proof fn lemma_claim_pick(q: QuestModel, rarity: BoxRarity, selection: u64)
    requires
        q.candidates(rarity).len() > 0,
    ensures
        ({
            let ids = q.candidates(rarity);
            let total = total_of(q.pools, ids);
            let j = pick_from(q.pools, ids, (selection as nat) % total, 0);
            &&& total > 0
            &&& 0 <= j < ids.len()
            &&& 0 <= ids[j] < q.pools.len()
            &&& q.pools[ids[j]].rarity == rarity
            &&& q.pools[ids[j]].availability() > 0
        }),
{
    let ids = q.candidates(rarity);
    lemma_candidates(q.pools, rarity, q.pools.len() as int);
    assert(ids.drop_last().len() < ids.len());
    assert(q.pools[ids.last()].availability() > 0);
    let total = total_of(q.pools, ids);
    lemma_pick_in_range(q.pools, ids, (selection as nat) % total, 0);
}

/// Why an administrative operation on a quest was refused. Nothing changes
/// when one of these is returned.
#[derive(Clone, Copy, Debug, PartialEq, Eq, Structural)]
pub enum QuestError {
    /// The caller is not the quest's owner.
    Forbidden,
    /// An amount reward below the minimal one.
    AmountTooSmall,
    /// Pool ids are exhausted.
    PoolLimitReached,
    /// The token is already in the pool of its contract and rarity.
    DuplicateToken,
    ZeroDenominator,
    NumeratorAboveDenominator,
    BoxNotFound(u128),
    BoxAlreadyClaimed(u128),
}

/// Position of the first token pool of `contract` and `rarity` at or after
/// `from`, or -1.
pub open spec fn find_token_pool(pools: Seq<PoolModel>, contract: Seq<char>, rarity: BoxRarity, from: int) -> int
    decreases pools.len() - from,
{
    if from < 0 || from >= pools.len() {
        -1
    } else if pools[from].rarity == rarity && (pools[from].kind matches PoolKindModel::Tokens { contract: c, .. } && c == contract) {
        from
    } else {
        find_token_pool(pools, contract, rarity, from + 1)
    }
}

pub proof fn lemma_find_token_pool(pools: Seq<PoolModel>, contract: Seq<char>, rarity: BoxRarity, from: int)
    requires
        0 <= from,
    ensures
        find_token_pool(pools, contract, rarity, from) == -1 || from <= find_token_pool(pools, contract, rarity, from)
            < pools.len(),
        find_token_pool(pools, contract, rarity, from) >= 0 ==> pools[find_token_pool(pools, contract, rarity, from)].kind is Tokens,
    decreases pools.len() - from,
{
    if from < pools.len() {
        lemma_find_token_pool(pools, contract, rarity, from + 1);
    }
}

/// Whether `ids` can be deleted in order: each names a box that exists, is
/// not claimed, and was not named before in the list.
pub open spec fn deletable(q: QuestModel, ids: Seq<u128>) -> bool {
    forall|k: int|
        0 <= k < ids.len() ==> {
            &&& q.box_at(#[trigger] ids[k]) is Some
            &&& q.box_at(ids[k])->0.status == StatusModel::NonClaimed
            &&& forall|j: int| 0 <= j < k ==> ids[j] != ids[k]
        }
}

/// The boxes with the ones named in `ids` removed.
pub open spec fn without_boxes(boxes: Seq<Option<BoxModel>>, ids: Seq<u128>) -> Seq<Option<BoxModel>> {
    Seq::new(boxes.len(), |i: int| if ids.contains(i as u128) { None } else { boxes[i] })
}

/// The users after `owner` received a box: each account once, in order of
/// first box.
pub open spec fn with_user(users: Seq<Seq<char>>, owner: Seq<char>) -> Seq<Seq<char>> {
    if users.contains(owner) {
        users
    } else {
        users.push(owner)
    }
}

/// A new pool keeps a well-formed quest well formed.
pub proof fn lemma_push_pool_wf(q: QuestModel, pool: PoolModel)
    requires
        q.wf(),
        pool.wf(),
        pool.id == q.pools.len(),
        q.pools.len() < u32::MAX,
        pool.kind is Amount ==> pool.availability() <= pool.capacity(),
    ensures
        (QuestModel { pools: q.pools.push(pool), ..q }).wf(),
{
    let q2 = QuestModel { pools: q.pools.push(pool), ..q };
    assert forall|k: int| 0 <= k < q2.pending.len() implies q2.pending_ok(#[trigger] q2.pending[k]) by {
        assert(q.pending_ok(q.pending[k]));
    }
    assert forall|p: int| 0 <= p < q2.pools.len() && (#[trigger] q2.pools[p]).kind is Amount implies q2.committed(p)
        <= q2.pools[p].capacity() by {
        if p < q.pools.len() {
            assert(q.pools[p].kind is Amount);
        } else {
            assert forall|k: int| 0 <= k < q.pending.len() implies (#[trigger] q.pending[k]).pool_id as int != p by {
                assert(q.pending_ok(q.pending[k]));
            }
            lemma_outstanding_none(q.pending, p);
        }
    }
    assert forall|i: int| 0 <= i < q2.pools.len() implies (#[trigger] q2.pools[i]).id == i && q2.pools[i].wf() by {
        if i < q.pools.len() {
            assert(q.pools[i].id == i);
        }
    }
}

/// Adding a token the pool did not hold keeps a well-formed quest well formed.
pub proof fn lemma_add_token_wf(q: QuestModel, i: int, token: Seq<char>)
    requires
        q.wf(),
        0 <= i < q.pools.len(),
        q.pools[i].is_token_pool(),
        !q.pools[i].holds_token(token),
        q.pools[i].add_token(token).wf(),
    ensures
        (QuestModel { pools: q.pools.update(i, q.pools[i].add_token(token)), ..q }).wf(),
{
    let q2 = QuestModel { pools: q.pools.update(i, q.pools[i].add_token(token)), ..q };
    assert forall|k: int| 0 <= k < q2.pending.len() implies q2.pending_ok(#[trigger] q2.pending[k]) by {
        let c = q.pending[k];
        assert(q.pending_ok(c));
        if c.pool_id as int == i {
            match (q.pools[i].kind, c.reward) {
                (PoolKindModel::Tokens { tokens, available, .. }, RewardModel::Token { token: t, .. }) => {
                    assert(t != token);
                    assert(tokens.push(token).contains(t)) by {
                        let j = choose|j: int| 0 <= j < tokens.len() && tokens[j] == t;
                        assert(tokens.push(token)[j] == t);
                    }
                    if available.push(token).contains(t) {
                        let j = choose|j: int| 0 <= j < available.push(token).len() && available.push(token)[j] == t;
                        if j < available.len() {
                            assert(available[j] == t);
                        }
                    }
                },
                _ => {},
            }
        }
    }
    assert forall|p: int| 0 <= p < q2.pools.len() && (#[trigger] q2.pools[p]).kind is Amount implies q2.committed(p)
        <= q2.pools[p].capacity() by {
        assert(q.pools[p].kind is Amount);
    }
    assert forall|j: int| 0 <= j < q2.pools.len() implies (#[trigger] q2.pools[j]).id == j && q2.pools[j].wf() by {
        assert(q.pools[j].id == j);
    }
}

/// Indices of all pools of `rarity` among the first `n`, in id order.
pub open spec fn rarity_pools_upto(pools: Seq<PoolModel>, rarity: BoxRarity, n: int) -> Seq<int>
    decreases n,
{
    if n <= 0 {
        Seq::empty()
    } else {
        let c = rarity_pools_upto(pools, rarity, n - 1);
        if pools[n - 1].rarity == rarity {
            c.push(n - 1)
        } else {
            c
        }
    }
}

pub proof fn lemma_rarity_pools(pools: Seq<PoolModel>, rarity: BoxRarity, n: int)
    requires
        0 <= n <= pools.len(),
    ensures
        rarity_pools_upto(pools, rarity, n).len() <= n,
        forall|k: int|
            0 <= k < rarity_pools_upto(pools, rarity, n).len() ==> 0 <= #[trigger] rarity_pools_upto(pools, rarity, n)[k]
                < n,
    decreases n,
{
    if n > 0 {
        lemma_rarity_pools(pools, rarity, n - 1);
    }
}

impl QuestModel {
    pub open spec fn pools_of_rarity(self, rarity: BoxRarity) -> Seq<int> {
        rarity_pools_upto(self.pools, rarity, self.pools.len() as int)
    }
}

/// The boxes among `boxes` that belong to `account`, in id order.
pub open spec fn owned_boxes(boxes: Seq<Option<BoxModel>>, account: Seq<char>) -> Seq<BoxModel>
    decreases boxes.len(),
{
    if boxes.len() == 0 {
        Seq::empty()
    } else {
        let rest = owned_boxes(boxes.drop_last(), account);
        match boxes.last() {
            Some(b) => if b.owner == account {
                rest.push(b)
            } else {
                rest
            },
            None => rest,
        }
    }
}

} // verus!
