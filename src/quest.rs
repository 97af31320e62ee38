use vstd::prelude::*;

use crate::json::{page_of, pool_rewards, JsonPoolRewards, Pagination, PaginationError};
use crate::model::{
    candidates_upto, claim_effect, complete_effect, deletable, find_pending, find_token_pool,
    lemma_add_token_wf, lemma_candidates, lemma_claim_wf, lemma_complete_wf, lemma_find_pending,
    lemma_find_token_pool, lemma_push_pool_wf, lemma_rarity_pools, owned_boxes, pick_from,
    rarity_pools_upto, total_of, with_user, without_boxes, BoxModel, ClaimError, ClaimOutcomeModel,
    PendingModel, QuestError, QuestModel, SettlementModel, StatusModel,
};
use crate::pools::{lemma_take_unit_wf, Pool, PoolModel};
use crate::types::{passes_chance, rarity_index, string_seq_view, BoxRarity, Probability, Reward};
use crate::verification::{is_verified, verified_by, PromiseOutcome};

verus! {

#[derive(Clone, Debug, PartialEq, Eq)]
pub enum BoxStatus {
    Claimed { reward: Option<Reward> },
    NonClaimed,
}

/// A claim ticket owned by an account.
#[derive(Clone, Debug)]
pub struct QuestBox {
    pub box_id: u128,
    pub box_rarity: BoxRarity,
    pub box_status: BoxStatus,
    pub quest_id: u64,
    pub owner_id: String,
}

/// A reward taken from a pool while its transfer is under way: what has to be
/// rolled back if the transfer fails.
#[derive(Clone, Debug)]
pub struct PendingClaim {
    pub box_id: u128,
    pub pool_id: u32,
    pub reward: Reward,
}

/// What a claim led to when it was not refused.
#[derive(Clone, Debug)]
pub enum ClaimOutcome {
    /// The chance check did not pass: the box is settled with no reward.
    NothingWon,
    /// A reward was taken and now waits for its transfer.
    Pending(PendingClaim),
}

/// What follows the identity check of a claim in flight.
#[derive(Clone, Debug)]
pub enum VerificationStep {
    /// The owner is verified: transfer this reward.
    Transfer(PendingClaim),
    /// The owner is not verified: the claim was rolled back.
    Reverted,
}

/// How a claim in flight ended.
#[derive(Clone, Debug)]
pub enum Settlement {
    Settled(Reward),
    Reverted,
}

pub open spec fn status_view(s: BoxStatus) -> StatusModel {
    match s {
        BoxStatus::Claimed { reward } => StatusModel::Claimed {
            reward: match reward {
                Some(r) => Some(r@),
                None => None,
            },
        },
        BoxStatus::NonClaimed => StatusModel::NonClaimed,
    }
}

impl View for QuestBox {
    type V = BoxModel;

    open spec fn view(&self) -> BoxModel {
        BoxModel {
            quest_id: self.quest_id,
            box_id: self.box_id,
            rarity: self.box_rarity,
            status: status_view(self.box_status),
            owner: self.owner_id@,
        }
    }
}

pub open spec fn box_opt_view(b: Option<QuestBox>) -> Option<BoxModel> {
    match b {
        Some(x) => Some(x@),
        None => None,
    }
}

impl View for PendingClaim {
    type V = PendingModel;

    open spec fn view(&self) -> PendingModel {
        PendingModel { box_id: self.box_id, pool_id: self.pool_id, reward: self.reward@ }
    }
}

pub open spec fn claim_result_view(r: Result<ClaimOutcome, ClaimError>) -> Result<ClaimOutcomeModel, ClaimError> {
    match r {
        Ok(ClaimOutcome::NothingWon) => Ok(ClaimOutcomeModel::NothingWon),
        Ok(ClaimOutcome::Pending(c)) => Ok(ClaimOutcomeModel::Pending(c@)),
        Err(e) => Err(e),
    }
}

pub open spec fn settlement_view(r: Result<Settlement, ClaimError>) -> Result<SettlementModel, ClaimError> {
    match r {
        Ok(Settlement::Settled(w)) => Ok(SettlementModel::Settled(w@)),
        Ok(Settlement::Reverted) => Ok(SettlementModel::Reverted),
        Err(e) => Err(e),
    }
}

impl BoxStatus {
    pub fn duplicate(&self) -> (r: BoxStatus)
        ensures
            status_view(r) == status_view(*self),
    {
        match self {
            BoxStatus::Claimed { reward: Some(w) } => BoxStatus::Claimed { reward: Some(w.duplicate()) },
            BoxStatus::Claimed { reward: None } => BoxStatus::Claimed { reward: None },
            BoxStatus::NonClaimed => BoxStatus::NonClaimed,
        }
    }
}

impl QuestBox {
    pub fn new(quest_id: u64, box_id: u128, rarity: BoxRarity, box_owner_id: String) -> (r: QuestBox)
        ensures
            r@ == (BoxModel {
                quest_id,
                box_id,
                rarity,
                status: StatusModel::NonClaimed,
                owner: box_owner_id@,
            }),
    {
        QuestBox { quest_id, box_id, box_rarity: rarity, box_status: BoxStatus::NonClaimed, owner_id: box_owner_id }
    }

    pub fn duplicate(&self) -> (r: QuestBox)
        ensures
            r@ == self@,
    {
        QuestBox {
            quest_id: self.quest_id,
            box_id: self.box_id,
            box_rarity: self.box_rarity,
            box_status: self.box_status.duplicate(),
            owner_id: self.owner_id.clone(),
        }
    }

    /// Content identifier of the box's artwork.
    pub fn ipfs(&self) -> (r: String)
        ensures
            r@ == crate::types::rarity_media(self.box_rarity),
    {
        self.box_rarity.to_media_ipfs()
    }
}

impl PendingClaim {
    pub fn duplicate(&self) -> (r: PendingClaim)
        ensures
            r@ == self@,
    {
        PendingClaim { box_id: self.box_id, pool_id: self.pool_id, reward: self.reward.duplicate() }
    }
}

/// The smallest amount reward a pool may hold: a tenth of one unit of the
/// native currency, in its smallest denomination.
pub const MINIMAL_NEAR_REWARD: u128 = 100_000_000_000_000_000_000_000;

/// One namespace of pools, boxes and probabilities, with its owner.
pub struct Quest {
    id: u64,
    title: String,
    owner_id: String,
    pools: Vec<Pool>,
    boxes: Vec<Option<QuestBox>>,
    probabilities: Vec<Option<Probability>>,
    pending: Vec<PendingClaim>,
    users: Vec<String>,
}

impl View for Quest {
    type V = QuestModel;

    closed spec fn view(&self) -> QuestModel {
        QuestModel {
            id: self.id,
            title: self.title@,
            owner: self.owner_id@,
            pools: self.pools@.map_values(|p: Pool| p@),
            boxes: self.boxes@.map_values(|b: Option<QuestBox>| box_opt_view(b)),
            probabilities: self.probabilities@,
            pending: self.pending@.map_values(|c: PendingClaim| c@),
            users: string_seq_view(self.users@),
        }
    }
}

impl Quest {
    pub fn new(id: u64, title: String, owner_id: String) -> (r: Quest)
        ensures
            r@.wf(),
            r@.id == id,
            r@.title == title@,
            r@.owner == owner_id@,
            r@.pools.len() == 0,
            r@.boxes.len() == 0,
            r@.pending.len() == 0,
            r@.users.len() == 0,
            r@.probabilities == seq![None::<Probability>, None, None],
    {
        let mut probabilities: Vec<Option<Probability>> = Vec::new();
        probabilities.push(None);
        probabilities.push(None);
        probabilities.push(None);
        let r = Quest {
            id,
            title,
            owner_id,
            pools: Vec::new(),
            boxes: Vec::new(),
            probabilities,
            pending: Vec::new(),
            users: Vec::new(),
        };
        assert(r@.probabilities =~= seq![None::<Probability>, None, None]);
        assert(r@.pools =~= Seq::<PoolModel>::empty());
        assert(r@.boxes =~= Seq::<Option<BoxModel>>::empty());
        assert(r@.pending =~= Seq::<PendingModel>::empty());
        r
    }

    pub fn id(&self) -> (r: u64)
        ensures
            r == self@.id,
    {
        self.id
    }

    pub fn title(&self) -> (r: String)
        ensures
            r@ == self@.title,
    {
        self.title.clone()
    }

    pub fn owner_id(&self) -> (r: String)
        ensures
            r@ == self@.owner,
    {
        self.owner_id.clone()
    }

    /// Number of boxes minted so far, deleted ones included.
    pub fn total_supply(&self) -> (r: u128)
        ensures
            r == self@.boxes.len(),
    {
        self.boxes.len() as u128
    }

    /// Number of boxes minted so far; also the id the next box gets.
    pub fn next_box_id(&self) -> (r: u128)
        ensures
            r == self@.boxes.len(),
    {
        self.boxes.len() as u128
    }

    pub fn pool_count(&self) -> (r: usize)
        ensures
            r == self@.pools.len(),
    {
        self.pools.len()
    }

    /// The box with this id, unless it was never minted or was deleted.
    pub fn get_box(&self, box_id: u128) -> (r: Option<QuestBox>)
        ensures
            box_opt_view(r) == self@.box_at(box_id),
    {
        if box_id >= self.boxes.len() as u128 {
            return None;
        }
        match &self.boxes[box_id as usize] {
            Some(b) => Some(b.duplicate()),
            None => None,
        }
    }

    /// The probability in force for a rarity.
    pub fn probability_for(&self, rarity: BoxRarity) -> (r: Probability)
        requires
            self@.wf(),
        ensures
            r == self@.probability_for(rarity),
            crate::types::probability_valid(r),
    {
        let i = rarity.index();
        match self.probabilities[i] {
            Some(p) => p,
            None => Probability::one(),
        }
    }

    /// The claim waiting for the outside result of this box, if any.
    pub fn pending_claim(&self, box_id: u128) -> (r: Option<PendingClaim>)
        ensures
            find_pending(self@.pending, box_id, 0) < 0 ==> r is None,
            find_pending(self@.pending, box_id, 0) >= 0 ==> match r {
                Some(c) => c@ == self@.pending[find_pending(self@.pending, box_id, 0)],
                None => false,
            },
    {
        proof {
            lemma_find_pending(self@.pending, box_id, 0);
        }
        match self.find_pending_index(box_id) {
            Some(k) => {
                let c = self.pending[k].duplicate();
                assert(self@.pending[k as int] == self.pending@[k as int]@);
                assert(c@ == self@.pending[k as int]);
                assert(find_pending(self@.pending, box_id, 0) >= 0);
                assert(k as int == find_pending(self@.pending, box_id, 0));
                Some(c)
            },
            None => None,
        }
    }

    fn find_pending_index(&self, box_id: u128) -> (r: Option<usize>)
        ensures
            match r {
                Some(k) => k as int == find_pending(self@.pending, box_id, 0),
                None => find_pending(self@.pending, box_id, 0) < 0,
            },
            r is Some ==> r->0 < self@.pending.len(),
    {
        proof {
            lemma_find_pending(self@.pending, box_id, 0);
        }
        let mut k: usize = 0;
        while k < self.pending.len()
            invariant
                k <= self.pending@.len(),
                find_pending(self@.pending, box_id, 0) == find_pending(self@.pending, box_id, k as int),
            decreases self.pending@.len() - k,
        {
            assert(self@.pending[k as int] == self.pending@[k as int]@);
            if self.pending[k].box_id == box_id {
                return Some(k);
            }
            k = k + 1;
        }
        None
    }

    /// Indices of the pools of `rarity` that still offer a unit, in id order.
    fn candidate_indices(&self, rarity: BoxRarity) -> (r: Vec<usize>)
        requires
            self@.wf(),
        ensures
            r@.map_values(|i: usize| i as int) == self@.candidates(rarity),
    {
        let mut ids: Vec<usize> = Vec::new();
        let mut i: usize = 0;
        while i < self.pools.len()
            invariant
                i <= self.pools@.len(),
                ids@.map_values(|x: usize| x as int) == candidates_upto(self@.pools, rarity, i as int),
            decreases self.pools@.len() - i,
        {
            let ghost before = ids@;
            assert(self@.pools[i as int] == self.pools@[i as int]@);
            if self.pools[i].rarity == rarity && !self.pools[i].is_empty() {
                ids.push(i);
                assert(ids@.map_values(|x: usize| x as int) =~= before.map_values(|x: usize| x as int).push(i as int));
            }
            i = i + 1;
        }
        ids
    }

    /// Sum of the availabilities of the pools at `ids`.
    fn total_availability(&self, ids: &Vec<usize>) -> (t: u128)
        requires
            self@.wf(),
            ids@.len() <= self@.pools.len(),
            forall|k: int| 0 <= k < ids@.len() ==> (#[trigger] ids@[k]) < self@.pools.len(),
        ensures
            t == total_of(self@.pools, ids@.map_values(|x: usize| x as int)),
    {
        let ghost idv = ids@.map_values(|x: usize| x as int);
        let mut t: u128 = 0;
        let mut k: usize = 0;
        while k < ids.len()
            invariant
                k <= ids@.len(),
                ids@.len() <= self@.pools.len(),
                self@.pools.len() <= u32::MAX,
                forall|j: int| 0 <= j < ids@.len() ==> (#[trigger] ids@[j]) < self@.pools.len(),
                idv == ids@.map_values(|x: usize| x as int),
                t == total_of(self@.pools, idv.take(k as int)),
                t <= k * 0x1_0000_0000_0000_0000,
            decreases ids@.len() - k,
        {
            let p = ids[k];
            assert(self@.pools[p as int] == self.pools@[p as int]@);
            let a = self.pools[p].availability();
            assert(idv.take(k as int + 1).drop_last() =~= idv.take(k as int));
            t = t + a as u128;
            k = k + 1;
        }
        assert(idv.take(ids@.len() as int) =~= idv);
        t
    }

    /// The position in `ids` of the pool that owns unit number `r`.
    fn pick_position(&self, ids: &Vec<usize>, r: u128) -> (j: usize)
        requires
            self@.wf(),
            forall|k: int| 0 <= k < ids@.len() ==> (#[trigger] ids@[k]) < self@.pools.len(),
            r < total_of(self@.pools, ids@.map_values(|x: usize| x as int)),
        ensures
            j as int == pick_from(self@.pools, ids@.map_values(|x: usize| x as int), r as nat, 0),
            j < ids@.len(),
    {
        let ghost idv = ids@.map_values(|x: usize| x as int);
        let mut last: u128 = 0;
        let mut j: usize = 0;
        while j < ids.len()
            invariant
                j <= ids@.len(),
                forall|k: int| 0 <= k < ids@.len() ==> (#[trigger] ids@[k]) < self@.pools.len(),
                idv == ids@.map_values(|x: usize| x as int),
                r < total_of(self@.pools, idv),
                last == total_of(self@.pools, idv.take(j as int)),
                r >= last,
                pick_from(self@.pools, idv, r as nat, 0) == pick_from(self@.pools, idv, r as nat, j as int),
            decreases ids@.len() - j,
        {
            let p = ids[j];
            assert(self@.pools[p as int] == self.pools@[p as int]@);
            let a = self.pools[p].availability() as u128;
            assert(idv.take(j as int + 1).drop_last() =~= idv.take(j as int));
            if r - last < a {
                return j;
            }
            last = last + a;
            j = j + 1;
        }
        assert(idv.take(ids@.len() as int) =~= idv);
        0
    }

    /// The pool a draw of `selection` picks among the pools of `rarity` that
    /// still offer a unit: lay their units out pool after pool, in id order,
    /// and take the pool that owns unit number `selection % total`. Every
    /// unit is thus equally likely. Nothing changes.
    pub fn find_random_available_reward_pool(&self, rarity: BoxRarity, selection: u64) -> (r: Result<u32, ClaimError>)
        requires
            self@.wf(),
        ensures
            self@.candidates(rarity).len() == 0 <==> r is Err,
            r is Err ==> r == Err::<u32, _>(ClaimError::NoPoolsAvailable),
            r is Ok ==> ({
                let ids = self@.candidates(rarity);
                let total = total_of(self@.pools, ids);
                r->Ok_0 as int == ids[pick_from(self@.pools, ids, (selection as nat) % total, 0)]
            }),
    {
        let ghost q = self@;
        let ids = self.candidate_indices(rarity);
        if ids.len() == 0 {
            assert(q.candidates(rarity).len() == 0);
            return Err(ClaimError::NoPoolsAvailable);
        }
        let ghost idv = ids@.map_values(|x: usize| x as int);
        proof {
            lemma_candidates(q.pools, rarity, q.pools.len() as int);
            assert forall|k: int| 0 <= k < ids@.len() implies (#[trigger] ids@[k]) < self@.pools.len() by {
                assert(idv[k] == ids@[k] as int);
            }
            assert(idv.drop_last().len() < idv.len());
            assert(q.pools[idv.last()].availability() > 0);
        }
        let total = self.total_availability(&ids);
        let pick = (selection as u128) % total;
        let j = self.pick_position(&ids, pick);
        let p = ids[j];
        assert(idv[j as int] == p as int);
        Ok(p as u32)
    }

    /// Claims a box for `caller`. The chance byte decides whether a reward is
    /// drawn at all; `selection` picks which unit, uniformly over all units
    /// the rarity's pools offer. A drawn reward is committed to the box at
    /// once and waits, as a pending claim, for the outcome of its transfer.
    pub fn claim(&mut self, caller: &String, box_id: u128, chance_byte: u8, selection: u64) -> (r: Result<
        ClaimOutcome,
        ClaimError,
    >)
        requires
            old(self)@.wf(),
        ensures
            (final(self)@, claim_result_view(r)) == claim_effect(old(self)@, caller@, box_id, chance_byte, selection),
            final(self)@.wf(),
    {
        proof {
            lemma_claim_wf(self@, caller@, box_id, chance_byte, selection);
        }
        let ghost q = self@;
        if box_id >= self.boxes.len() as u128 {
            return Err(ClaimError::BoxNotFound);
        }
        let bi = box_id as usize;
        assert(q.boxes[bi as int] == box_opt_view(self.boxes@[bi as int]));
        let rarity = match &self.boxes[bi] {
            None => {
                return Err(ClaimError::BoxNotFound);
            },
            Some(b) => {
                if !(b.owner_id == *caller) {
                    return Err(ClaimError::NotOwner);
                }
                match b.box_status {
                    BoxStatus::NonClaimed => {},
                    BoxStatus::Claimed { .. } => {
                        return Err(ClaimError::AlreadyClaimed);
                    },
                }
                b.box_rarity
            },
        };
        let threshold = self.probability_for(rarity).calculate_threshold();
        if !passes_chance(threshold, chance_byte) {
            let mut b = self.boxes[bi].take().unwrap();
            b.box_status = BoxStatus::Claimed { reward: None };
            self.boxes.set(bi, Some(b));
            assert(self@.boxes =~= q.boxes.update(box_id as int, Some(BoxModel { status: StatusModel::Claimed { reward: None }, ..q.boxes[box_id as int]->0 })));
            assert(self@.pools =~= q.pools);
            assert(self@.pending =~= q.pending);
            return Ok(ClaimOutcome::NothingWon);
        }
        let p = match self.find_random_available_reward_pool(rarity, selection) {
            Err(e) => {
                return Err(e);
            },
            Ok(p) => p as usize,
        };
        proof {
            crate::model::lemma_claim_pick(q, rarity, selection);
        }
        let ghost old_pool = q.pools[p as int];
        assert(old_pool == self.pools@[p as int]@);
        proof {
            lemma_take_unit_wf(old_pool);
        }
        let reward = self.pools[p].take_reward_from_pool();
        assert(self@.pools =~= q.pools.update(p as int, old_pool.take_unit().0));
        let mut b = self.boxes[bi].take().unwrap();
        b.box_status = BoxStatus::Claimed { reward: Some(reward.duplicate()) };
        self.boxes.set(bi, Some(b));
        let c = PendingClaim { box_id, pool_id: p as u32, reward };
        self.pending.push(c.duplicate());
        assert(self@.boxes =~= q.boxes.update(box_id as int, Some(BoxModel { status: StatusModel::Claimed { reward: Some(c.reward@) }, ..q.boxes[box_id as int]->0 })));
        assert(self@.pending =~= q.pending.push(c@));
        Ok(ClaimOutcome::Pending(c))
    }

    /// Ends the claim in flight for a box with the outcome of its transfer.
    /// Success settles it for good; failure puts the unit back into its pool
    /// and makes the box claimable again.
    pub fn complete_claim(&mut self, box_id: u128, success: bool) -> (r: Result<Settlement, ClaimError>)
        requires
            old(self)@.wf(),
        ensures
            (final(self)@, settlement_view(r)) == complete_effect(old(self)@, box_id, success),
            final(self)@.wf(),
    {
        proof {
            lemma_complete_wf(self@, box_id, success);
            lemma_find_pending(self@.pending, box_id, 0);
        }
        let ghost q = self@;
        let k = match self.find_pending_index(box_id) {
            None => {
                return Err(ClaimError::UnknownClaim);
            },
            Some(k) => k,
        };
        let c = self.pending.remove(k);
        assert(c@ == q.pending[k as int]);
        assert(self@.pending =~= q.pending.remove(k as int));
        if success {
            return Ok(Settlement::Settled(c.reward));
        }
        assert(q.pending_ok(c@));
        assert(c.box_id == box_id);
        assert(q.box_at(box_id) is Some);
        assert(box_id < q.boxes.len());
        let pi = c.pool_id as usize;
        let ghost old_pool = q.pools[pi as int];
        assert(old_pool == self.pools@[pi as int]@);
        let put = self.pools[pi].put_reward_to_pool(c.reward);
        assert(put is Ok);
        assert(self@.pools =~= q.pools.update(pi as int, old_pool.put_unit(c@.reward)));
        let n = self.boxes.len();
        assert(box_id < n);
        let bi = box_id as usize;
        assert(q.boxes[bi as int] == box_opt_view(self.boxes@[bi as int]));
        let mut b = self.boxes[bi].take().unwrap();
        b.box_status = BoxStatus::NonClaimed;
        self.boxes.set(bi, Some(b));
        assert(self@.boxes =~= q.boxes.update(box_id as int, Some(BoxModel { status: StatusModel::NonClaimed, ..q.box_at(box_id)->0 })));
        Ok(Settlement::Reverted)
    }

    /// Adds a pool of `capacity` rewards of `amount` each for a rarity and
    /// returns its id. Refused below the minimal amount, then to anyone but
    /// the owner.
    pub fn add_near_reward(&mut self, caller: &String, rarity: BoxRarity, amount: u128, capacity: u64) -> (r: Result<u32, QuestError>)
        requires
            old(self)@.wf(),
        ensures
            final(self)@.wf(),
            amount < MINIMAL_NEAR_REWARD ==> r == Err::<u32, _>(QuestError::AmountTooSmall),
            amount >= MINIMAL_NEAR_REWARD && caller@ != old(self)@.owner ==> r == Err::<u32, _>(QuestError::Forbidden),
            r is Ok <==> amount >= MINIMAL_NEAR_REWARD && caller@ == old(self)@.owner && old(self)@.pools.len() < u32::MAX,
            r is Err ==> final(self)@ == old(self)@,
            r is Ok ==> r->Ok_0 == old(self)@.pools.len() && final(self)@ == (QuestModel {
                pools: old(self)@.pools.push(PoolModel {
                    id: r->Ok_0,
                    rarity,
                    kind: crate::pools::PoolKindModel::Amount { amount, capacity, available: capacity },
                }),
                ..old(self)@
            }),
    {
        if amount < MINIMAL_NEAR_REWARD {
            return Err(QuestError::AmountTooSmall);
        }
        if !(*caller == self.owner_id) {
            return Err(QuestError::Forbidden);
        }
        if self.pools.len() >= u32::MAX as usize {
            return Err(QuestError::PoolLimitReached);
        }
        let ghost q = self@;
        let id = self.pools.len() as u32;
        let pool = Pool::create_near_pool(id, rarity, amount, capacity);
        proof {
            lemma_push_pool_wf(q, pool@);
        }
        self.pools.push(pool);
        assert(self@.pools =~= q.pools.push(pool@));
        Ok(id)
    }

    fn find_token_pool_index(&self, contract: &String, rarity: BoxRarity) -> (r: Option<usize>)
        ensures
            match r {
                Some(i) => i as int == find_token_pool(self@.pools, contract@, rarity, 0) && i < self@.pools.len(),
                None => find_token_pool(self@.pools, contract@, rarity, 0) == -1,
            },
    {
        proof {
            lemma_find_token_pool(self@.pools, contract@, rarity, 0);
        }
        let mut i: usize = 0;
        while i < self.pools.len()
            invariant
                i <= self.pools@.len(),
                find_token_pool(self@.pools, contract@, rarity, 0) == find_token_pool(self@.pools, contract@, rarity, i as int),
            decreases self.pools@.len() - i,
        {
            assert(self@.pools[i as int] == self.pools@[i as int]@);
            if self.pools[i].rarity == rarity {
                match self.pools[i].token_contract() {
                    Some(c) => {
                        if c == *contract {
                            return Some(i);
                        }
                    },
                    None => {},
                }
            }
            i = i + 1;
        }
        None
    }

    /// Takes in a token sent by `nft_contract` on behalf of `previous_owner`:
    /// it joins the pool of that contract and rarity, which is created on the
    /// first token. Only tokens sent by the owner are taken.
    pub fn nft_on_transfer(
        &mut self,
        nft_contract: &String,
        previous_owner: &String,
        token_id: String,
        rarity: BoxRarity,
    ) -> (r: Result<u32, QuestError>)
        requires
            old(self)@.wf(),
        ensures
            final(self)@.wf(),
            r is Err ==> final(self)@ == old(self)@,
            previous_owner@ != old(self)@.owner ==> r == Err::<u32, _>(QuestError::Forbidden),
            ({
                let q = old(self)@;
                let i = find_token_pool(q.pools, nft_contract@, rarity, 0);
                previous_owner@ == q.owner ==> if i >= 0 {
                    if q.pools[i].holds_token(token_id@) {
                        r == Err::<u32, _>(QuestError::DuplicateToken)
                    } else {
                        r == Ok::<u32, QuestError>(i as u32) && final(self)@ == (QuestModel {
                            pools: q.pools.update(i, q.pools[i].add_token(token_id@)),
                            ..q
                        })
                    }
                } else if q.pools.len() < u32::MAX {
                    r == Ok::<u32, QuestError>(q.pools.len() as u32) && final(self)@ == (QuestModel {
                        pools: q.pools.push(PoolModel {
                            id: q.pools.len() as u32,
                            rarity,
                            kind: crate::pools::PoolKindModel::Tokens {
                                contract: nft_contract@,
                                tokens: seq![token_id@],
                                available: seq![token_id@],
                            },
                        }),
                        ..q
                    })
                } else {
                    r == Err::<u32, _>(QuestError::PoolLimitReached)
                }
            }),
    {
        if !(*previous_owner == self.owner_id) {
            return Err(QuestError::Forbidden);
        }
        let ghost q = self@;
        proof {
            lemma_find_token_pool(q.pools, nft_contract@, rarity, 0);
        }
        let found = self.find_token_pool_index(nft_contract, rarity);
        if let Some(i) = found {
            proof {
                lemma_find_token_pool(q.pools, nft_contract@, rarity, 0);
            }
            let ghost old_pool = q.pools[i as int];
            assert(old_pool == self.pools@[i as int]@);
            let added = self.pools[i].add_nft_token(token_id);
            match added {
                Err(_) => {
                    assert(self@.pools =~= q.pools);
                    return Err(QuestError::DuplicateToken);
                },
                Ok(()) => {},
            }
            assert(self@.pools =~= q.pools.update(i as int, old_pool.add_token(token_id@)));
            proof {
                lemma_add_token_wf(q, i as int, token_id@);
            }
            return Ok(i as u32);
        }
        assert(find_token_pool(q.pools, nft_contract@, rarity, 0) == -1);
        if self.pools.len() >= u32::MAX as usize {
            return Err(QuestError::PoolLimitReached);
        }
        let id = self.pools.len() as u32;
        let mut pool = Pool::create_nft_pool(id, rarity, nft_contract.clone());
        let added = pool.add_nft_token(token_id);
        assert(added is Ok);
        assert(seq![token_id@] =~= Seq::<Seq<char>>::empty().push(token_id@));
        proof {
            assert(pool@.wf());
            lemma_push_pool_wf(q, pool@);
        }
        self.pools.push(pool);
        assert(self@.pools =~= q.pools.push(pool@));
        Ok(id)
    }

    /// Sets the chance of a reward for a rarity. An invalid probability is
    /// refused first, then a caller other than the owner.
    pub fn set_probability(&mut self, caller: &String, rarity: BoxRarity, probability: Probability) -> (r: Result<(), QuestError>)
        requires
            old(self)@.wf(),
        ensures
            final(self)@.wf(),
            probability.denominator == 0 ==> r == Err::<(), _>(QuestError::ZeroDenominator),
            probability.denominator != 0 && probability.numerator > probability.denominator ==> r == Err::<(), _>(
                QuestError::NumeratorAboveDenominator,
            ),
            crate::types::probability_valid(probability) && caller@ != old(self)@.owner ==> r == Err::<(), _>(
                QuestError::Forbidden,
            ),
            r is Ok <==> crate::types::probability_valid(probability) && caller@ == old(self)@.owner,
            r is Err ==> final(self)@ == old(self)@,
            r is Ok ==> final(self)@ == (QuestModel {
                probabilities: old(self)@.probabilities.update(rarity_index(rarity), Some(probability)),
                ..old(self)@
            }),
    {
        match probability.assert_valid() {
            Err(crate::types::ProbabilityError::ZeroDenominator) => {
                return Err(QuestError::ZeroDenominator);
            },
            Err(crate::types::ProbabilityError::NumeratorAboveDenominator) => {
                return Err(QuestError::NumeratorAboveDenominator);
            },
            Ok(()) => {},
        }
        if !(*caller == self.owner_id) {
            return Err(QuestError::Forbidden);
        }
        let ghost q = self@;
        let i = rarity.index();
        self.probabilities.set(i, Some(probability));
        assert(self@.probabilities =~= q.probabilities.update(rarity_index(rarity), Some(probability)));
        assert(self@.pools =~= q.pools);
        Ok(())
    }

    /// Hands the quest to a new owner; only the owner may.
    pub fn set_owner(&mut self, caller: &String, new_owner_id: String) -> (r: Result<(), QuestError>)
        requires
            old(self)@.wf(),
        ensures
            final(self)@.wf(),
            r is Ok <==> caller@ == old(self)@.owner,
            r is Err ==> r == Err::<(), _>(QuestError::Forbidden) && final(self)@ == old(self)@,
            r is Ok ==> final(self)@ == (QuestModel { owner: new_owner_id@, ..old(self)@ }),
    {
        if !(*caller == self.owner_id) {
            return Err(QuestError::Forbidden);
        }
        self.owner_id = new_owner_id;
        Ok(())
    }

    /// Mints a box of a rarity for `box_owner_id` with the next id; only the
    /// owner may.
    pub fn mint(&mut self, caller: &String, box_owner_id: String, rarity: BoxRarity) -> (r: Result<QuestBox, QuestError>)
        requires
            old(self)@.wf(),
        ensures
            final(self)@.wf(),
            r is Ok <==> caller@ == old(self)@.owner,
            r is Err ==> r == Err::<QuestBox, _>(QuestError::Forbidden) && final(self)@ == old(self)@,
            r is Ok ==> {
                let b = BoxModel {
                    quest_id: old(self)@.id,
                    box_id: old(self)@.boxes.len() as u128,
                    rarity,
                    status: StatusModel::NonClaimed,
                    owner: box_owner_id@,
                };
                &&& r->Ok_0@ == b
                &&& final(self)@ == (QuestModel {
                    boxes: old(self)@.boxes.push(Some(b)),
                    users: with_user(old(self)@.users, box_owner_id@),
                    ..old(self)@
                })
            },
    {
        if !(*caller == self.owner_id) {
            return Err(QuestError::Forbidden);
        }
        let ghost q = self@;
        let box_id = self.boxes.len() as u128;
        let b = QuestBox::new(self.id, box_id, rarity, box_owner_id);
        if !crate::types::contains_string(&self.users, &b.owner_id) {
            self.users.push(b.owner_id.clone());
            assert(string_seq_view(self.users@) =~= q.users.push(b.owner_id@));
        }
        self.boxes.push(Some(b.duplicate()));
        assert(self@.boxes =~= q.boxes.push(Some(b@)));
        proof {
            let q2 = self@;
            assert forall|k: int| 0 <= k < q2.pending.len() implies q2.pending_ok(#[trigger] q2.pending[k]) by {
                assert(q.pending_ok(q.pending[k]));
            }
            assert forall|i: int| 0 <= i < q2.boxes.len() && (#[trigger] q2.boxes[i]) is Some implies q2.boxes[i]->0.box_id == i
                && q2.boxes[i]->0.quest_id == q2.id by {
                if i < q.boxes.len() {
                    assert(q.boxes[i] is Some);
                }
            }
        }
        Ok(b)
    }

    /// Deletes unclaimed boxes; only the owner may. The whole list is
    /// refused, with nothing deleted, when an id names no box (or one named
    /// earlier in the list) or a claimed box.
    pub fn delete_boxes(&mut self, caller: &String, ids: &Vec<u128>) -> (r: Result<(), QuestError>)
        requires
            old(self)@.wf(),
        ensures
            final(self)@.wf(),
            caller@ != old(self)@.owner ==> r == Err::<(), _>(QuestError::Forbidden),
            r is Ok <==> caller@ == old(self)@.owner && deletable(old(self)@, ids@),
            r is Err ==> final(self)@ == old(self)@,
            r is Ok ==> final(self)@ == (QuestModel { boxes: without_boxes(old(self)@.boxes, ids@), ..old(self)@ }),
    {
        if !(*caller == self.owner_id) {
            return Err(QuestError::Forbidden);
        }
        let ghost q = self@;
        let mut k: usize = 0;
        while k < ids.len()
            invariant
                self@ == q,
                q == old(self)@,
                q.wf(),
                caller@ == q.owner,
                k <= ids@.len(),
                forall|m: int| 0 <= m < k ==> {
                    &&& q.box_at(#[trigger] ids@[m]) is Some
                    &&& q.box_at(ids@[m])->0.status == StatusModel::NonClaimed
                    &&& forall|j: int| 0 <= j < m ==> ids@[j] != ids@[m]
                },
            decreases ids@.len() - k,
        {
            let id = ids[k];
            if appears_before(ids, k) {
                return Err(QuestError::BoxNotFound(id));
            }
            if id >= self.boxes.len() as u128 {
                return Err(QuestError::BoxNotFound(id));
            }
            assert(q.boxes[id as int] == box_opt_view(self.boxes@[id as int]));
            match &self.boxes[id as usize] {
                None => {
                    return Err(QuestError::BoxNotFound(id));
                },
                Some(b) => match b.box_status {
                    BoxStatus::NonClaimed => {},
                    BoxStatus::Claimed { .. } => {
                        return Err(QuestError::BoxAlreadyClaimed(id));
                    },
                },
            }
            k = k + 1;
        }
        let mut k: usize = 0;
        while k < ids.len()
            invariant
                deletable(q, ids@),
                k <= ids@.len(),
                self@ == (QuestModel { boxes: self@.boxes, ..q }),
                self@.boxes.len() == q.boxes.len(),
                forall|i: int|
                    0 <= i < q.boxes.len() ==> #[trigger] self@.boxes[i] == if ids@.take(k as int).contains(i as u128) {
                        None
                    } else {
                        q.boxes[i]
                    },
            decreases ids@.len() - k,
        {
            let id = ids[k];
            assert(q.box_at(ids@[k as int]) is Some);
            let ghost before = self@.boxes;
            let n = self.boxes.len();
            assert(q.boxes.len() == n);
            assert(id < n as u128);
            self.boxes.set(id as usize, None);
            assert(self@.boxes =~= before.update(id as int, None));
            assert forall|i: int| 0 <= i < q.boxes.len() implies #[trigger] self@.boxes[i] == if ids@.take(k as int + 1).contains(
                i as u128,
            ) {
                None
            } else {
                q.boxes[i]
            } by {
                assert(ids@.take(k as int + 1) =~= ids@.take(k as int).push(id));
                assert(i < n);
                if i != id as int {
                    assert((i as u128) != id);
                } else {
                    assert(ids@.take(k as int + 1)[k as int] == id);
                }
            }
            k = k + 1;
        }
        assert(ids@.take(ids@.len() as int) =~= ids@);
        assert(self@.boxes =~= without_boxes(q.boxes, ids@));
        proof {
            let q2 = self@;
            assert forall|kk: int| 0 <= kk < q2.pending.len() implies q2.pending_ok(#[trigger] q2.pending[kk]) by {
                let c = q.pending[kk];
                assert(q.pending_ok(c));
                if ids@.contains(c.box_id) {
                    let m = choose|m: int| 0 <= m < ids@.len() && ids@[m] == c.box_id;
                    assert(q.box_at(ids@[m])->0.status == StatusModel::NonClaimed);
                }
            }
            assert forall|i: int| 0 <= i < q2.boxes.len() && (#[trigger] q2.boxes[i]) is Some implies q2.boxes[i]->0.box_id == i
                && q2.boxes[i]->0.quest_id == q2.id by {
                assert(q.boxes[i] is Some);
            }
        }
        Ok(())
    }

    /// Callback of the identity check for a claim in flight. It must observe
    /// exactly one outside result. A verified owner leaves everything as it
    /// is and gets the pending claim to transfer; otherwise the claim is
    /// compensated as after a failed transfer.
    pub fn on_verification(&mut self, box_id: u128, results: &Vec<PromiseOutcome>) -> (r: Result<VerificationStep, ClaimError>)
        requires
            old(self)@.wf(),
        ensures
            final(self)@.wf(),
            results@.len() != 1 ==> r == Err::<VerificationStep, _>(ClaimError::UnexpectedResultCount) && final(self)@ == old(self)@,
            results@.len() == 1 && verified_by(results@[0]) ==> final(self)@ == old(self)@ && match r {
                Ok(VerificationStep::Transfer(c)) => {
                    let k = find_pending(old(self)@.pending, box_id, 0);
                    k >= 0 && c@ == old(self)@.pending[k]
                },
                Err(e) => e == ClaimError::UnknownClaim && find_pending(old(self)@.pending, box_id, 0) < 0,
                _ => false,
            },
            results@.len() == 1 && !verified_by(results@[0]) ==> final(self)@ == complete_effect(old(self)@, box_id, false).0
                && match r {
                Ok(VerificationStep::Reverted) => complete_effect(old(self)@, box_id, false).1 is Ok,
                Err(e) => complete_effect(old(self)@, box_id, false).1 == Err::<SettlementModel, _>(e),
                _ => false,
            },
    {
        if results.len() != 1 {
            return Err(ClaimError::UnexpectedResultCount);
        }
        if is_verified(&results[0]) {
            match self.pending_claim(box_id) {
                Some(c) => Ok(VerificationStep::Transfer(c)),
                None => Err(ClaimError::UnknownClaim),
            }
        } else {
            match self.complete_claim(box_id, false) {
                Ok(_) => Ok(VerificationStep::Reverted),
                Err(e) => Err(e),
            }
        }
    }

    /// Callback of the transfer of a claim in flight. It must observe exactly
    /// one outside result; its success settles the claim and its failure
    /// compensates it.
    pub fn on_transfer(&mut self, box_id: u128, results: &Vec<PromiseOutcome>) -> (r: Result<Settlement, ClaimError>)
        requires
            old(self)@.wf(),
        ensures
            final(self)@.wf(),
            results@.len() != 1 ==> r == Err::<Settlement, _>(ClaimError::UnexpectedResultCount) && final(self)@ == old(self)@,
            results@.len() == 1 ==> (final(self)@, settlement_view(r)) == complete_effect(
                old(self)@,
                box_id,
                results@[0] is Successful,
            ),
    {
        if results.len() != 1 {
            return Err(ClaimError::UnexpectedResultCount);
        }
        let success = match &results[0] {
            PromiseOutcome::Successful(_) => true,
            PromiseOutcome::Failed => false,
        };
        self.complete_claim(box_id, success)
    }

    /// Indices of all pools of `rarity`, in id order.
    fn rarity_indices(&self, rarity: BoxRarity) -> (r: Vec<usize>)
        ensures
            r@.map_values(|i: usize| i as int) == self@.pools_of_rarity(rarity),
    {
        let mut ids: Vec<usize> = Vec::new();
        let mut i: usize = 0;
        while i < self.pools.len()
            invariant
                i <= self.pools@.len(),
                ids@.map_values(|x: usize| x as int) == rarity_pools_upto(self@.pools, rarity, i as int),
            decreases self.pools@.len() - i,
        {
            let ghost before = ids@;
            assert(self@.pools[i as int] == self.pools@[i as int]@);
            if self.pools[i].rarity == rarity {
                ids.push(i);
                assert(ids@.map_values(|x: usize| x as int) =~= before.map_values(|x: usize| x as int).push(i as int));
            }
            i = i + 1;
        }
        ids
    }

    /// The listing of the pools at `ids`, one page of it.
    fn pools_page(&self, ids: &Vec<usize>, pagination: &Pagination) -> (r: Vec<JsonPoolRewards>)
        requires
            pagination.page >= 1,
            forall|k: int| 0 <= k < ids@.len() ==> (#[trigger] ids@[k]) < self@.pools.len(),
        ensures
            r@.map_values(|j: JsonPoolRewards| j@) == page_of(
                ids@.map_values(|i: usize| pool_rewards(self@.pools[i as int])),
                pagination.size * (pagination.page - 1),
                pagination.size as int,
            ),
    {
        let ghost all = ids@.map_values(|i: usize| pool_rewards(self@.pools[i as int]));
        let (lo, hi) = pagination.bounds(ids.len());
        let mut out: Vec<JsonPoolRewards> = Vec::new();
        let mut k: usize = lo;
        while k < hi
            invariant
                lo <= k <= hi <= ids@.len(),
                forall|m: int| 0 <= m < ids@.len() ==> (#[trigger] ids@[m]) < self@.pools.len(),
                all == ids@.map_values(|i: usize| pool_rewards(self@.pools[i as int])),
                out@.map_values(|j: JsonPoolRewards| j@) == all.subrange(lo as int, k as int),
            decreases hi - k,
        {
            let p = ids[k];
            assert(self@.pools[p as int] == self.pools@[p as int]@);
            let ghost before = out@;
            let j = self.pools[p].to_json();
            assert(all[k as int] == j@);
            out.push(j);
            assert(out@.map_values(|j: JsonPoolRewards| j@) =~= before.map_values(|j: JsonPoolRewards| j@).push(j@));
            assert(out@.map_values(|j: JsonPoolRewards| j@) =~= all.subrange(lo as int, k as int + 1));
            k = k + 1;
        }
        out
    }

    /// One page of the pools of a rarity that still offer a unit, in id order.
    pub fn available_rewards(&self, rarity: BoxRarity, pagination: &Pagination) -> (r: Result<Vec<JsonPoolRewards>, PaginationError>)
        requires
            self@.wf(),
        ensures
            r is Err <==> pagination.assert_valid_spec() is Err,
            r is Err ==> r->Err_0 == pagination.assert_valid_spec()->Err_0,
            r is Ok ==> r->Ok_0@.map_values(|j: JsonPoolRewards| j@) == page_of(
                self@.candidates(rarity).map_values(|i: int| pool_rewards(self@.pools[i])),
                pagination.size * (pagination.page - 1),
                pagination.size as int,
            ),
    {
        match pagination.assert_valid() {
            Err(e) => {
                return Err(e);
            },
            Ok(()) => {},
        }
        let ids = self.candidate_indices(rarity);
        proof {
            lemma_candidates(self@.pools, rarity, self@.pools.len() as int);
            assert forall|k: int| 0 <= k < ids@.len() implies (#[trigger] ids@[k]) < self@.pools.len() by {
                assert(ids@.map_values(|i: usize| i as int)[k] == ids@[k] as int);
            }
            assert(ids@.map_values(|i: usize| pool_rewards(self@.pools[i as int])) =~= self@.candidates(rarity).map_values(
                |i: int| pool_rewards(self@.pools[i]),
            ));
        }
        Ok(self.pools_page(&ids, pagination))
    }

    /// One page of all the pools of a rarity, in id order.
    pub fn rewards(&self, rarity: BoxRarity, pagination: &Pagination) -> (r: Result<Vec<JsonPoolRewards>, PaginationError>)
        ensures
            r is Err <==> pagination.assert_valid_spec() is Err,
            r is Err ==> r->Err_0 == pagination.assert_valid_spec()->Err_0,
            r is Ok ==> r->Ok_0@.map_values(|j: JsonPoolRewards| j@) == page_of(
                self@.pools_of_rarity(rarity).map_values(|i: int| pool_rewards(self@.pools[i])),
                pagination.size * (pagination.page - 1),
                pagination.size as int,
            ),
    {
        match pagination.assert_valid() {
            Err(e) => {
                return Err(e);
            },
            Ok(()) => {},
        }
        let ids = self.rarity_indices(rarity);
        proof {
            lemma_rarity_pools(self@.pools, rarity, self@.pools.len() as int);
            assert forall|k: int| 0 <= k < ids@.len() implies (#[trigger] ids@[k]) < self@.pools.len() by {
                assert(ids@.map_values(|i: usize| i as int)[k] == ids@[k] as int);
            }
            assert(ids@.map_values(|i: usize| pool_rewards(self@.pools[i as int])) =~= self@.pools_of_rarity(rarity).map_values(
                |i: int| pool_rewards(self@.pools[i]),
            ));
        }
        Ok(self.pools_page(&ids, pagination))
    }

    /// One page of the accounts that were given boxes, in order of their
    /// first box.
    pub fn users(&self, pagination: &Pagination) -> (r: Result<Vec<String>, PaginationError>)
        ensures
            r is Err <==> pagination.assert_valid_spec() is Err,
            r is Err ==> r->Err_0 == pagination.assert_valid_spec()->Err_0,
            r is Ok ==> string_seq_view(r->Ok_0@) == page_of(
                self@.users,
                pagination.size * (pagination.page - 1),
                pagination.size as int,
            ),
    {
        match pagination.assert_valid() {
            Err(e) => {
                return Err(e);
            },
            Ok(()) => {},
        }
        let (lo, hi) = pagination.bounds(self.users.len());
        let mut out: Vec<String> = Vec::new();
        let mut k: usize = lo;
        while k < hi
            invariant
                lo <= k <= hi <= self.users@.len(),
                string_seq_view(out@) == self@.users.subrange(lo as int, k as int),
            decreases hi - k,
        {
            let ghost before = out@;
            let u = self.users[k].clone();
            assert(self@.users[k as int] == u@);
            out.push(u);
            assert(string_seq_view(out@) =~= string_seq_view(before).push(u@));
            assert(string_seq_view(out@) =~= self@.users.subrange(lo as int, k as int + 1));
            k = k + 1;
        }
        Ok(out)
    }

    /// The boxes of `account`, in id order.
    pub fn boxes_of(&self, account: &String) -> (r: Vec<QuestBox>)
        ensures
            r@.map_values(|b: QuestBox| b@) == owned_boxes(self@.boxes, account@),
    {
        let mut out: Vec<QuestBox> = Vec::new();
        let mut i: usize = 0;
        while i < self.boxes.len()
            invariant
                i <= self.boxes@.len(),
                out@.map_values(|b: QuestBox| b@) == owned_boxes(self@.boxes.take(i as int), account@),
            decreases self.boxes@.len() - i,
        {
            let ghost before = out@;
            assert(self@.boxes.take(i as int + 1).drop_last() =~= self@.boxes.take(i as int));
            assert(self@.boxes[i as int] == box_opt_view(self.boxes@[i as int]));
            match &self.boxes[i] {
                Some(b) => {
                    if b.owner_id == *account {
                        let c = b.duplicate();
                        out.push(c);
                        assert(out@.map_values(|b: QuestBox| b@) =~= before.map_values(|b: QuestBox| b@).push(c@));
                    }
                },
                None => {},
            }
            i = i + 1;
        }
        assert(self@.boxes.take(self@.boxes.len() as int) =~= self@.boxes);
        out
    }
}

/// Whether `ids[k]` already occurs before position `k`.
fn appears_before(ids: &Vec<u128>, k: usize) -> (r: bool)
    requires
        k < ids@.len(),
    ensures
        r <==> exists|j: int| 0 <= j < k && ids@[j] == ids@[k as int],
{
    let mut j: usize = 0;
    while j < k
        invariant
            j <= k < ids@.len(),
            forall|m: int| 0 <= m < j ==> ids@[m] != ids@[k as int],
        decreases k - j,
    {
        if ids[j] == ids[k] {
            return true;
        }
        j = j + 1;
    }
    false
}

} // verus!
