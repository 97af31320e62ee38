use vstd::prelude::*;

use crate::model::{BoxModel, StatusModel};
use crate::pools::{Pool, PoolKind, PoolKindModel, PoolModel};
use crate::quest::{BoxStatus, QuestBox};
use crate::types::{rarity_media, string_seq_view, BoxRarity, Reward, RewardModel};

verus! {

/// A copy of a vector of strings.
pub fn clone_strings(v: &Vec<String>) -> (r: Vec<String>)
    ensures
        string_seq_view(r@) == string_seq_view(v@),
{
    let mut r: Vec<String> = Vec::new();
    let mut i: usize = 0;
    while i < v.len()
        invariant
            i <= v@.len(),
            string_seq_view(r@) == string_seq_view(v@.take(i as int)),
        decreases v@.len() - i,
    {
        let ghost before = r@;
        r.push(v[i].clone());
        assert(v@.take(i as int + 1) =~= v@.take(i as int).push(v@[i as int]));
        assert(string_seq_view(r@) =~= string_seq_view(before).push(v@[i as int]@));
        assert(string_seq_view(v@.take(i as int + 1)) =~= string_seq_view(v@.take(i as int)).push(v@[i as int]@));
        i = i + 1;
    }
    assert(v@.take(v@.len() as int) =~= v@);
    r
}

/// What a listing shows of a pool.
#[derive(Clone, Debug, PartialEq, Eq)]
pub enum JsonPoolRewards {
    Near { amount: u128, available: u64, total: u64 },
    NonFungibleToken { contract_id: String, token_ids: Vec<String>, total: u64 },
}

pub enum PoolRewardsModel {
    Near { amount: u128, available: u64, total: u64 },
    NonFungibleToken { contract: Seq<char>, token_ids: Seq<Seq<char>>, total: nat },
}

impl View for JsonPoolRewards {
    type V = PoolRewardsModel;

    open spec fn view(&self) -> PoolRewardsModel {
        match self {
            JsonPoolRewards::Near { amount, available, total } => PoolRewardsModel::Near {
                amount: *amount,
                available: *available,
                total: *total,
            },
            JsonPoolRewards::NonFungibleToken { contract_id, token_ids, total } => PoolRewardsModel::NonFungibleToken {
                contract: contract_id@,
                token_ids: string_seq_view(token_ids@),
                total: *total as nat,
            },
        }
    }
}

/// An amount pool shows its unit amount, what is left and its capacity; a
/// token pool its contract, the tokens it offers and how many it was given.
pub open spec fn pool_rewards(p: PoolModel) -> PoolRewardsModel {
    match p.kind {
        PoolKindModel::Amount { amount, capacity, available } => PoolRewardsModel::Near {
            amount,
            available,
            total: capacity,
        },
        PoolKindModel::Tokens { contract, tokens, available } => PoolRewardsModel::NonFungibleToken {
            contract,
            token_ids: available,
            total: tokens.len(),
        },
    }
}

impl Pool {
    pub fn to_json(&self) -> (r: JsonPoolRewards)
        ensures
            r@ == pool_rewards(self@),
    {
        match &self.kind {
            PoolKind::Near(k) => JsonPoolRewards::Near { amount: k.amount, available: k.available, total: k.capacity },
            PoolKind::NonFungibleToken(k) => JsonPoolRewards::NonFungibleToken {
                contract_id: k.contract_id.clone(),
                token_ids: clone_strings(&k.available_tokens),
                total: k.tokens.len() as u64,
            },
        }
    }
}

/// A reward as a listing shows it; `Nothing` for a box settled without one.
#[derive(Clone, Debug, PartialEq, Eq)]
pub enum JsonReward {
    Near { amount: u128 },
    NonFungibleToken { contract_id: String, token_id: String },
    Nothing,
}

pub open spec fn json_reward_view(r: JsonReward) -> Option<RewardModel> {
    match r {
        JsonReward::Near { amount } => Some(RewardModel::Amount { amount }),
        JsonReward::NonFungibleToken { contract_id, token_id } => Some(
            RewardModel::Token { contract: contract_id@, token: token_id@ },
        ),
        JsonReward::Nothing => None,
    }
}

impl JsonReward {
    pub fn from_reward(reward: &Option<Reward>) -> (r: JsonReward)
        ensures
            json_reward_view(r) == match reward {
                Some(w) => Some(w@),
                None => None,
            },
    {
        match reward {
            Some(Reward::Near { amount }) => JsonReward::Near { amount: *amount },
            Some(Reward::NonFungibleToken { contract_id, token_id }) => JsonReward::NonFungibleToken {
                contract_id: contract_id.clone(),
                token_id: token_id.clone(),
            },
            None => JsonReward::Nothing,
        }
    }
}

#[derive(Clone, Debug, PartialEq, Eq)]
pub enum JsonBoxStatus {
    Claimed { reward: JsonReward },
    NonClaimed,
}

pub open spec fn json_status_view(s: JsonBoxStatus) -> StatusModel {
    match s {
        JsonBoxStatus::Claimed { reward } => StatusModel::Claimed { reward: json_reward_view(reward) },
        JsonBoxStatus::NonClaimed => StatusModel::NonClaimed,
    }
}

impl JsonBoxStatus {
    pub fn from_status(status: &BoxStatus) -> (r: JsonBoxStatus)
        ensures
            json_status_view(r) == crate::quest::status_view(*status),
    {
        match status {
            BoxStatus::Claimed { reward } => JsonBoxStatus::Claimed { reward: JsonReward::from_reward(reward) },
            BoxStatus::NonClaimed => JsonBoxStatus::NonClaimed,
        }
    }
}

/// What a listing shows of a box.
#[derive(Clone, Debug)]
pub struct JsonBox {
    pub quest_id: u64,
    pub box_id: u128,
    pub box_rarity: BoxRarity,
    pub box_status: JsonBoxStatus,
    pub ipfs: String,
}

/// A box as a listing shows it: the box itself and its artwork.
pub open spec fn json_box_matches(j: JsonBox, b: BoxModel) -> bool {
    &&& j.quest_id == b.quest_id
    &&& j.box_id == b.box_id
    &&& j.box_rarity == b.rarity
    &&& json_status_view(j.box_status) == b.status
    &&& j.ipfs@ == rarity_media(b.rarity)
}

impl JsonBox {
    pub fn new(quest_id: u64, box_id: u128, box_rarity: BoxRarity, box_status: JsonBoxStatus) -> (r: JsonBox)
        ensures
            r.quest_id == quest_id,
            r.box_id == box_id,
            r.box_rarity == box_rarity,
            r.box_status == box_status,
            r.ipfs@ == rarity_media(box_rarity),
    {
        let ipfs = box_rarity.to_media_ipfs();
        JsonBox { quest_id, box_id, box_rarity, box_status, ipfs }
    }

    pub fn from_box(b: &QuestBox) -> (r: JsonBox)
        ensures
            json_box_matches(r, b@),
    {
        JsonBox::new(b.quest_id, b.box_id, b.box_rarity, JsonBoxStatus::from_status(&b.box_status))
    }
}

/// What a listing shows of a quest.
#[derive(Clone, Debug)]
pub struct JsonQuest {
    pub quest_id: u64,
    pub title: String,
}

impl JsonQuest {
    pub fn new(quest_id: u64, title: String) -> (r: JsonQuest)
        ensures
            r.quest_id == quest_id,
            r.title@ == title@,
    {
        JsonQuest { quest_id, title }
    }
}

/// A quest as its owner's index names it.
#[derive(Clone, Debug)]
pub struct QuestData {
    pub title: String,
    pub quest_id: u64,
    pub owner_id: String,
}

impl QuestData {
    pub fn new(quest_id: u64, title: String, owner_id: String) -> (r: QuestData)
        ensures
            r.quest_id == quest_id,
            r.title@ == title@,
            r.owner_id@ == owner_id@,
    {
        QuestData { quest_id, title, owner_id }
    }
}

/// The message that comes with a token sent to the contract: which quest it
/// is for and which rarity it rewards.
#[derive(Clone, Copy, Debug, PartialEq, Eq, Structural)]
pub struct NftOnTransferMessage {
    pub rarity: BoxRarity,
    pub quest_id: u64,
}

/// A box of a quest, as an owner's index names it.
#[derive(Clone, Copy, Debug, PartialEq, Eq, Structural)]
pub struct QuestBoxData {
    pub box_id: u128,
    pub quest_id: u64,
}

impl QuestBoxData {
    pub fn new(quest_id: u64, box_id: u128) -> (r: QuestBoxData)
        ensures
            r == (QuestBoxData { box_id, quest_id }),
    {
        QuestBoxData { quest_id, box_id }
    }
}

/// Page number `page` (from 1) of pages of `size` items.
#[derive(Clone, Copy, Debug, PartialEq, Eq, Structural)]
pub struct Pagination {
    pub page: u8,
    pub size: u8,
}

/// Largest page a listing serves.
pub const MAX_PAGE_SIZE: u8 = 50;

#[derive(Clone, Copy, Debug, PartialEq, Eq, Structural)]
pub enum PaginationError {
    /// More than fifty items per page.
    PageTooLarge,
    /// Pages count from one.
    ZeroPage,
}

impl Default for Pagination {
    fn default() -> (r: Pagination)
        ensures
            r == (Pagination { page: 1, size: 10 }),
    {
        Pagination { page: 1, size: 10 }
    }
}

/// The items of `s` from position `skip` on, at most `take` of them.
pub open spec fn page_of<T>(s: Seq<T>, skip: int, take: int) -> Seq<T> {
    let lo = if skip < s.len() { skip } else { s.len() as int };
    let hi = if skip + take < s.len() { skip + take } else { s.len() as int };
    s.subrange(lo, hi)
}

impl Pagination {
    pub open spec fn assert_valid_spec(&self) -> Result<(), PaginationError> {
        if self.size > 50 {
            Err(PaginationError::PageTooLarge)
        } else if self.page == 0 {
            Err(PaginationError::ZeroPage)
        } else {
            Ok(())
        }
    }

    /// Refuses pages of more than fifty items, then page zero.
    pub fn assert_valid(&self) -> (r: Result<(), PaginationError>)
        ensures
            self.size > 50 ==> r == Err::<(), _>(PaginationError::PageTooLarge),
            self.size <= 50 && self.page == 0 ==> r == Err::<(), _>(PaginationError::ZeroPage),
            r is Ok <==> self.size <= 50 && self.page >= 1,
            r == self.assert_valid_spec(),
    {
        if self.size > MAX_PAGE_SIZE {
            Err(PaginationError::PageTooLarge)
        } else if self.page == 0 {
            Err(PaginationError::ZeroPage)
        } else {
            Ok(())
        }
    }

    /// Items per page.
    pub fn take(&self) -> (r: usize)
        ensures
            r == self.size,
    {
        self.size as usize
    }

    /// Items before the page.
    pub fn skip(&self) -> (r: usize)
        requires
            self.page >= 1,
        ensures
            r == self.size * (self.page - 1),
            r <= 255 * 255,
    {
        let s = self.size as usize;
        let p = (self.page - 1) as usize;
        assert(s * p <= 255 * 255) by (nonlinear_arith)
            requires
                s <= 255,
                p <= 255,
        ;
        s * p
    }

    /// Bounds `[lo, hi)` of the page within `len` items.
    pub fn bounds(&self, len: usize) -> (r: (usize, usize))
        requires
            self.page >= 1,
        ensures
            r.0 <= r.1 <= len,
            r.0 == if self.size * (self.page - 1) < len { self.size * (self.page - 1) } else { len as int },
            r.1 == if self.size * (self.page - 1) + self.size < len { self.size * (self.page - 1) + self.size } else { len as int },
    {
        let skip = self.skip();
        let take = self.take();
        let lo = if skip < len { skip } else { len };
        let hi = if skip + take < len { skip + take } else { len };
        (lo, hi)
    }
}

} // verus!
