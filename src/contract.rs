use vstd::prelude::*;

use crate::json::{
    json_box_matches, page_of, pool_rewards, JsonBox, JsonPoolRewards, JsonQuest, NftOnTransferMessage,
    Pagination, PaginationError,
};
use crate::model::{
    claim_effect, complete_effect, owned_boxes, with_user, BoxModel, ClaimError, QuestError, QuestModel,
    StatusModel,
};
use crate::network::{get_trusted_nft_contracts, Network};
use crate::quest::{
    claim_result_view, settlement_view, ClaimOutcome, Quest, Settlement, VerificationStep,
};
use crate::randomness::{get_random_number, seed_number};
use crate::types::{string_seq_view, contains_string, BoxRarity, Probability};
use crate::verification::{verified_by, PromiseOutcome};

verus! {

/// Why an operation of the contract was refused. Nothing changes when one of
/// these is returned.
#[derive(Clone, Copy, Debug, PartialEq, Eq, Structural)]
pub enum ContractError {
    QuestNotFound,
    EmptyTitle,
    /// Only the contract account itself may change the trusted contracts.
    Forbidden,
    AlreadyTrusted,
    NotTrusted,
    /// A token came from a contract that is not trusted.
    NftContractNotTrusted,
    NoAccounts,
    /// The random seed is shorter than the two 8-byte windows a claim reads.
    SeedTooShort,
    Quest(QuestError),
    Claim(ClaimError),
    Pagination(PaginationError),
}

/// All quests, indexed by quest id, and the token contracts whose tokens
/// are taken in.
pub struct ContractModel {
    pub quests: Seq<QuestModel>,
    pub trusted: Seq<Seq<char>>,
}

impl ContractModel {
    pub open spec fn wf(self) -> bool {
        forall|i: int| 0 <= i < self.quests.len() ==> (#[trigger] self.quests[i]).wf() && self.quests[i].id == i
    }

    pub open spec fn has_quest(self, quest_id: u64) -> bool {
        quest_id < self.quests.len()
    }
}

/// Where a claim's chance byte is read in the seed: its own window, apart from
/// the one the selection uses.
pub const CHANCE_SHIFT: usize = 8;

/// Bytes a claim's seed needs: the selection window and, after it, the
/// chance byte's window.
pub const MIN_SEED_LEN: usize = 16;

/// The chance byte drawn from a seed: the low byte of the window at 8.
pub open spec fn seed_chance_byte(seed: Seq<u8>) -> u8 {
    (seed_number(seed, 8) % 256) as u8
}

/// The selection number drawn from a seed: the window at 0.
pub open spec fn seed_selection(seed: Seq<u8>) -> u64 {
    seed_number(seed, 0) as u64
}

/// The boxes of `account` over all quests, quest after quest.
pub open spec fn owned_boxes_all(quests: Seq<QuestModel>, account: Seq<char>) -> Seq<BoxModel>
    decreases quests.len(),
{
    if quests.len() == 0 {
        Seq::empty()
    } else {
        owned_boxes_all(quests.drop_last(), account) + owned_boxes(quests.last().boxes, account)
    }
}

/// The users after each of `accounts`, in order, received a box.
pub open spec fn with_users(users: Seq<Seq<char>>, accounts: Seq<Seq<char>>) -> Seq<Seq<char>>
    decreases accounts.len(),
{
    if accounts.len() == 0 {
        users
    } else {
        with_user(with_users(users, accounts.drop_last()), accounts.last())
    }
}

/// The quests of `account`, in id order.
pub open spec fn owned_quests(quests: Seq<QuestModel>, account: Seq<char>) -> Seq<QuestModel>
    decreases quests.len(),
{
    if quests.len() == 0 {
        Seq::empty()
    } else {
        let rest = owned_quests(quests.drop_last(), account);
        if quests.last().owner == account {
            rest.push(quests.last())
        } else {
            rest
        }
    }
}

/// The result of a claim operation, with the contract's wrapping removed.
pub open spec fn claim_result<T>(r: Result<T, ContractError>) -> Result<T, ClaimError> {
    match r {
        Ok(x) => Ok(x),
        Err(ContractError::Claim(e)) => Err(e),
        Err(_) => Err(ClaimError::UnknownClaim),
    }
}

pub struct Contract {
    quests: Vec<Quest>,
    trusted_nft_contracts: Vec<String>,
}

impl View for Contract {
    type V = ContractModel;

    closed spec fn view(&self) -> ContractModel {
        ContractModel {
            quests: self.quests@.map_values(|q: Quest| q@),
            trusted: string_seq_view(self.trusted_nft_contracts@),
        }
    }
}

impl Contract {
    /// A contract with no quest that trusts the default token contracts of
    /// its network.
    pub fn new(network: Network) -> (r: Contract)
        ensures
            r@.wf(),
            r@.quests.len() == 0,
            r@.trusted == crate::network::default_trusted(network),
    {
        let r = Contract { quests: Vec::new(), trusted_nft_contracts: get_trusted_nft_contracts(network) };
        assert(r@.quests =~= Seq::<QuestModel>::empty());
        r
    }

    pub fn quest_count(&self) -> (r: usize)
        ensures
            r == self@.quests.len(),
    {
        self.quests.len()
    }

    fn quest_index(&self, quest_id: u64) -> (r: Result<usize, ContractError>)
        ensures
            r is Ok <==> self@.has_quest(quest_id),
            r is Ok ==> r->Ok_0 == quest_id,
            r is Err ==> r == Err::<usize, _>(ContractError::QuestNotFound),
    {
        if quest_id < self.quests.len() as u64 {
            Ok(quest_id as usize)
        } else {
            Err(ContractError::QuestNotFound)
        }
    }

    /// Adds a token contract to the trusted ones; only the contract account
    /// (`caller == current_account`) may, and only once per contract.
    pub fn trust_nft_contract(&mut self, caller: &String, current_account: &String, contract_id: String) -> (r: Result<(), ContractError>)
        requires
            old(self)@.wf(),
        ensures
            final(self)@.wf(),
            caller@ != current_account@ ==> r == Err::<(), _>(ContractError::Forbidden),
            caller@ == current_account@ && old(self)@.trusted.contains(contract_id@) ==> r == Err::<(), _>(
                ContractError::AlreadyTrusted,
            ),
            r is Err ==> final(self)@ == old(self)@,
            r is Ok <==> caller@ == current_account@ && !old(self)@.trusted.contains(contract_id@),
            r is Ok ==> final(self)@ == (ContractModel { trusted: old(self)@.trusted.push(contract_id@), ..old(self)@ }),
    {
        if !(*caller == *current_account) {
            return Err(ContractError::Forbidden);
        }
        if contains_string(&self.trusted_nft_contracts, &contract_id) {
            return Err(ContractError::AlreadyTrusted);
        }
        let ghost before = self@;
        self.trusted_nft_contracts.push(contract_id);
        assert(self@.trusted =~= before.trusted.push(contract_id@));
        Ok(())
    }

    /// Removes a trusted token contract; only the contract account may, and
    /// only a contract that is trusted.
    pub fn untrust_nft_contract(&mut self, caller: &String, current_account: &String, contract_id: &String) -> (r: Result<(), ContractError>)
        requires
            old(self)@.wf(),
        ensures
            final(self)@.wf(),
            caller@ != current_account@ ==> r == Err::<(), _>(ContractError::Forbidden),
            caller@ == current_account@ && !old(self)@.trusted.contains(contract_id@) ==> r == Err::<(), _>(
                ContractError::NotTrusted,
            ),
            r is Err ==> final(self)@ == old(self)@,
            r is Ok <==> caller@ == current_account@ && old(self)@.trusted.contains(contract_id@),
            r is Ok ==> final(self)@ == (ContractModel {
                trusted: old(self)@.trusted.filter(|c: Seq<char>| c != contract_id@),
                ..old(self)@
            }),
    {
        if !(*caller == *current_account) {
            return Err(ContractError::Forbidden);
        }
        let ghost before = self@;
        let mut kept: Vec<String> = Vec::new();
        let mut found = false;
        proof {
            reveal(Seq::filter);
            assert(before.trusted.take(0) =~= Seq::<Seq<char>>::empty());
            assert(string_seq_view(kept@) =~= Seq::<Seq<char>>::empty());
        }
        let mut i: usize = 0;
        while i < self.trusted_nft_contracts.len()
            invariant
                self@ == before,
                i <= before.trusted.len(),
                found <==> before.trusted.take(i as int).contains(contract_id@),
                string_seq_view(kept@) == before.trusted.take(i as int).filter(|c: Seq<char>| c != contract_id@),
            decreases before.trusted.len() - i,
        {
            let ghost kv = string_seq_view(kept@);
            assert(before.trusted.take(i as int + 1) =~= before.trusted.take(i as int).push(before.trusted[i as int]));
            proof {
                crate::types::lemma_contains_push(before.trusted.take(i as int), before.trusted[i as int]);
                reveal(Seq::filter);
                assert(before.trusted.take(i as int + 1).drop_last() =~= before.trusted.take(i as int));
            }
            let t = &self.trusted_nft_contracts[i];
            assert(t@ == before.trusted[i as int]);
            if *t == *contract_id {
                found = true;
            } else {
                kept.push(t.clone());
                assert(string_seq_view(kept@) =~= kv.push(t@));
            }
            i = i + 1;
        }
        assert(before.trusted.take(before.trusted.len() as int) =~= before.trusted);
        if !found {
            return Err(ContractError::NotTrusted);
        }
        self.trusted_nft_contracts = kept;
        assert(self@.trusted == before.trusted.filter(|c: Seq<char>| c != contract_id@));
        assert(self@.quests == before.quests);
        Ok(())
    }

    pub fn get_trusted_nft_contracts(&self) -> (r: Vec<String>)
        ensures
            string_seq_view(r@) == self@.trusted,
    {
        crate::json::clone_strings(&self.trusted_nft_contracts)
    }

    /// Creates a quest owned by the caller and returns its id, the number of
    /// quests before it. The title must not be empty.
    pub fn create_quest(&mut self, caller: &String, title: &String) -> (r: Result<u64, ContractError>)
        requires
            old(self)@.wf(),
        ensures
            final(self)@.wf(),
            r is Ok <==> title@.len() > 0,
            r is Err ==> r == Err::<u64, _>(ContractError::EmptyTitle) && final(self)@ == old(self)@,
            r is Ok ==> r->Ok_0 == old(self)@.quests.len() && final(self)@.trusted == old(self)@.trusted
                && final(self)@.quests.len() == old(self)@.quests.len() + 1
                && final(self)@.quests.drop_last() == old(self)@.quests && ({
                    let q = final(self)@.quests.last();
                    &&& q.id == r->Ok_0
                    &&& q.title == title@
                    &&& q.owner == caller@
                    &&& q.pools.len() == 0
                    &&& q.boxes.len() == 0
                    &&& q.pending.len() == 0
                    &&& q.users.len() == 0
                    &&& q.probabilities == seq![None::<Probability>, None, None]
                }),
    {
        if title.as_str().is_empty() {
            return Err(ContractError::EmptyTitle);
        }
        let ghost before = self@;
        let id = self.quests.len() as u64;
        let q = Quest::new(id, title.clone(), caller.clone());
        self.quests.push(q);
        assert(self@.quests =~= before.quests.push(q@));
        assert(self@.quests.drop_last() =~= before.quests);
        Ok(id)
    }

    /// The quest with this id.
    pub fn quest(&self, quest_id: u64) -> (r: Result<&Quest, ContractError>)
        ensures
            r is Ok <==> self@.has_quest(quest_id),
            r is Ok ==> r->Ok_0@ == self@.quests[quest_id as int],
            r is Err ==> r == Err::<&Quest, _>(ContractError::QuestNotFound),
    {
        let i = self.quest_index(quest_id)?;
        Ok(&self.quests[i])
    }

    /// Runs on quest `i`; the other quests and the trusted contracts stay.
    proof fn lemma_update_quest(before: ContractModel, after: ContractModel, i: int)
        requires
            before.wf(),
            0 <= i < before.quests.len(),
            after.trusted == before.trusted,
            after.quests == before.quests.update(i, after.quests[i]),
            after.quests[i].wf(),
            after.quests[i].id == before.quests[i].id,
        ensures
            after.wf(),
    {
        assert forall|j: int| 0 <= j < after.quests.len() implies (#[trigger] after.quests[j]).wf() && after.quests[j].id == j by {
            if j != i {
                assert(after.quests[j] == before.quests[j]);
            }
        }
    }

    /// Sets the probability of a rarity in a quest (see `Quest::set_probability`).
    pub fn set_probability(&mut self, quest_id: u64, caller: &String, rarity: BoxRarity, probability: Probability) -> (r: Result<(), ContractError>)
        requires
            old(self)@.wf(),
        ensures
            final(self)@.wf(),
            !old(self)@.has_quest(quest_id) ==> r == Err::<(), _>(ContractError::QuestNotFound) && final(self)@ == old(self)@,
            old(self)@.has_quest(quest_id) ==> ({
                let q = old(self)@.quests[quest_id as int];
                &&& r is Ok <==> crate::types::probability_valid(probability) && caller@ == q.owner
                &&& r is Err ==> final(self)@ == old(self)@
                &&& r is Ok ==> final(self)@ == (ContractModel {
                    quests: old(self)@.quests.update(quest_id as int, QuestModel {
                        probabilities: q.probabilities.update(crate::types::rarity_index(rarity), Some(probability)),
                        ..q
                    }),
                    ..old(self)@
                })
            }),
    {
        let i = self.quest_index(quest_id)?;
        let ghost before = self@;
        assert(before.quests[i as int] == self.quests@[i as int]@);
        let res = self.quests[i].set_probability(caller, rarity, probability);
        assert(self@.quests =~= before.quests.update(i as int, self.quests@[i as int]@));
        proof {
            Self::lemma_update_quest(before, self@, i as int);
        }
        proof {
            if res is Err {
                assert(self@.quests =~= before.quests);
            }
        }
        match res {
            Ok(()) => Ok(()),
            Err(e) => Err(ContractError::Quest(e)),
        }
    }

    /// Hands a quest to a new owner; only its owner may.
    pub fn set_owner(&mut self, quest_id: u64, caller: &String, new_owner_id: String) -> (r: Result<(), ContractError>)
        requires
            old(self)@.wf(),
        ensures
            final(self)@.wf(),
            !old(self)@.has_quest(quest_id) ==> r == Err::<(), _>(ContractError::QuestNotFound) && final(self)@ == old(self)@,
            old(self)@.has_quest(quest_id) ==> ({
                let q = old(self)@.quests[quest_id as int];
                &&& r is Ok <==> caller@ == q.owner
                &&& r is Err ==> r == Err::<(), _>(ContractError::Quest(QuestError::Forbidden)) && final(self)@ == old(self)@
                &&& r is Ok ==> final(self)@ == (ContractModel {
                    quests: old(self)@.quests.update(quest_id as int, QuestModel { owner: new_owner_id@, ..q }),
                    ..old(self)@
                })
            }),
    {
        let i = self.quest_index(quest_id)?;
        let ghost before = self@;
        assert(before.quests[i as int] == self.quests@[i as int]@);
        let res = self.quests[i].set_owner(caller, new_owner_id);
        assert(self@.quests =~= before.quests.update(i as int, self.quests@[i as int]@));
        proof {
            Self::lemma_update_quest(before, self@, i as int);
        }
        proof {
            if res is Err {
                assert(self@.quests =~= before.quests);
            }
        }
        match res {
            Ok(()) => Ok(()),
            Err(e) => Err(ContractError::Quest(e)),
        }
    }

    /// Adds an amount pool to a quest (see `Quest::add_near_reward`).
    pub fn add_near_reward(&mut self, quest_id: u64, caller: &String, rarity: BoxRarity, amount: u128, capacity: u64) -> (r: Result<u32, ContractError>)
        requires
            old(self)@.wf(),
        ensures
            final(self)@.wf(),
            !old(self)@.has_quest(quest_id) ==> r == Err::<u32, _>(ContractError::QuestNotFound) && final(self)@ == old(self)@,
            old(self)@.has_quest(quest_id) ==> ({
                let q = old(self)@.quests[quest_id as int];
                &&& r is Ok <==> amount >= crate::quest::MINIMAL_NEAR_REWARD && caller@ == q.owner && q.pools.len() < u32::MAX
                &&& amount < crate::quest::MINIMAL_NEAR_REWARD ==> r == Err::<u32, _>(ContractError::Quest(QuestError::AmountTooSmall))
                &&& r is Err ==> final(self)@ == old(self)@
                &&& r is Ok ==> r->Ok_0 == q.pools.len() && final(self)@ == (ContractModel {
                    quests: old(self)@.quests.update(quest_id as int, QuestModel {
                        pools: q.pools.push(crate::pools::PoolModel {
                            id: r->Ok_0,
                            rarity,
                            kind: crate::pools::PoolKindModel::Amount { amount, capacity, available: capacity },
                        }),
                        ..q
                    }),
                    ..old(self)@
                })
            }),
    {
        let i = self.quest_index(quest_id)?;
        let ghost before = self@;
        assert(before.quests[i as int] == self.quests@[i as int]@);
        let res = self.quests[i].add_near_reward(caller, rarity, amount, capacity);
        assert(self@.quests =~= before.quests.update(i as int, self.quests@[i as int]@));
        proof {
            Self::lemma_update_quest(before, self@, i as int);
        }
        proof {
            if res is Err {
                assert(self@.quests =~= before.quests);
            }
        }
        match res {
            Ok(id) => Ok(id),
            Err(e) => Err(ContractError::Quest(e)),
        }
    }

    /// Takes in a token sent to the contract by `nft_contract` (the caller)
    /// with the message that names its quest and rarity. Tokens of untrusted
    /// contracts are refused; see `Quest::nft_on_transfer` for the rest.
    pub fn nft_on_transfer(
        &mut self,
        nft_contract: &String,
        previous_owner_id: &String,
        token_id: String,
        message: NftOnTransferMessage,
    ) -> (r: Result<u32, ContractError>)
        requires
            old(self)@.wf(),
        ensures
            final(self)@.wf(),
            !old(self)@.trusted.contains(nft_contract@) ==> r == Err::<u32, _>(ContractError::NftContractNotTrusted),
            old(self)@.trusted.contains(nft_contract@) && !old(self)@.has_quest(message.quest_id) ==> r == Err::<u32, _>(
                ContractError::QuestNotFound,
            ),
            r is Err ==> final(self)@ == old(self)@,
            r is Ok ==> old(self)@.trusted.contains(nft_contract@) && old(self)@.has_quest(message.quest_id),
            old(self)@.trusted.contains(nft_contract@) && old(self)@.has_quest(message.quest_id) ==> ({
                let q = old(self)@.quests[message.quest_id as int];
                let i = crate::model::find_token_pool(q.pools, nft_contract@, message.rarity, 0);
                &&& r is Ok <==> previous_owner_id@ == q.owner && (i >= 0 ==> !q.pools[i].holds_token(token_id@))
                    && (i < 0 ==> q.pools.len() < u32::MAX)
                &&& previous_owner_id@ != q.owner ==> r == Err::<u32, _>(ContractError::Quest(QuestError::Forbidden))
                &&& previous_owner_id@ == q.owner && i >= 0 && q.pools[i].holds_token(token_id@) ==> r == Err::<u32, _>(
                    ContractError::Quest(QuestError::DuplicateToken),
                )
                &&& previous_owner_id@ == q.owner && i < 0 && q.pools.len() >= u32::MAX ==> r == Err::<u32, _>(
                    ContractError::Quest(QuestError::PoolLimitReached),
                )
                &&& r is Ok && i >= 0 ==> r->Ok_0 == i && final(self)@ == (ContractModel {
                    quests: old(self)@.quests.update(
                        message.quest_id as int,
                        QuestModel { pools: q.pools.update(i, q.pools[i].add_token(token_id@)), ..q },
                    ),
                    ..old(self)@
                })
                &&& r is Ok && i < 0 ==> r->Ok_0 == q.pools.len() && final(self)@ == (ContractModel {
                    quests: old(self)@.quests.update(
                        message.quest_id as int,
                        QuestModel {
                            pools: q.pools.push(crate::pools::PoolModel {
                                id: q.pools.len() as u32,
                                rarity: message.rarity,
                                kind: crate::pools::PoolKindModel::Tokens {
                                    contract: nft_contract@,
                                    tokens: seq![token_id@],
                                    available: seq![token_id@],
                                },
                            }),
                            ..q
                        },
                    ),
                    ..old(self)@
                })
            }),
    {
        if !contains_string(&self.trusted_nft_contracts, nft_contract) {
            return Err(ContractError::NftContractNotTrusted);
        }
        let i = self.quest_index(message.quest_id)?;
        let ghost before = self@;
        assert(before.quests[i as int] == self.quests@[i as int]@);
        proof {
            crate::model::lemma_find_token_pool(before.quests[i as int].pools, nft_contract@, message.rarity, 0);
            assert(before.quests[i as int].wf());
        }
        let res = self.quests[i].nft_on_transfer(nft_contract, previous_owner_id, token_id, message.rarity);
        assert(self@.quests =~= before.quests.update(i as int, self.quests@[i as int]@));
        proof {
            Self::lemma_update_quest(before, self@, i as int);
        }
        proof {
            if res is Err {
                assert(self@.quests =~= before.quests);
            }
        }
        match res {
            Ok(id) => Ok(id),
            Err(e) => Err(ContractError::Quest(e)),
        }
    }

    /// Mints a box in a quest (see `Quest::mint`) and returns its id.
    pub fn mint(&mut self, quest_id: u64, caller: &String, box_owner_id: String, rarity: BoxRarity) -> (r: Result<u128, ContractError>)
        requires
            old(self)@.wf(),
        ensures
            final(self)@.wf(),
            !old(self)@.has_quest(quest_id) ==> r == Err::<u128, _>(ContractError::QuestNotFound) && final(self)@ == old(self)@,
            old(self)@.has_quest(quest_id) ==> ({
                let q = old(self)@.quests[quest_id as int];
                let b = BoxModel {
                    quest_id,
                    box_id: q.boxes.len() as u128,
                    rarity,
                    status: StatusModel::NonClaimed,
                    owner: box_owner_id@,
                };
                &&& r is Ok <==> caller@ == q.owner
                &&& r is Err ==> r == Err::<u128, _>(ContractError::Quest(QuestError::Forbidden)) && final(self)@ == old(self)@
                &&& r is Ok ==> r->Ok_0 == q.boxes.len() as u128 && final(self)@ == (ContractModel {
                    quests: old(self)@.quests.update(quest_id as int, QuestModel {
                        boxes: q.boxes.push(Some(b)),
                        users: with_user(q.users, box_owner_id@),
                        ..q
                    }),
                    ..old(self)@
                })
            }),
    {
        let i = self.quest_index(quest_id)?;
        let ghost before = self@;
        assert(before.quests[i as int] == self.quests@[i as int]@);
        assert(before.quests[i as int].id == quest_id);
        let res = self.quests[i].mint(caller, box_owner_id, rarity);
        assert(self@.quests =~= before.quests.update(i as int, self.quests@[i as int]@));
        proof {
            Self::lemma_update_quest(before, self@, i as int);
            if res is Err {
                assert(self@.quests =~= before.quests);
            }
        }
        match res {
            Ok(b) => Ok(b.box_id),
            Err(e) => Err(ContractError::Quest(e)),
        }
    }

    /// Mints one box of a rarity for each account, in order, and returns
    /// their ids. The list must not be empty; only the quest's owner may.
    pub fn mint_many(&mut self, quest_id: u64, caller: &String, rarity: BoxRarity, accounts: &Vec<String>) -> (r: Result<Vec<u128>, ContractError>)
        requires
            old(self)@.wf(),
        ensures
            final(self)@.wf(),
            accounts@.len() == 0 ==> r == Err::<Vec<u128>, _>(ContractError::NoAccounts),
            r is Err ==> final(self)@ == old(self)@,
            r is Ok <==> accounts@.len() > 0 && old(self)@.has_quest(quest_id) && caller@ == old(self)@.quests[quest_id as int].owner,
            r is Ok ==> ({
                let q = old(self)@.quests[quest_id as int];
                let n = q.boxes.len();
                let owners = string_seq_view(accounts@);
                &&& r->Ok_0@ == Seq::new(accounts@.len(), |k: int| (n + k) as u128)
                &&& final(self)@ == (ContractModel {
                    quests: old(self)@.quests.update(quest_id as int, QuestModel {
                        boxes: q.boxes + Seq::new(accounts@.len(), |k: int| Some(BoxModel {
                            quest_id,
                            box_id: (n + k) as u128,
                            rarity,
                            status: StatusModel::NonClaimed,
                            owner: owners[k],
                        })),
                        users: with_users(q.users, owners),
                        ..q
                    }),
                    ..old(self)@
                })
            }),
    {
        if accounts.len() == 0 {
            return Err(ContractError::NoAccounts);
        }
        let i = self.quest_index(quest_id)?;
        let ghost before = self@;
        let ghost q = before.quests[i as int];
        assert(q == self.quests@[i as int]@);
        assert(q.id == quest_id);
        if !(self.quests[i].owner_id() == *caller) {
            return Err(ContractError::Quest(QuestError::Forbidden));
        }
        let ghost n = q.boxes.len();
        let ghost owners = string_seq_view(accounts@);
        let mut ids: Vec<u128> = Vec::new();
        let mut k: usize = 0;
        while k < accounts.len()
            invariant
                before.wf(),
                q == before.quests[i as int],
                q.id == quest_id,
                n == q.boxes.len(),
                owners == string_seq_view(accounts@),
                caller@ == q.owner,
                i < before.quests.len(),
                k <= accounts@.len(),
                self@.trusted == before.trusted,
                self@.quests.len() == before.quests.len(),
                self@.quests == before.quests.update(i as int, self@.quests[i as int]),
                self@.quests[i as int].wf(),
                self@.quests[i as int] == (QuestModel {
                    boxes: q.boxes + Seq::new(k as nat, |j: int| Some(BoxModel {
                        quest_id,
                        box_id: (n + j) as u128,
                        rarity,
                        status: StatusModel::NonClaimed,
                        owner: owners[j],
                    })),
                    users: with_users(q.users, owners.take(k as int)),
                    ..q
                }),
                ids@ == Seq::new(k as nat, |j: int| (n + j) as u128),
            decreases accounts@.len() - k,
        {
            let ghost cur = self@;
            assert(cur.quests[i as int] == self.quests@[i as int]@);
            let res = self.quests[i].mint(caller, accounts[k].clone(), rarity);
            assert(self@.quests =~= cur.quests.update(i as int, self.quests@[i as int]@));
            let id = match res {
                Ok(b) => b.box_id,
                Err(_) => {
                    assert(false);
                    0
                },
            };
            ids.push(id);
            proof {
                assert(owners.take(k as int + 1).drop_last() =~= owners.take(k as int));
                assert(owners.take(k as int + 1).last() == owners[k as int]);
                assert(self@.quests[i as int].boxes =~= q.boxes + Seq::new(k as nat + 1, |j: int| Some(BoxModel {
                    quest_id,
                    box_id: (n + j) as u128,
                    rarity,
                    status: StatusModel::NonClaimed,
                    owner: owners[j],
                })));
                assert(ids@ =~= Seq::new(k as nat + 1, |j: int| (n + j) as u128));
            }
            k = k + 1;
        }
        proof {
            assert(owners.take(accounts@.len() as int) =~= owners);
            Self::lemma_update_quest(before, self@, i as int);
        }
        Ok(ids)
    }

    /// Deletes unclaimed boxes of a quest (see `Quest::delete_boxes`).
    pub fn delete_boxes(&mut self, quest_id: u64, caller: &String, ids: &Vec<u128>) -> (r: Result<(), ContractError>)
        requires
            old(self)@.wf(),
        ensures
            final(self)@.wf(),
            !old(self)@.has_quest(quest_id) ==> r == Err::<(), _>(ContractError::QuestNotFound) && final(self)@ == old(self)@,
            old(self)@.has_quest(quest_id) ==> ({
                let q = old(self)@.quests[quest_id as int];
                &&& r is Ok <==> caller@ == q.owner && crate::model::deletable(q, ids@)
                &&& r is Err ==> final(self)@ == old(self)@
                &&& r is Ok ==> final(self)@ == (ContractModel {
                    quests: old(self)@.quests.update(quest_id as int, QuestModel {
                        boxes: crate::model::without_boxes(q.boxes, ids@),
                        ..q
                    }),
                    ..old(self)@
                })
            }),
    {
        let i = self.quest_index(quest_id)?;
        let ghost before = self@;
        assert(before.quests[i as int] == self.quests@[i as int]@);
        let res = self.quests[i].delete_boxes(caller, ids);
        assert(self@.quests =~= before.quests.update(i as int, self.quests@[i as int]@));
        proof {
            Self::lemma_update_quest(before, self@, i as int);
            if res is Err {
                assert(self@.quests =~= before.quests);
            }
        }
        match res {
            Ok(()) => Ok(()),
            Err(e) => Err(ContractError::Quest(e)),
        }
    }

    /// Claims a box of a quest for the caller with a random seed of at least
    /// 16 bytes: the selection number is read from bytes 0 to 7 and the
    /// chance byte from byte 8, so the two draws never share a byte (see
    /// `Quest::claim`).
    pub fn claim(&mut self, quest_id: u64, caller: &String, box_id: u128, seed: &Vec<u8>) -> (r: Result<ClaimOutcome, ContractError>)
        requires
            old(self)@.wf(),
        ensures
            final(self)@.wf(),
            seed@.len() < MIN_SEED_LEN ==> r == Err::<ClaimOutcome, _>(ContractError::SeedTooShort) && final(self)@ == old(self)@,
            seed@.len() >= MIN_SEED_LEN && !old(self)@.has_quest(quest_id) ==> r == Err::<ClaimOutcome, _>(ContractError::QuestNotFound)
                && final(self)@ == old(self)@,
            seed@.len() >= MIN_SEED_LEN && old(self)@.has_quest(quest_id) ==> {
                let e = claim_effect(
                    old(self)@.quests[quest_id as int],
                    caller@,
                    box_id,
                    seed_chance_byte(seed@),
                    seed_selection(seed@),
                );
                &&& final(self)@ == (ContractModel {
                    quests: old(self)@.quests.update(quest_id as int, e.0),
                    ..old(self)@
                })
                &&& claim_result_view(claim_result(r)) == e.1
                &&& r is Err ==> r matches Err(ContractError::Claim(_))
            },
    {
        if seed.len() < MIN_SEED_LEN {
            return Err(ContractError::SeedTooShort);
        }
        let i = self.quest_index(quest_id)?;
        let selection = get_random_number(seed, 0);
        let chance_byte = (get_random_number(seed, CHANCE_SHIFT) % 256) as u8;
        let ghost before = self@;
        assert(before.quests[i as int] == self.quests@[i as int]@);
        let res = self.quests[i].claim(caller, box_id, chance_byte, selection);
        assert(self@.quests =~= before.quests.update(i as int, self.quests@[i as int]@));
        proof {
            Self::lemma_update_quest(before, self@, i as int);
        }
        match res {
            Ok(o) => Ok(o),
            Err(e) => Err(ContractError::Claim(e)),
        }
    }

    /// Identity-check callback of a claim in flight (see
    /// `Quest::on_verification`).
    pub fn check_iah_verification_and_claim_callback(&mut self, quest_id: u64, box_id: u128, results: &Vec<PromiseOutcome>) -> (r: Result<VerificationStep, ContractError>)
        requires
            old(self)@.wf(),
        ensures
            final(self)@.wf(),
            !old(self)@.has_quest(quest_id) ==> r == Err::<VerificationStep, _>(ContractError::QuestNotFound) && final(self)@ == old(self)@,
            results@.len() != 1 ==> final(self)@ == old(self)@ && r is Err,
            old(self)@.has_quest(quest_id) && results@.len() == 1 ==> final(self)@.trusted == old(self)@.trusted
                && final(self)@.quests == old(self)@.quests.update(quest_id as int, if verified_by(results@[0]) {
                old(self)@.quests[quest_id as int]
            } else {
                complete_effect(old(self)@.quests[quest_id as int], box_id, false).0
            }),
            old(self)@.has_quest(quest_id) && results@.len() == 1 && verified_by(results@[0]) ==> ({
                let q = old(self)@.quests[quest_id as int];
                let k = crate::model::find_pending(q.pending, box_id, 0);
                match r {
                    Ok(VerificationStep::Transfer(c)) => k >= 0 && c@ == q.pending[k],
                    Err(e) => e == ContractError::Claim(ClaimError::UnknownClaim) && k < 0,
                    _ => false,
                }
            }),
            old(self)@.has_quest(quest_id) && results@.len() == 1 && !verified_by(results@[0]) ==> ({
                let e = complete_effect(old(self)@.quests[quest_id as int], box_id, false).1;
                match r {
                    Ok(VerificationStep::Reverted) => e is Ok,
                    Err(ContractError::Claim(x)) => e == Err::<crate::model::SettlementModel, _>(x),
                    _ => false,
                }
            }),
    {
        let i = self.quest_index(quest_id)?;
        let ghost before = self@;
        assert(before.quests[i as int] == self.quests@[i as int]@);
        let res = self.quests[i].on_verification(box_id, results);
        assert(self@.quests =~= before.quests.update(i as int, self.quests@[i as int]@));
        proof {
            Self::lemma_update_quest(before, self@, i as int);
            if results@.len() != 1 {
                assert(self@.quests =~= before.quests);
            }
        }
        match res {
            Ok(step) => Ok(step),
            Err(e) => Err(ContractError::Claim(e)),
        }
    }

    /// Transfer callback of a claim in flight (see `Quest::on_transfer`).
    pub fn transfer_reward_callback(&mut self, quest_id: u64, box_id: u128, results: &Vec<PromiseOutcome>) -> (r: Result<Settlement, ContractError>)
        requires
            old(self)@.wf(),
        ensures
            final(self)@.wf(),
            !old(self)@.has_quest(quest_id) ==> r == Err::<Settlement, _>(ContractError::QuestNotFound) && final(self)@ == old(self)@,
            results@.len() != 1 ==> final(self)@ == old(self)@ && r is Err,
            old(self)@.has_quest(quest_id) && results@.len() == 1 ==> ({
                let e = complete_effect(old(self)@.quests[quest_id as int], box_id, results@[0] is Successful);
                &&& final(self)@ == (ContractModel { quests: old(self)@.quests.update(quest_id as int, e.0), ..old(self)@ })
                &&& settlement_view(claim_result(r)) == e.1
                &&& r is Err ==> r matches Err(ContractError::Claim(_))
            }),
    {
        let i = self.quest_index(quest_id)?;
        let ghost before = self@;
        assert(before.quests[i as int] == self.quests@[i as int]@);
        let res = self.quests[i].on_transfer(box_id, results);
        assert(self@.quests =~= before.quests.update(i as int, self.quests@[i as int]@));
        proof {
            Self::lemma_update_quest(before, self@, i as int);
            if results@.len() != 1 {
                assert(self@.quests =~= before.quests);
            }
        }
        match res {
            Ok(s) => Ok(s),
            Err(e) => Err(ContractError::Claim(e)),
        }
    }

    /// The quests of `account`, in id order.
    pub fn quests_per_owner(&self, account_id: &String) -> (r: Vec<JsonQuest>)
        ensures
            r@.len() == owned_quests(self@.quests, account_id@).len(),
            forall|k: int|
                0 <= k < r@.len() ==> (#[trigger] r@[k]).quest_id == owned_quests(self@.quests, account_id@)[k].id
                    && r@[k].title@ == owned_quests(self@.quests, account_id@)[k].title,
    {
        let mut out: Vec<JsonQuest> = Vec::new();
        let mut i: usize = 0;
        while i < self.quests.len()
            invariant
                i <= self@.quests.len(),
                out@.len() == owned_quests(self@.quests.take(i as int), account_id@).len(),
                forall|k: int|
                    0 <= k < out@.len() ==> (#[trigger] out@[k]).quest_id == owned_quests(self@.quests.take(i as int), account_id@)[k].id
                        && out@[k].title@ == owned_quests(self@.quests.take(i as int), account_id@)[k].title,
            decreases self@.quests.len() - i,
        {
            assert(self@.quests.take(i as int + 1).drop_last() =~= self@.quests.take(i as int));
            assert(self@.quests[i as int] == self.quests@[i as int]@);
            let q = &self.quests[i];
            if q.owner_id() == *account_id {
                out.push(JsonQuest::new(q.id(), q.title()));
            }
            i = i + 1;
        }
        assert(self@.quests.take(self@.quests.len() as int) =~= self@.quests);
        out
    }

    /// The boxes of `account` over all quests, quest after quest.
    fn all_boxes_of(&self, account: &String) -> (r: Vec<crate::quest::QuestBox>)
        ensures
            r@.map_values(|b: crate::quest::QuestBox| b@) == owned_boxes_all(self@.quests, account@),
    {
        let mut out: Vec<crate::quest::QuestBox> = Vec::new();
        let mut i: usize = 0;
        while i < self.quests.len()
            invariant
                i <= self@.quests.len(),
                out@.map_values(|b: crate::quest::QuestBox| b@) == owned_boxes_all(self@.quests.take(i as int), account@),
            decreases self@.quests.len() - i,
        {
            assert(self@.quests.take(i as int + 1).drop_last() =~= self@.quests.take(i as int));
            assert(self@.quests[i as int] == self.quests@[i as int]@);
            let ghost before = out@;
            let mut more = self.quests[i].boxes_of(account);
            out.append(&mut more);
            assert(out@.map_values(|b: crate::quest::QuestBox| b@) =~= before.map_values(|b: crate::quest::QuestBox| b@)
                + owned_boxes(self@.quests[i as int].boxes, account@));
            i = i + 1;
        }
        assert(self@.quests.take(self@.quests.len() as int) =~= self@.quests);
        out
    }

    /// One page of listings of `boxes`.
    fn boxes_page(boxes: &Vec<crate::quest::QuestBox>, pagination: &Pagination) -> (r: Vec<JsonBox>)
        requires
            pagination.page >= 1,
        ensures
            ({
                let page = page_of(
                    boxes@.map_values(|b: crate::quest::QuestBox| b@),
                    pagination.size * (pagination.page - 1),
                    pagination.size as int,
                );
                &&& r@.len() == page.len()
                &&& forall|k: int| 0 <= k < r@.len() ==> json_box_matches(#[trigger] r@[k], page[k])
            }),
    {
        let ghost all = boxes@.map_values(|b: crate::quest::QuestBox| b@);
        let (lo, hi) = pagination.bounds(boxes.len());
        let mut out: Vec<JsonBox> = Vec::new();
        let mut k: usize = lo;
        while k < hi
            invariant
                lo <= k <= hi <= boxes@.len(),
                all == boxes@.map_values(|b: crate::quest::QuestBox| b@),
                out@.len() == k - lo,
                forall|m: int| 0 <= m < out@.len() ==> json_box_matches(#[trigger] out@[m], all[lo + m]),
            decreases hi - k,
        {
            out.push(JsonBox::from_box(&boxes[k]));
            k = k + 1;
        }
        out
    }

    /// One page of the boxes of `account` over all quests, quest after quest
    /// and by id within a quest.
    pub fn questboxes_per_owner(&self, account_id: &String, pagination: &Pagination) -> (r: Result<Vec<JsonBox>, ContractError>)
        ensures
            r is Err <==> pagination.assert_valid_spec() is Err,
            r is Err ==> r == Err::<Vec<JsonBox>, _>(ContractError::Pagination(pagination.assert_valid_spec()->Err_0)),
            r is Ok ==> ({
                let page = page_of(
                    owned_boxes_all(self@.quests, account_id@),
                    pagination.size * (pagination.page - 1),
                    pagination.size as int,
                );
                &&& r->Ok_0@.len() == page.len()
                &&& forall|k: int| 0 <= k < page.len() ==> json_box_matches(#[trigger] r->Ok_0@[k], page[k])
            }),
    {
        if let Err(e) = pagination.assert_valid() {
            return Err(ContractError::Pagination(e));
        }
        let boxes = self.all_boxes_of(account_id);
        Ok(Self::boxes_page(&boxes, pagination))
    }

    /// Number of boxes `account` holds over all quests.
    pub fn questboxes_supply_per_owner(&self, account_id: &String) -> (r: usize)
        ensures
            r == owned_boxes_all(self@.quests, account_id@).len(),
    {
        self.all_boxes_of(account_id).len()
    }

    /// One page of the boxes of `account` in one quest, by id.
    pub fn questboxes_for_quest_per_owner(&self, quest_id: u64, account_id: &String, pagination: &Pagination) -> (r: Result<Vec<JsonBox>, ContractError>)
        ensures
            pagination.assert_valid_spec() is Err ==> r == Err::<Vec<JsonBox>, _>(ContractError::Pagination(pagination.assert_valid_spec()->Err_0)),
            pagination.assert_valid_spec() is Ok && !self@.has_quest(quest_id) ==> r == Err::<Vec<JsonBox>, _>(ContractError::QuestNotFound),
            r is Ok <==> pagination.assert_valid_spec() is Ok && self@.has_quest(quest_id),
            r is Ok ==> ({
                let page = page_of(
                    owned_boxes(self@.quests[quest_id as int].boxes, account_id@),
                    pagination.size * (pagination.page - 1),
                    pagination.size as int,
                );
                &&& r->Ok_0@.len() == page.len()
                &&& forall|k: int| 0 <= k < page.len() ==> json_box_matches(#[trigger] r->Ok_0@[k], page[k])
            }),
    {
        if let Err(e) = pagination.assert_valid() {
            return Err(ContractError::Pagination(e));
        }
        let i = self.quest_index(quest_id)?;
        assert(self@.quests[i as int] == self.quests@[i as int]@);
        let boxes = self.quests[i].boxes_of(account_id);
        Ok(Self::boxes_page(&boxes, pagination))
    }

    /// Number of boxes minted in a quest.
    pub fn questboxes_total_supply(&self, quest_id: u64) -> (r: Result<u128, ContractError>)
        ensures
            r is Ok <==> self@.has_quest(quest_id),
            r is Ok ==> r->Ok_0 == self@.quests[quest_id as int].boxes.len(),
            r is Err ==> r == Err::<u128, _>(ContractError::QuestNotFound),
    {
        let i = self.quest_index(quest_id)?;
        assert(self@.quests[i as int] == self.quests@[i as int]@);
        Ok(self.quests[i].next_box_id())
    }

    /// One page of the pools of a quest's rarity that still offer a unit.
    pub fn available_rewards(&self, quest_id: u64, rarity: BoxRarity, pagination: &Pagination) -> (r: Result<Vec<JsonPoolRewards>, ContractError>)
        requires
            self@.wf(),
        ensures
            pagination.assert_valid_spec() is Err ==> r == Err::<Vec<JsonPoolRewards>, _>(ContractError::Pagination(pagination.assert_valid_spec()->Err_0)),
            pagination.assert_valid_spec() is Ok && !self@.has_quest(quest_id) ==> r == Err::<Vec<JsonPoolRewards>, _>(ContractError::QuestNotFound),
            r is Ok <==> pagination.assert_valid_spec() is Ok && self@.has_quest(quest_id),
            r is Ok ==> ({
                let q = self@.quests[quest_id as int];
                r->Ok_0@.map_values(|j: JsonPoolRewards| j@) == page_of(
                    q.candidates(rarity).map_values(|i: int| pool_rewards(q.pools[i])),
                    pagination.size * (pagination.page - 1),
                    pagination.size as int,
                )
            }),
    {
        if let Err(e) = pagination.assert_valid() {
            return Err(ContractError::Pagination(e));
        }
        let i = self.quest_index(quest_id)?;
        assert(self@.quests[i as int] == self.quests@[i as int]@);
        match self.quests[i].available_rewards(rarity, pagination) {
            Ok(v) => Ok(v),
            Err(e) => Err(ContractError::Pagination(e)),
        }
    }

    /// One page of all the pools of a quest's rarity.
    pub fn rewards(&self, quest_id: u64, rarity: BoxRarity, pagination: &Pagination) -> (r: Result<Vec<JsonPoolRewards>, ContractError>)
        ensures
            pagination.assert_valid_spec() is Err ==> r == Err::<Vec<JsonPoolRewards>, _>(ContractError::Pagination(pagination.assert_valid_spec()->Err_0)),
            pagination.assert_valid_spec() is Ok && !self@.has_quest(quest_id) ==> r == Err::<Vec<JsonPoolRewards>, _>(ContractError::QuestNotFound),
            r is Ok <==> pagination.assert_valid_spec() is Ok && self@.has_quest(quest_id),
            r is Ok ==> ({
                let q = self@.quests[quest_id as int];
                r->Ok_0@.map_values(|j: JsonPoolRewards| j@) == page_of(
                    q.pools_of_rarity(rarity).map_values(|i: int| pool_rewards(q.pools[i])),
                    pagination.size * (pagination.page - 1),
                    pagination.size as int,
                )
            }),
    {
        if let Err(e) = pagination.assert_valid() {
            return Err(ContractError::Pagination(e));
        }
        let i = self.quest_index(quest_id)?;
        assert(self@.quests[i as int] == self.quests@[i as int]@);
        match self.quests[i].rewards(rarity, pagination) {
            Ok(v) => Ok(v),
            Err(e) => Err(ContractError::Pagination(e)),
        }
    }

    /// One page of the accounts that hold boxes of a quest.
    pub fn get_users(&self, quest_id: u64, pagination: &Pagination) -> (r: Result<Vec<String>, ContractError>)
        ensures
            !self@.has_quest(quest_id) ==> r == Err::<Vec<String>, _>(ContractError::QuestNotFound),
            self@.has_quest(quest_id) && pagination.assert_valid_spec() is Err ==> r == Err::<Vec<String>, _>(ContractError::Pagination(pagination.assert_valid_spec()->Err_0)),
            r is Ok <==> pagination.assert_valid_spec() is Ok && self@.has_quest(quest_id),
            r is Ok ==> string_seq_view(r->Ok_0@) == page_of(
                self@.quests[quest_id as int].users,
                pagination.size * (pagination.page - 1),
                pagination.size as int,
            ),
    {
        let i = self.quest_index(quest_id)?;
        assert(self@.quests[i as int] == self.quests@[i as int]@);
        match self.quests[i].users(pagination) {
            Ok(v) => Ok(v),
            Err(e) => Err(ContractError::Pagination(e)),
        }
    }
}

} // verus!
