use mystery_box::contract::{Contract, ContractError};
use mystery_box::json::{JsonBoxStatus, JsonPoolRewards, JsonReward, NftOnTransferMessage, Pagination};
use mystery_box::model::{ClaimError, QuestError};
use mystery_box::network::Network;
use mystery_box::quest::ClaimOutcome;
use mystery_box::types::{BoxRarity, Probability, Reward};

const ONE_NEAR: u128 = 1_000_000_000_000_000_000_000_000;

fn owner() -> String {
    "owner".to_string()
}

fn user1() -> String {
    "user1".to_string()
}

fn user2() -> String {
    "user2".to_string()
}

fn user3() -> String {
    "user3".to_string()
}

fn nft() -> String {
    "nft_contract".to_string()
}

fn nft2() -> String {
    "nft_contract_2".to_string()
}

fn nft3() -> String {
    "nft_contract_3".to_string()
}

fn seed() -> Vec<u8> {
    vec![7; 32]
}

fn rare_message(quest_id: u64) -> NftOnTransferMessage {
    NftOnTransferMessage { quest_id, rarity: BoxRarity::Rare }
}

/// A contract deployed by `contract_account`, with one quest created by
/// `quest_owner`.
fn setup_with(contract_account: &str, quest_owner: &str) -> (Contract, u64) {
    let mut contract = Contract::new(Network::from_account_id(contract_account));
    let quest_id = contract.create_quest(&quest_owner.to_string(), &"first quest".to_string()).unwrap();
    (contract, quest_id)
}

fn setup() -> (Contract, u64) {
    setup_with("owner", "owner")
}

fn page() -> Pagination {
    Pagination::default()
}

#[test]
fn tests_test_setup_succeeds() {
    let (contract, quest_id) = setup();
    assert_eq!(quest_id, 0);
    assert_eq!(contract.quest_count(), 1);
}

#[test]
fn tests_test_quest_ownership() {
    let (mut contract, _) = setup();

    let owner_quests = contract.quests_per_owner(&owner());
    assert_eq!(owner_quests.len(), 1);

    let first_quest = owner_quests.get(0);
    assert_eq!(first_quest.is_some(), true);

    let first_quest_unwrapped = first_quest.unwrap();

    contract.set_owner(first_quest_unwrapped.quest_id, &owner(), user1()).unwrap();

    let owner_quests = contract.quests_per_owner(&owner());
    assert_eq!(owner_quests.len(), 0);

    let new_owner_quests = contract.quests_per_owner(&user1());
    assert_eq!(owner_quests.len(), 0);

    let new_owner_first_quest = new_owner_quests.get(0);
    assert_eq!(new_owner_first_quest.is_some(), true);

    let new_owner_first_quest_unwrapped = new_owner_first_quest.unwrap();

    assert_eq!(&new_owner_first_quest_unwrapped.title, "first quest");
}

#[test]
fn set_owner_by_former_owner_is_forbidden() {
    let (mut contract, quest_id) = setup();
    contract.set_owner(quest_id, &owner(), user1()).unwrap();
    assert_eq!(
        contract.set_owner(quest_id, &owner(), user2()),
        Err(ContractError::Quest(QuestError::Forbidden))
    );
}

#[test]
fn set_probability_errors() {
    let (mut contract, quest_id) = setup();
    assert_eq!(
        contract.set_probability(quest_id, &user1(), BoxRarity::Epic, Probability::zero()),
        Err(ContractError::Quest(QuestError::Forbidden))
    );
    assert_eq!(
        contract.set_probability(quest_id, &owner(), BoxRarity::Epic, Probability { numerator: 5, denominator: 0 }),
        Err(ContractError::Quest(QuestError::ZeroDenominator))
    );
    assert_eq!(
        contract.set_probability(quest_id, &owner(), BoxRarity::Epic, Probability { numerator: 5, denominator: 2 }),
        Err(ContractError::Quest(QuestError::NumeratorAboveDenominator))
    );
    assert_eq!(contract.set_probability(7, &owner(), BoxRarity::Epic, Probability::one()), Err(ContractError::QuestNotFound));
}

#[test]
fn small_near_pool_is_refused() {
    let (mut contract, quest_id) = setup();
    assert_eq!(
        contract.add_near_reward(quest_id, &owner(), BoxRarity::Rare, ONE_NEAR / 20, 10),
        Err(ContractError::Quest(QuestError::AmountTooSmall))
    );
    assert_eq!(
        contract.add_near_reward(quest_id, &owner(), BoxRarity::Rare, ONE_NEAR / 10, 10),
        Ok(0)
    );
}

#[test]
fn tests_test_add_near_pool_succeeds() {
    let (mut contract, quest_id) = setup();

    assert_eq!(contract.rewards(quest_id, BoxRarity::Rare, &page()).unwrap().len(), 0);

    let pool_id = contract.add_near_reward(quest_id, &owner(), BoxRarity::Rare, ONE_NEAR, 3).unwrap();
    assert_eq!(pool_id, 0);

    let pools = contract.rewards(quest_id, BoxRarity::Rare, &page()).unwrap();
    assert_eq!(pools.len(), 1);
    assert_eq!(pools[0], JsonPoolRewards::Near { amount: ONE_NEAR, available: 3, total: 3 });
}

#[test]
fn tests_test_add_big_near_pool() {
    let (mut contract, quest_id) = setup();

    let pool_id = contract.add_near_reward(quest_id, &owner(), BoxRarity::Rare, ONE_NEAR, 10_000).unwrap();
    assert_eq!(pool_id, 0);

    let pools = contract.rewards(quest_id, BoxRarity::Rare, &page()).unwrap();
    assert_eq!(pools[0], JsonPoolRewards::Near { amount: ONE_NEAR, available: 10_000, total: 10_000 });
}

#[test]
fn tests_test_add_multiple_near_pools_succeeds() {
    let (mut contract, quest_id) = setup();

    assert_eq!(contract.add_near_reward(quest_id, &owner(), BoxRarity::Rare, ONE_NEAR, 5), Ok(0));
    assert_eq!(contract.add_near_reward(quest_id, &owner(), BoxRarity::Rare, ONE_NEAR, 5), Ok(1));

    assert_eq!(contract.quest(quest_id).unwrap().pool_count(), 2);
}

#[test]
fn tests_test_add_nft_pool_succeeds() {
    let (mut contract, quest_id) = setup();

    contract.trust_nft_contract(&owner(), &owner(), nft()).unwrap();

    assert_eq!(contract.nft_on_transfer(&nft(), &owner(), "some_token".to_string(), rare_message(quest_id)), Ok(0));
}

#[test]
fn test_add_multiple_nft_pool_succeeds() {
    let (mut contract, quest_id) = setup();

    contract.trust_nft_contract(&owner(), &owner(), nft()).unwrap();
    contract.trust_nft_contract(&owner(), &owner(), nft2()).unwrap();

    assert_eq!(contract.nft_on_transfer(&nft(), &owner(), "some_token".to_string(), rare_message(quest_id)), Ok(0));
    assert_eq!(contract.nft_on_transfer(&nft(), &owner(), "some_token_2".to_string(), rare_message(quest_id)), Ok(0));
}

#[test]
fn untrusted_nft_contract_is_refused() {
    let (mut contract, quest_id) = setup();
    assert_eq!(
        contract.nft_on_transfer(&nft3(), &owner(), "some_token".to_string(), rare_message(quest_id)),
        Err(ContractError::NftContractNotTrusted)
    );
}

#[test]
fn duplicate_token_is_refused() {
    let (mut contract, quest_id) = setup();
    contract.trust_nft_contract(&owner(), &owner(), nft()).unwrap();
    contract.nft_on_transfer(&nft(), &owner(), "t1".to_string(), rare_message(quest_id)).unwrap();
    assert_eq!(
        contract.nft_on_transfer(&nft(), &owner(), "t1".to_string(), rare_message(quest_id)),
        Err(ContractError::Quest(QuestError::DuplicateToken))
    );
    assert_eq!(
        contract.nft_on_transfer(&nft(), &user1(), "t2".to_string(), rare_message(quest_id)),
        Err(ContractError::Quest(QuestError::Forbidden))
    );
}

#[test]
fn tests_test_available_near_rewards_amount() {
    let (mut contract, quest_id) = setup();

    contract.add_near_reward(quest_id, &owner(), BoxRarity::Rare, ONE_NEAR, 5).unwrap();

    let rewards = contract.available_rewards(quest_id, BoxRarity::Rare, &page()).unwrap();

    assert_eq!(rewards.len(), 1);

    contract.add_near_reward(quest_id, &owner(), BoxRarity::Rare, ONE_NEAR, 5).unwrap();

    let rewards = contract.available_rewards(quest_id, BoxRarity::Rare, &page()).unwrap();

    assert_eq!(rewards.len(), 2);

    contract.add_near_reward(quest_id, &owner(), BoxRarity::Epic, ONE_NEAR, 5).unwrap();

    let rewards = contract.available_rewards(quest_id, BoxRarity::Rare, &page()).unwrap();
    assert_eq!(rewards.len(), 2);

    let rewards = contract.available_rewards(quest_id, BoxRarity::Epic, &page()).unwrap();
    assert_eq!(rewards.len(), 1);
}

#[test]
fn tests_test_available_near_rewards_data() {
    let (mut contract, quest_id) = setup();

    contract.add_near_reward(quest_id, &owner(), BoxRarity::Rare, ONE_NEAR, 5).unwrap();

    let rewards = contract.available_rewards(quest_id, BoxRarity::Rare, &page()).unwrap();

    let reward = rewards.get(0).unwrap().to_owned();

    assert_eq!(reward, JsonPoolRewards::Near { amount: ONE_NEAR, available: 5, total: 5 });
}

#[test]
fn test_available_nft_rewards_amount_for_different_contracts() {
    let (mut contract, quest_id) = setup();

    contract.trust_nft_contract(&owner(), &owner(), nft()).unwrap();
    contract.trust_nft_contract(&owner(), &owner(), nft2()).unwrap();

    contract.nft_on_transfer(&nft(), &owner(), "some_token".to_string(), rare_message(quest_id)).unwrap();

    let rewards = contract.available_rewards(quest_id, BoxRarity::Rare, &page()).unwrap();
    assert_eq!(rewards.len(), 1);

    contract.nft_on_transfer(&nft2(), &owner(), "another_token".to_string(), rare_message(quest_id)).unwrap();

    let rewards = contract.available_rewards(quest_id, BoxRarity::Rare, &page()).unwrap();
    assert_eq!(rewards.len(), 2);
}

#[test]
fn test_available_nft_rewards_amount_for_same_contract() {
    let (mut contract, quest_id) = setup();

    contract.trust_nft_contract(&owner(), &owner(), nft()).unwrap();

    contract.nft_on_transfer(&nft(), &owner(), "some_token".to_string(), rare_message(quest_id)).unwrap();

    let rewards = contract.available_rewards(quest_id, BoxRarity::Rare, &page()).unwrap();
    assert_eq!(rewards.len(), 1);

    contract.nft_on_transfer(&nft(), &owner(), "some_token_2".to_string(), rare_message(quest_id)).unwrap();

    let rewards = contract.available_rewards(quest_id, BoxRarity::Rare, &page()).unwrap();
    assert_eq!(rewards.len(), 1);
}

#[test]
fn test_available_nft_rewards_amount_for_same_contract_and_different_rarity() {
    let (mut contract, quest_id) = setup();

    contract.trust_nft_contract(&owner(), &owner(), nft()).unwrap();

    contract.nft_on_transfer(&nft(), &owner(), "some_token".to_string(), rare_message(quest_id)).unwrap();

    let rewards = contract.available_rewards(quest_id, BoxRarity::Rare, &page()).unwrap();
    assert_eq!(rewards.len(), 1);

    contract
        .nft_on_transfer(
            &nft(),
            &owner(),
            "some_token_2".to_string(),
            NftOnTransferMessage { quest_id, rarity: BoxRarity::Epic },
        )
        .unwrap();

    let rewards = contract.available_rewards(quest_id, BoxRarity::Rare, &page()).unwrap();
    assert_eq!(rewards.len(), 1);
    let rewards = contract.available_rewards(quest_id, BoxRarity::Epic, &page()).unwrap();
    assert_eq!(rewards.len(), 1);
}

#[test]
fn test_available_nft_rewards_data_for_same_contract() {
    let (mut contract, quest_id) = setup();

    contract.trust_nft_contract(&owner(), &owner(), nft()).unwrap();

    contract.nft_on_transfer(&nft(), &owner(), "some_token".to_string(), rare_message(quest_id)).unwrap();
    contract.nft_on_transfer(&nft(), &owner(), "some_token_2".to_string(), rare_message(quest_id)).unwrap();

    let rewards = contract.available_rewards(quest_id, BoxRarity::Rare, &page()).unwrap();

    let reward = rewards.get(0).unwrap().to_owned();

    assert_eq!(
        reward,
        JsonPoolRewards::NonFungibleToken {
            contract_id: nft(),
            token_ids: vec!["some_token".to_string(), "some_token_2".to_string()],
            total: 2,
        }
    );
}

#[test]
fn tests_test_mint_succeeds() {
    let (mut contract, quest_id) = setup();

    assert_eq!(contract.mint(quest_id, &owner(), user1(), BoxRarity::Rare), Ok(0));
}

#[test]
fn mint_by_other_than_owner_is_forbidden() {
    let (mut contract, quest_id) = setup();
    assert_eq!(
        contract.mint(quest_id, &user1(), user1(), BoxRarity::Rare),
        Err(ContractError::Quest(QuestError::Forbidden))
    );
    assert_eq!(contract.mint(3, &owner(), user1(), BoxRarity::Rare), Err(ContractError::QuestNotFound));
}

#[test]
fn tests_test_delete_boxes_succeeds() {
    let (mut contract, _) = setup();

    let quest_id = contract.create_quest(&user1(), &"first quest".to_string()).unwrap();

    let box_id = contract.mint(quest_id, &user1(), user1(), BoxRarity::Epic).unwrap();
    contract.mint(quest_id, &user1(), user1(), BoxRarity::Rare).unwrap();

    assert_eq!(contract.questboxes_supply_per_owner(&user1()), 2);

    contract.delete_boxes(quest_id, &user1(), &vec![0]).unwrap();

    assert_eq!(contract.questboxes_supply_per_owner(&user1()), 1);

    assert!(contract.quest(quest_id).unwrap().get_box(box_id).is_none());
}

#[test]
fn delete_boxes_errors_change_nothing() {
    let (mut contract, quest_id) = setup();
    contract.add_near_reward(quest_id, &owner(), BoxRarity::Rare, ONE_NEAR, 2).unwrap();
    contract.mint(quest_id, &owner(), user1(), BoxRarity::Rare).unwrap();
    contract.mint(quest_id, &owner(), user1(), BoxRarity::Rare).unwrap();
    contract.claim(quest_id, &user1(), 1, &seed()).unwrap();

    assert_eq!(
        contract.delete_boxes(quest_id, &owner(), &vec![0, 1]),
        Err(ContractError::Quest(QuestError::BoxAlreadyClaimed(1)))
    );
    assert_eq!(
        contract.delete_boxes(quest_id, &owner(), &vec![0, 0]),
        Err(ContractError::Quest(QuestError::BoxNotFound(0)))
    );
    assert_eq!(
        contract.delete_boxes(quest_id, &owner(), &vec![9]),
        Err(ContractError::Quest(QuestError::BoxNotFound(9)))
    );
    assert_eq!(contract.delete_boxes(quest_id, &user1(), &vec![0]), Err(ContractError::Quest(QuestError::Forbidden)));
    assert_eq!(contract.questboxes_supply_per_owner(&user1()), 2);
}

#[test]
fn test_mint_many_succeeds() {
    let (mut contract, quest_id) = setup();

    assert_eq!(contract.mint_many(quest_id, &owner(), BoxRarity::Rare, &vec![user1(), user2()]), Ok(vec![0, 1]));
}

#[test]
fn mint_many_without_accounts_is_refused() {
    let (mut contract, quest_id) = setup();
    assert_eq!(contract.mint_many(quest_id, &owner(), BoxRarity::Rare, &vec![]), Err(ContractError::NoAccounts));
}

#[test]
fn test_total_supply_default() {
    let (contract, quest_id) = setup();

    assert_eq!(contract.questboxes_total_supply(quest_id), Ok(0));
}

#[test]
fn test_total_supply_increases() {
    let (mut contract, quest_id) = setup();

    contract.mint(quest_id, &owner(), user1(), BoxRarity::Rare).unwrap();

    assert_eq!(contract.questboxes_total_supply(quest_id), Ok(1));

    contract.mint(quest_id, &owner(), user1(), BoxRarity::Rare).unwrap();
    contract.mint(quest_id, &owner(), user2(), BoxRarity::Epic).unwrap();

    assert_eq!(contract.questboxes_total_supply(quest_id), Ok(3));

    contract.mint_many(quest_id, &owner(), BoxRarity::Legendary, &vec![user1(), user2()]).unwrap();

    assert_eq!(contract.questboxes_total_supply(quest_id), Ok(5));
}

#[test]
fn test_supply_for_owner_default() {
    let (contract, _) = setup();

    assert_eq!(contract.questboxes_supply_per_owner(&user1()), 0);
}

#[test]
fn test_supply_for_owner_increases() {
    let (mut contract, quest_id) = setup();

    contract.mint(quest_id, &owner(), user1(), BoxRarity::Rare).unwrap();

    assert_eq!(contract.questboxes_supply_per_owner(&user1()), 1);

    contract.mint(quest_id, &owner(), user1(), BoxRarity::Rare).unwrap();
    contract.mint(quest_id, &owner(), user2(), BoxRarity::Epic).unwrap();

    assert_eq!(contract.questboxes_supply_per_owner(&user1()), 2);
    assert_eq!(contract.questboxes_supply_per_owner(&user2()), 1);

    contract.mint_many(quest_id, &owner(), BoxRarity::Legendary, &vec![user1(), user2(), user1()]).unwrap();

    assert_eq!(contract.questboxes_supply_per_owner(&user1()), 4);
    assert_eq!(contract.questboxes_supply_per_owner(&user2()), 2);
}

#[test]
fn test_boxes_for_owner_amount() {
    let (mut contract, quest_id) = setup();

    contract.mint(quest_id, &owner(), user1(), BoxRarity::Rare).unwrap();

    assert_eq!(contract.questboxes_per_owner(&user1(), &page()).unwrap().len(), 1);

    contract.mint(quest_id, &owner(), user1(), BoxRarity::Epic).unwrap();
    contract.mint(quest_id, &owner(), user1(), BoxRarity::Epic).unwrap();

    contract.mint(quest_id, &owner(), user1(), BoxRarity::Legendary).unwrap();

    assert_eq!(contract.questboxes_per_owner(&user1(), &page()).unwrap().len(), 4);

    contract.mint(quest_id, &owner(), user2(), BoxRarity::Epic).unwrap();

    assert_eq!(contract.questboxes_per_owner(&user1(), &page()).unwrap().len(), 4);
    assert_eq!(contract.questboxes_per_owner(&user2(), &page()).unwrap().len(), 1);
}

#[test]
fn test_boxes_for_owner_status() {
    let (mut contract, quest_id) = setup();

    contract.mint(quest_id, &owner(), user1(), BoxRarity::Rare).unwrap();

    let boxes = contract.questboxes_per_owner(&user1(), &page()).unwrap();

    let box_data = boxes.get(0).unwrap().to_owned();

    assert_eq!(box_data.box_status, JsonBoxStatus::NonClaimed);
}

#[test]
fn test_boxes_for_quest_for_owner_amount() {
    let (mut contract, quest_id) = setup();

    let new_quest_id = contract.create_quest(&owner(), &"new quest".to_string()).unwrap();

    contract.mint(quest_id, &owner(), user1(), BoxRarity::Rare).unwrap();

    assert_eq!(contract.questboxes_for_quest_per_owner(quest_id, &user1(), &page()).unwrap().len(), 1);

    contract.mint(new_quest_id, &owner(), user1(), BoxRarity::Epic).unwrap();
    contract.mint(new_quest_id, &owner(), user1(), BoxRarity::Epic).unwrap();

    contract.mint(quest_id, &owner(), user1(), BoxRarity::Legendary).unwrap();

    assert_eq!(contract.questboxes_for_quest_per_owner(new_quest_id, &user1(), &page()).unwrap().len(), 2);
    assert_eq!(contract.questboxes_for_quest_per_owner(quest_id, &user1(), &page()).unwrap().len(), 2);
}

#[test]
fn claim_refusals() {
    let (mut contract, quest_id) = setup();
    let box_1_id = contract.mint(quest_id, &owner(), user1(), BoxRarity::Rare).unwrap();
    contract.mint(quest_id, &owner(), user2(), BoxRarity::Rare).unwrap();

    assert_eq!(
        contract.claim(quest_id, &user1(), box_1_id, &seed()).err(),
        Some(ContractError::Claim(ClaimError::NoPoolsAvailable))
    );
    assert_eq!(
        contract.claim(quest_id, &user2(), box_1_id, &seed()).err(),
        Some(ContractError::Claim(ClaimError::NotOwner))
    );
    assert_eq!(
        contract.claim(quest_id, &user1(), 5000, &seed()).err(),
        Some(ContractError::Claim(ClaimError::BoxNotFound))
    );
    assert_eq!(contract.claim(quest_id, &user1(), box_1_id, &vec![1, 2, 3]).err(), Some(ContractError::SeedTooShort));
    assert_eq!(contract.claim(quest_id, &user1(), box_1_id, &vec![9; 15]).err(), Some(ContractError::SeedTooShort));
    assert_eq!(
        contract.claim(quest_id, &user1(), box_1_id, &vec![9; 16]).err(),
        Some(ContractError::Claim(ClaimError::NoPoolsAvailable))
    );
    assert_eq!(contract.claim(9, &user1(), box_1_id, &seed()).err(), Some(ContractError::QuestNotFound));
}

#[test]
fn claim_twice_is_refused() {
    let (mut contract, quest_id) = setup();

    contract.add_near_reward(quest_id, &owner(), BoxRarity::Rare, ONE_NEAR / 10, 5).unwrap();
    let box_id = contract.mint(quest_id, &owner(), user1(), BoxRarity::Rare).unwrap();

    assert!(contract.claim(quest_id, &user1(), box_id, &seed()).is_ok());
    assert_eq!(
        contract.claim(quest_id, &user1(), box_id, &seed()).err(),
        Some(ContractError::Claim(ClaimError::AlreadyClaimed))
    );
    let available = contract.available_rewards(quest_id, BoxRarity::Rare, &page()).unwrap();
    assert_eq!(available[0], JsonPoolRewards::Near { amount: ONE_NEAR / 10, available: 4, total: 5 });
}

#[test]
fn test_claim_box_status() {
    let (mut contract, quest_id) = setup();

    contract.add_near_reward(quest_id, &owner(), BoxRarity::Rare, ONE_NEAR, 2).unwrap();
    let box_id = contract.mint(quest_id, &owner(), user1(), BoxRarity::Rare).unwrap();

    contract.claim(quest_id, &user1(), box_id, &seed()).unwrap();

    let boxes = contract.questboxes_per_owner(&user1(), &page()).unwrap();

    let box_data = boxes.get(0).unwrap();

    assert_eq!(box_data.box_status, JsonBoxStatus::Claimed { reward: JsonReward::Near { amount: ONE_NEAR } });
}

#[test]
fn test_claim_box_with_zero_probability() {
    let (mut contract, quest_id) = setup();

    contract.set_probability(quest_id, &owner(), BoxRarity::Rare, Probability::zero()).unwrap();
    contract.add_near_reward(quest_id, &owner(), BoxRarity::Rare, ONE_NEAR, 2).unwrap();
    let box_id = contract.mint(quest_id, &owner(), user1(), BoxRarity::Rare).unwrap();

    contract.claim(quest_id, &user1(), box_id, &seed()).unwrap();

    let boxes = contract.questboxes_per_owner(&user1(), &page()).unwrap();

    let box_data = boxes.get(0).unwrap();

    assert_eq!(box_data.box_status, JsonBoxStatus::Claimed { reward: JsonReward::Nothing });
}

#[test]
fn test_claim_decreases_reward_availability() {
    let (mut contract, quest_id) = setup();

    contract.add_near_reward(quest_id, &owner(), BoxRarity::Rare, ONE_NEAR, 2).unwrap();
    let box_id = contract.mint(quest_id, &owner(), user1(), BoxRarity::Rare).unwrap();

    contract.claim(quest_id, &user1(), box_id, &seed()).unwrap();

    let rewards = contract.available_rewards(quest_id, BoxRarity::Rare, &page()).unwrap();

    assert_eq!(rewards.len(), 1);

    let reward = rewards.get(0).unwrap().to_owned();

    assert_eq!(reward, JsonPoolRewards::Near { amount: ONE_NEAR, available: 1, total: 2 });
}

#[test]
fn test_claim_empty_reward_availability() {
    let (mut contract, quest_id) = setup();

    contract.add_near_reward(quest_id, &owner(), BoxRarity::Rare, ONE_NEAR, 1).unwrap();
    let box_id = contract.mint(quest_id, &owner(), user1(), BoxRarity::Rare).unwrap();

    contract.claim(quest_id, &user1(), box_id, &seed()).unwrap();

    let rewards = contract.available_rewards(quest_id, BoxRarity::Rare, &page()).unwrap();

    assert_eq!(rewards.len(), 0);
}

#[test]
fn test_claim_near_reward_succeeds() {
    let (mut contract, quest_id) = setup();

    contract.add_near_reward(quest_id, &owner(), BoxRarity::Rare, ONE_NEAR, 2).unwrap();
    let box_id = contract.mint(quest_id, &owner(), user1(), BoxRarity::Rare).unwrap();

    match contract.claim(quest_id, &user1(), box_id, &seed()).unwrap() {
        ClaimOutcome::Pending(c) => {
            assert_eq!(c.box_id, box_id);
            assert_eq!(c.pool_id, 0);
            assert_eq!(c.reward, Reward::Near { amount: ONE_NEAR });
        }
        ClaimOutcome::NothingWon => panic!("a certain reward was not drawn"),
    }
}

#[test]
fn test_claim_nft_reward_succeeds() {
    let (mut contract, quest_id) = setup_with("owner", "user1");

    contract.trust_nft_contract(&owner(), &owner(), nft()).unwrap();

    let box_id = contract.mint(quest_id, &user1(), user1(), BoxRarity::Rare).unwrap();

    contract.nft_on_transfer(&nft(), &user1(), "some_token".to_string(), rare_message(quest_id)).unwrap();

    match contract.claim(quest_id, &user1(), box_id, &seed()).unwrap() {
        ClaimOutcome::Pending(c) => {
            assert_eq!(
                c.reward,
                Reward::NonFungibleToken { contract_id: nft(), token_id: "some_token".to_string() }
            );
        }
        ClaimOutcome::NothingWon => panic!("a certain reward was not drawn"),
    }
}

#[test]
fn test_claim_for_multiple_pools_succeeds() {
    let (mut contract, quest_id) = setup();

    contract.add_near_reward(quest_id, &owner(), BoxRarity::Rare, ONE_NEAR, 1).unwrap();
    contract.add_near_reward(quest_id, &owner(), BoxRarity::Rare, ONE_NEAR / 2, 2).unwrap();
    contract.add_near_reward(quest_id, &owner(), BoxRarity::Rare, ONE_NEAR / 4, 4).unwrap();

    let box_id = contract.mint(quest_id, &owner(), user1(), BoxRarity::Rare).unwrap();

    // Seed of twos: the selection number is 0x0202020202020202, and
    // 0x0202020202020202 % 7 == 3, which is the second unit of the third pool.
    match contract.claim(quest_id, &user1(), box_id, &vec![2; 32]).unwrap() {
        ClaimOutcome::Pending(c) => {
            assert_eq!(c.pool_id, 2);
            assert_eq!(c.reward, Reward::Near { amount: ONE_NEAR / 4 });
        }
        ClaimOutcome::NothingWon => panic!("a certain reward was not drawn"),
    }
}

#[test]
fn callbacks_need_exactly_one_result() {
    let (mut contract, quest_id) = setup();
    assert_eq!(
        contract.check_iah_verification_and_claim_callback(quest_id, 0, &vec![]).err(),
        Some(ContractError::Claim(ClaimError::UnexpectedResultCount))
    );
    assert_eq!(
        contract.transfer_reward_callback(quest_id, 0, &vec![]).err(),
        Some(ContractError::Claim(ClaimError::UnexpectedResultCount))
    );
}

#[test]
fn test_default_trusted_nft_contract_set_succeeds() {
    let (contract, _) = setup();
    let trusted = contract.get_trusted_nft_contracts();
    assert!(!trusted.contains(&nft()));
    assert!(!trusted.contains(&nft2()));
}

#[test]
fn trust_by_other_than_contract_account_is_forbidden() {
    let (mut contract, _) = setup_with("owner", "user1");
    assert_eq!(contract.trust_nft_contract(&user1(), &owner(), nft3()), Err(ContractError::Forbidden));
}

#[test]
fn test_trust_nft_contract_succeeds() {
    let (mut contract, _) = setup();

    assert_eq!(contract.trust_nft_contract(&owner(), &owner(), nft3()), Ok(()));
    assert!(contract.get_trusted_nft_contracts().contains(&nft3()));
}

#[test]
fn test_untrust_nft_contract_succeeds() {
    let (mut contract, _) = setup();

    contract.trust_nft_contract(&owner(), &owner(), nft()).unwrap();

    assert_eq!(contract.untrust_nft_contract(&owner(), &owner(), &nft()), Ok(()));
    assert!(!contract.get_trusted_nft_contracts().contains(&nft()));
}

#[test]
fn trust_errors() {
    let (mut contract, _) = setup();
    contract.trust_nft_contract(&owner(), &owner(), nft()).unwrap();
    assert_eq!(contract.trust_nft_contract(&owner(), &owner(), nft()), Err(ContractError::AlreadyTrusted));
    assert_eq!(contract.untrust_nft_contract(&owner(), &owner(), &nft3()), Err(ContractError::NotTrusted));
}

#[test]
fn test_users_default() {
    let (contract, quest_id) = setup();

    let pagination = Pagination { page: 1, size: 40 };

    assert_eq!(contract.get_users(quest_id, &pagination).unwrap().len(), 0);
}

#[test]
fn test_users_increases() {
    let (mut contract, quest_id) = setup();

    contract.mint(quest_id, &owner(), user1(), BoxRarity::Rare).unwrap();

    let pagination = Pagination { page: 1, size: 40 };

    assert_eq!(contract.get_users(quest_id, &pagination).unwrap().len(), 1);

    contract.mint(quest_id, &owner(), user1(), BoxRarity::Rare).unwrap();
    contract.mint(quest_id, &owner(), user2(), BoxRarity::Epic).unwrap();

    assert_eq!(contract.get_users(quest_id, &pagination).unwrap().len(), 2);

    contract.mint_many(quest_id, &owner(), BoxRarity::Legendary, &vec![user1(), user2(), user3()]).unwrap();

    assert_eq!(contract.get_users(quest_id, &pagination).unwrap().len(), 3);
    assert_eq!(contract.get_users(quest_id, &pagination).unwrap(), vec![user1(), user2(), user3()]);
}

#[test]
fn test_mainnet_default_nft_contracts() {
    let (contract, _) = setup_with("test.near", "test.near");

    assert_eq!(contract.get_trusted_nft_contracts().len(), 10);
}

#[test]
fn testnet_default_nft_contracts_listed() {
    let (contract, _) = setup_with("test.testnet", "test.testnet");

    assert_eq!(
        contract.get_trusted_nft_contracts(),
        vec![
            "nft.helpua.testnet".to_string(),
            "nft2.helpua.testnet".to_string(),
            "paras-token-v2.testnet".to_string(),
            "nearkingdoms.testnet".to_string(),
        ]
    );
}

#[test]
fn pagination_pages() {
    let (mut contract, quest_id) = setup();
    contract
        .mint_many(quest_id, &owner(), BoxRarity::Rare, &vec![user1(), user2(), user3(), owner()])
        .unwrap();
    let second = Pagination { page: 2, size: 3 };
    assert_eq!(contract.get_users(quest_id, &second).unwrap(), vec![owner()]);
    let third = Pagination { page: 3, size: 3 };
    assert_eq!(contract.get_users(quest_id, &third).unwrap(), Vec::<String>::new());
    assert_eq!(
        contract.get_users(quest_id, &Pagination { page: 1, size: 51 }).err(),
        Some(ContractError::Pagination(mystery_box::json::PaginationError::PageTooLarge))
    );
    assert_eq!(
        contract.get_users(quest_id, &Pagination { page: 0, size: 5 }).err(),
        Some(ContractError::Pagination(mystery_box::json::PaginationError::ZeroPage))
    );
}
