use mystery_box::json::{JsonPoolRewards, Pagination};
use mystery_box::model::ClaimError;
use mystery_box::quest::{BoxStatus, ClaimOutcome, Quest, Settlement, VerificationStep};
use mystery_box::randomness::get_random_number;
use mystery_box::types::{BoxRarity, Probability, Reward};
use mystery_box::verification::{is_verified, PromiseOutcome};

const ONE_NEAR: u128 = 1_000_000_000_000_000_000_000_000;

fn owner() -> String {
    "owner".to_string()
}

fn user() -> String {
    "user1".to_string()
}

fn ok_result() -> Vec<PromiseOutcome> {
    vec![PromiseOutcome::Successful(Vec::new())]
}

fn failed_result() -> Vec<PromiseOutcome> {
    vec![PromiseOutcome::Failed]
}

fn near_available(quest: &Quest) -> u64 {
    match &quest.rewards(BoxRarity::Rare, &Pagination::default()).unwrap()[0] {
        JsonPoolRewards::Near { available, .. } => *available,
        other => panic!("not an amount pool: {:?}", other),
    }
}

fn quest_with_amount_pool(capacity: u64) -> (Quest, u128) {
    let mut quest = Quest::new(0, "q".to_string(), owner());
    quest.add_near_reward(&owner(), BoxRarity::Rare, ONE_NEAR, capacity).unwrap();
    let b = quest.mint(&owner(), user(), BoxRarity::Rare).unwrap();
    (quest, b.box_id)
}

#[test]
fn amount_pool_claim_then_success_is_terminal() {
    let (mut quest, box_id) = quest_with_amount_pool(2);
    assert_eq!(near_available(&quest), 2);

    match quest.claim(&user(), box_id, 0, 0).unwrap() {
        ClaimOutcome::Pending(c) => assert_eq!(c.reward, Reward::Near { amount: ONE_NEAR }),
        ClaimOutcome::NothingWon => panic!("reward expected"),
    }
    assert_eq!(near_available(&quest), 1);
    assert_eq!(
        quest.get_box(box_id).unwrap().box_status,
        BoxStatus::Claimed { reward: Some(Reward::Near { amount: ONE_NEAR }) }
    );

    match quest.on_transfer(box_id, &ok_result()).unwrap() {
        Settlement::Settled(r) => assert_eq!(r, Reward::Near { amount: ONE_NEAR }),
        Settlement::Reverted => panic!("settlement expected"),
    }
    assert_eq!(near_available(&quest), 1);
    assert!(matches!(quest.get_box(box_id).unwrap().box_status, BoxStatus::Claimed { .. }));
}

#[test]
fn amount_pool_claim_then_failure_restores() {
    let (mut quest, box_id) = quest_with_amount_pool(2);
    quest.claim(&user(), box_id, 0, 0).unwrap();
    assert_eq!(near_available(&quest), 1);

    assert!(matches!(quest.on_transfer(box_id, &failed_result()).unwrap(), Settlement::Reverted));
    assert_eq!(near_available(&quest), 2);
    let b = quest.get_box(box_id).unwrap();
    assert_eq!(b.box_status, BoxStatus::NonClaimed);
    assert_eq!(b.owner_id, user());
    assert!(quest.pending_claim(box_id).is_none());

    // the owner may retry
    assert!(quest.claim(&user(), box_id, 0, 0).is_ok());
}

#[test]
fn token_pool_two_claims_take_distinct_tokens() {
    let mut quest = Quest::new(0, "q".to_string(), owner());
    let c = "contract_c".to_string();
    quest.nft_on_transfer(&c, &owner(), "t1".to_string(), BoxRarity::Rare).unwrap();
    quest.nft_on_transfer(&c, &owner(), "t2".to_string(), BoxRarity::Rare).unwrap();
    let b1 = quest.mint(&owner(), user(), BoxRarity::Rare).unwrap().box_id;
    let b2 = quest.mint(&owner(), user(), BoxRarity::Rare).unwrap().box_id;

    let first = match quest.claim(&user(), b1, 0, 0).unwrap() {
        ClaimOutcome::Pending(p) => p.reward,
        ClaimOutcome::NothingWon => panic!("reward expected"),
    };
    let second = match quest.claim(&user(), b2, 0, 0).unwrap() {
        ClaimOutcome::Pending(p) => p.reward,
        ClaimOutcome::NothingWon => panic!("reward expected"),
    };
    assert_eq!(first, Reward::NonFungibleToken { contract_id: c.clone(), token_id: "t1".to_string() });
    assert_eq!(second, Reward::NonFungibleToken { contract_id: c.clone(), token_id: "t2".to_string() });
    assert_eq!(quest.available_rewards(BoxRarity::Rare, &Pagination::default()).unwrap().len(), 0);
    let b3 = quest.mint(&owner(), user(), BoxRarity::Rare).unwrap().box_id;
    assert_eq!(quest.claim(&user(), b3, 0, 0).err(), Some(ClaimError::NoPoolsAvailable));
}

#[test]
fn token_revert_puts_the_same_token_back() {
    let mut quest = Quest::new(0, "q".to_string(), owner());
    let c = "contract_c".to_string();
    quest.nft_on_transfer(&c, &owner(), "t1".to_string(), BoxRarity::Rare).unwrap();
    quest.nft_on_transfer(&c, &owner(), "t2".to_string(), BoxRarity::Rare).unwrap();
    let b1 = quest.mint(&owner(), user(), BoxRarity::Rare).unwrap().box_id;
    let before = quest.rewards(BoxRarity::Rare, &Pagination::default()).unwrap();
    quest.claim(&user(), b1, 0, 0).unwrap();
    quest.on_transfer(b1, &failed_result()).unwrap();
    assert_eq!(quest.rewards(BoxRarity::Rare, &Pagination::default()).unwrap(), before);
    assert_eq!(quest.get_box(b1).unwrap().box_status, BoxStatus::NonClaimed);
}

#[test]
fn settled_claim_cannot_settle_again() {
    let (mut quest, box_id) = quest_with_amount_pool(3);
    quest.claim(&user(), box_id, 0, 0).unwrap();
    quest.on_transfer(box_id, &ok_result()).unwrap();
    assert_eq!(quest.on_transfer(box_id, &ok_result()).err(), Some(ClaimError::UnknownClaim));
    assert_eq!(quest.on_transfer(box_id, &failed_result()).err(), Some(ClaimError::UnknownClaim));
    assert_eq!(quest.claim(&user(), box_id, 0, 0).err(), Some(ClaimError::AlreadyClaimed));
    assert_eq!(near_available(&quest), 2);
}

#[test]
fn conservation_over_claims_and_outcomes() {
    let mut quest = Quest::new(0, "q".to_string(), owner());
    quest.add_near_reward(&owner(), BoxRarity::Rare, ONE_NEAR, 3).unwrap();
    let boxes: Vec<u128> = (0..3).map(|_| quest.mint(&owner(), user(), BoxRarity::Rare).unwrap().box_id).collect();
    for b in &boxes {
        quest.claim(&user(), *b, 0, 0).unwrap();
    }
    // available 0, outstanding 3
    assert_eq!(near_available(&quest), 0);
    quest.on_transfer(boxes[0], &failed_result()).unwrap();
    // available 1, outstanding 2
    assert_eq!(near_available(&quest), 1);
    quest.on_transfer(boxes[1], &ok_result()).unwrap();
    // available 1, outstanding 1: one unit left for good
    assert_eq!(near_available(&quest), 1);
    quest.on_transfer(boxes[2], &failed_result()).unwrap();
    assert_eq!(near_available(&quest), 2);
}

#[test]
fn zero_probability_never_draws() {
    let (mut quest, _) = quest_with_amount_pool(2);
    quest.set_probability(&owner(), BoxRarity::Rare, Probability::zero()).unwrap();
    for byte in [0u8, 1, 128, 254, 255] {
        let b = quest.mint(&owner(), user(), BoxRarity::Rare).unwrap().box_id;
        assert!(matches!(quest.claim(&user(), b, byte, 0).unwrap(), ClaimOutcome::NothingWon));
        assert_eq!(quest.get_box(b).unwrap().box_status, BoxStatus::Claimed { reward: None });
    }
    assert_eq!(near_available(&quest), 2);
}

#[test]
fn certain_probability_always_draws() {
    let (mut quest, _) = quest_with_amount_pool(10);
    for byte in [0u8, 1, 128, 254, 255] {
        let b = quest.mint(&owner(), user(), BoxRarity::Rare).unwrap().box_id;
        assert!(matches!(quest.claim(&user(), b, byte, 0).unwrap(), ClaimOutcome::Pending(_)));
    }
}

#[test]
fn half_probability_splits_bytes_at_127() {
    let (mut quest, _) = quest_with_amount_pool(10);
    quest.set_probability(&owner(), BoxRarity::Rare, Probability { numerator: 1, denominator: 2 }).unwrap();
    let b = quest.mint(&owner(), user(), BoxRarity::Rare).unwrap().box_id;
    assert!(matches!(quest.claim(&user(), b, 126, 0).unwrap(), ClaimOutcome::Pending(_)));
    let b = quest.mint(&owner(), user(), BoxRarity::Rare).unwrap().box_id;
    assert!(matches!(quest.claim(&user(), b, 127, 0).unwrap(), ClaimOutcome::NothingWon));
}

#[test]
fn selection_counts_match_availability() {
    // pools of availability 1 and 3: over the 4 possible draws the first is
    // picked once and the second three times
    let mut picks = [0u32; 2];
    for selection in 0..4u64 {
        let mut quest = Quest::new(0, "q".to_string(), owner());
        quest.add_near_reward(&owner(), BoxRarity::Rare, ONE_NEAR, 1).unwrap();
        quest.add_near_reward(&owner(), BoxRarity::Rare, 2 * ONE_NEAR, 3).unwrap();
        let b = quest.mint(&owner(), user(), BoxRarity::Rare).unwrap().box_id;
        match quest.claim(&user(), b, 0, selection).unwrap() {
            ClaimOutcome::Pending(c) => picks[c.pool_id as usize] += 1,
            ClaimOutcome::NothingWon => panic!("reward expected"),
        }
    }
    assert_eq!(picks, [1, 3]);
}

#[test]
fn selection_skips_empty_pools() {
    let mut quest = Quest::new(0, "q".to_string(), owner());
    quest.add_near_reward(&owner(), BoxRarity::Rare, ONE_NEAR, 1).unwrap();
    quest.add_near_reward(&owner(), BoxRarity::Rare, 2 * ONE_NEAR, 1).unwrap();
    quest.add_near_reward(&owner(), BoxRarity::Epic, 3 * ONE_NEAR, 5).unwrap();
    let b1 = quest.mint(&owner(), user(), BoxRarity::Rare).unwrap().box_id;
    let b2 = quest.mint(&owner(), user(), BoxRarity::Rare).unwrap().box_id;
    // 0 % 2 == 0: the first pool
    match quest.claim(&user(), b1, 0, 0).unwrap() {
        ClaimOutcome::Pending(c) => assert_eq!(c.pool_id, 0),
        ClaimOutcome::NothingWon => panic!("reward expected"),
    }
    // only the second rare pool is left
    match quest.claim(&user(), b2, 0, 0).unwrap() {
        ClaimOutcome::Pending(c) => assert_eq!(c.pool_id, 1),
        ClaimOutcome::NothingWon => panic!("reward expected"),
    }
}

#[test]
fn verification_failure_compensates() {
    let (mut quest, box_id) = quest_with_amount_pool(2);
    quest.claim(&user(), box_id, 0, 0).unwrap();
    let answer = PromiseOutcome::Successful(b"[]".to_vec());
    assert!(matches!(quest.on_verification(box_id, &vec![answer]).unwrap(), VerificationStep::Reverted));
    assert_eq!(near_available(&quest), 2);
    assert_eq!(quest.get_box(box_id).unwrap().box_status, BoxStatus::NonClaimed);
}

#[test]
fn verification_success_hands_out_the_claim() {
    let (mut quest, box_id) = quest_with_amount_pool(2);
    quest.claim(&user(), box_id, 0, 0).unwrap();
    let answer = PromiseOutcome::Successful(br#"[["fractal", [{"token": 1}]]]"#.to_vec());
    match quest.on_verification(box_id, &vec![answer]).unwrap() {
        VerificationStep::Transfer(c) => {
            assert_eq!(c.box_id, box_id);
            assert_eq!(c.reward, Reward::Near { amount: ONE_NEAR });
        }
        VerificationStep::Reverted => panic!("verified owner reverted"),
    }
    assert_eq!(near_available(&quest), 1);
    assert!(quest.pending_claim(box_id).is_some());
}

#[test]
fn registry_answers() {
    assert!(is_verified(&PromiseOutcome::Successful(br#"[["i", [{"t": 1}]]]"#.to_vec())));
    assert!(!is_verified(&PromiseOutcome::Successful(br#"[["i", []]]"#.to_vec())));
    assert!(!is_verified(&PromiseOutcome::Successful(b"[]".to_vec())));
    assert!(!is_verified(&PromiseOutcome::Successful(b"not json".to_vec())));
    assert!(!is_verified(&PromiseOutcome::Successful(Vec::new())));
    assert!(!is_verified(&PromiseOutcome::Failed));
}

#[test]
fn random_number_windows() {
    let seed: Vec<u8> = (0u8..32).collect();
    assert_eq!(get_random_number(&seed, 0), u64::from_le_bytes([0, 1, 2, 3, 4, 5, 6, 7]));
    assert_eq!(get_random_number(&seed, 8), u64::from_le_bytes([8, 9, 10, 11, 12, 13, 14, 15]));
    assert_eq!(get_random_number(&seed, 30), u64::from_le_bytes([30, 31, 0, 1, 2, 3, 4, 5]));
    assert_eq!(get_random_number(&seed, 62), u64::from_le_bytes([30, 31, 0, 1, 2, 3, 4, 5]));
    assert_eq!(get_random_number(&vec![2; 32], 0), 0x0202020202020202);
}

#[test]
fn pool_pick_walks_cumulative_availability() {
    // availabilities 1, 2, 4: draws 0 | 1-2 | 3-6 pick pools 0 | 1 | 2
    let mut quest = Quest::new(0, "q".to_string(), owner());
    quest.add_near_reward(&owner(), BoxRarity::Rare, ONE_NEAR, 1).unwrap();
    quest.add_near_reward(&owner(), BoxRarity::Rare, ONE_NEAR, 2).unwrap();
    quest.add_near_reward(&owner(), BoxRarity::Rare, ONE_NEAR, 4).unwrap();
    let expected = [0u32, 1, 1, 2, 2, 2, 2, 0];
    for (selection, pool) in expected.iter().enumerate() {
        assert_eq!(quest.find_random_available_reward_pool(BoxRarity::Rare, selection as u64), Ok(*pool));
    }
    // nothing was taken
    assert_eq!(quest.available_rewards(BoxRarity::Rare, &Pagination::default()).unwrap().len(), 3);
    assert_eq!(
        quest.find_random_available_reward_pool(BoxRarity::Epic, 0),
        Err(ClaimError::NoPoolsAvailable)
    );
}
