use mystery_box::json::{JsonBox, JsonBoxStatus, JsonQuest, Pagination, QuestBoxData};
use mystery_box::network::{ends_with, get_issuer_iah_contract, get_registry_iah_contract, Network};
use mystery_box::types::BoxRarity;

#[test]
fn network_from_account_suffix() {
    assert_eq!(Network::from_account_id("test.testnet"), Network::Testnet);
    assert_eq!(Network::from_account_id("testnet"), Network::Mainnet);
    assert_eq!(Network::from_account_id("test.near"), Network::Mainnet);
    assert_eq!(Network::from_account_id(""), Network::Mainnet);
    assert!(ends_with("abc", ""));
    assert!(!ends_with("bc", "abc"));
}

#[test]
fn identity_contracts_per_network() {
    assert_eq!(get_registry_iah_contract(Network::Mainnet), "registry.i-am-human.near");
    assert_eq!(get_registry_iah_contract(Network::Testnet), "registry-v2.i-am-human.testnet");
    assert_eq!(get_issuer_iah_contract(Network::Mainnet), "fractal.i-am-human.near");
    assert_eq!(get_issuer_iah_contract(Network::Testnet), "fractal-v2.i-am-human.testnet");
}

#[test]
fn pagination_take_and_skip() {
    let p = Pagination::default();
    assert_eq!((p.page, p.size), (1, 10));
    assert_eq!(p.take(), 10);
    assert_eq!(p.skip(), 0);
    let p = Pagination { page: 255, size: 255 };
    assert_eq!(p.skip(), 255 * 254);
    assert_eq!(p.bounds(3), (3, 3));
    assert_eq!(Pagination { page: 2, size: 2 }.bounds(3), (2, 3));
}

#[test]
fn small_value_types() {
    let q = JsonQuest::new(3, "title".to_string());
    assert_eq!((q.quest_id, q.title.as_str()), (3, "title"));
    assert_eq!(QuestBoxData::new(1, 2), QuestBoxData { quest_id: 1, box_id: 2 });
    let b = JsonBox::new(1, 2, BoxRarity::Epic, JsonBoxStatus::NonClaimed);
    assert_eq!(b.ipfs, "bafkreick7sjo4uzdy3sznvqjuafcds6f5p37apkggvvwkctptdy3qu2vbi");
}
