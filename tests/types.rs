use mystery_box::types::{passes_chance, BoxRarity, Probability, ProbabilityError};

#[test]
fn types_test_probability_threshold() {
    let probability = Probability::one();

    assert_eq!(probability.calculate_threshold(), 255);

    let probability = Probability::zero();

    assert_eq!(probability.calculate_threshold(), 0);

    let probability = Probability {
        numerator: 234,
        denominator: 255,
    };

    assert_eq!(probability.calculate_threshold(), 234);

    let probability = Probability {
        numerator: 2,
        denominator: 3,
    };

    assert_eq!(probability.calculate_threshold(), 170);

    let probability = Probability {
        numerator: 1,
        denominator: 2,
    };

    assert_eq!(probability.calculate_threshold(), 127);
}

#[test]
fn probability_validation_errors() {
    let zero_den = Probability { numerator: 0, denominator: 0 };
    assert_eq!(zero_den.assert_valid(), Err(ProbabilityError::ZeroDenominator));
    let above = Probability { numerator: 3, denominator: 2 };
    assert_eq!(above.assert_valid(), Err(ProbabilityError::NumeratorAboveDenominator));
    assert_eq!(Probability { numerator: 2, denominator: 2 }.assert_valid(), Ok(()));
}

#[test]
fn chance_boundaries_on_every_byte() {
    for byte in 0..=255u8 {
        assert!(!passes_chance(0, byte));
        assert!(passes_chance(255, byte));
    }
    assert!(passes_chance(170, 169));
    assert!(!passes_chance(170, 170));
}

#[test]
fn rarity_names_and_media() {
    assert_eq!(BoxRarity::Rare.to_string(), "rare");
    assert_eq!(BoxRarity::Epic.to_string(), "epic");
    assert_eq!(BoxRarity::Legendary.to_string(), "legendary");
    assert_eq!(
        BoxRarity::Rare.to_media_ipfs(),
        "bafkreibwmkcer2kp3kv67cydzhzzvzki7hdph5f4w7jeiep2r4s5dp7eb4"
    );
    assert_eq!(
        BoxRarity::Epic.to_media_ipfs(),
        "bafkreick7sjo4uzdy3sznvqjuafcds6f5p37apkggvvwkctptdy3qu2vbi"
    );
    assert_eq!(
        BoxRarity::Legendary.to_media_ipfs(),
        "bafkreigdv4mnfrndcob64wrwbqoqce257v7bvtxp2flnyqg2onukpssyoq"
    );
}
