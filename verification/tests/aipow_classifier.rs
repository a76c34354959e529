use poiw_scorer::aipow::classifier::{
    counterparty_discount_bps, is_organic, is_score_eligible, organic_settled_value,
    ClassifierParams,
};
use poiw_scorer::keyed::KeyedMap;
use poiw_scorer::types::{
    AipowError, CapabilityClass, DomainId, DomainMap, EvidenceLevel, IdentityId, SettledWorkUnit,
};

fn unit(earner: u8, payer: u8, price: u64, challenge: bool, related: bool) -> SettledWorkUnit {
    SettledWorkUnit {
        identity: IdentityId([earner; 32]),
        payer: IdentityId([payer; 32]),
        capability: CapabilityClass("embedding".into()),
        rate_card_value: price,
        settled_price: price,
        evidence: EvidenceLevel::Observed,
        is_challenge_task: challenge,
        payer_related: related,
    }
}

#[test]
fn empty_input_yields_zero_organic_value() {
    let value = organic_settled_value(&[], &DomainMap::default(), &ClassifierParams::default())
        .unwrap();
    assert_eq!(value, 0);
}

#[test]
fn challenge_and_related_units_are_excluded() {
    let units = vec![
        unit(1, 2, 1_000, false, false),
        unit(1, 3, 1_000, true, false),
        unit(1, 4, 1_000, false, true),
    ];
    // Only the first unit is organic; its single payer means 100%
    // concentration, so the discount multiplies it to zero.
    let value =
        organic_settled_value(&units, &DomainMap::default(), &ClassifierParams::default())
            .unwrap();
    assert_eq!(value, 0);
}

#[test]
fn balanced_payers_keep_full_value() {
    let units = vec![
        unit(1, 2, 1_000, false, false),
        unit(1, 3, 1_000, false, false),
    ];
    let value =
        organic_settled_value(&units, &DomainMap::default(), &ClassifierParams::default())
            .unwrap();
    assert_eq!(value, 2_000);
}

#[test]
fn dominant_payer_decays_linearly() {
    // 3:1 split -> top share 7,500 bps, halfway between 5,000 and
    // 10,000 -> multiplier 5,000 bps -> half value.
    let units = vec![
        unit(1, 2, 3_000, false, false),
        unit(1, 3, 1_000, false, false),
    ];
    let value =
        organic_settled_value(&units, &DomainMap::default(), &ClassifierParams::default())
            .unwrap();
    assert_eq!(value, 2_000);
}

#[test]
fn payers_in_one_domain_count_as_one_counterparty() {
    // Two payers, but both disclosed under the same control domain:
    // concentration is 100%, so the discount zeroes the value.
    let domains = DomainMap::from_pairs(vec![
        (IdentityId([2; 32]), DomainId("acme".into())),
        (IdentityId([3; 32]), DomainId("acme".into())),
    ]);
    let units = vec![
        unit(1, 2, 1_000, false, false),
        unit(1, 3, 1_000, false, false),
    ];
    let value = organic_settled_value(&units, &domains, &ClassifierParams::default()).unwrap();
    assert_eq!(value, 0);
}

#[test]
fn same_domain_payer_is_treated_as_related() {
    let domains = DomainMap::from_pairs(vec![
        (IdentityId([1; 32]), DomainId("acme".into())),
        (IdentityId([2; 32]), DomainId("acme".into())),
    ]);
    let inside = unit(1, 2, 1_000, false, false);
    assert!(!is_score_eligible(&inside, &domains));
    assert!(!is_organic(&inside, &domains));
    let outside = unit(1, 3, 1_000, false, false);
    assert!(is_score_eligible(&outside, &domains));
}

#[test]
fn single_payer_earns_zero_organic_value() {
    let mut per_payer: KeyedMap<IdentityId, u128> = KeyedMap::new();
    per_payer.insert(IdentityId([9; 32]), 500u128);
    let bps = counterparty_discount_bps(&per_payer, &ClassifierParams::default()).unwrap();
    assert_eq!(bps, 0);
}

#[test]
fn invalid_params_are_rejected() {
    let params = ClassifierParams {
        top_payer_full_bps: 8_000,
        top_payer_zero_bps: 8_000,
    };
    assert!(matches!(
        organic_settled_value(&[], &DomainMap::default(), &params),
        Err(AipowError::InvalidParameter(_))
    ));
}

fn discount(values: &[u128], params: &ClassifierParams) -> Result<u32, AipowError> {
    let mut per_payer: KeyedMap<IdentityId, u128> = KeyedMap::new();
    for (i, value) in values.iter().enumerate() {
        per_payer.insert(IdentityId([i as u8; 32]), *value);
    }
    counterparty_discount_bps(&per_payer, params)
}

#[test]
fn the_discount_decays_between_its_thresholds() {
    let params = ClassifierParams::default();
    assert_eq!(discount(&[], &params), Ok(10_000));
    assert_eq!(discount(&[0, 0], &params), Ok(10_000));
    assert_eq!(discount(&[1, 1], &params), Ok(10_000));
    assert_eq!(discount(&[2, 1], &params), Ok(6_668));
    assert_eq!(discount(&[9_999, 1], &params), Ok(2));
    assert_eq!(discount(&[1_000_000, 1], &params), Ok(2));
    let narrow = ClassifierParams {
        top_payer_full_bps: 2_000,
        top_payer_zero_bps: 5_000,
    };
    assert_eq!(discount(&[3, 2, 2, 2, 1], &narrow), Ok(6_666));
    assert_eq!(discount(&[1, 1], &narrow), Ok(0));
}

#[test]
fn discounts_report_overflow() {
    let params = ClassifierParams::default();
    assert_eq!(discount(&[u128::MAX, 1], &params), Err(AipowError::Overflow));
    assert_eq!(discount(&[u128::MAX], &params), Err(AipowError::Overflow));
    assert_eq!(
        discount(&[u128::MAX / 10_000], &params),
        Ok(0)
    );
}

#[test]
fn organic_value_ignores_order_and_excluded_units() {
    let params = ClassifierParams::default();
    let mut units = vec![
        unit(1, 2, 300, false, false),
        unit(1, 3, 200, false, false),
        unit(4, 2, 100, false, false),
        unit(4, 5, 100, false, false),
    ];
    // 500 at a 6_000 bps share -> 8_000 bps; 200 at full value.
    let value = organic_settled_value(&units, &DomainMap::default(), &params).unwrap();
    assert_eq!(value, 600);
    units.reverse();
    units.push(unit(1, 9, 9_000, true, false));
    units.push(unit(1, 9, 9_000, false, true));
    units.push(unit(1, 1, 9_000, false, false));
    assert_eq!(
        organic_settled_value(&units, &DomainMap::default(), &params).unwrap(),
        value
    );
}

#[test]
fn which_member_of_a_domain_paid_does_not_matter() {
    let domains = DomainMap::from_pairs(vec![
        (IdentityId([2; 32]), DomainId("acme".into())),
        (IdentityId([3; 32]), DomainId("acme".into())),
    ]);
    let params = ClassifierParams::default();
    let spread = vec![
        unit(1, 2, 300, false, false),
        unit(1, 3, 100, false, false),
        unit(1, 9, 200, false, false),
    ];
    let lumped = vec![
        unit(1, 2, 300, false, false),
        unit(1, 2, 100, false, false),
        unit(1, 9, 200, false, false),
    ];
    // 400 of 600 from one counterparty: 6_666 bps, so 6_668 bps remain.
    assert_eq!(organic_settled_value(&spread, &domains, &params), Ok(400));
    assert_eq!(organic_settled_value(&lumped, &domains, &params), Ok(400));
    assert_eq!(
        organic_settled_value(&spread, &DomainMap::default(), &params),
        Ok(600)
    );
}
