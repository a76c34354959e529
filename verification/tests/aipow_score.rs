use poiw_scorer::aipow::classifier::ClassifierParams;
use poiw_scorer::aipow::score::{
    allocate_bucket, allocate_epoch, apply_bps, challenge_budget, epoch_pool, maturation_schedule,
    reliability_factor_bps, score_epoch, work_unit_score, ChallengeBudgetParams, EpochScores,
    IdentityScore, ScoreParams,
};
use poiw_scorer::keyed::KeyedMap;
use poiw_scorer::types::{
    AipowError, CapabilityClass, DomainId, DomainMap, EvidenceLevel, IdentityId,
    ReliabilityInputs, SettledWorkUnit,
};

fn unit(earner: u8, payer: u8, price: u64, evidence: EvidenceLevel) -> SettledWorkUnit {
    SettledWorkUnit {
        identity: IdentityId([earner; 32]),
        payer: IdentityId([payer; 32]),
        capability: CapabilityClass("embedding".into()),
        rate_card_value: price,
        settled_price: price,
        evidence,
        is_challenge_task: false,
        payer_related: false,
    }
}

#[test]
fn lib_declared_work_scores_zero() {
    let declared = unit(1, 2, 10_000, EvidenceLevel::Declared);
    assert_eq!(work_unit_score(&declared).unwrap(), 0);
}

#[test]
fn lib_settled_price_caps_the_rate_card_value() {
    let mut inflated = unit(1, 2, 0, EvidenceLevel::Observed);
    inflated.rate_card_value = 10_000;
    inflated.settled_price = 400;
    assert_eq!(work_unit_score(&inflated).unwrap(), 400);
}

#[test]
fn lib_evidence_multiplier_scales_the_score() {
    let replicated = unit(1, 2, 1_000, EvidenceLevel::Replicated);
    assert_eq!(work_unit_score(&replicated).unwrap(), 2_000);
}

#[test]
fn lib_apply_bps_reports_overflow() {
    assert!(apply_bps(u128::MAX, 10_000).is_err());
}

#[test]
fn lib_reliability_defaults_neutral_rewards_clean_punishes_bad() {
    assert_eq!(reliability_factor_bps(None).unwrap(), 10_000);
    let clean = ReliabilityInputs {
        settlement_success_bps: 10_000,
        dispute_loss_bps: 0,
        sla_breach_bps: 0,
    };
    assert_eq!(reliability_factor_bps(Some(clean)).unwrap(), 11_000);
    let bad = ReliabilityInputs {
        settlement_success_bps: 2_000,
        dispute_loss_bps: 3_000,
        sla_breach_bps: 3_000,
    };
    assert_eq!(reliability_factor_bps(Some(bad)).unwrap(), 5_000);
    let invalid = ReliabilityInputs {
        settlement_success_bps: 10_001,
        dispute_loss_bps: 0,
        sla_breach_bps: 0,
    };
    assert!(reliability_factor_bps(Some(invalid)).is_err());
}

#[test]
fn lib_epoch_pool_is_demand_bounded() {
    assert_eq!(epoch_pool(10_000, 300, 1_000).unwrap(), 3_000);
    assert_eq!(epoch_pool(10_000, 300, 1_000_000).unwrap(), 10_000);
    assert_eq!(epoch_pool(10_000, 300, 0).unwrap(), 0);
}

#[test]
fn challenge_budget_is_triple_bounded() {
    let params = ChallengeBudgetParams {
        max_pool_share_bps: 3_000,
        organic_multiple_percent: 200,
        cold_start_floor: 50,
        per_identity_cap: 1_000,
    };
    // Share bound binds: 30% of 10_000 = 3_000 < 2x organic 20_000.
    assert_eq!(challenge_budget(10_000, 10_000, &params).unwrap(), 3_000);
    // Organic bound binds: 2x organic 200 < 30% of 10_000.
    assert_eq!(challenge_budget(10_000, 100, &params).unwrap(), 200);
    // Cold start: zero pool, zero organic -> exactly the floor.
    assert_eq!(challenge_budget(0, 0, &params).unwrap(), 50);
}

#[test]
fn lib_maturation_conserves_total_and_orders_remainder() {
    let schedule = maturation_schedule(1_003, 2_500, 8).unwrap();
    let streamed: u128 = schedule.stream.iter().sum();
    assert_eq!(schedule.immediate + streamed, 1_003);
    assert_eq!(schedule.stream.len(), 8);
    for pair in schedule.stream.windows(2) {
        assert!(pair[0] >= pair[1]);
    }
    assert!(maturation_schedule(1, 10_001, 8).is_err());
    assert!(maturation_schedule(1, 2_500, 0).is_err());
    let zero = maturation_schedule(0, 2_500, 8).unwrap();
    assert_eq!(zero.immediate, 0);
    assert_eq!(zero.stream.iter().sum::<u128>(), 0);
}

#[test]
fn score_epoch_splits_buckets_and_filters_related() {
    let mut related = unit(1, 1, 5_000, EvidenceLevel::Observed);
    related.payer_related = true;
    let mut challenge = unit(4, 0, 1_000, EvidenceLevel::Benchmarked);
    challenge.is_challenge_task = true;
    let units = vec![
        unit(1, 10, 1_000, EvidenceLevel::Observed),
        unit(1, 11, 1_000, EvidenceLevel::Observed),
        unit(3, 10, 1_000, EvidenceLevel::Benchmarked),
        unit(3, 11, 1_000, EvidenceLevel::Benchmarked),
        related,
        challenge,
    ];
    let reliability = KeyedMap::new();
    let domains = DomainMap::default();
    let once =
        score_epoch(&units, &reliability, &domains, &ClassifierParams::default()).unwrap();
    let twice =
        score_epoch(&units, &reliability, &domains, &ClassifierParams::default()).unwrap();
    assert_eq!(once, twice);
    assert_eq!(once.organic.len(), 2);
    assert_eq!(once.challenge.len(), 1);
    let earner_one = once
        .organic
        .iter()
        .find(|s| s.identity == IdentityId([1; 32]))
        .unwrap();
    let earner_three = once
        .organic
        .iter()
        .find(|s| s.identity == IdentityId([3; 32]))
        .unwrap();
    assert_eq!(earner_one.score, 2_000);
    assert_eq!(earner_three.score, 2_400);
    assert_eq!(once.challenge[0].score, 1_200);
    // Challenge work never counts toward organic value.
    assert_eq!(once.organic_settled_value, 4_000);
}

#[test]
fn same_domain_work_is_excluded_from_scoring() {
    let domains = DomainMap::from_pairs(vec![
        (IdentityId([1; 32]), DomainId("acme".into())),
        (IdentityId([2; 32]), DomainId("acme".into())),
    ]);
    let units = vec![unit(1, 2, 1_000, EvidenceLevel::Observed)];
    let result = score_epoch(
        &units,
        &KeyedMap::new(),
        &domains,
        &ClassifierParams::default(),
    )
    .unwrap();
    assert!(result.organic.is_empty());
    assert_eq!(result.organic_settled_value, 0);
}

#[test]
fn lib_empty_epoch_scores_empty() {
    let result = score_epoch(
        &[],
        &KeyedMap::new(),
        &DomainMap::default(),
        &ClassifierParams::default(),
    )
    .unwrap();
    assert!(result.organic.is_empty());
    assert!(result.challenge.is_empty());
    assert_eq!(result.organic_settled_value, 0);
}

#[test]
fn allocate_bucket_caps_domains_and_burns_the_excess() {
    // Identities 1 and 2 share a control domain; identity 3 is solo.
    let domains = DomainMap::from_pairs(vec![
        (IdentityId([1; 32]), DomainId("acme".into())),
        (IdentityId([2; 32]), DomainId("acme".into())),
    ]);
    let scores = vec![
        IdentityScore {
            identity: IdentityId([1; 32]),
            score: 400,
        },
        IdentityScore {
            identity: IdentityId([2; 32]),
            score: 400,
        },
        IdentityScore {
            identity: IdentityId([3; 32]),
            score: 200,
        },
    ];
    let payouts = allocate_bucket(10_000, &scores, &domains, 2_000, None).unwrap();
    // Pro rata: 4_000 + 4_000 + 2_000. The acme domain's 8_000
    // exceeds the 2_000 cap, so both members scale to 1_000 each;
    // identity 3 keeps its uncapped 2_000.
    assert_eq!(payouts[0].amount, 1_000);
    assert_eq!(payouts[1].amount, 1_000);
    assert_eq!(payouts[2].amount, 2_000);
    let created: u128 = payouts.iter().map(|p| p.amount).sum();
    assert!(created <= 10_000);
}

#[test]
fn allocate_bucket_handles_zero_totals() {
    let scores = vec![IdentityScore {
        identity: IdentityId([1; 32]),
        score: 0,
    }];
    let payouts = allocate_bucket(10_000, &scores, &DomainMap::default(), 500, None).unwrap();
    assert_eq!(payouts[0].amount, 0);
    let none = allocate_bucket(0, &scores, &DomainMap::default(), 500, None).unwrap();
    assert_eq!(none[0].amount, 0);
}

#[test]
fn allocate_epoch_cold_start_pays_only_the_floor() {
    let scores = EpochScores {
        organic: vec![],
        challenge: vec![IdentityScore {
            identity: IdentityId([7; 32]),
            score: 500,
        }],
        organic_settled_value: 0,
    };
    let params = ChallengeBudgetParams {
        max_pool_share_bps: 3_000,
        organic_multiple_percent: 200,
        cold_start_floor: 60,
        per_identity_cap: 1_000,
    };
    let allocation = allocate_epoch(
        0,
        &scores,
        &DomainMap::default(),
        &ScoreParams {
            payout_cap_share_bps: 10_000,
        },
        &params,
    )
    .unwrap();
    assert_eq!(allocation.organic_budget, 0);
    assert_eq!(allocation.challenge_budget, 60);
    assert_eq!(allocation.challenge[0].amount, 60);
}

#[test]
fn cold_start_floor_does_not_cannibalize_organic_payouts() {
    let scores = EpochScores {
        organic: vec![IdentityScore {
            identity: IdentityId([1; 32]),
            score: 500,
        }],
        challenge: vec![IdentityScore {
            identity: IdentityId([7; 32]),
            score: 500,
        }],
        organic_settled_value: 40,
    };
    let params = ChallengeBudgetParams {
        max_pool_share_bps: 3_000,
        organic_multiple_percent: 200,
        cold_start_floor: 500,
        per_identity_cap: 1_000,
    };
    // Pool 100: challenge budget = max(min(30, 80), 500) = 500.
    // Only the 30 within the pool-share cap is carved out; the
    // remaining 470 of the floor is additive emission.
    let allocation = allocate_epoch(
        100,
        &scores,
        &DomainMap::default(),
        &ScoreParams {
            payout_cap_share_bps: 10_000,
        },
        &params,
    )
    .unwrap();
    assert_eq!(allocation.challenge_budget, 500);
    assert_eq!(allocation.organic_budget, 70);
    assert_eq!(allocation.organic[0].amount, 70);
    assert_eq!(allocation.challenge[0].amount, 500);
}

#[test]
fn allocate_epoch_enforces_per_identity_challenge_cap() {
    let scores = EpochScores {
        organic: vec![],
        challenge: vec![IdentityScore {
            identity: IdentityId([7; 32]),
            score: 500,
        }],
        organic_settled_value: 100_000,
    };
    let params = ChallengeBudgetParams {
        max_pool_share_bps: 3_000,
        organic_multiple_percent: 200,
        cold_start_floor: 0,
        per_identity_cap: 40,
    };
    let allocation = allocate_epoch(
        10_000,
        &scores,
        &DomainMap::default(),
        &ScoreParams {
            payout_cap_share_bps: 10_000,
        },
        &params,
    )
    .unwrap();
    // Challenge budget is 3_000 (share bound), but the single
    // identity may take at most 40 of it.
    assert_eq!(allocation.challenge_budget, 3_000);
    assert_eq!(allocation.challenge[0].amount, 40);
    assert_eq!(allocation.organic_budget, 7_000);
}

fn scored(id: u8, score: u128) -> IdentityScore {
    IdentityScore {
        identity: IdentityId([id; 32]),
        score,
    }
}

#[test]
fn draft_challenge_parameters_are_the_published_ones() {
    let params = ChallengeBudgetParams::default();
    assert_eq!(params.max_pool_share_bps, 3_000);
    assert_eq!(params.organic_multiple_percent, 200);
    assert_eq!(params.cold_start_floor, 2_000_000_000_000);
    assert_eq!(params.per_identity_cap, 100_000_000_000);
    assert_eq!(ScoreParams::default().payout_cap_share_bps, 500);
}

#[test]
fn challenge_budget_rejects_bad_parameters_and_overflow() {
    let mut params = ChallengeBudgetParams::default();
    assert_eq!(
        challenge_budget(u128::MAX, 0, &params),
        Err(AipowError::Overflow)
    );
    assert_eq!(
        challenge_budget(0, u128::MAX, &params),
        Err(AipowError::Overflow)
    );
    params.max_pool_share_bps = 10_001;
    assert_eq!(
        challenge_budget(0, 0, &params),
        Err(AipowError::InvalidParameter(
            "max_pool_share_bps must not exceed 10_000"
        ))
    );
}

#[test]
fn bucketed_scores_ignore_the_order_of_units() {
    let mut challenge = unit(4, 9, 800, EvidenceLevel::Audited);
    challenge.is_challenge_task = true;
    let units = vec![
        unit(9, 10, 700, EvidenceLevel::Observed),
        challenge,
        unit(9, 12, 900, EvidenceLevel::Audited),
        unit(1, 10, 500, EvidenceLevel::Observed),
    ];
    let mut reversed = units.clone();
    reversed.reverse();
    let params = ClassifierParams::default();
    let domains = DomainMap::default();
    let forward = score_epoch(&units, &KeyedMap::new(), &domains, &params).unwrap();
    let backward = score_epoch(&reversed, &KeyedMap::new(), &domains, &params).unwrap();
    assert_eq!(forward, backward);
    assert_eq!(forward.organic, vec![scored(1, 500), scored(9, 2_050)]);
    assert_eq!(forward.challenge, vec![scored(4, 1_200)]);
}

#[test]
fn allocate_bucket_never_pays_more_than_budget_cap_or_share() {
    let domains = DomainMap::from_pairs(vec![
        (IdentityId([1; 32]), DomainId("acme".into())),
        (IdentityId([3; 32]), DomainId("acme".into())),
    ]);
    let scores = vec![scored(1, 7), scored(2, 11), scored(3, 13), scored(4, 17)];
    let payouts = allocate_bucket(1_001, &scores, &domains, 3_000, Some(250)).unwrap();
    let amounts: Vec<u128> = payouts.iter().map(|p| p.amount).collect();
    // Pro rata 145, 229, 271, 354; capped per identity at 250; the acme
    // domain's 395 scales down to its 300.
    assert_eq!(amounts, vec![110, 229, 189, 250]);
    assert!(amounts.iter().sum::<u128>() <= 1_001);
    assert!(amounts[0] + amounts[2] <= 300);
}

#[test]
fn allocate_bucket_reports_overflow() {
    let domains = DomainMap::default();
    assert_eq!(
        allocate_bucket(1, &[scored(1, u128::MAX), scored(2, 1)], &domains, 500, None),
        Err(AipowError::Overflow)
    );
    assert_eq!(
        allocate_bucket(u128::MAX, &[scored(1, 2)], &domains, 500, None),
        Err(AipowError::Overflow)
    );
    assert_eq!(
        allocate_bucket(1, &[scored(1, 1)], &domains, u32::MAX, None)
            .unwrap()
            .len(),
        1
    );
    assert_eq!(
        allocate_bucket(u128::MAX / 2, &[scored(1, 1)], &domains, 10_000, None),
        Err(AipowError::Overflow)
    );
}

#[test]
fn allocate_epoch_checks_its_parameters_first() {
    let scores = EpochScores {
        organic: vec![],
        challenge: vec![],
        organic_settled_value: 0,
    };
    let bad_share = ScoreParams {
        payout_cap_share_bps: 0,
    };
    let bad_challenge = ChallengeBudgetParams {
        max_pool_share_bps: 10_001,
        ..ChallengeBudgetParams::default()
    };
    assert_eq!(
        allocate_epoch(0, &scores, &DomainMap::default(), &bad_share, &bad_challenge),
        Err(AipowError::InvalidParameter(
            "payout_cap_share_bps must be within 1..=10_000"
        ))
    );
    assert_eq!(
        allocate_epoch(
            0,
            &scores,
            &DomainMap::default(),
            &ScoreParams::default(),
            &bad_challenge
        ),
        Err(AipowError::InvalidParameter(
            "max_pool_share_bps must not exceed 10_000"
        ))
    );
}

#[test]
fn emission_stays_within_pool_and_floor() {
    let scores = EpochScores {
        organic: vec![scored(1, 3), scored(2, 5)],
        challenge: vec![scored(3, 1), scored(4, 1)],
        organic_settled_value: 1_000,
    };
    let mut params = ChallengeBudgetParams {
        max_pool_share_bps: 3_000,
        organic_multiple_percent: 200,
        cold_start_floor: 10,
        per_identity_cap: 1_000,
    };
    let all = ScoreParams {
        payout_cap_share_bps: 10_000,
    };
    let sum = |payouts: &[poiw_scorer::aipow::score::IdentityPayout]| -> u128 {
        payouts.iter().map(|p| p.amount).sum()
    };
    for floor in [0, 10, 299, 300, 301, 5_000] {
        params.cold_start_floor = floor;
        let a = allocate_epoch(1_000, &scores, &DomainMap::default(), &all, &params).unwrap();
        assert!(sum(&a.organic) <= a.organic_budget);
        assert!(sum(&a.challenge) <= a.challenge_budget);
        assert!(a.organic_budget >= 700);
        if a.challenge_budget <= 300 {
            assert_eq!(a.organic_budget + a.challenge_budget, 1_000);
        } else {
            assert_eq!(a.challenge_budget, floor);
            assert_eq!(a.organic_budget, 700);
        }
    }
}
