use poiw_scorer::keyed::KeyedMap;
use poiw_scorer::poiw::classifier::{
    is_organic, is_score_eligible, organic_settled_value, ClassifierParams,
};
use poiw_scorer::poiw::score::{
    allocate_pool, apply_bps, epoch_pool, maturation_schedule, reliability_factor_bps, score_epoch,
    work_unit_score, IdentityScore, ScoreParams,
};
use poiw_scorer::types::{
    CapabilityClass, EvidenceLevel, IdentityId, PoiwError, ReliabilityInputs, SettledWorkUnit,
};

fn unit(earner: u8, payer: u8, price: u64, evidence: EvidenceLevel) -> SettledWorkUnit {
    SettledWorkUnit {
        identity: IdentityId([earner; 32]),
        payer: IdentityId([payer; 32]),
        capability: CapabilityClass("embedding".into()),
        rate_card_value: price,
        settled_price: price,
        evidence,
        is_challenge_task: false,
        payer_related: false,
    }
}

#[test]
fn declared_work_scores_zero() {
    let declared = unit(1, 2, 10_000, EvidenceLevel::Declared);
    assert_eq!(work_unit_score(&declared).unwrap(), 0);
}

#[test]
fn settled_price_caps_the_rate_card_value() {
    let mut inflated = unit(1, 2, 0, EvidenceLevel::Observed);
    inflated.rate_card_value = 10_000;
    inflated.settled_price = 400;
    assert_eq!(work_unit_score(&inflated).unwrap(), 400);
}

#[test]
fn evidence_multiplier_scales_the_score() {
    let replicated = unit(1, 2, 1_000, EvidenceLevel::Replicated);
    assert_eq!(work_unit_score(&replicated).unwrap(), 2_000);
}

#[test]
fn unit_scores_are_floored_and_never_overflow() {
    assert_eq!(work_unit_score(&unit(1, 2, 3, EvidenceLevel::Audited)).unwrap(), 4);
    assert_eq!(
        work_unit_score(&unit(1, 2, u64::MAX, EvidenceLevel::Replicated)).unwrap(),
        u128::from(u64::MAX) * 2
    );
}

#[test]
fn apply_bps_reports_overflow() {
    assert!(apply_bps(u128::MAX, 10_000).is_err());
}

#[test]
fn apply_bps_floors() {
    assert_eq!(apply_bps(10_001, 2_500).unwrap(), 2_500);
    assert_eq!(apply_bps(3, 3_333).unwrap(), 0);
    assert_eq!(apply_bps(u128::MAX, 0).unwrap(), 0);
    assert_eq!(apply_bps(u128::MAX, 1).unwrap(), u128::MAX / 10_000);
    assert_eq!(apply_bps(u128::MAX, 2), Err(PoiwError::Overflow));
}

#[test]
fn reliability_defaults_neutral_rewards_clean_punishes_bad() {
    assert_eq!(reliability_factor_bps(None).unwrap(), 10_000);
    let clean = ReliabilityInputs {
        settlement_success_bps: 10_000,
        dispute_loss_bps: 0,
        sla_breach_bps: 0,
    };
    assert_eq!(reliability_factor_bps(Some(clean)).unwrap(), 11_000);
    let bad = ReliabilityInputs {
        settlement_success_bps: 2_000,
        dispute_loss_bps: 3_000,
        sla_breach_bps: 3_000,
    };
    assert_eq!(reliability_factor_bps(Some(bad)).unwrap(), 5_000);
    let invalid = ReliabilityInputs {
        settlement_success_bps: 10_001,
        dispute_loss_bps: 0,
        sla_breach_bps: 0,
    };
    assert!(reliability_factor_bps(Some(invalid)).is_err());
}

#[test]
fn reliability_penalties_subtract_down_to_the_floor() {
    let with_penalty = |penalty: u32| {
        reliability_factor_bps(Some(ReliabilityInputs {
            settlement_success_bps: 10_000,
            dispute_loss_bps: penalty,
            sla_breach_bps: 0,
        }))
    };
    assert_eq!(with_penalty(1).unwrap(), 9_999);
    assert_eq!(with_penalty(4_999).unwrap(), 5_001);
    assert_eq!(with_penalty(5_000).unwrap(), 5_000);
    assert_eq!(with_penalty(10_000).unwrap(), 5_000);
    assert_eq!(
        with_penalty(10_001),
        Err(PoiwError::InvalidParameter(
            "reliability inputs must be within 10_000 bps"
        ))
    );
}

#[test]
fn epoch_pool_is_demand_bounded() {
    // Organic value 1_000 at k=300% -> 3_000, below the 10_000 cap.
    assert_eq!(epoch_pool(10_000, 300, 1_000).unwrap(), 3_000);
    // Large demand saturates at the schedule cap.
    assert_eq!(epoch_pool(10_000, 300, 1_000_000).unwrap(), 10_000);
    // An empty network emits nothing.
    assert_eq!(epoch_pool(10_000, 300, 0).unwrap(), 0);
}

#[test]
fn epoch_pool_reports_overflow() {
    assert_eq!(epoch_pool(1, 300, u128::MAX), Err(PoiwError::Overflow));
}

#[test]
fn maturation_conserves_total_and_orders_remainder() {
    let schedule = maturation_schedule(1_003, 2_500, 8).unwrap();
    let streamed: u128 = schedule.stream.iter().sum();
    assert_eq!(schedule.immediate + streamed, 1_003);
    assert_eq!(schedule.stream.len(), 8);
    for pair in schedule.stream.windows(2) {
        assert!(pair[0] >= pair[1]);
    }
    assert!(maturation_schedule(1, 10_001, 8).is_err());
    assert!(maturation_schedule(1, 2_500, 0).is_err());
    let zero = maturation_schedule(0, 2_500, 8).unwrap();
    assert_eq!(zero.immediate, 0);
    assert_eq!(zero.stream.iter().sum::<u128>(), 0);
}

#[test]
fn maturation_gives_the_remainder_to_the_earliest_epochs() {
    let schedule = maturation_schedule(1_003, 2_500, 8).unwrap();
    assert_eq!(schedule.immediate, 250);
    assert_eq!(schedule.stream, vec![95, 94, 94, 94, 94, 94, 94, 94]);
    assert_eq!(
        maturation_schedule(u128::MAX, 2_500, 8),
        Err(PoiwError::Overflow)
    );
    assert_eq!(
        maturation_schedule(1, 10_001, 0),
        Err(PoiwError::InvalidParameter(
            "immediate_bps must not exceed 10_000"
        ))
    );
    assert_eq!(
        maturation_schedule(1, 10_000, 0),
        Err(PoiwError::InvalidParameter(
            "stream_epochs must be at least 1"
        ))
    );
}

#[test]
fn score_epoch_is_deterministic_and_filters_related() {
    let mut related = unit(1, 1, 5_000, EvidenceLevel::Observed);
    related.payer_related = true;
    let units = vec![
        unit(1, 10, 1_000, EvidenceLevel::Observed),
        unit(1, 11, 1_000, EvidenceLevel::Observed),
        unit(3, 10, 1_000, EvidenceLevel::Benchmarked),
        unit(3, 11, 1_000, EvidenceLevel::Benchmarked),
        related,
    ];
    let reliability = KeyedMap::new();
    let once = score_epoch(&units, &reliability, &ClassifierParams::default()).unwrap();
    let twice = score_epoch(&units, &reliability, &ClassifierParams::default()).unwrap();
    assert_eq!(once, twice);
    assert_eq!(once.scores.len(), 2);
    let earner_one = once
        .scores
        .iter()
        .find(|s| s.identity == IdentityId([1; 32]))
        .unwrap();
    let earner_three = once
        .scores
        .iter()
        .find(|s| s.identity == IdentityId([3; 32]))
        .unwrap();
    // Related-payer work contributed nothing; benchmarked evidence
    // outweighs observed at equal settled value.
    assert_eq!(earner_one.score, 2_000);
    assert_eq!(earner_three.score, 2_400);
    // Each earner's value is split evenly across two payers, so the
    // counterparty discount stays full and organic value is the sum
    // of the four organic settlements; the related unit is excluded.
    assert_eq!(once.organic_settled_value, 4_000);
}

#[test]
fn score_epoch_ignores_the_order_of_units() {
    let units = vec![
        unit(9, 10, 700, EvidenceLevel::Observed),
        unit(1, 11, 300, EvidenceLevel::Attested),
        unit(9, 12, 900, EvidenceLevel::Audited),
        unit(1, 10, 500, EvidenceLevel::Observed),
    ];
    let mut reversed = units.clone();
    reversed.reverse();
    let params = ClassifierParams::default();
    let forward = score_epoch(&units, &KeyedMap::new(), &params).unwrap();
    assert_eq!(forward, score_epoch(&reversed, &KeyedMap::new(), &params).unwrap());
    assert_eq!(forward.scores[0].identity, IdentityId([1; 32]));
    assert_eq!(forward.scores[0].score, 1_010);
    assert_eq!(forward.scores[1].score, 2_050);
}

#[test]
fn score_epoch_applies_reliability_and_counts_challenge_work() {
    let mut challenge = unit(1, 2, 1_000, EvidenceLevel::Observed);
    challenge.is_challenge_task = true;
    assert!(is_score_eligible(&challenge));
    assert!(!is_organic(&challenge));
    let mut reliability = KeyedMap::new();
    reliability.insert(
        IdentityId([1; 32]),
        ReliabilityInputs {
            settlement_success_bps: 10_000,
            dispute_loss_bps: 0,
            sla_breach_bps: 0,
        },
    );
    let scored = score_epoch(
        &[challenge],
        &reliability,
        &ClassifierParams::default(),
    )
    .unwrap();
    assert_eq!(scored.scores[0].score, 1_100);
    assert_eq!(scored.organic_settled_value, 0);

    reliability.insert(
        IdentityId([1; 32]),
        ReliabilityInputs {
            settlement_success_bps: 0,
            dispute_loss_bps: 20_000,
            sla_breach_bps: 0,
        },
    );
    assert_eq!(
        score_epoch(
            &[unit(1, 2, 1, EvidenceLevel::Observed)],
            &reliability,
            &ClassifierParams::default()
        ),
        Err(PoiwError::InvalidParameter(
            "reliability inputs must be within 10_000 bps"
        ))
    );
}

#[test]
fn organic_value_discounts_a_dominant_payer() {
    let params = ClassifierParams::default();
    let three_to_one = [
        unit(1, 2, 3_000, EvidenceLevel::Observed),
        unit(1, 3, 1_000, EvidenceLevel::Observed),
    ];
    assert_eq!(organic_settled_value(&three_to_one, &params).unwrap(), 2_000);
    let alone = [unit(1, 2, 3_000, EvidenceLevel::Observed)];
    assert_eq!(organic_settled_value(&alone, &params).unwrap(), 0);
    let narrow = ClassifierParams {
        top_payer_full_bps: 2_000,
        top_payer_zero_bps: 10_001,
    };
    assert_eq!(
        organic_settled_value(&alone, &narrow),
        Err(PoiwError::InvalidParameter(
            "top_payer_zero_bps must not exceed 10_000"
        ))
    );
}

#[test]
fn empty_epoch_scores_empty() {
    let result = score_epoch(&[], &KeyedMap::new(), &ClassifierParams::default()).unwrap();
    assert!(result.scores.is_empty());
    assert_eq!(result.organic_settled_value, 0);
}

#[test]
fn allocate_pool_caps_shares_and_burns_the_excess() {
    let scores = vec![
        IdentityScore {
            identity: IdentityId([1; 32]),
            score: 900,
        },
        IdentityScore {
            identity: IdentityId([2; 32]),
            score: 100,
        },
    ];
    let params = ScoreParams {
        payout_cap_share_bps: 2_000,
    };
    let payouts = allocate_pool(10_000, &scores, &params).unwrap();
    // Identity 1's pro-rata 9_000 is capped at 2_000; identity 2
    // keeps its uncapped 1_000. The 7_000 excess is never created.
    assert_eq!(payouts[0].amount, 2_000);
    assert_eq!(payouts[1].amount, 1_000);
    let created: u128 = payouts.iter().map(|p| p.amount).sum();
    assert!(created <= 10_000);
}

#[test]
fn allocate_pool_handles_zero_totals() {
    let scores = vec![IdentityScore {
        identity: IdentityId([1; 32]),
        score: 0,
    }];
    let payouts = allocate_pool(10_000, &scores, &ScoreParams::default()).unwrap();
    assert_eq!(payouts[0].amount, 0);
    let none = allocate_pool(0, &scores, &ScoreParams::default()).unwrap();
    assert_eq!(none[0].amount, 0);
}

#[test]
fn allocate_pool_rejects_bad_caps_and_reports_overflow() {
    let one = [IdentityScore {
        identity: IdentityId([1; 32]),
        score: 7,
    }];
    for share in [0, 10_001] {
        assert_eq!(
            allocate_pool(
                1,
                &one,
                &ScoreParams {
                    payout_cap_share_bps: share
                }
            ),
            Err(PoiwError::InvalidParameter(
                "payout_cap_share_bps must be within 1..=10_000"
            ))
        );
    }
    let huge = [
        IdentityScore {
            identity: IdentityId([1; 32]),
            score: u128::MAX,
        },
        one[0],
    ];
    assert_eq!(
        allocate_pool(1, &huge, &ScoreParams::default()),
        Err(PoiwError::Overflow)
    );
    assert_eq!(
        allocate_pool(u128::MAX, &one, &ScoreParams::default()),
        Err(PoiwError::Overflow)
    );
}
