use poiw_scorer::poiw::indexer::{ChainSource, EpochData, Fixture, FixtureError, FixtureSource};
use poiw_scorer::types::{
    CapabilityClass, EpochId, EvidenceLevel, IdentityId, ReliabilityInputs, SettledWorkUnit,
};

fn inputs(success: u32) -> ReliabilityInputs {
    ReliabilityInputs {
        settlement_success_bps: success,
        dispute_loss_bps: 0,
        sla_breach_bps: 0,
    }
}

fn data() -> EpochData {
    EpochData {
        units: vec![SettledWorkUnit {
            identity: IdentityId([1; 32]),
            payer: IdentityId([2; 32]),
            capability: CapabilityClass("embedding".into()),
            rate_card_value: 100,
            settled_price: 90,
            evidence: EvidenceLevel::Observed,
            is_challenge_task: false,
            payer_related: false,
        }],
        reliability: vec![(IdentityId([1; 32]), inputs(10_000))],
    }
}

#[test]
fn fixture_round_trips_and_serves_epochs() {
    let mut fixture = Fixture::default();
    fixture.epochs.insert(7, data());
    let source = FixtureSource::new(fixture);
    let data = source.epoch_data(EpochId(7)).unwrap();
    assert_eq!(data.units.len(), 1);
    assert_eq!(data.reliability_map().len(), 1);
    assert_eq!(
        source.epoch_data(EpochId(8)),
        Err(FixtureError::UnknownEpoch(8))
    );
}

#[test]
fn served_epochs_are_exact_copies_listed_in_order() {
    let mut fixture = Fixture::default();
    for epoch in [300, 7, 20] {
        fixture.epochs.insert(epoch, data());
    }
    let source = FixtureSource::new(fixture);
    assert_eq!(
        source.epochs(),
        vec![EpochId(7), EpochId(20), EpochId(300)]
    );
    assert_eq!(source.epoch_data(EpochId(20)).unwrap(), data());
}

#[test]
fn the_last_reliability_pair_of_an_identity_counts() {
    let mut twice = data();
    twice.reliability.push((IdentityId([1; 32]), inputs(9_000)));
    twice.reliability.push((IdentityId([0; 32]), inputs(8_000)));
    let map = twice.reliability_map();
    assert_eq!(map.len(), 2);
    assert_eq!(map.get(&IdentityId([1; 32])), Some(&inputs(9_000)));
    assert_eq!(*map.key_at(0), IdentityId([0; 32]));
}
