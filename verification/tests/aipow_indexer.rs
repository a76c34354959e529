use poiw_scorer::aipow::indexer::{
    AttributedSettlement, ChainSource, EpochData, Fixture, FixtureError, FixtureSource,
};
use poiw_scorer::keyed::KeyedMap;
use poiw_scorer::types::{
    AttributionError, CapabilityClass, DomainId, DomainKey, EpochId, EvidenceLevel, IdentityId,
    RateCard, ReliabilityInputs, SettledWorkUnit, WorkAttribution,
};

#[test]
fn lib_fixture_round_trips_and_serves_epochs() {
    let mut fixture = Fixture::default();
    fixture.epochs.insert(
        7,
        EpochData {
            units: vec![SettledWorkUnit {
                identity: IdentityId([1; 32]),
                payer: IdentityId([2; 32]),
                capability: CapabilityClass("embedding".into()),
                rate_card_value: 100,
                settled_price: 90,
                evidence: EvidenceLevel::Observed,
                is_challenge_task: false,
                payer_related: false,
            }],
            attributed: vec![],
            reliability: vec![(
                IdentityId([1; 32]),
                ReliabilityInputs {
                    settlement_success_bps: 10_000,
                    dispute_loss_bps: 0,
                    sla_breach_bps: 0,
                },
            )],
        },
    );
    let source = FixtureSource::new(fixture);
    let data = source.epoch_data(EpochId(7)).unwrap();
    assert_eq!(data.units.len(), 1);
    assert_eq!(data.reliability_map().len(), 1);
    assert_eq!(
        source.epoch_data(EpochId(8)),
        Err(FixtureError::UnknownEpoch(8))
    );
}

#[test]
fn attributed_settlements_value_under_a_rate_card() {
    let attribution = WorkAttribution {
        capability_class: "text-generation".into(),
        unit: "kilo-output-tokens".into(),
        work_units: 4,
        rate_card_version: "v0".into(),
        evidence_level: EvidenceLevel::Observed,
        earner_identity_commitment: None,
        payer_identity_commitment: None,
        challenge_task: false,
    };
    let data = EpochData {
        units: vec![],
        attributed: vec![AttributedSettlement {
            earner: IdentityId([5; 32]),
            payer: IdentityId([6; 32]),
            settled_price: 1_000,
            attribution: attribution.clone(),
        }],
        reliability: vec![],
    };
    let mut prices = KeyedMap::new();
    prices.insert("text-generation".to_owned(), 250u64);
    let card = RateCard {
        version: "v0".into(),
        prices,
    };
    let units = data.valued_units(&card).unwrap();
    assert_eq!(units.len(), 1);
    assert_eq!(units[0].rate_card_value, 1_000); // 4 x 250
    assert_eq!(units[0].settled_price, 1_000);

    // The same data under a card without the class is a hard error.
    let empty_card = RateCard {
        version: "v0".into(),
        prices: Default::default(),
    };
    assert!(data.valued_units(&empty_card).is_err());

    // Attributed rows are served as they are.
    let mut fixture = Fixture::default();
    fixture.epochs.insert(3, data.clone());
    let source = FixtureSource::new(fixture);
    assert_eq!(source.epoch_data(EpochId(3)).unwrap(), data);
}

#[test]
fn valued_units_come_after_the_pre_valued_ones_and_stop_at_the_first_error() {
    let attribution = |class: &str, unit: &str| WorkAttribution {
        capability_class: class.into(),
        unit: unit.into(),
        work_units: 2,
        rate_card_version: "v0".into(),
        evidence_level: EvidenceLevel::Audited,
        earner_identity_commitment: None,
        payer_identity_commitment: None,
        challenge_task: true,
    };
    let settled = |attribution: WorkAttribution| AttributedSettlement {
        earner: IdentityId([5; 32]),
        payer: IdentityId([6; 32]),
        settled_price: 70,
        attribution,
    };
    let unit = SettledWorkUnit {
        identity: IdentityId([1; 32]),
        payer: IdentityId([2; 32]),
        capability: CapabilityClass("embedding".into()),
        rate_card_value: 100,
        settled_price: 90,
        evidence: EvidenceLevel::Observed,
        is_challenge_task: false,
        payer_related: false,
    };
    let mut data = EpochData {
        units: vec![unit.clone()],
        attributed: vec![settled(attribution("default", "settled-nanotos"))],
        reliability: vec![],
    };
    let card = RateCard {
        version: "v0".into(),
        prices: Default::default(),
    };
    let units = data.valued_units(&card).unwrap();
    assert_eq!(units.len(), 2);
    assert_eq!(units[0], unit);
    assert_eq!(units[1].rate_card_value, 70);
    assert!(units[1].is_challenge_task);

    data.attributed.push(settled(attribution("embedding", "call")));
    data.attributed.push(settled(attribution("rumor-mill", "call")));
    assert_eq!(
        data.valued_units(&card),
        Err(AttributionError::Unpriced {
            version: "v0".into(),
            class: "embedding".into(),
        })
    );
}

#[test]
fn fixtures_disclose_domains_and_list_epochs() {
    let mut fixture = Fixture::default();
    fixture.epochs.insert(9, EpochData::default());
    fixture.epochs.insert(4, EpochData::default());
    fixture
        .domains
        .push((IdentityId([1; 32]), DomainId("acme".into())));
    let source = FixtureSource::new(fixture);
    assert_eq!(source.epochs(), vec![EpochId(4), EpochId(9)]);
    let domains = source.domain_map();
    assert_eq!(
        domains.domain_of(IdentityId([1; 32])),
        DomainKey::Declared(DomainId("acme".into()))
    );
    assert_eq!(
        domains.domain_of(IdentityId([2; 32])),
        DomainKey::Solo(IdentityId([2; 32]))
    );
}
