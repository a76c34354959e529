use poiw_scorer::hex;
use poiw_scorer::keyed::KeyedMap;
use poiw_scorer::types::{
    AttributionError, DomainId, DomainKey, DomainMap, EvidenceLevel, IdentityId, RateCard,
    WorkAttribution,
};
use poiw_scorer::vocabulary;

#[test]
fn declared_evidence_multiplies_to_zero() {
    assert_eq!(EvidenceLevel::Declared.multiplier_percent(), 0);
}

#[test]
fn evidence_ladder_is_strictly_increasing() {
    let ladder = [
        EvidenceLevel::Declared,
        EvidenceLevel::Observed,
        EvidenceLevel::Benchmarked,
        EvidenceLevel::Audited,
        EvidenceLevel::Attested,
        EvidenceLevel::Replicated,
    ];
    for pair in ladder.windows(2) {
        assert!(pair[0].multiplier_percent() < pair[1].multiplier_percent());
    }
}

#[test]
fn evidence_multipliers_have_their_published_values() {
    assert_eq!(EvidenceLevel::Observed.multiplier_percent(), 100);
    assert_eq!(EvidenceLevel::Benchmarked.multiplier_percent(), 120);
    assert_eq!(EvidenceLevel::Audited.multiplier_percent(), 150);
    assert_eq!(EvidenceLevel::Attested.multiplier_percent(), 170);
    assert_eq!(EvidenceLevel::Replicated.multiplier_percent(), 200);
}

#[test]
fn domain_map_defaults_to_singleton_domains() {
    let map = DomainMap::from_pairs(vec![
        (IdentityId([1; 32]), DomainId("acme".into())),
        (IdentityId([2; 32]), DomainId("acme".into())),
    ]);
    assert!(map.same_domain(IdentityId([1; 32]), IdentityId([2; 32])));
    assert!(!map.same_domain(IdentityId([1; 32]), IdentityId([3; 32])));
    assert!(!map.same_domain(IdentityId([3; 32]), IdentityId([4; 32])));
    assert!(map.same_domain(IdentityId([3; 32]), IdentityId([3; 32])));
}

#[test]
fn the_last_disclosure_of_an_identity_counts() {
    let map = DomainMap::from_pairs(vec![
        (IdentityId([1; 32]), DomainId("acme".into())),
        (IdentityId([1; 32]), DomainId("globex".into())),
    ]);
    assert_eq!(
        map.domain_of(IdentityId([1; 32])),
        DomainKey::Declared(DomainId("globex".into()))
    );
    assert_eq!(
        map.domain_of(IdentityId([2; 32])),
        DomainKey::Solo(IdentityId([2; 32]))
    );
}

#[test]
fn hex_round_trips_and_rejects_malformed() {
    let bytes = [0u8, 15, 16, 255];
    let text = hex::encode(&bytes);
    assert_eq!(text, "000f10ff");
    assert_eq!(hex::decode(&text).unwrap(), bytes.to_vec());
    assert_eq!(hex::decode_array::<4>(&text).unwrap(), bytes);
    assert!(hex::decode("abc").is_none());
    assert!(hex::decode("zz").is_none());
    assert!(hex::decode_array::<3>(&text).is_none());
}

#[test]
fn hex_decoding_takes_either_case_and_only_ascii_digits() {
    assert_eq!(hex::decode("aBcD").unwrap(), vec![0xab, 0xcd]);
    assert_eq!(hex::encode(&hex::decode("aBcD09").unwrap()), "abcd09");
    assert_eq!(hex::decode("").unwrap(), Vec::<u8>::new());
    assert!(hex::decode("0x").is_none());
    assert!(hex::decode("é").is_none());
    assert!(hex::decode("٣٣").is_none());
    for byte in 0u8..=255 {
        let text = hex::encode(&[byte]);
        assert_eq!(text, format!("{byte:02x}"));
        assert_eq!(hex::decode(&text).unwrap(), vec![byte]);
    }
}

fn attribution(class: &str, unit: &str, work_units: u64) -> WorkAttribution {
    WorkAttribution {
        capability_class: class.into(),
        unit: unit.into(),
        work_units,
        rate_card_version: vocabulary::RATE_CARD_VERSION.into(),
        evidence_level: EvidenceLevel::Observed,
        earner_identity_commitment: None,
        payer_identity_commitment: None,
        challenge_task: false,
    }
}

fn card() -> RateCard {
    let mut prices = KeyedMap::new();
    prices.insert("text-generation".to_owned(), 2_000_000u64);
    RateCard {
        version: vocabulary::RATE_CARD_VERSION.into(),
        prices,
    }
}

#[test]
fn clones_hold_the_same_entries() {
    let map = DomainMap::from_pairs(vec![
        (IdentityId([3; 32]), DomainId("acme".into())),
        (IdentityId([1; 32]), DomainId("globex".into())),
    ]);
    assert_eq!(map.clone(), map);
    let mut priced = card();
    priced.prices.insert("embedding".to_owned(), 7);
    assert_eq!(priced.clone(), priced);
    assert_ne!(priced, card());
}

#[test]
fn attribution_values_measured_work_by_the_rate_card() {
    let unit = attribution("text-generation", "kilo-output-tokens", 3)
        .to_settled_work_unit(IdentityId([1; 32]), IdentityId([2; 32]), 9_000_000, &card())
        .unwrap();
    // 3 kilo-tokens x 2_000_000 nanotos = 6_000_000, independent of
    // the settled price (which still caps the score downstream).
    assert_eq!(unit.rate_card_value, 6_000_000);
    assert_eq!(unit.settled_price, 9_000_000);
    assert_eq!(unit.capability.0, "text-generation");
    assert_eq!(unit.evidence, EvidenceLevel::Observed);
    assert!(!unit.is_challenge_task);
}

#[test]
fn default_class_carries_the_settled_amount_unpriced() {
    let unit = attribution("default", "settled-nanotos", 7_000)
        .to_settled_work_unit(IdentityId([1; 32]), IdentityId([2; 32]), 7_000, &card())
        .unwrap();
    assert_eq!(unit.rate_card_value, 7_000);
    assert_eq!(unit.settled_price, 7_000);
}

#[test]
fn attribution_conversion_rejects_malformed_and_unpriceable() {
    let earner = IdentityId([1; 32]);
    let payer = IdentityId([2; 32]);
    let mut wrong_version = attribution("text-generation", "kilo-output-tokens", 3);
    wrong_version.rate_card_version = "v99".into();
    assert!(matches!(
        wrong_version.to_settled_work_unit(earner, payer, 1, &card()),
        Err(AttributionError::UnknownVersion(_, _))
    ));
    assert!(matches!(
        attribution("rumor-mill", "call", 1).to_settled_work_unit(earner, payer, 1, &card()),
        Err(AttributionError::UnknownClass(_))
    ));
    assert!(matches!(
        attribution("embedding", "token", 1).to_settled_work_unit(earner, payer, 1, &card()),
        Err(AttributionError::UnitMismatch { .. })
    ));
    // A specific class absent from the rate card is unpriceable, not
    // silently zero.
    assert!(matches!(
        attribution("embedding", "call", 1).to_settled_work_unit(earner, payer, 1, &card()),
        Err(AttributionError::Unpriced { .. })
    ));
    assert!(matches!(
        attribution("text-generation", "kilo-output-tokens", u64::MAX).to_settled_work_unit(
            earner,
            payer,
            1,
            &card()
        ),
        Err(AttributionError::Overflow(_))
    ));
    let mut bad_commitment = attribution("text-generation", "kilo-output-tokens", 1);
    bad_commitment.earner_identity_commitment = Some("zz".into());
    assert!(matches!(
        bad_commitment.to_settled_work_unit(earner, payer, 1, &card()),
        Err(AttributionError::BadCommitment("earner"))
    ));
    let mut good_commitment = attribution("text-generation", "kilo-output-tokens", 1);
    good_commitment.payer_identity_commitment = Some(hex::encode(&[7u8; 32]));
    assert!(good_commitment
        .to_settled_work_unit(earner, payer, 1, &card())
        .is_ok());
}

#[test]
fn attribution_errors_say_what_was_found() {
    let earner = IdentityId([1; 32]);
    let payer = IdentityId([2; 32]);
    let mut stale_card = card();
    stale_card.version = "v1".into();
    assert_eq!(
        attribution("text-generation", "kilo-output-tokens", 3)
            .to_settled_work_unit(earner, payer, 1, &stale_card),
        Err(AttributionError::UnknownVersion("v0".into(), "v0"))
    );
    assert_eq!(
        attribution("embedding", "token", 1).to_settled_work_unit(earner, payer, 1, &card()),
        Err(AttributionError::UnitMismatch {
            class: "embedding".into(),
            expected: "call",
            got: "token".into(),
        })
    );
    assert_eq!(
        attribution("embedding", "call", 1).to_settled_work_unit(earner, payer, 1, &card()),
        Err(AttributionError::Unpriced {
            version: "v0".into(),
            class: "embedding".into(),
        })
    );
    let mut both_bad = attribution("text-generation", "kilo-output-tokens", 1);
    both_bad.payer_identity_commitment = Some("00".into());
    assert_eq!(
        both_bad.to_settled_work_unit(earner, payer, 1, &card()),
        Err(AttributionError::BadCommitment("payer"))
    );
    both_bad.earner_identity_commitment = Some("00".into());
    assert_eq!(
        both_bad.to_settled_work_unit(earner, payer, 1, &card()),
        Err(AttributionError::BadCommitment("earner"))
    );
}

#[test]
fn vocabulary_lookup_matches_the_registry() {
    assert_eq!(
        vocabulary::unit_for("text-generation"),
        Some("kilo-output-tokens")
    );
    assert_eq!(vocabulary::unit_for("default"), Some("settled-nanotos"));
    assert_eq!(vocabulary::unit_for("rumor-mill"), None);
    for (class, unit) in vocabulary::CLASS_UNITS {
        assert_eq!(vocabulary::unit_for(class), Some(unit));
    }
}

#[test]
fn keyed_maps_walk_in_key_order() {
    let mut map = KeyedMap::new();
    for (key, value) in [("pear", 1u64), ("apple", 2), ("fig", 3), ("apple", 4)] {
        map.insert(key.to_owned(), value);
    }
    assert_eq!(map.len(), 3);
    let keys: Vec<&str> = (0..map.len()).map(|i| map.key_at(i).as_str()).collect();
    assert_eq!(keys, vec!["apple", "fig", "pear"]);
    assert_eq!(map.get(&"apple".to_owned()), Some(&4));
    assert_eq!(*map.value_at(1), 3);
    assert_eq!(map.remove(&"fig".to_owned()), Some(3));
    assert_eq!(map.remove(&"fig".to_owned()), None);
    assert_eq!(map.get(&"fig".to_owned()), None);
    assert_eq!(map.len(), 2);
}
