use poiw_scorer::poiw::cli::{
    epoch_report, hex32, parse_arguments, parse_u128, parse_u32, parse_u64, run_over, Arguments,
    CliError, DEFAULT_K_PERCENT, DEFAULT_SCHEDULE_CAP,
};
use poiw_scorer::poiw::indexer::{EpochData, Fixture, FixtureError, FixtureSource};
use poiw_scorer::text::decimal_string;
use poiw_scorer::types::{
    CapabilityClass, EpochId, EvidenceLevel, IdentityId, PoiwError, ReliabilityInputs,
    SettledWorkUnit,
};

fn unit(earner: u8, payer: u8, price: u64) -> SettledWorkUnit {
    SettledWorkUnit {
        identity: IdentityId([earner; 32]),
        payer: IdentityId([payer; 32]),
        capability: CapabilityClass("embedding".into()),
        rate_card_value: price,
        settled_price: price,
        evidence: EvidenceLevel::Observed,
        is_challenge_task: false,
        payer_related: false,
    }
}

fn strings(texts: &[&str]) -> Vec<String> {
    texts.iter().map(|t| (*t).to_owned()).collect()
}

fn sample() -> EpochData {
    EpochData {
        units: vec![
            unit(2, 10, 30),
            unit(2, 11, 30),
            unit(1, 10, 10),
            unit(1, 11, 10),
        ],
        reliability: vec![],
    }
}

#[test]
fn numbers_are_read_as_decimal_within_their_range() {
    assert_eq!(parse_u128("0").unwrap(), 0);
    assert_eq!(parse_u128("+007").unwrap(), 7);
    assert_eq!(
        parse_u128("340282366920938463463374607431768211455").unwrap(),
        u128::MAX
    );
    assert_eq!(parse_u32("4294967295").unwrap(), u32::MAX);
    assert_eq!(parse_u64("18446744073709551615").unwrap(), u64::MAX);
    for bad in ["", "+", "-1", "1_000", " 1", "1 ", "0x1", "++1", "1e3", "٣"] {
        assert_eq!(parse_u128(bad), Err(CliError::BadNumber(bad.to_owned())));
    }
    for big in ["4294967296", "99999999999999999999999999999999999999999999"] {
        assert_eq!(parse_u32(big), Err(CliError::BadNumber(big.to_owned())));
    }
    let too_big = "340282366920938463463374607431768211456";
    assert_eq!(
        parse_u128(too_big),
        Err(CliError::BadNumber(too_big.to_owned()))
    );
}

#[test]
fn written_numbers_are_read_back() {
    for n in [0, 7, 10, 65_536, 1_000_000_007, u64::MAX] {
        let text = decimal_string(n);
        assert_eq!(text, format!("{n}"));
        assert_eq!(parse_u64(&text), Ok(n));
    }
}

#[test]
fn reports_ignore_the_order_of_units() {
    let mut shuffled = sample();
    shuffled.units.reverse();
    assert_eq!(
        epoch_report(&shuffled, EpochId(5), 1_000_000, 300),
        epoch_report(&sample(), EpochId(5), 1_000_000, 300)
    );
}

#[test]
fn hex32_writes_every_byte() {
    let mut bytes = [0u8; 32];
    bytes[31] = 0xfe;
    assert_eq!(hex32(&bytes), format!("{}fe", "00".repeat(31)));
}

#[test]
fn arguments_have_defaults() {
    assert_eq!(
        parse_arguments(&strings(&["f.json", "3"])).unwrap(),
        Arguments {
            fixture_path: "f.json".into(),
            epoch: EpochId(3),
            schedule_cap: DEFAULT_SCHEDULE_CAP,
            k_percent: DEFAULT_K_PERCENT,
        }
    );
    assert_eq!(DEFAULT_SCHEDULE_CAP, 1_170_000_000_000_000);
    assert_eq!(DEFAULT_K_PERCENT, 300);
    let all = parse_arguments(&strings(&["f.json", "3", "90", "80", "ignored"])).unwrap();
    assert_eq!((all.schedule_cap, all.k_percent), (90, 80));
}

#[test]
fn bad_arguments_are_reported_in_order() {
    assert_eq!(parse_arguments(&strings(&[])), Err(CliError::Usage));
    assert_eq!(parse_arguments(&strings(&["f.json"])), Err(CliError::Usage));
    assert_eq!(
        parse_arguments(&strings(&["f.json", "x", "y", "z"])),
        Err(CliError::BadNumber("x".into()))
    );
    assert_eq!(
        parse_arguments(&strings(&["f.json", "1", "y", "z"])),
        Err(CliError::BadNumber("y".into()))
    );
    assert_eq!(
        parse_arguments(&strings(&["f.json", "1", "2", "z"])),
        Err(CliError::BadNumber("z".into()))
    );
}

#[test]
fn reports_score_pay_and_commit() {
    let report = epoch_report(&sample(), EpochId(5), 1_000_000, 300).unwrap();
    assert_eq!(report.epoch, 5);
    assert_eq!(report.organic_settled_value, 80);
    assert_eq!(report.pool, 240);
    assert_eq!(report.entries.len(), 2);
    assert_eq!(report.entries[0].identity_hex, "01".repeat(32));
    assert_eq!(report.entries[0].score, 20);
    assert_eq!(report.entries[1].score, 60);
    // The cap is 5% of the pool; both shares are above it.
    assert_eq!(report.entries[0].payout, 12);
    assert_eq!(report.entries[1].payout, 12);
    assert_eq!(report.score_root_hex.len(), 64);
}

#[test]
fn report_roots_are_the_roots_of_the_scores() {
    let data = EpochData {
        units: vec![unit(1, 3, 10), unit(2, 3, 20)],
        reliability: vec![],
    };
    let report = epoch_report(&data, EpochId(1), 10, 300).unwrap();
    assert_eq!(
        report.score_root_hex,
        "2ffb072194cdc74c9295cfa1512b77fde81946b09b8160b1299a316d7614d33a"
    );
    // A single payer counts nothing, so nothing is emitted.
    assert_eq!(report.pool, 0);
    assert_eq!(report.entries[1].payout, 0);
}

#[test]
fn runs_report_what_goes_wrong() {
    let mut fixture = Fixture::default();
    let mut bad = sample();
    bad.reliability.push((
        IdentityId([1; 32]),
        ReliabilityInputs {
            settlement_success_bps: 10_001,
            dispute_loss_bps: 0,
            sla_breach_bps: 0,
        },
    ));
    fixture.epochs.insert(1, sample());
    fixture.epochs.insert(2, bad);
    let source = FixtureSource::new(fixture);
    let mut arguments = parse_arguments(&strings(&["f.json", "1"])).unwrap();
    assert_eq!(run_over(&source, &arguments).unwrap().pool, 240);
    arguments.epoch = EpochId(2);
    assert_eq!(
        run_over(&source, &arguments),
        Err(CliError::Score(PoiwError::InvalidParameter(
            "reliability inputs must be within 10_000 bps"
        )))
    );
    arguments.epoch = EpochId(9);
    assert_eq!(
        run_over(&source, &arguments),
        Err(CliError::Fixture(FixtureError::UnknownEpoch(9)))
    );
}
