use std::cell::RefCell;

use poiw_scorer::hex;
use poiw_scorer::poiw::indexer::ChainSource;
use poiw_scorer::poiw::tosctld::{
    absorb_page, parse_evidence, parse_identity, row_to_unit, units_of_epoch, url_at, HttpGetJson,
    SettledWorkReply, TosctldError, TosctldSource, WireEvent, WireSettledWork, MAX_PAGES,
};
use poiw_scorer::types::{EpochId, EvidenceLevel, IdentityId};

fn addr(byte: u8) -> String {
    format!("0:{}", hex::encode(&[byte; 32]))
}

fn row(earner: u8, payer: u8, amount: u64, evidence: &str, observed_at: u64) -> WireEvent {
    WireEvent {
        address: addr(200),
        request_id: "".into(),
        earner: addr(earner),
        payer: addr(payer),
        amount,
        evidence: evidence.into(),
        observed_at,
    }
}

/// Serves scripted pages keyed by the requested offset.
struct CannedGetter {
    rows: Vec<WireEvent>,
    page_limit: usize,
    calls: RefCell<usize>,
}

#[derive(Debug, PartialEq)]
struct NoResponse;

impl HttpGetJson for &CannedGetter {
    type Error = NoResponse;

    fn get_json(&self, url: &str) -> Result<SettledWorkReply, Self::Error> {
        *self.calls.borrow_mut() += 1;
        let offset: usize = url
            .split("offset=")
            .nth(1)
            .and_then(|rest| rest.split('&').next())
            .and_then(|text| text.parse().ok())
            .ok_or(NoResponse)?;
        let page: Vec<WireEvent> = self
            .rows
            .iter()
            .skip(offset)
            .take(self.page_limit)
            .cloned()
            .collect();
        Ok(SettledWorkReply::Page(WireSettledWork {
            total: self.rows.len(),
            result: page,
        }))
    }
}

#[test]
fn maps_rows_to_units_and_buckets_by_observed_time() {
    let getter = CannedGetter {
        rows: vec![
            row(1, 10, 500, "Observed", 1_500),
            row(2, 10, 700, "Attested", 1_600),
            row(3, 10, 900, "Observed", 2_500),
        ],
        page_limit: 1_000,
        calls: RefCell::new(0),
    };
    let source = TosctldSource::new(&getter, "http://localhost:8080".into(), 1_000);
    let epoch1 = source.epoch_data(EpochId(1)).unwrap();
    assert_eq!(epoch1.units.len(), 2);
    assert_eq!(epoch1.units[0].identity, IdentityId([1; 32]));
    assert_eq!(epoch1.units[0].rate_card_value, 500);
    assert_eq!(epoch1.units[0].settled_price, 500);
    assert_eq!(epoch1.units[0].evidence, EvidenceLevel::Observed);
    assert_eq!(epoch1.units[1].evidence, EvidenceLevel::Attested);
    let epoch2 = source.epoch_data(EpochId(2)).unwrap();
    assert_eq!(epoch2.units.len(), 1);
    assert_eq!(epoch2.units[0].identity, IdentityId([3; 32]));
}

#[test]
fn paginates_until_the_reported_total() {
    let rows: Vec<WireEvent> = (0..5).map(|i| row(i, 10, 100, "Observed", 1_100)).collect();
    let getter = CannedGetter {
        rows,
        page_limit: 2,
        calls: RefCell::new(0),
    };
    let source = TosctldSource::new(&getter, "http://localhost:8080".into(), 1_000);
    let data = source.epoch_data(EpochId(1)).unwrap();
    assert_eq!(data.units.len(), 5);
    assert_eq!(*getter.calls.borrow(), 3); // pages of 2, 2, 1
}

#[test]
fn bad_rows_are_a_hard_error_not_a_skip() {
    let mut bad = row(1, 10, 100, "Observed", 1_100);
    bad.evidence = "Rumored".into();
    let getter = CannedGetter {
        rows: vec![bad],
        page_limit: 1_000,
        calls: RefCell::new(0),
    };
    let source = TosctldSource::new(&getter, "http://localhost:8080".into(), 1_000);
    assert!(matches!(
        source.epoch_data(EpochId(1)),
        Err(TosctldError::BadRow(_))
    ));

    let mut bad_addr = row(1, 10, 100, "Observed", 1_100);
    bad_addr.earner = "0:nothex".into();
    let getter = CannedGetter {
        rows: vec![bad_addr],
        page_limit: 1_000,
        calls: RefCell::new(0),
    };
    let source = TosctldSource::new(&getter, "http://localhost:8080".into(), 1_000);
    assert!(matches!(
        source.epoch_data(EpochId(1)),
        Err(TosctldError::BadRow(_))
    ));
}

#[test]
fn bad_rows_of_any_epoch_are_a_hard_error() {
    let rows = vec![
        row(2, 10, 100, "Observed", 1_999),
        row(1, 10, 100, "Rumored", 2_100),
        row(1, 10, 100, "Hearsay", 1_100),
    ];
    // The first bad row decides, whatever its epoch and the one asked for.
    for seconds in [0, 1, 1_000] {
        for epoch in [0, 1, 2, 3] {
            assert_eq!(
                units_of_epoch(&rows, seconds, EpochId(epoch)),
                Err("evidence Rumored".to_owned())
            );
        }
    }
    let mut bad_payer = row(1, 10, 100, "Observed", 2_100);
    bad_payer.payer = "0:nothex".into();
    let getter = CannedGetter {
        rows: vec![row(2, 10, 100, "Observed", 1_999), bad_payer],
        page_limit: 1,
        calls: RefCell::new(0),
    };
    let source = TosctldSource::new(&getter, "http://localhost:8080".into(), 1_000);
    assert_eq!(
        source.epoch_data(EpochId(1)),
        Err(TosctldError::BadRow("payer 0:nothex".to_owned()))
    );
}

#[test]
fn rows_outside_the_epoch_make_no_units() {
    let rows = vec![
        row(1, 10, 100, "Observed", 2_100),
        row(2, 10, 100, "Observed", 1_999),
    ];
    let units = units_of_epoch(&rows, 1_000, EpochId(1)).unwrap();
    assert_eq!(units.len(), 1);
    assert_eq!(units[0].identity, IdentityId([2; 32]));
    // Without an epoch length every row is of epoch 0.
    assert!(units_of_epoch(&rows, 0, EpochId(1)).unwrap().is_empty());
    assert_eq!(units_of_epoch(&rows, 0, EpochId(0)).unwrap().len(), 2);
}

#[test]
fn bad_rows_say_which_field_is_bad() {
    let mut bad = row(1, 10, 100, "Observed", 1_100);
    bad.payer = "x".into();
    assert_eq!(row_to_unit(&bad), Err("payer x".to_owned()));
    bad.earner = "-1:".into();
    assert_eq!(row_to_unit(&bad), Err("earner -1:".to_owned()));
    let good = row_to_unit(&row(4, 5, 6, "Replicated", 7)).unwrap();
    assert_eq!(good.capability.0, "default");
    assert!(!good.is_challenge_task && !good.payer_related);
    assert_eq!(good.evidence, EvidenceLevel::Replicated);
    assert_eq!(
        TosctldSource::<Broken>::to_unit(&bad),
        Err(TosctldError::BadRow("earner -1:".to_owned()))
    );
    assert_eq!(
        TosctldSource::<Broken>::to_unit(&row(4, 5, 6, "Replicated", 7)),
        Ok(good)
    );
}

#[test]
fn addresses_are_read_after_their_last_colon() {
    let plain = hex::encode(&[8; 32]);
    assert_eq!(parse_identity(&plain), Some(IdentityId([8; 32])));
    assert_eq!(
        parse_identity(&format!("a:b:{plain}")),
        Some(IdentityId([8; 32]))
    );
    assert_eq!(parse_identity(&format!("{plain}:")), None);
    assert_eq!(parse_identity(""), None);
}

#[test]
fn every_ladder_level_has_a_name() {
    for (name, level) in [
        ("Declared", EvidenceLevel::Declared),
        ("Observed", EvidenceLevel::Observed),
        ("Benchmarked", EvidenceLevel::Benchmarked),
        ("Audited", EvidenceLevel::Audited),
        ("Attested", EvidenceLevel::Attested),
        ("Replicated", EvidenceLevel::Replicated),
    ] {
        assert_eq!(parse_evidence(name), Some(level));
    }
    assert_eq!(parse_evidence("observed"), None);
}

#[test]
fn pages_are_asked_for_by_offset() {
    assert_eq!(
        url_at(&"http://h".to_owned(), 2_010),
        "http://h/poiw/settled-work?offset=2010&limit=1000"
    );
    assert_eq!(
        url_at(&String::new(), 0),
        "/poiw/settled-work?offset=0&limit=1000"
    );
}

#[test]
fn an_empty_page_ends_the_walk() {
    let mut rows = vec![row(1, 2, 3, "Observed", 4)];
    let empty = WireSettledWork {
        total: 99,
        result: vec![],
    };
    assert!(absorb_page(&mut rows, empty));
    let more = WireSettledWork {
        total: 99,
        result: vec![row(5, 6, 7, "Observed", 8)],
    };
    assert!(!absorb_page(&mut rows, more));
    assert_eq!(rows.len(), 2);
}

struct Endless;

impl HttpGetJson for Endless {
    type Error = NoResponse;

    fn get_json(&self, _url: &str) -> Result<SettledWorkReply, Self::Error> {
        Ok(SettledWorkReply::Page(WireSettledWork {
            total: usize::MAX,
            result: vec![row(1, 2, 3, "Observed", 4)],
        }))
    }
}

struct Broken(bool);

impl HttpGetJson for Broken {
    type Error = NoResponse;

    fn get_json(&self, _url: &str) -> Result<SettledWorkReply, Self::Error> {
        if self.0 {
            Ok(SettledWorkReply::Malformed)
        } else {
            Err(NoResponse)
        }
    }
}

#[test]
fn failures_of_the_endpoint_are_reported() {
    let shape = TosctldSource::new(Broken(true), String::new(), 1);
    assert_eq!(
        shape.epoch_data(EpochId(0)),
        Err(TosctldError::Shape("settled-work response"))
    );
    let transport = TosctldSource::new(Broken(false), String::new(), 1);
    assert_eq!(
        transport.epoch_data(EpochId(0)),
        Err(TosctldError::Transport(NoResponse))
    );
    let endless = TosctldSource::new(Endless, String::new(), 1);
    assert_eq!(endless.fetch_all(), Err(TosctldError::Pagination));
    assert_eq!(MAX_PAGES, 10_000);
}
