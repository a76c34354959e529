//! The command line: `poiw-scorer <fixture.json> <epoch> [schedule_cap]
//! [k_percent]`.
//!
//! Reads the arguments, and runs the complete scoring pipeline over one epoch
//! of a fixture: per-identity scores and payouts, the organic settled value,
//! the demand-coupled pool, and the committed score root.

use vstd::prelude::*;
use vstd::utf8::encode_utf8;

use crate::hex;
use crate::hex::hex_text;
use crate::keyed::KeyedMap;
use crate::merkle::{has_duplicate, root_of};
use crate::order::{key_before, lex_irreflexive};
use crate::poiw::classifier::ClassifierParams;
use crate::poiw::commitment::{score_root, CommitmentError, ScoreEntry, EMPTY_DOMAIN};
use crate::poiw::indexer::{ChainSource, EpochData, FixtureError, FixtureSource};
use crate::poiw::score::{
    allocate_pool, epoch_pool, epoch_scores, pool_payouts, score_epoch, scores_are_ordered,
    scores_ignore_order, EpochScores, IdentityPayout, IdentityScore, ScoreParams,
};
use crate::score::pool_size;
use crate::selection::same_units;


use crate::text::{parse_decimal, parsed_number};
use crate::types::{
    last_assignment, EpochId, IdentityId, PoiwError, ReliabilityInputs, SettledWorkUnit,
};

verus! {

/// What can go wrong between the arguments and the report.
#[derive(Debug, PartialEq, Eq)]
pub enum CliError {
    /// Too few arguments.
    Usage,
    /// The fixture does not serve the epoch.
    Fixture(FixtureError),
    /// Scoring failed.
    Score(PoiwError),
    /// The score root could not be computed.
    Commitment(CommitmentError),
    /// An argument is not a number in range.
    BadNumber(String),
}

/// The per-epoch ceiling where none is given: about 1.17M TOS in nanotos, a
/// draft value.
pub const DEFAULT_SCHEDULE_CAP: u128 = 1_170_000_000_000_000;

/// The demand coupling where none is given: the bootstrap phase's 3.0.
pub const DEFAULT_K_PERCENT: u32 = 300;

/// What the arguments ask for.
#[derive(Debug, PartialEq, Eq)]
pub struct Arguments {
    pub fixture_path: String,
    pub epoch: EpochId,
    pub schedule_cap: u128,
    pub k_percent: u32,
}

/// One identity's line of the report.
#[derive(Debug, PartialEq, Eq)]
pub struct PayoutLine {
    pub identity_hex: String,
    pub score: u128,
    pub payout: u128,
}

/// The report on one epoch.
#[derive(Debug, PartialEq, Eq)]
pub struct Output {
    pub epoch: u64,
    pub organic_settled_value: u128,
    pub schedule_cap: u128,
    pub k_percent: u32,
    pub pool: u128,
    pub score_root_hex: String,
    pub entries: Vec<PayoutLine>,
}

/// What a [`PayoutLine`] says.
pub struct PayoutLineView {
    pub identity_hex: Seq<char>,
    pub score: u128,
    pub payout: u128,
}

/// What an [`Output`] says.
#[verifier::ext_equal]
pub struct OutputView {
    pub epoch: u64,
    pub organic_settled_value: u128,
    pub schedule_cap: u128,
    pub k_percent: u32,
    pub pool: u128,
    pub score_root_hex: Seq<char>,
    pub entries: Seq<PayoutLineView>,
}

impl View for PayoutLine {
    type V = PayoutLineView;

    open spec fn view(&self) -> PayoutLineView {
        PayoutLineView {
            identity_hex: self.identity_hex@,
            score: self.score,
            payout: self.payout,
        }
    }
}

impl View for Output {
    type V = OutputView;

    open spec fn view(&self) -> OutputView {
        OutputView {
            epoch: self.epoch,
            organic_settled_value: self.organic_settled_value,
            schedule_cap: self.schedule_cap,
            k_percent: self.k_percent,
            pool: self.pool,
            score_root_hex: self.score_root_hex@,
            entries: self.entries@.map_values(|l: PayoutLine| l@),
        }
    }
}

/// The lowercase hex form of 32 bytes.
pub fn hex32(bytes: &[u8; 32]) -> (r: String)
    ensures
        r@ == hex_text(bytes@),
{
    hex::encode(bytes.as_slice())
}

/// Reads a number of at most 128 bits.
pub fn parse_u128(text: &str) -> (r: Result<u128, CliError>)
    ensures
        r matches Ok(n) ==> parsed_number(text@, u128::MAX as nat) == Some(n as nat),
        r matches Err(e) ==> parsed_number(text@, u128::MAX as nat) is None && (
        e matches CliError::BadNumber(shown) && shown@ == text@),
{
    match parse_decimal(text, u128::MAX) {
        Some(n) => Ok(n),
        None => Err(CliError::BadNumber(text.to_owned())),
    }
}

/// Reads a number of at most 32 bits.
pub fn parse_u32(text: &str) -> (r: Result<u32, CliError>)
    ensures
        r matches Ok(n) ==> parsed_number(text@, u32::MAX as nat) == Some(n as nat),
        r matches Err(e) ==> parsed_number(text@, u32::MAX as nat) is None && (
        e matches CliError::BadNumber(shown) && shown@ == text@),
{
    match parse_decimal(text, u32::MAX as u128) {
        Some(n) => Ok(n as u32),
        None => Err(CliError::BadNumber(text.to_owned())),
    }
}

/// Reads a number of at most 64 bits.
pub fn parse_u64(text: &str) -> (r: Result<u64, CliError>)
    ensures
        r matches Ok(n) ==> parsed_number(text@, u64::MAX as nat) == Some(n as nat),
        r matches Err(e) ==> parsed_number(text@, u64::MAX as nat) is None && (
        e matches CliError::BadNumber(shown) && shown@ == text@),
{
    match parse_decimal(text, u64::MAX as u128) {
        Some(n) => Ok(n as u64),
        None => Err(CliError::BadNumber(text.to_owned())),
    }
}

/// The number at an optional position: the default where nothing stands
/// there.
pub open spec fn optional_number(
    args: Seq<String>,
    at: int,
    max: nat,
    default: nat,
) -> Option<nat> {
    if at < args.len() {
        parsed_number(args[at]@, max)
    } else {
        Some(default)
    }
}

/// Reads the arguments after the program's name: the fixture's path, the
/// epoch, and optionally the schedule cap and `k`. The first argument that is
/// no number in range is reported.
pub fn parse_arguments(args: &[String]) -> (r: Result<Arguments, CliError>)
    ensures
        r is Ok <==> {
            &&& args@.len() >= 2
            &&& parsed_number(args@[1]@, u64::MAX as nat) is Some
            &&& optional_number(args@, 2, u128::MAX as nat, DEFAULT_SCHEDULE_CAP as nat) is Some
            &&& optional_number(args@, 3, u32::MAX as nat, DEFAULT_K_PERCENT as nat) is Some
        },
        r matches Ok(a) ==> {
            &&& a.fixture_path@ == args@[0]@
            &&& parsed_number(args@[1]@, u64::MAX as nat) == Some(a.epoch.0 as nat)
            &&& optional_number(args@, 2, u128::MAX as nat, DEFAULT_SCHEDULE_CAP as nat) == Some(
                a.schedule_cap as nat,
            )
            &&& optional_number(args@, 3, u32::MAX as nat, DEFAULT_K_PERCENT as nat) == Some(
                a.k_percent as nat,
            )
        },
        r matches Err(e) ==> if args@.len() < 2 {
            e == CliError::Usage
        } else {
            e matches CliError::BadNumber(shown) && shown@ == (if parsed_number(
                args@[1]@,
                u64::MAX as nat,
            ) is None {
                args@[1]@
            } else if optional_number(args@, 2, u128::MAX as nat, DEFAULT_SCHEDULE_CAP as nat)
                is None {
                args@[2]@
            } else {
                args@[3]@
            })
        },
{
    if args.len() < 2 {
        return Err(CliError::Usage);
    }
    let epoch: u64 = match parse_u64(args[1].as_str()) {
        Ok(n) => n,
        Err(e) => {
            return Err(e);
        },
    };
    let schedule_cap: u128 = if args.len() > 2 {
        match parse_u128(args[2].as_str()) {
            Ok(n) => n,
            Err(e) => {
                return Err(e);
            },
        }
    } else {
        DEFAULT_SCHEDULE_CAP
    };
    let k_percent: u32 = if args.len() > 3 {
        match parse_u32(args[3].as_str()) {
            Ok(n) => n,
            Err(e) => {
                return Err(e);
            },
        }
    } else {
        DEFAULT_K_PERCENT
    };
    Ok(
        Arguments {
            fixture_path: args[0].clone(),
            epoch: EpochId(epoch),
            schedule_cap,
            k_percent,
        },
    )
}

/// The entries that are committed for some scores.
pub open spec fn committed(scores: Seq<IdentityScore>) -> Seq<ScoreEntry> {
    scores.map_values(|s: IdentityScore| ScoreEntry { identity: s.identity, score: s.score })
}

/// The lines of some scores and their payouts.
pub open spec fn report_lines(scores: Seq<IdentityScore>, payouts: Seq<IdentityPayout>) -> Seq<
    PayoutLineView,
> {
    Seq::new(
        scores.len(),
        |i: int|
            PayoutLineView {
                identity_hex: hex_text(scores[i].identity.0@),
                score: scores[i].score,
                payout: payouts[i].amount,
            },
    )
}

/// The draft classifier thresholds.
pub open spec fn draft_thresholds() -> ClassifierParams {
    ClassifierParams { top_payer_full_bps: 5_000, top_payer_zero_bps: 10_000 }
}

/// The draft payout cap.
pub open spec fn draft_cap() -> ScoreParams {
    ScoreParams { payout_cap_share_bps: 500 }
}

/// The report on one epoch's units.
pub open spec fn report_of(
    units: Seq<SettledWorkUnit>,
    reliability: Map<IdentityId, ReliabilityInputs>,
    epoch: u64,
    schedule_cap: u128,
    k_percent: u32,
) -> Result<OutputView, CliError> {
    match epoch_scores(units, reliability, draft_thresholds()) {
        Err(e) => Err(CliError::Score(e)),
        Ok(scored) => match pool_size(schedule_cap, k_percent, scored.organic_settled_value) {
            Err(e) => Err(CliError::Score(e)),
            Ok(pool) => match pool_payouts(pool, scored.scores, draft_cap()) {
                Err(e) => Err(CliError::Score(e)),
                Ok(payouts) => match root_of(committed(scored.scores), encode_utf8(EMPTY_DOMAIN@)) {
                    Err(e) => Err(CliError::Commitment(e)),
                    Ok(root) => Ok(
                        OutputView {
                            epoch,
                            organic_settled_value: scored.organic_settled_value,
                            schedule_cap,
                            k_percent,
                            pool,
                            score_root_hex: hex_text(root@),
                            entries: report_lines(scored.scores, payouts),
                        },
                    ),
                },
            },
        },
    }
}

/// Scores one epoch, allocates its pool and computes its root.
pub fn epoch_report(data: &EpochData, epoch: EpochId, schedule_cap: u128, k_percent: u32) -> (r:
    Result<Output, CliError>)
    ensures
        r matches Ok(output) ==> report_of(
            data.units@,
            last_assignment(data.reliability@),
            epoch.0,
            schedule_cap,
            k_percent,
        ) == Ok::<OutputView, CliError>(output@),
        r matches Err(e) ==> report_of(
            data.units@,
            last_assignment(data.reliability@),
            epoch.0,
            schedule_cap,
            k_percent,
        ) == Err::<OutputView, CliError>(e),
{
    let reliability: KeyedMap<IdentityId, ReliabilityInputs> = data.reliability_map();
    let scored: EpochScores = match score_epoch(
        data.units.as_slice(),
        &reliability,
        &ClassifierParams::default(),
    ) {
        Ok(scored) => scored,
        Err(e) => {
            return Err(CliError::Score(e));
        },
    };
    let pool: u128 = match epoch_pool(schedule_cap, k_percent, scored.organic_settled_value) {
        Ok(pool) => pool,
        Err(e) => {
            return Err(CliError::Score(e));
        },
    };
    let payouts: Vec<IdentityPayout> = match allocate_pool(
        pool,
        scored.scores.as_slice(),
        &ScoreParams::default(),
    ) {
        Ok(payouts) => payouts,
        Err(e) => {
            return Err(CliError::Score(e));
        },
    };
    proof {
        crate::poiw::score::pool_payouts_are_bounded(pool, scored.scores@, draft_cap());
    }
    let mut committed_entries: Vec<ScoreEntry> = Vec::new();
    let mut entries: Vec<PayoutLine> = Vec::new();
    let ghost lines = report_lines(scored.scores@, payouts@);
    let mut i: usize = 0;
    while i < scored.scores.len()
        invariant
            i <= scored.scores@.len(),
            payouts@.len() == scored.scores@.len(),
            lines == report_lines(scored.scores@, payouts@),
            committed_entries@ == committed(scored.scores@).take(i as int),
            entries@.map_values(|l: PayoutLine| l@) == lines.take(i as int),
        decreases scored.scores@.len() - i,
    {
        let score: IdentityScore = scored.scores[i];
        committed_entries.push(ScoreEntry { identity: score.identity, score: score.score });
        let line = PayoutLine {
            identity_hex: hex32(&score.identity.0),
            score: score.score,
            payout: payouts[i].amount,
        };
        let ghost before = entries@;
        let ghost said = line@;
        entries.push(line);
        assert(committed_entries@ =~= committed(scored.scores@).take(i + 1));
        assert(entries@.map_values(|l: PayoutLine| l@) =~= before.map_values(
            |l: PayoutLine| l@,
        ).push(said));
        assert(entries@.map_values(|l: PayoutLine| l@) =~= lines.take(i + 1));
        i = i + 1;
    }
    assert(committed_entries@ =~= committed(scored.scores@));
    assert(lines.take(i as int) =~= lines);
    let root: [u8; 32] = match score_root(committed_entries.as_slice()) {
        Ok(root) => root,
        Err(e) => {
            return Err(CliError::Commitment(e));
        },
    };
    Ok(
        Output {
            epoch: epoch.0,
            organic_settled_value: scored.organic_settled_value,
            schedule_cap,
            k_percent,
            pool,
            score_root_hex: hex32(&root),
            entries,
        },
    )
}

/// Reports on the epoch that the arguments ask for.
pub fn run_over(source: &FixtureSource, arguments: &Arguments) -> (r: Result<Output, CliError>)
    ensures
        !source.served().dom().contains(arguments.epoch.0) ==> r == Err::<Output, CliError>(
            CliError::Fixture(FixtureError::UnknownEpoch(arguments.epoch.0)),
        ),
        source.served().dom().contains(arguments.epoch.0) ==> {
            let data = source.served()[arguments.epoch.0];
            let report = report_of(
                data.units@,
                last_assignment(data.reliability@),
                arguments.epoch.0,
                arguments.schedule_cap,
                arguments.k_percent,
            );
            &&& r matches Ok(output) ==> report == Ok::<OutputView, CliError>(output@)
            &&& r matches Err(e) ==> report == Err::<OutputView, CliError>(e)
        },
{
    match source.epoch_data(arguments.epoch) {
        Ok(data) => epoch_report(
            &data,
            arguments.epoch,
            arguments.schedule_cap,
            arguments.k_percent,
        ),
        Err(e) => Err(CliError::Fixture(e)),
    }
}

/// The scores of an epoch never repeat an identity, so a report never fails
/// at its root.
pub proof fn scored_epochs_commit(
    units: Seq<SettledWorkUnit>,
    reliability: Map<IdentityId, ReliabilityInputs>,
    params: ClassifierParams,
)
    requires
        epoch_scores(units, reliability, params) is Ok,
    ensures
        !has_duplicate(committed(epoch_scores(units, reliability, params)->Ok_0.scores)),
{
    let scores = epoch_scores(units, reliability, params)->Ok_0.scores;
    let entries = committed(scores);
    scores_are_ordered(units, reliability, params);
    if has_duplicate(entries) {
        let (i, j) = choose|i: int, j: int|
            0 <= i < j < entries.len() && (#[trigger] entries[i]).identity == (
            #[trigger] entries[j]).identity;
        assert(key_before::<IdentityId>(scores[i].identity, scores[j].identity));
        lex_irreflexive(scores[i].identity.0@);
    }
}

/// The order in which units were settled does not matter to the report.
pub proof fn report_ignores_order(
    a: Seq<SettledWorkUnit>,
    b: Seq<SettledWorkUnit>,
    reliability: Map<IdentityId, ReliabilityInputs>,
    epoch: u64,
    schedule_cap: u128,
    k_percent: u32,
)
    requires
        same_units(a, b),
    ensures
        report_of(a, reliability, epoch, schedule_cap, k_percent) == report_of(
            b,
            reliability,
            epoch,
            schedule_cap,
            k_percent,
        ),
{
    scores_ignore_order(a, b, reliability, draft_thresholds());
}

} // verus!
