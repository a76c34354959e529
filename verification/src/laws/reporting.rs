//! What the command line reports: the scores of the epoch's work, the pool
//! that its organic value allows, and everyone's part of that pool.

use vstd::prelude::*;
use vstd::utf8::encode_utf8;

use crate::classifier::ClassifierParams;
use crate::hex::hex_text;
use crate::laws::organic::{
    consumer_paid, is_organic_value, payers_one_by_one, scoring_reports_the_organic_value,
};
use crate::laws::payouts::{
    ordinary_pools_are_allocated, pool_is_attained, pools_are_paid_by_share, pro_rata, whole_score,
};
use crate::laws::plain::{record_is_sound, smaller};
use crate::laws::scoring::{
    identities_score_their_own_work, scored_for_own_work, sound_epochs_are_scored,
};
use crate::merkle::{root_of, CommitmentError, ScoreEntry};
use crate::poiw::cli::{
    committed, optional_number, report_of, scored_epochs_commit, CliError, OutputView,
    DEFAULT_K_PERCENT, DEFAULT_SCHEDULE_CAP,
};
use crate::poiw::score::{epoch_scores, pool_payouts};
use crate::score::{pool_size, IdentityScore, ScoreParams};
use crate::text::parsed_number;
use crate::types::{DomainMap, IdentityId, ReliabilityInputs, SettledWorkUnit};

verus! {

/// The published thresholds.
pub open spec fn published_thresholds() -> ClassifierParams {
    ClassifierParams { top_payer_full_bps: 5_000, top_payer_zero_bps: 10_000 }
}

/// The report says what was asked for; its pool is the smaller of the ceiling
/// and the percentage of the organic value; and it has a line for every
/// score, in order, with the identity in hex, the score, and the identity's
/// share of the pool or a twentieth of the pool, whichever is less. The root
/// is that of exactly those scores.
pub open spec fn reports(
    output: OutputView,
    scores: Seq<IdentityScore>,
    epoch: u64,
    schedule_cap: u128,
    k_percent: u32,
) -> bool {
    &&& output.epoch == epoch
    &&& output.schedule_cap == schedule_cap
    &&& output.k_percent == k_percent
    &&& output.pool == smaller(
        schedule_cap as int,
        (output.organic_settled_value * k_percent) as int / 100,
    )
    &&& output.entries.len() == scores.len()
    &&& forall|i: int|
        0 <= i < scores.len() ==> {
            &&& (#[trigger] output.entries[i]).identity_hex == hex_text(scores[i].identity.0@)
            &&& output.entries[i].score == scores[i].score
            &&& output.entries[i].payout == smaller(
                pro_rata(output.pool as int, scores[i].score as int, whole_score(scores)),
                (output.pool * 500) as int / 10_000,
            )
        }
    &&& exists|root: [u8; 32]|
        output.score_root_hex == hex_text(root@) && #[trigger] is_root_of_scores(root, scores)
}

/// The root commits to these scores.
pub open spec fn is_root_of_scores(root: [u8; 32], scores: Seq<IdentityScore>) -> bool {
    root_of(
        Seq::new(
            scores.len(),
            |i: int| ScoreEntry { identity: scores[i].identity, score: scores[i].score },
        ),
        encode_utf8("poiw-empty-v0"@),
    ) == Ok::<[u8; 32], CommitmentError>(root)
}

/// A report is on the scores and the organic value of the epoch's own units
/// and records.
pub proof fn reports_are_on_the_epoch(
    units: Seq<SettledWorkUnit>,
    reliability: Map<IdentityId, ReliabilityInputs>,
    epoch: u64,
    schedule_cap: u128,
    k_percent: u32,
)
    requires
        report_of(units, reliability, epoch, schedule_cap, k_percent) is Ok,
    ensures
        ({
            let output = report_of(units, reliability, epoch, schedule_cap, k_percent)->Ok_0;
            &&& is_organic_value(
                output.organic_settled_value,
                units,
                consumer_paid(),
                payers_one_by_one(),
                published_thresholds(),
            )
            &&& exists|scores: Seq<IdentityScore>| #[trigger]
                scored_for_own_work(scores, units, reliability) && reports(
                    output,
                    scores,
                    epoch,
                    schedule_cap,
                    k_percent,
                )
        }),
{
    let output = report_of(units, reliability, epoch, schedule_cap, k_percent)->Ok_0;
    let scored = epoch_scores(units, reliability, published_thresholds())->Ok_0;
    let scores = scored.scores;
    let no_domains: DomainMap = arbitrary();
    identities_score_their_own_work(units, reliability, published_thresholds());
    scoring_reports_the_organic_value(units, reliability, no_domains, published_thresholds());
    let organic = scored.organic_settled_value;
    assert(organic * k_percent >= 0) by (nonlinear_arith);
    pool_is_attained(schedule_cap, k_percent, organic);
    let cap = ScoreParams { payout_cap_share_bps: 500 };
    pools_are_paid_by_share(output.pool, scores, cap);
    let entries = Seq::new(
        scores.len(),
        |i: int| ScoreEntry { identity: scores[i].identity, score: scores[i].score },
    );
    assert(committed(scores) =~= entries);
    let root = root_of(committed(scores), encode_utf8("poiw-empty-v0"@))->Ok_0;
    assert(is_root_of_scores(root, scores));
    let payouts = pool_payouts(output.pool, scores, cap)->Ok_0;
    assert forall|i: int| 0 <= i < scores.len() implies {
        &&& (#[trigger] output.entries[i]).identity_hex == hex_text(scores[i].identity.0@)
        &&& output.entries[i].score == scores[i].score
        &&& output.entries[i].payout == smaller(
            pro_rata(output.pool as int, scores[i].score as int, whole_score(scores)),
            (output.pool * 500) as int / 10_000,
        )
    } by {
        assert(payouts[i].identity == scores[i].identity);
    }
    assert(reports(output, scores, epoch, schedule_cap, k_percent));
}

/// With sound records, an epoch that fits in memory is reported on, wherever
/// the pool and the scores stay below 64 bits and the percentage fits.
pub proof fn ordinary_epochs_are_reported(
    units: Seq<SettledWorkUnit>,
    reliability: Map<IdentityId, ReliabilityInputs>,
    epoch: u64,
    schedule_cap: u128,
    k_percent: u32,
)
    requires
        forall|id: IdentityId| #[trigger]
            reliability.dom().contains(id) ==> record_is_sound(reliability[id]),
        units.len() <= 0x1_0000_0000_0000,
        schedule_cap <= u64::MAX,
        forall|scores: Seq<IdentityScore>| #[trigger]
            scored_for_own_work(scores, units, reliability) ==> whole_score(scores) <= u64::MAX,
        forall|value: u128| #[trigger]
            is_organic_value(
                value,
                units,
                consumer_paid(),
                payers_one_by_one(),
                published_thresholds(),
            ) ==> value * k_percent <= u128::MAX,
    ensures
        report_of(units, reliability, epoch, schedule_cap, k_percent) is Ok,
{
    let no_domains: DomainMap = arbitrary();
    sound_epochs_are_scored(units, reliability, no_domains, published_thresholds());
    identities_score_their_own_work(units, reliability, published_thresholds());
    scoring_reports_the_organic_value(units, reliability, no_domains, published_thresholds());
    scored_epochs_commit(units, reliability, published_thresholds());
    let scored = epoch_scores(units, reliability, published_thresholds())->Ok_0;
    pool_is_attained(schedule_cap, k_percent, scored.organic_settled_value);
    let pool = pool_size(schedule_cap, k_percent, scored.organic_settled_value)->Ok_0;
    ordinary_pools_are_allocated(pool, scored.scores, ScoreParams { payout_cap_share_bps: 500 });
}

/// A report fails only where scoring, the pool or its allocation does, and
/// with that error.
pub proof fn reports_fail_with_scoring(
    units: Seq<SettledWorkUnit>,
    reliability: Map<IdentityId, ReliabilityInputs>,
    epoch: u64,
    schedule_cap: u128,
    k_percent: u32,
)
    ensures
        epoch_scores(units, reliability, published_thresholds()) matches Err(e) ==> report_of(
            units,
            reliability,
            epoch,
            schedule_cap,
            k_percent,
        ) == Err::<OutputView, CliError>(CliError::Score(e)),
        report_of(units, reliability, epoch, schedule_cap, k_percent) matches Err(e)
            ==> e is Score,
{
    if epoch_scores(units, reliability, published_thresholds()) is Ok {
        scored_epochs_commit(units, reliability, published_thresholds());
    }
}

/// An optional argument that is there is read as a number, and one that is
/// not takes its default: a ceiling of 1,170,000 TOS, and three times the
/// organic value.
pub proof fn absent_arguments_take_defaults(args: Seq<String>, at: int, max: nat, default: nat)
    ensures
        at >= args.len() ==> optional_number(args, at, max, default) == Some(default),
        0 <= at < args.len() ==> optional_number(args, at, max, default) == parsed_number(
            args[at]@,
            max,
        ),
        DEFAULT_SCHEDULE_CAP == 1_170_000 * 1_000_000_000,
        DEFAULT_K_PERCENT == 300,
{
}

} // verus!
