//! What the operations return, said of every call.

use vstd::prelude::*;
use vstd::utf8::encode_utf8;

use crate::aipow;
use crate::aipow::commitment::{CommitmentEnvelope, EnvelopeError, SignedCommitment, SigningKey};
use crate::aipow::rpc::Walker;
use crate::aipow::score::{ChallengeBudgetParams, EpochAllocation};
use crate::classifier::{counterparty_discount_bps, ClassifierParams};
use crate::crypto::{
    ed25519_accepts, ed25519_key_valid, ed25519_public_key, ed25519_signature, sha256_of,
};
use crate::hex;
use crate::hex::hex_bytes;
use crate::keyed::KeyedMap;
use crate::laws::committing::{
    commitments_verify_by_signature, digit_pairs, envelopes_are_laid_out,
    hex_has_the_high_digit_first, in_order, names_bytes, read_as, roots_are_over_all_entries,
    written_as,
};
use crate::laws::ingestion::{
    addresses_name_their_last_part, attributions_are_valued, bytes_named, can_be_valued,
    epoch_passed, every_row_of_the_epoch_is_a_unit, every_settlement_is_valued, is_last_pair,
    last_pair_decides, names_32_bytes, names_identity, published_level, refusals_say_why,
    refused_for, rows_before, rows_make_units,
};
use crate::laws::organic::{
    consumer_paid, discount_goes_by_the_largest_payer, discounted_for, is_organic_value,
    organic_value_by_identity, organic_value_by_party, other_party_paid, paid_by_each,
    payers_by_party, payers_one_by_one, scoring_reports_the_organic_value,
};
use crate::laws::payouts::{
    budgets_are_paid_by_share, challenge_budget_is_attained, epochs_are_paid_by_share,
    organic_multiple, paid_by_capped_share, paid_by_share, pool_is_attained, pool_share,
    pools_are_paid_by_share, schedules_are_refused, streams_are_even,
};
use crate::laws::plain::{
    domains_tell_parties_apart, earned_factor, is_floor, larger, one_party, published_percent,
    record_is_sound, smaller, worth,
};
use crate::laws::reporting::{published_thresholds, reports, reports_are_on_the_epoch};
use crate::laws::scoring::{
    both_buckets_score_own_work, identities_score_their_own_work, records_earn_their_factor,
    scored_for_own_kind, scored_for_own_work, sound_epochs_are_scored, units_score_their_worth,
};
use crate::merkle::{leaf_bytes, level_root, CommitmentError, ScoreEntry};
use crate::order::OrdKey;
use crate::poiw;
use crate::poiw::cli::{epoch_report, CliError, Output};
use crate::poiw::tosctld::{parse_evidence, parse_identity, row_to_unit, units_of_epoch, WireEvent};
use crate::score::{
    apply_bps, epoch_pool, maturation_schedule, reliability_factor_bps, work_unit_score,
    IdentityPayout, IdentityScore, MaturationSchedule, ScoreParams,
};
use crate::source::epoch_of_time;
use crate::sums::{as_nats, total};
use crate::types::{
    AttributionError, Bps, DomainId, DomainKey, DomainKeyView, DomainMap, EpochId, EvidenceLevel,
    IdentityId, Nanotos, PoiwError, RateCard, ReliabilityInputs, SettledWorkUnit, WorkAttribution,
};

verus! {

/// The unit stands for an attributed settlement: earned by the earner, paid
/// by the payer, worth what the card says.
pub open spec fn stands_for(
    unit: SettledWorkUnit,
    a: WorkAttribution,
    earner: IdentityId,
    payer: IdentityId,
    price: Nanotos,
    card: RateCard,
) -> bool {
    &&& unit.identity == earner
    &&& unit.payer == payer
    &&& unit.settled_price == price
    &&& unit.capability.0@ == a.capability_class@
    &&& unit.evidence == a.evidence_level
    &&& unit.is_challenge_task == a.challenge_task
    &&& !unit.payer_related
    &&& a.capability_class@ == "default"@ ==> unit.rate_card_value == price
    &&& a.capability_class@ != "default"@ ==> unit.rate_card_value == a.work_units
        * card.prices@[a.capability_class@]
}

/// An attribution becomes a unit exactly if it can be valued, and the unit
/// stands for it.
pub proof fn attributions_become_units(
    a: &WorkAttribution,
    earner: IdentityId,
    payer: IdentityId,
    price: Nanotos,
    card: &RateCard,
    r: Result<SettledWorkUnit, AttributionError>,
)
    requires
        call_ensures(
            WorkAttribution::to_settled_work_unit,
            (a, earner, payer, price, card),
            r,
        ),
    ensures
        r is Ok <==> can_be_valued(*a, *card),
        r matches Ok(unit) ==> stands_for(unit, *a, earner, payer, price, *card),
        r matches Err(e) ==> refused_for(*a, *card, e@),
{
    attributions_are_valued(*a, earner, payer, price, *card);
    refusals_say_why(*a, earner, payer, price, *card);
}

/// All units of an epoch: its own as they are, and then one for each
/// attributed settlement, in order.
pub proof fn settlements_become_units(
    data: &aipow::indexer::EpochData,
    card: &RateCard,
    r: Result<Vec<SettledWorkUnit>, AttributionError>,
)
    requires
        call_ensures(aipow::indexer::EpochData::valued_units, (data, card), r),
    ensures
        r is Ok <==> forall|i: int|
            0 <= i < data.attributed@.len() ==> can_be_valued(
                (#[trigger] data.attributed@[i]).attribution,
                *card,
            ),
        r matches Ok(units) ==> {
            &&& units@.len() == data.units@.len() + data.attributed@.len()
            &&& units@.take(data.units@.len() as int) == data.units@
            &&& forall|i: int|
                0 <= i < data.attributed@.len() ==> {
                    let s = #[trigger] data.attributed@[i];
                    stands_for(
                        units@[data.units@.len() + i],
                        s.attribution,
                        s.earner,
                        s.payer,
                        s.settled_price,
                        *card,
                    )
                }
        },
{
    every_settlement_is_valued(*data, *card);
    if let Ok(units) = r {
        let views = data.valued(*card)->Ok_0;
        assert forall|i: int| 0 <= i < data.attributed@.len() implies {
            let s = #[trigger] data.attributed@[i];
            stands_for(
                units@[data.units@.len() + i],
                s.attribution,
                s.earner,
                s.payer,
                s.settled_price,
                *card,
            )
        } by {
            assert(views[data.units@.len() + i] == units@[data.units@.len() + i]@);
        }
    }
}

/// A unit's score is its worth.
pub proof fn unit_scores_are_worth(unit: &SettledWorkUnit, r: Result<u128, PoiwError>)
    requires
        call_ensures(work_unit_score, (unit,), r),
    ensures
        r matches Ok(score) && score == worth(*unit),
{
    units_score_their_worth(*unit);
}

/// Factors in basis points are applied to amounts, floored; a level of
/// evidence has its published percentage.
pub proof fn factors_are_applied(
    value: u128,
    bps: Bps,
    r: Result<u128, PoiwError>,
    level: EvidenceLevel,
    percent: u64,
)
    requires
        call_ensures(apply_bps, (value, bps), r),
        call_ensures(EvidenceLevel::multiplier_percent, (level,), percent),
    ensures
        r is Ok <==> value * bps <= u128::MAX,
        r matches Ok(amount) ==> is_floor(amount as int, value * bps, 10_000),
        percent == published_percent(level),
{
    assert(value * bps >= 0) by (nonlinear_arith);
}

/// A sound record earns its factor, no record the neutral one, and an unsound
/// record none.
pub proof fn factors_are_earned(record: Option<ReliabilityInputs>, r: Result<Bps, PoiwError>)
    requires
        call_ensures(reliability_factor_bps, (record,), r),
    ensures
        r is Ok <==> (record matches Some(inputs) ==> record_is_sound(inputs)),
        r matches Ok(factor) ==> factor == earned_factor(record),
        r matches Err(e) ==> e is InvalidParameter,
{
    records_earn_their_factor(record);
}

/// The pool is the smaller of the ceiling and the percentage of the organic
/// value.
pub proof fn pools_are_coupled_to_demand(
    schedule_cap: u128,
    k_percent: u32,
    organic: u128,
    r: Result<u128, PoiwError>,
)
    requires
        call_ensures(epoch_pool, (schedule_cap, k_percent, organic), r),
    ensures
        r is Ok <==> organic * k_percent <= u128::MAX,
        r matches Ok(pool) ==> pool == smaller(
            schedule_cap as int,
            (organic * k_percent) as int / 100,
        ),
{
    pool_is_attained(schedule_cap, k_percent, organic);
}

/// A reward is split into its immediate part, floored, and an even stream of
/// all the rest over the epochs, larger parts first.
pub proof fn rewards_mature_evenly(
    reward: u128,
    immediate_bps: Bps,
    stream_epochs: u32,
    r: Result<MaturationSchedule, PoiwError>,
)
    requires
        call_ensures(maturation_schedule, (reward, immediate_bps, stream_epochs), r),
    ensures
        r is Ok <==> immediate_bps <= 10_000 && stream_epochs >= 1 && reward * immediate_bps
            <= u128::MAX,
        r matches Ok(schedule) ==> {
            let stream = schedule.stream@;
            &&& is_floor(schedule.immediate as int, reward * immediate_bps, 10_000)
            &&& stream.len() == stream_epochs
            &&& schedule.immediate + total(as_nats(stream)) == reward
            &&& forall|i: int, j: int|
                0 <= i <= j < stream.len() ==> #[trigger] stream[j] <= #[trigger] stream[i]
                    <= stream[j] + 1
        },
{
    schedules_are_refused(reward, immediate_bps, stream_epochs);
    if let Ok(schedule) = r {
        assert(reward * immediate_bps >= 0) by (nonlinear_arith);
        crate::score::scaled_within(reward as nat, immediate_bps as nat, 10_000);
        let rest = (reward - schedule.immediate) as nat;
        streams_are_even(rest, stream_epochs as nat);
    }
}

/// Scoring by identity gives every identity what its own work is worth, and
/// the organic value of the same units; it does so for every sound epoch that
/// fits in memory.
pub proof fn epochs_are_scored_by_identity(
    units: &[SettledWorkUnit],
    reliability: &KeyedMap<IdentityId, ReliabilityInputs>,
    params: &ClassifierParams,
    r: Result<poiw::score::EpochScores, PoiwError>,
)
    requires
        call_ensures(poiw::score::score_epoch, (units, reliability, params), r),
    ensures
        r matches Ok(scored) ==> scored_for_own_work(scored.scores@, units@, reliability@)
            && is_organic_value(
            scored.organic_settled_value,
            units@,
            consumer_paid(),
            payers_one_by_one(),
            *params,
        ),
        units@.len() <= 0x1_0000_0000_0000 && params.top_payer_full_bps < params.top_payer_zero_bps
            <= 10_000 && (forall|id: IdentityId| #[trigger]
            reliability@.dom().contains(id) ==> record_is_sound(reliability@[id])) ==> r is Ok,
{
    let no_domains: DomainMap = arbitrary();
    if r is Ok {
        identities_score_their_own_work(units@, reliability@, *params);
        scoring_reports_the_organic_value(units@, reliability@, no_domains, *params);
    }
    if units@.len() <= 0x1_0000_0000_0000 && params.top_payer_full_bps < params.top_payer_zero_bps
        <= 10_000 && (forall|id: IdentityId| #[trigger]
        reliability@.dom().contains(id) ==> record_is_sound(reliability@[id])) {
        sound_epochs_are_scored(units@, reliability@, no_domains, *params);
    }
}

/// Scoring by control domain gives every identity, in each kind of work, what
/// its own work for other parties is worth, and the organic value of the same
/// units; it does so for every sound epoch that fits in memory.
pub proof fn epochs_are_scored_by_party(
    units: &[SettledWorkUnit],
    reliability: &KeyedMap<IdentityId, ReliabilityInputs>,
    domains: &DomainMap,
    params: &ClassifierParams,
    r: Result<aipow::score::EpochScores, PoiwError>,
)
    requires
        call_ensures(aipow::score::score_epoch, (units, reliability, domains, params), r),
    ensures
        r matches Ok(scored) ==> {
            &&& scored_for_own_kind(scored.organic@, units@, reliability@, false, *domains)
            &&& scored_for_own_kind(scored.challenge@, units@, reliability@, true, *domains)
            &&& is_organic_value(
                scored.organic_settled_value,
                units@,
                other_party_paid(*domains),
                payers_by_party(*domains),
                *params,
            )
        },
        units@.len() <= 0x1_0000_0000_0000 && params.top_payer_full_bps < params.top_payer_zero_bps
            <= 10_000 && (forall|id: IdentityId| #[trigger]
            reliability@.dom().contains(id) ==> record_is_sound(reliability@[id])) ==> r is Ok,
{
    if r is Ok {
        both_buckets_score_own_work(units@, reliability@, *domains, *params);
        scoring_reports_the_organic_value(units@, reliability@, *domains, *params);
    }
    if units@.len() <= 0x1_0000_0000_0000 && params.top_payer_full_bps < params.top_payer_zero_bps
        <= 10_000 && (forall|id: IdentityId| #[trigger]
        reliability@.dom().contains(id) ==> record_is_sound(reliability@[id])) {
        sound_epochs_are_scored(units@, reliability@, *domains, *params);
    }
}

/// A unit is eligible unless its payer is related; by control domain, unless
/// its payer is one party with its earner. It is organic if it is no
/// challenge besides.
pub proof fn eligibility_is_by_payer(
    unit: &SettledWorkUnit,
    domains: &DomainMap,
    by_identity: (bool, bool),
    by_party: (bool, bool),
)
    requires
        call_ensures(poiw::classifier::is_score_eligible, (unit,), by_identity.0),
        call_ensures(poiw::classifier::is_organic, (unit,), by_identity.1),
        call_ensures(aipow::classifier::is_score_eligible, (unit, domains), by_party.0),
        call_ensures(aipow::classifier::is_organic, (unit, domains), by_party.1),
    ensures
        by_identity.0 == !unit.payer_related,
        by_identity.1 == (!unit.payer_related && !unit.is_challenge_task),
        by_party.0 == (!unit.payer_related && !one_party(*domains, unit.identity, unit.payer)),
        by_party.1 == (!unit.payer_related && !unit.is_challenge_task && !one_party(
            *domains,
            unit.identity,
            unit.payer,
        )),
{
}

/// The organic value is what all earners count for.
pub proof fn organic_values_are_counted(
    units: &[SettledWorkUnit],
    domains: &DomainMap,
    params: &ClassifierParams,
    by_identity: Result<u128, PoiwError>,
    by_party: Result<u128, PoiwError>,
)
    requires
        call_ensures(poiw::classifier::organic_settled_value, (units, params), by_identity),
        call_ensures(aipow::classifier::organic_settled_value, (units, domains, params), by_party),
    ensures
        by_identity matches Ok(value) ==> is_organic_value(
            value,
            units@,
            consumer_paid(),
            payers_one_by_one(),
            *params,
        ),
        by_party matches Ok(value) ==> is_organic_value(
            value,
            units@,
            other_party_paid(*domains),
            payers_by_party(*domains),
            *params,
        ),
{
    if by_identity is Ok {
        organic_value_by_identity(units@, *params);
    }
    if by_party is Ok {
        organic_value_by_party(units@, *domains, *params);
    }
}

/// The discount goes by the largest payer's share.
pub proof fn discounts_go_by_payers<K: OrdKey>(
    per_payer: &KeyedMap<K, u128>,
    params: &ClassifierParams,
    r: Result<Bps, PoiwError>,
)
    requires
        per_payer@.dom().finite(),
        call_ensures(counterparty_discount_bps::<K>, (per_payer, params), r),
    ensures
        r matches Ok(discount) ==> exists|payers: Seq<K::V>|
            {
                &&& #[trigger] payers.no_duplicates()
                &&& payers.to_set() == per_payer@.dom()
                &&& discounted_for(paid_by_each(per_payer@, payers), discount as int, *params)
            },
{
    if let Ok(discount) = r {
        discount_goes_by_the_largest_payer::<K>(per_payer@, *params, discount);
    }
}

/// A pool is paid by capped share.
pub proof fn pool_payouts_go_by_share(
    pool: u128,
    scores: &[IdentityScore],
    params: &ScoreParams,
    r: Result<Vec<IdentityPayout>, PoiwError>,
)
    requires
        call_ensures(poiw::score::allocate_pool, (pool, scores, params), r),
    ensures
        r matches Ok(payouts) ==> paid_by_capped_share(
            payouts@,
            pool,
            scores@,
            params.payout_cap_share_bps,
        ),
{
    if r is Ok {
        pools_are_paid_by_share(pool, scores@, *params);
    }
}

/// A budget is paid by share, under the caps that were given.
pub proof fn budget_payouts_go_by_share(
    budget: u128,
    scores: &[IdentityScore],
    domains: &DomainMap,
    cap_share_bps: Bps,
    cap: Option<u128>,
    r: Result<Vec<IdentityPayout>, PoiwError>,
)
    requires
        call_ensures(
            aipow::score::allocate_bucket,
            (budget, scores, domains, cap_share_bps, cap),
            r,
        ),
    ensures
        r matches Ok(payouts) ==> paid_by_share(
            payouts@,
            budget,
            scores@,
            *domains,
            cap_share_bps,
            cap,
        ),
{
    if r is Ok {
        budgets_are_paid_by_share(budget, scores@, *domains, cap_share_bps, cap);
    }
}

/// The challenge budget is attained.
pub proof fn challenge_budgets_are_attained(
    pool: u128,
    organic: u128,
    params: &ChallengeBudgetParams,
    r: Result<u128, PoiwError>,
)
    requires
        call_ensures(aipow::score::challenge_budget, (pool, organic, params), r),
    ensures
        r is Ok <==> params.max_pool_share_bps <= 10_000 && pool * params.max_pool_share_bps
            <= u128::MAX && organic * params.organic_multiple_percent <= u128::MAX,
        r matches Ok(budget) ==> budget == larger(
            params.cold_start_floor as int,
            smaller(pool_share(pool, *params), organic_multiple(organic, *params)),
        ),
{
    challenge_budget_is_attained(pool, organic, *params);
}

/// An epoch is paid in its two budgets, both by share, and only challenge
/// payouts are under the cap of one identity.
pub proof fn epoch_payouts_go_by_share(
    pool: u128,
    scores: &aipow::score::EpochScores,
    domains: &DomainMap,
    score_params: &ScoreParams,
    challenge_params: &ChallengeBudgetParams,
    r: Result<EpochAllocation, PoiwError>,
)
    requires
        call_ensures(
            aipow::score::allocate_epoch,
            (pool, scores, domains, score_params, challenge_params),
            r,
        ),
    ensures
        r matches Ok(a) ==> {
            &&& a.challenge_budget == larger(
                challenge_params.cold_start_floor as int,
                smaller(
                    pool_share(pool, *challenge_params),
                    organic_multiple(scores.organic_settled_value, *challenge_params),
                ),
            )
            &&& a.organic_budget == pool - smaller(
                a.challenge_budget as int,
                pool_share(pool, *challenge_params),
            )
            &&& paid_by_share(
                a.organic@,
                a.organic_budget,
                scores.organic@,
                *domains,
                score_params.payout_cap_share_bps,
                None,
            )
            &&& paid_by_share(
                a.challenge@,
                a.challenge_budget,
                scores.challenge@,
                *domains,
                score_params.payout_cap_share_bps,
                Some(challenge_params.per_identity_cap),
            )
        },
{
    if r is Ok {
        epochs_are_paid_by_share(pool, scores@, *domains, *score_params, *challenge_params);
    }
}

/// The root is that of the tree over all entries in ascending order, under
/// the pipeline's own domain where there are none.
pub open spec fn is_root(root: [u8; 32], entries: Seq<ScoreEntry>, domain: Seq<u8>) -> bool {
    if entries.len() == 0 {
        root == sha256_of(seq![2u8] + domain)
    } else {
        exists|listed: Seq<ScoreEntry>| #[trigger]
            in_order(listed, entries) && root == level_root(
                Seq::new(listed.len(), |i: int| sha256_of(leaf_bytes(listed[i]))),
            )
    }
}

/// A score root is over all entries, and refused exactly where two of them
/// name one identity.
pub proof fn score_roots_are_over_entries(
    entries: &[ScoreEntry],
    poiw_root: Result<[u8; 32], CommitmentError>,
    aipow_root: Result<[u8; 32], CommitmentError>,
)
    requires
        call_ensures(poiw::commitment::score_root, (entries,), poiw_root),
        call_ensures(aipow::commitment::score_root, (entries,), aipow_root),
    ensures
        poiw_root matches Ok(root) ==> is_root(root, entries@, encode_utf8("poiw-empty-v0"@)),
        aipow_root matches Ok(root) ==> is_root(root, entries@, encode_utf8("aipow-empty-v0"@)),
        (exists|i: int, j: int|
            0 <= i < j < entries@.len() && (#[trigger] entries@[i]).identity == (
            #[trigger] entries@[j]).identity) <==> poiw_root is Err,
        poiw_root is Err <==> aipow_root is Err,
{
    roots_are_over_all_entries(entries@, encode_utf8("poiw-empty-v0"@));
    roots_are_over_all_entries(entries@, encode_utf8("aipow-empty-v0"@));
}

/// The digest is of the canonical bytes, and both are there or neither.
pub proof fn digests_are_of_canonical_bytes(
    envelope: &CommitmentEnvelope,
    bytes: Result<Vec<u8>, EnvelopeError>,
    digest: Result<[u8; 32], EnvelopeError>,
)
    requires
        call_ensures(CommitmentEnvelope::canonical_bytes, (envelope,), bytes),
        call_ensures(CommitmentEnvelope::digest, (envelope,), digest),
    ensures
        bytes is Ok <==> names_32_bytes(envelope.score_root_hex@) && encode_utf8(
            envelope.methodology_version@,
        ).len() <= u32::MAX,
        bytes matches Ok(b) ==> {
            let domain = encode_utf8("aipow-commit-v0"@);
            let version = encode_utf8(envelope.methodology_version@);
            let d = domain.len() as int;
            let v = version.len() as int;
            &&& b@.len() == d + 12 + v + 72
            &&& b@.subrange(0, d) == domain
            &&& crate::bytes::be_value(b@.subrange(d, d + 8)) == envelope.epoch
            &&& crate::bytes::be_value(b@.subrange(d + 8, d + 12)) == v
            &&& b@.subrange(d + 12, d + 12 + v) == version
            &&& b@.subrange(d + 12 + v, d + 44 + v) == hex_bytes(envelope.score_root_hex@)
            &&& crate::bytes::be_value(b@.subrange(d + 44 + v, d + 52 + v))
                == envelope.entry_count
            &&& crate::bytes::be_value(b@.subrange(d + 52 + v, d + 68 + v))
                == envelope.total_score
            &&& crate::bytes::be_value(b@.subrange(d + 68 + v, d + 84 + v))
                == envelope.organic_settled_value
        },
        bytes matches Ok(b) ==> digest == Ok::<[u8; 32], EnvelopeError>(sha256_of(b@)),
        bytes matches Err(e) ==> digest == Err::<[u8; 32], EnvelopeError>(e),
{
    envelopes_are_laid_out(*envelope);
}

/// What is signed is the envelope's digest, with the key that was given, and
/// the result verifies.
pub proof fn signed_commitments_verify(
    envelope: &CommitmentEnvelope,
    key: &SigningKey,
    signed: SignedCommitment,
    verdict: Result<(), EnvelopeError>,
)
    requires
        call_ensures(
            CommitmentEnvelope::sign,
            (envelope, key),
            Ok::<SignedCommitment, EnvelopeError>(signed),
        ),
        call_ensures(SignedCommitment::verify, (&signed,), verdict),
    ensures
        signed.envelope == *envelope,
        signed.public_key_hex@ == hex::hex_text(ed25519_public_key(key@)),
        envelope.canonical() is Ok,
        signed.signature_hex@ == hex::hex_text(
            ed25519_signature(key@, sha256_of(envelope.canonical()->Ok_0)@),
        ),
        verdict is Ok,
{
    envelopes_are_laid_out(*envelope);
}

/// A commitment verifies, and is published, exactly if its key accepts its
/// signature for the digest of its envelope.
pub proof fn only_signed_commitments_are_published(
    signed: &SignedCommitment,
    verdict: Result<(), EnvelopeError>,
    name: Result<String, EnvelopeError>,
)
    requires
        call_ensures(SignedCommitment::verify, (signed,), verdict),
        call_ensures(SignedCommitment::publish_as, (signed,), name),
    ensures
        verdict is Ok <==> {
            &&& names_bytes(signed.public_key_hex@, 32)
            &&& names_bytes(signed.signature_hex@, 64)
            &&& ed25519_key_valid(hex_bytes(signed.public_key_hex@))
            &&& signed.envelope.canonical() is Ok
            &&& ed25519_accepts(
                hex_bytes(signed.public_key_hex@),
                sha256_of(signed.envelope.canonical()->Ok_0)@,
                hex_bytes(signed.signature_hex@),
            )
        },
        name is Ok <==> verdict is Ok,
        name matches Ok(text) ==> text@ == "aipow-commitment-epoch-"@ + crate::text::decimal(
            signed.envelope.epoch as nat,
        ) + ".json"@,
        name matches Err(e) ==> verdict == Err::<(), EnvelopeError>(e),
{
    commitments_verify_by_signature(*signed);
}

/// The unit stands for a row.
pub open spec fn stands_for_row(unit: SettledWorkUnit, event: WireEvent) -> bool {
    &&& bytes_named(event.earner@, unit.identity.0@)
    &&& bytes_named(event.payer@, unit.payer.0@)
    &&& published_level(event.evidence@) == Some(unit.evidence)
    &&& unit.settled_price == event.amount
    &&& unit.rate_card_value == event.amount
    &&& unit.capability.0@ == "default"@
    &&& !unit.is_challenge_task
    &&& !unit.payer_related
}

/// The row can be parsed.
pub open spec fn is_good_row(event: WireEvent) -> bool {
    &&& names_identity(event.earner@)
    &&& names_identity(event.payer@)
    &&& published_level(event.evidence@) is Some
}

/// The rows of an epoch become its units, in order and one for each, exactly
/// if every row, of whatever epoch, can be parsed.
pub proof fn rows_become_units(
    events: &Vec<WireEvent>,
    seconds: u64,
    epoch: EpochId,
    r: Result<Vec<SettledWorkUnit>, String>,
)
    requires
        call_ensures(units_of_epoch, (events, seconds, epoch), r),
    ensures
        r is Ok <==> forall|i: int| 0 <= i < events@.len() ==> is_good_row(#[trigger] events@[i]),
        r matches Ok(units) ==> {
            &&& units@.len() == rows_before(events@, seconds, epoch.0, events@.len() as int)
            &&& forall|i: int|
                0 <= i < events@.len() && epoch_passed(
                    (#[trigger] events@[i]).observed_at,
                    seconds,
                ) == epoch.0 ==> {
                    let at = rows_before(events@, seconds, epoch.0, i) as int;
                    at < units@.len() && stands_for_row(units@[at], events@[i])
                }
        },
{
    crate::poiw::tosctld::bad_rows_are_never_skipped(events@, seconds, epoch.0);
    assert forall|i: int| 0 <= i < events@.len() implies is_good_row(#[trigger] events@[i])
        <==> crate::poiw::tosctld::unit_of(events@[i]) is Ok by {
        rows_make_units(events@[i]);
    }
    if let Ok(units) = r {
        let views = crate::poiw::tosctld::epoch_units(events@, seconds, epoch.0)->Ok_0;
        every_row_of_the_epoch_is_a_unit(events@, seconds, epoch.0);
        assert forall|i: int|
            0 <= i < events@.len() && epoch_passed((#[trigger] events@[i]).observed_at, seconds)
                == epoch.0 implies {
            let at = rows_before(events@, seconds, epoch.0, i) as int;
            at < units@.len() && stands_for_row(units@[at], events@[i])
        } by {
            let at = rows_before(events@, seconds, epoch.0, i) as int;
            assert(views[at] == units@[at]@);
            addresses_name_their_last_part(events@[i].earner@);
            addresses_name_their_last_part(events@[i].payer@);
        }
    }
}

/// One row becomes a unit that stands for it exactly if it can be parsed.
pub proof fn one_row_becomes_a_unit(event: &WireEvent, r: Result<SettledWorkUnit, String>)
    requires
        call_ensures(row_to_unit, (event,), r),
    ensures
        r is Ok <==> is_good_row(*event),
        r matches Ok(unit) ==> stands_for_row(unit, *event),
{
    rows_make_units(*event);
    addresses_name_their_last_part(event.earner@);
    addresses_name_their_last_part(event.payer@);
}

/// Addresses and evidence are read as published.
pub proof fn row_fields_are_read(
    address: &str,
    id: Option<IdentityId>,
    name: &str,
    level: Option<EvidenceLevel>,
)
    requires
        call_ensures(parse_identity, (address,), id),
        call_ensures(parse_evidence, (name,), level),
    ensures
        id is Some <==> names_identity(address@),
        id matches Some(identity) ==> bytes_named(address@, identity.0@),
        level == published_level(name@),
{
    addresses_name_their_last_part(address@);
}

/// The epoch of a time is how many whole epochs have passed.
pub proof fn times_fall_in_epochs(time: u64, seconds: u64, r: u64)
    requires
        call_ensures(epoch_of_time, (time, seconds), r),
    ensures
        r == epoch_passed(time, seconds),
{
}

/// The domain of an identity is the one that its last pair discloses, and
/// itself where none does; two identities share one exactly if they are one
/// party.
pub proof fn disclosures_make_domains(
    pairs: Vec<(IdentityId, DomainId)>,
    map: DomainMap,
    a: IdentityId,
    b: IdentityId,
    domain: DomainKey,
    same: bool,
    i: int,
)
    requires
        call_ensures(DomainMap::from_pairs, (pairs,), map),
        call_ensures(DomainMap::domain_of, (&map, a), domain),
        call_ensures(DomainMap::same_domain, (&map, a, b), same),
    ensures
        is_last_pair(pairs@, a, i) ==> domain@ == DomainKeyView::Declared(pairs@[i].1.0@),
        (forall|j: int| !is_last_pair(pairs@, a, j)) ==> domain@ == DomainKeyView::Solo(a),
        same == one_party(map, a, b),
{
    last_pair_decides(pairs@, a);
    domains_tell_parties_apart(map, a, b);
}

/// The record of an identity is the one of its last pair.
pub proof fn records_are_the_last(
    poiw_data: &poiw::indexer::EpochData,
    poiw_map: KeyedMap<IdentityId, ReliabilityInputs>,
    aipow_data: &aipow::indexer::EpochData,
    aipow_map: KeyedMap<IdentityId, ReliabilityInputs>,
    id: IdentityId,
    i: int,
)
    requires
        call_ensures(poiw::indexer::EpochData::reliability_map, (poiw_data,), poiw_map),
        call_ensures(aipow::indexer::EpochData::reliability_map, (aipow_data,), aipow_map),
    ensures
        is_last_pair(poiw_data.reliability@, id, i) ==> poiw_map@.dom().contains(id)
            && poiw_map@[id] == poiw_data.reliability@[i].1,
        is_last_pair(aipow_data.reliability@, id, i) ==> aipow_map@.dom().contains(id)
            && aipow_map@[id] == aipow_data.reliability@[i].1,
        (forall|j: int| !is_last_pair(poiw_data.reliability@, id, j))
            ==> !poiw_map@.dom().contains(id),
        (forall|j: int| !is_last_pair(aipow_data.reliability@, id, j))
            ==> !aipow_map@.dom().contains(id),
{
    last_pair_decides(poiw_data.reliability@, id);
    last_pair_decides(aipow_data.reliability@, id);
}

/// Bytes are written in lowercase digits, the high one first, and read from
/// digits of either case.
pub proof fn hex_is_written_and_read(
    bytes: &[u8],
    written: String,
    text: &str,
    read: Option<Vec<u8>>,
)
    requires
        call_ensures(hex::encode, (bytes,), written),
        call_ensures(hex::decode, (text,), read),
    ensures
        written_as(bytes@, written@),
        read is Some <==> digit_pairs(text@),
        read matches Some(v) ==> read_as(text@, v@),
{
    hex_has_the_high_digit_first(bytes@, text@);
}

/// A report on an epoch says what was scored of the epoch's own units and
/// records.
pub proof fn epochs_are_reported(
    data: &poiw::indexer::EpochData,
    map: KeyedMap<IdentityId, ReliabilityInputs>,
    epoch: EpochId,
    schedule_cap: u128,
    k_percent: u32,
    r: Result<Output, CliError>,
)
    requires
        call_ensures(poiw::indexer::EpochData::reliability_map, (data,), map),
        call_ensures(epoch_report, (data, epoch, schedule_cap, k_percent), r),
    ensures
        r matches Ok(output) ==> {
            &&& is_organic_value(
                output.organic_settled_value,
                data.units@,
                consumer_paid(),
                payers_one_by_one(),
                published_thresholds(),
            )
            &&& exists|scores: Seq<IdentityScore>| #[trigger]
                scored_for_own_work(scores, data.units@, map@) && reports(
                    output@,
                    scores,
                    epoch.0,
                    schedule_cap,
                    k_percent,
                )
            &&& output@.epoch == output.epoch
            &&& output@.organic_settled_value == output.organic_settled_value
            &&& output@.schedule_cap == output.schedule_cap
            &&& output@.k_percent == output.k_percent
            &&& output@.pool == output.pool
            &&& output@.score_root_hex == output.score_root_hex@
            &&& output@.entries.len() == output.entries@.len()
            &&& forall|i: int|
                0 <= i < output.entries@.len() ==> {
                    let line = #[trigger] output.entries@[i];
                    &&& output@.entries[i].identity_hex == line.identity_hex@
                    &&& output@.entries[i].score == line.score
                    &&& output@.entries[i].payout == line.payout
                }
        },
{
    if r is Ok {
        reports_are_on_the_epoch(data.units@, map@, epoch.0, schedule_cap, k_percent);
    }
}

/// Whether an epoch is complete goes by the times of the blocks held.
pub proof fn epochs_complete_when_passed(walker: &Walker, epoch: u64, r: bool)
    requires
        call_ensures(Walker::epoch_complete, (walker, epoch), r),
        epoch < u64::MAX,
    ensures
        r <==> exists|k: u64| #[trigger]
            walker@.blocks.dom().contains(k) && walker@.blocks[k].unix_time >= (epoch + 1)
                * walker.settings().epoch_seconds,
{
}

} // verus!
