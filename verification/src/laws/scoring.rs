//! What an epoch's scores are: for every identity, what its own eligible
//! work is worth, under its own record.

use vstd::prelude::*;

use crate::aipow;
use crate::classifier::ClassifierParams;
use crate::laws::organic::organic_value_is_given;
use crate::laws::plain::{
    earned_factor, is_floor, one_party, published_percent, record_is_sound, record_of, smaller,
    weight_agrees, weight_is_bounded, worth,
};
use crate::order::{key_before, lex_before, sorted, sorted_lists};
use crate::poiw;
use crate::score::{
    adjusted_in_order, adjusted_outcomes, adjusted_score, history_of, ordered_by_identity,
    reliability_factor, unit_score, unit_score_bounds, IdentityScore,
};
use crate::selection::{score_posts, score_total_is_weight, scored_is_member, weight};
use crate::sums::{collect, collect_error, collect_values};
use crate::tally::{tally_map, tally_map_is_finite, tally_overflows, total_for};
use crate::types::{DomainMap, IdentityId, PoiwError, ReliabilityInputs, SettledWorkUnit};

verus! {

/// The unit was earned by the identity, and paid for by someone else.
pub open spec fn earned_by(unit: SettledWorkUnit, id: IdentityId) -> bool {
    unit.identity == id && !unit.payer_related
}

/// The unit was earned by the identity in one of the two kinds of work, and
/// paid for by another party.
pub open spec fn earned_in(
    unit: SettledWorkUnit,
    id: IdentityId,
    challenge: bool,
    domains: DomainMap,
) -> bool {
    earned_by(unit, id) && unit.is_challenge_task == challenge && !one_party(
        domains,
        unit.identity,
        unit.payer,
    )
}

/// What all units that the identity earned are worth together.
pub open spec fn earned(units: Seq<SettledWorkUnit>, id: IdentityId) -> nat {
    weight(
        units,
        |u: SettledWorkUnit|
            if earned_by(u, id) {
                worth(u)
            } else {
                0
            },
    )
}

/// What all units of one kind that the identity earned are worth together.
pub open spec fn earned_of_kind(
    units: Seq<SettledWorkUnit>,
    id: IdentityId,
    challenge: bool,
    domains: DomainMap,
) -> nat {
    weight(
        units,
        |u: SettledWorkUnit|
            if earned_in(u, id, challenge, domains) {
                worth(u)
            } else {
                0
            },
    )
}

/// A score in the list is the identity's.
pub open spec fn is_scored(scores: Seq<IdentityScore>, id: IdentityId) -> bool {
    exists|i: int| 0 <= i < scores.len() && (#[trigger] scores[i]).identity == id
}

/// The scores stand in ascending order of identity. There is one for every
/// identity that earned a unit that was not paid for by a related payer: the
/// worth of all its own such units under the factor of its own record.
pub open spec fn scored_for_own_work(
    scores: Seq<IdentityScore>,
    units: Seq<SettledWorkUnit>,
    reliability: Map<IdentityId, ReliabilityInputs>,
) -> bool {
    &&& forall|i: int, j: int|
        0 <= i < j < scores.len() ==> lex_before(
            (#[trigger] scores[i]).identity.0@,
            (#[trigger] scores[j]).identity.0@,
        )
    &&& forall|id: IdentityId| #[trigger]
        is_scored(scores, id) <==> exists|u: SettledWorkUnit| #[trigger]
            units.contains(u) && earned_by(u, id)
    &&& forall|i: int|
        0 <= i < scores.len() ==> is_floor(
            (#[trigger] scores[i]).score as int,
            earned(units, scores[i].identity) * earned_factor(
                record_of(reliability, scores[i].identity),
            ),
            10_000,
        )
}

/// The scores stand in ascending order of identity. There is one for every
/// identity that earned a unit of this kind that another party paid for: the
/// worth of all its own such units under the factor of its own record.
pub open spec fn scored_for_own_kind(
    scores: Seq<IdentityScore>,
    units: Seq<SettledWorkUnit>,
    reliability: Map<IdentityId, ReliabilityInputs>,
    challenge: bool,
    domains: DomainMap,
) -> bool {
    &&& forall|i: int, j: int|
        0 <= i < j < scores.len() ==> lex_before(
            (#[trigger] scores[i]).identity.0@,
            (#[trigger] scores[j]).identity.0@,
        )
    &&& forall|id: IdentityId| #[trigger]
        is_scored(scores, id) <==> exists|u: SettledWorkUnit| #[trigger]
            units.contains(u) && earned_in(u, id, challenge, domains)
    &&& forall|i: int|
        0 <= i < scores.len() ==> is_floor(
            (#[trigger] scores[i]).score as int,
            earned_of_kind(units, scores[i].identity, challenge, domains) * earned_factor(
                record_of(reliability, scores[i].identity),
            ),
            10_000,
        )
}

/// A unit scores what it is worth: nothing where the evidence is only
/// declared, the smaller of measured and paid value where it is observed, and
/// more, floored, for better evidence.
pub proof fn units_score_their_worth(unit: SettledWorkUnit)
    ensures
        unit_score(unit) == worth(unit),
        is_floor(
            unit_score(unit) as int,
            smaller(unit.rate_card_value as int, unit.settled_price as int) * published_percent(
                unit.evidence,
            ),
            100,
        ),
{
    let base = smaller(unit.rate_card_value as int, unit.settled_price as int);
    let percent = published_percent(unit.evidence);
    assert(base * percent >= 0) by (nonlinear_arith)
        requires
            base >= 0,
            percent >= 0,
    ;
}

/// A record earns its factor if it is sound; an unsound one is refused.
pub proof fn records_earn_their_factor(record: Option<ReliabilityInputs>)
    ensures
        match record {
            None => reliability_factor(record) == Ok::<u32, PoiwError>(10_000),
            Some(r) => if record_is_sound(r) {
                reliability_factor(record) matches Ok(f) && f == earned_factor(record)
            } else {
                reliability_factor(record) matches Err(PoiwError::InvalidParameter(_))
            },
        },
        record is None || record_is_sound(record->Some_0) ==> 5_000 <= earned_factor(record)
            <= 11_000,
{
}

/// The scores over some selected units: one for each identity that earned
/// such a unit, each the identity's total under the factor of its own record.
proof fn adjusted_scores_are_totals(
    units: Seq<SettledWorkUnit>,
    selected: spec_fn(SettledWorkUnit) -> bool,
    reliability: Map<IdentityId, ReliabilityInputs>,
    scores: Seq<IdentityScore>,
)
    requires
        !tally_overflows(score_posts(units, selected)),
        collect(adjusted_outcomes(tally_map(score_posts(units, selected)), reliability)) == Ok::<
            Seq<IdentityScore>,
            PoiwError,
        >(scores),
    ensures
        forall|i: int|
            0 <= i < scores.len() ==> is_floor(
                (#[trigger] scores[i]).score as int,
                total_for(score_posts(units, selected), scores[i].identity) * earned_factor(
                    record_of(reliability, scores[i].identity),
                ),
                10_000,
            ),
        forall|i: int|
            0 <= i < scores.len() ==> (record_of(
                reliability,
                (#[trigger] scores[i]).identity,
            ) matches Some(r) ==> record_is_sound(r)),
        forall|id: IdentityId| #[trigger]
            is_scored(scores, id) <==> exists|u: SettledWorkUnit| #[trigger]
                units.contains(u) && selected(u) && u.identity == id,
{
    let posts = score_posts(units, selected);
    let raw = tally_map(posts);
    let outcomes = adjusted_outcomes(raw, reliability);
    let keys = sorted::<IdentityId>(raw.dom());
    tally_map_is_finite(posts);
    sorted_lists::<IdentityId>(raw.dom());
    collect_values(outcomes);
    adjusted_in_order(raw, reliability);
    assert forall|i: int| 0 <= i < scores.len() implies is_floor(
        (#[trigger] scores[i]).score as int,
        total_for(posts, scores[i].identity) * earned_factor(
            record_of(reliability, scores[i].identity),
        ),
        10_000,
    ) && (record_of(reliability, scores[i].identity) matches Some(r) ==> record_is_sound(r)) by {
        let id = keys[i];
        assert(keys.to_set().contains(id));
        assert(outcomes[i] == adjusted_score(id, raw[id], reliability));
        assert(total_for(posts, id) <= u128::MAX);
        assert(raw[id] == total_for(posts, id));
        records_earn_their_factor(history_of(reliability, id));
        assert(record_of(reliability, id) == history_of(reliability, id));
        let f = reliability_factor(history_of(reliability, id))->Ok_0;
        let r = raw[id] as nat;
        assert(r * (f as nat) >= 0) by (nonlinear_arith);
    }
    assert forall|id: IdentityId| #[trigger]
        is_scored(scores, id) <==> exists|u: SettledWorkUnit| #[trigger]
            units.contains(u) && selected(u) && u.identity == id by {
        scored_is_member(units, selected, id);
        if is_scored(scores, id) {
            let i = choose|i: int| 0 <= i < scores.len() && (#[trigger] scores[i]).identity == id;
            assert(keys.to_set().contains(keys[i]));
        }
        if raw.dom().contains(id) {
            assert(keys.to_set().contains(id));
            let i = keys.index_of(id);
            assert(scores[i].identity == id);
        }
    }
}

/// Scoring by identity: an identity has a score exactly if it earned a unit
/// that was not paid for by a related payer, and the score is the worth of
/// all its own such units under the factor of its own record.
pub proof fn identities_score_their_own_work(
    units: Seq<SettledWorkUnit>,
    reliability: Map<IdentityId, ReliabilityInputs>,
    params: ClassifierParams,
)
    requires
        poiw::score::epoch_scores(units, reliability, params) is Ok,
    ensures
        scored_for_own_work(
            poiw::score::epoch_scores(units, reliability, params)->Ok_0.scores,
            units,
            reliability,
        ),
{
    let scores = poiw::score::epoch_scores(units, reliability, params)->Ok_0.scores;
    let selected = poiw::score::eligible_units();
    poiw::score::scores_are_ordered(units, reliability, params);
    bucket_is_ordered(scores);
    adjusted_scores_are_totals(units, selected, reliability, scores);
    assert forall|id: IdentityId| #[trigger]
        total_for(score_posts(units, selected), id) == earned(units, id) by {
        score_total_is_weight(units, selected, id);
        let v = |u: SettledWorkUnit|
            if selected(u) && u.identity == id {
                unit_score(u)
            } else {
                0
            };
        let w = |u: SettledWorkUnit|
            if earned_by(u, id) {
                worth(u)
            } else {
                0
            };
        assert forall|u: SettledWorkUnit| #[trigger] v(u) == w(u) by {
            units_score_their_worth(u);
        }
        weight_agrees(units, v, w);
    }
    assert forall|i: int| 0 <= i < scores.len() implies is_floor(
        (#[trigger] scores[i]).score as int,
        earned(units, scores[i].identity) * earned_factor(
            record_of(reliability, scores[i].identity),
        ),
        10_000,
    ) by {
        assert(total_for(score_posts(units, selected), scores[i].identity) == earned(
            units,
            scores[i].identity,
        ));
    }
    assert forall|id: IdentityId| #[trigger]
        is_scored(scores, id) <==> exists|u: SettledWorkUnit| #[trigger]
            units.contains(u) && earned_by(u, id) by {
        if is_scored(scores, id) {
            let u = choose|u: SettledWorkUnit| #[trigger]
                units.contains(u) && selected(u) && u.identity == id;
            assert(units.contains(u) && earned_by(u, id));
        }
        if exists|u: SettledWorkUnit| #[trigger] units.contains(u) && earned_by(u, id) {
            let u = choose|u: SettledWorkUnit| #[trigger] units.contains(u) && earned_by(u, id);
            assert(units.contains(u) && selected(u) && u.identity == id);
        }
    }
}

/// One bucket of the scores by control domain.
proof fn bucket_scores_own_work(
    units: Seq<SettledWorkUnit>,
    reliability: Map<IdentityId, ReliabilityInputs>,
    domains: DomainMap,
    challenge: bool,
    scores: Seq<IdentityScore>,
)
    requires
        !tally_overflows(aipow::score::bucket_posts(units, domains, challenge)),
        collect(
            adjusted_outcomes(
                tally_map(aipow::score::bucket_posts(units, domains, challenge)),
                reliability,
            ),
        ) == Ok::<Seq<IdentityScore>, PoiwError>(scores),
    ensures
        forall|i: int|
            0 <= i < scores.len() ==> is_floor(
                (#[trigger] scores[i]).score as int,
                earned_of_kind(units, scores[i].identity, challenge, domains) * earned_factor(
                    record_of(reliability, scores[i].identity),
                ),
                10_000,
            ),
        forall|id: IdentityId| #[trigger]
            is_scored(scores, id) <==> exists|u: SettledWorkUnit| #[trigger]
                units.contains(u) && earned_in(u, id, challenge, domains),
{
    let selected = aipow::score::bucket_in(domains, challenge);
    adjusted_scores_are_totals(units, selected, reliability, scores);
    assert forall|id: IdentityId| #[trigger]
        total_for(score_posts(units, selected), id) == earned_of_kind(
        units,
        id,
        challenge,
        domains,
    ) by {
        score_total_is_weight(units, selected, id);
        let v = |u: SettledWorkUnit|
            if selected(u) && u.identity == id {
                unit_score(u)
            } else {
                0
            };
        let w = |u: SettledWorkUnit|
            if earned_in(u, id, challenge, domains) {
                worth(u)
            } else {
                0
            };
        assert forall|u: SettledWorkUnit| #[trigger] v(u) == w(u) by {
            units_score_their_worth(u);
        }
        weight_agrees(units, v, w);
    }
    assert forall|i: int| 0 <= i < scores.len() implies is_floor(
        (#[trigger] scores[i]).score as int,
        earned_of_kind(units, scores[i].identity, challenge, domains) * earned_factor(
            record_of(reliability, scores[i].identity),
        ),
        10_000,
    ) by {
        assert(total_for(score_posts(units, selected), scores[i].identity) == earned_of_kind(
            units,
            scores[i].identity,
            challenge,
            domains,
        ));
    }
    assert forall|id: IdentityId| #[trigger]
        is_scored(scores, id) <==> exists|u: SettledWorkUnit| #[trigger]
            units.contains(u) && earned_in(u, id, challenge, domains) by {
        if is_scored(scores, id) {
            let u = choose|u: SettledWorkUnit| #[trigger]
                units.contains(u) && selected(u) && u.identity == id;
            assert(units.contains(u) && earned_in(u, id, challenge, domains));
        }
        if exists|u: SettledWorkUnit| #[trigger]
            units.contains(u) && earned_in(u, id, challenge, domains) {
            let u = choose|u: SettledWorkUnit| #[trigger]
                units.contains(u) && earned_in(u, id, challenge, domains);
            assert(units.contains(u) && selected(u) && u.identity == id);
        }
    }
}

proof fn bucket_is_ordered(scores: Seq<IdentityScore>)
    requires
        ordered_by_identity(scores),
    ensures
        forall|i: int, j: int|
            0 <= i < j < scores.len() ==> lex_before(
                (#[trigger] scores[i]).identity.0@,
                (#[trigger] scores[j]).identity.0@,
            ),
{
    assert forall|i: int, j: int| 0 <= i < j < scores.len() implies lex_before(
        (#[trigger] scores[i]).identity.0@,
        (#[trigger] scores[j]).identity.0@,
    ) by {
        assert(key_before::<IdentityId>(scores[i].identity, scores[j].identity));
    }
}

/// Scoring by control domain: in each of the two buckets an identity has a
/// score exactly if it earned a unit of that kind that another party paid
/// for, and the score is the worth of all its own such units under the factor
/// of its own record.
pub proof fn both_buckets_score_own_work(
    units: Seq<SettledWorkUnit>,
    reliability: Map<IdentityId, ReliabilityInputs>,
    domains: DomainMap,
    params: ClassifierParams,
)
    requires
        aipow::score::epoch_scores(units, reliability, domains, params) is Ok,
    ensures
        ({
            let scored = aipow::score::epoch_scores(units, reliability, domains, params)->Ok_0;
            &&& scored_for_own_kind(scored.organic, units, reliability, false, domains)
            &&& scored_for_own_kind(scored.challenge, units, reliability, true, domains)
        }),
{
    let scored = aipow::score::epoch_scores(units, reliability, domains, params)->Ok_0;
    aipow::score::scores_are_ordered(units, reliability, domains, params);
    bucket_is_ordered(scored.organic);
    bucket_is_ordered(scored.challenge);
    bucket_scores_own_work(units, reliability, domains, false, scored.organic);
    bucket_scores_own_work(units, reliability, domains, true, scored.challenge);
}

/// With sound records, the scores over selected units are given.
proof fn adjusted_scores_are_given(
    units: Seq<SettledWorkUnit>,
    selected: spec_fn(SettledWorkUnit) -> bool,
    reliability: Map<IdentityId, ReliabilityInputs>,
)
    requires
        forall|id: IdentityId| #[trigger]
            reliability.dom().contains(id) ==> record_is_sound(reliability[id]),
        units.len() <= 0x1_0000_0000_0000,
    ensures
        !tally_overflows(score_posts(units, selected)),
        collect(adjusted_outcomes(tally_map(score_posts(units, selected)), reliability)) is Ok,
{
    let posts = score_posts(units, selected);
    let raw = tally_map(posts);
    let outcomes = adjusted_outcomes(raw, reliability);
    let keys = sorted::<IdentityId>(raw.dom());
    let most = 2 * (u64::MAX as nat);
    assert forall|id: IdentityId| #[trigger] total_for(posts, id) <= 0x1_0000_0000_0000 * most by {
        score_total_is_weight(units, selected, id);
        let v = |u: SettledWorkUnit|
            if selected(u) && u.identity == id {
                unit_score(u)
            } else {
                0
            };
        assert forall|u: SettledWorkUnit| #[trigger] v(u) <= most by {
            unit_score_bounds(u);
        }
        weight_is_bounded(units, v, most);
        let n = units.len();
        assert(n * most <= 0x1_0000_0000_0000 * most) by (nonlinear_arith)
            requires
                n <= 0x1_0000_0000_0000,
        ;
    }
    tally_map_is_finite(posts);
    sorted_lists::<IdentityId>(raw.dom());
    if collect(outcomes) is Err {
        let j = collect_error(outcomes);
        let id = keys[j];
        assert(keys.to_set().contains(id));
        assert(total_for(posts, id) <= 0x1_0000_0000_0000 * most);
        assert(outcomes[j] == adjusted_score(id, raw[id], reliability));
        if reliability.dom().contains(id) {
            assert(record_is_sound(reliability[id]));
        }
        records_earn_their_factor(history_of(reliability, id));
        let f = reliability_factor(history_of(reliability, id))->Ok_0 as nat;
        let r = raw[id] as nat;
        assert(r * f <= r * 11_000) by (nonlinear_arith)
            requires
                f <= 11_000,
        ;
    }
}

/// With sound records and thresholds, every epoch that fits in memory is
/// scored, by identity and by control domain.
pub proof fn sound_epochs_are_scored(
    units: Seq<SettledWorkUnit>,
    reliability: Map<IdentityId, ReliabilityInputs>,
    domains: DomainMap,
    params: ClassifierParams,
)
    requires
        forall|id: IdentityId| #[trigger]
            reliability.dom().contains(id) ==> record_is_sound(reliability[id]),
        params.top_payer_full_bps < params.top_payer_zero_bps <= 10_000,
        units.len() <= 0x1_0000_0000_0000,
    ensures
        poiw::score::epoch_scores(units, reliability, params) is Ok,
        aipow::score::epoch_scores(units, reliability, domains, params) is Ok,
{
    adjusted_scores_are_given(units, poiw::score::eligible_units(), reliability);
    organic_value_is_given(
        units,
        poiw::classifier::organic_units(),
        poiw::classifier::payer_of(),
        params,
    );
    adjusted_scores_are_given(units, aipow::score::bucket_in(domains, false), reliability);
    adjusted_scores_are_given(units, aipow::score::bucket_in(domains, true), reliability);
    organic_value_is_given(
        units,
        aipow::classifier::organic_in(domains),
        aipow::classifier::payer_domain_in(domains),
        params,
    );
}

/// An unsound record of an identity that would be scored is refused, and so
/// are bad thresholds.
pub proof fn unsound_inputs_are_refused(
    units: Seq<SettledWorkUnit>,
    reliability: Map<IdentityId, ReliabilityInputs>,
    domains: DomainMap,
    params: ClassifierParams,
    unit: SettledWorkUnit,
)
    requires
        units.contains(unit),
        !unit.payer_related,
    ensures
        reliability.dom().contains(unit.identity) && !record_is_sound(reliability[unit.identity])
            ==> poiw::score::epoch_scores(units, reliability, params) is Err,
        reliability.dom().contains(unit.identity) && !record_is_sound(reliability[unit.identity])
            && !one_party(domains, unit.identity, unit.payer) ==> aipow::score::epoch_scores(
            units,
            reliability,
            domains,
            params,
        ) is Err,
        !(params.top_payer_full_bps < params.top_payer_zero_bps <= 10_000)
            ==> poiw::score::epoch_scores(units, reliability, params) is Err
            && aipow::score::epoch_scores(units, reliability, domains, params) is Err,
{
    let id = unit.identity;
    if reliability.dom().contains(id) && !record_is_sound(reliability[id]) {
        assert(record_of(reliability, id) == Some(reliability[id]));
        if poiw::score::epoch_scores(units, reliability, params) is Ok {
            let scores = poiw::score::epoch_scores(units, reliability, params)->Ok_0.scores;
            let selected = poiw::score::eligible_units();
            adjusted_scores_are_totals(units, selected, reliability, scores);
            assert(units.contains(unit) && selected(unit) && unit.identity == id);
            assert(is_scored(scores, id));
            let i = choose|i: int| 0 <= i < scores.len() && (#[trigger] scores[i]).identity == id;
            assert(record_of(reliability, scores[i].identity) is Some);
        }
        if aipow::score::epoch_scores(units, reliability, domains, params) is Ok && !one_party(
            domains,
            unit.identity,
            unit.payer,
        ) {
            let scored = aipow::score::epoch_scores(units, reliability, domains, params)->Ok_0;
            let scores = if unit.is_challenge_task {
                scored.challenge
            } else {
                scored.organic
            };
            let selected = aipow::score::bucket_in(domains, unit.is_challenge_task);
            adjusted_scores_are_totals(units, selected, reliability, scores);
            assert(units.contains(unit) && selected(unit) && unit.identity == id);
            assert(is_scored(scores, id));
            let i = choose|i: int| 0 <= i < scores.len() && (#[trigger] scores[i]).identity == id;
            assert(record_of(reliability, scores[i].identity) is Some);
        }
    }
}

} // verus!
