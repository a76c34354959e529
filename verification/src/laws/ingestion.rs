//! What becomes of the data that comes in: which attributions are valued and
//! how, which rows become units of an epoch, and whose record counts.

use vstd::prelude::*;

use crate::aipow::indexer::{valuations, EpochData};
use crate::hex::{hex_array, hex_bytes, hex_value};
use crate::poiw::tosctld::{
    after_reply, epoch_rows, epoch_units, identity_named, last_part_start, page_rows, page_url,
    unit_has_named_identities, unit_of, walk, walk_keeps_every_row, HttpGetJson, SettledWorkReply,
    TosctldError, TosctldSource, Walk, WireEvent, MAX_PAGES, PAGE_LIMIT,
};
use crate::source::epoch_at;
use crate::sums::{collect, collect_error, collect_values};
use crate::text::decimal;
use crate::types::{
    commitment_ok, last_assignment, unit_views, AttributionErrorView, EvidenceLevel, IdentityId,
    Nanotos, RateCard, WorkAttribution, WorkUnitView,
};
use crate::vocabulary::{class_unit, lookup_matches_registry, registered_at, CLASS_UNITS};

verus! {

/// The published unit of a class.
pub open spec fn published_unit(class: Seq<char>) -> Option<Seq<char>> {
    if class == "default"@ {
        Some("settled-nanotos"@)
    } else if class == "embedding"@ {
        Some("call"@)
    } else if class == "image-generation"@ {
        Some("image"@)
    } else if class == "speech-recognition"@ {
        Some("audio-second"@)
    } else if class == "speech-synthesis"@ {
        Some("audio-second"@)
    } else if class == "storage-byte-hour"@ {
        Some("byte-hour"@)
    } else if class == "text-generation"@ {
        Some("kilo-output-tokens"@)
    } else if class == "verification-replication"@ {
        Some("replicated-call"@)
    } else {
        None
    }
}

/// The registry gives every class its published unit, and no other class any.
pub proof fn registry_is_as_published(class: Seq<char>)
    ensures
        class_unit(class) matches Some(unit) ==> published_unit(class) == Some(unit@),
        class_unit(class) is None ==> published_unit(class) is None,
{
    lookup_matches_registry(0);
    lookup_matches_registry(1);
    lookup_matches_registry(2);
    lookup_matches_registry(3);
    lookup_matches_registry(4);
    lookup_matches_registry(5);
    lookup_matches_registry(6);
    lookup_matches_registry(7);
    assert(CLASS_UNITS@[0].0@ == "default"@ && CLASS_UNITS@[0].1@ == "settled-nanotos"@);
    assert(CLASS_UNITS@[1].0@ == "embedding"@ && CLASS_UNITS@[1].1@ == "call"@);
    assert(CLASS_UNITS@[2].0@ == "image-generation"@ && CLASS_UNITS@[2].1@ == "image"@);
    assert(CLASS_UNITS@[3].0@ == "speech-recognition"@ && CLASS_UNITS@[3].1@ == "audio-second"@);
    assert(CLASS_UNITS@[4].0@ == "speech-synthesis"@ && CLASS_UNITS@[4].1@ == "audio-second"@);
    assert(CLASS_UNITS@[5].0@ == "storage-byte-hour"@ && CLASS_UNITS@[5].1@ == "byte-hour"@);
    assert(CLASS_UNITS@[6].0@ == "text-generation"@ && CLASS_UNITS@[6].1@
        == "kilo-output-tokens"@);
    assert(CLASS_UNITS@[7].0@ == "verification-replication"@ && CLASS_UNITS@[7].1@
        == "replicated-call"@);
    if class_unit(class) is Some {
        let i = choose|i: int| registered_at(class, i);
        assert(registered_at(class, i));
        assert(CLASS_UNITS@[i].0@ == class);
        assert(i == 0 || i == 1 || i == 2 || i == 3 || i == 4 || i == 5 || i == 6 || i == 7);
        lookup_matches_registry(i);
    }
}

/// A hexadecimal digit, in either case.
pub open spec fn hex_digit(c: char) -> bool {
    '0' <= c <= '9' || 'a' <= c <= 'f' || 'A' <= c <= 'F'
}

/// The text is 32 bytes in hexadecimal.
pub open spec fn names_32_bytes(text: Seq<char>) -> bool {
    text.len() == 64 && forall|i: int| 0 <= i < 64 ==> hex_digit(#[trigger] text[i])
}

/// A text denotes 32 bytes exactly if it is 64 hexadecimal digits.
pub proof fn hashes_are_64_digits(text: Seq<char>)
    ensures
        hex_array(text, 32) is Some <==> names_32_bytes(text),
{
    if names_32_bytes(text) {
        assert forall|i: int| 0 <= i < text.len() implies hex_value(#[trigger] text[i]) is Some by {
            assert(hex_digit(text[i]));
        }
    }
    if hex_array(text, 32) is Some {
        assert forall|i: int| 0 <= i < 64 implies hex_digit(#[trigger] text[i]) by {
            assert(hex_value(text[i]) is Some);
        }
    }
}

/// The attribution can be valued: it and the card are of the published
/// version, its class and unit are registered together, its commitments are
/// well formed, and its value is known and fits.
pub open spec fn can_be_valued(a: WorkAttribution, card: RateCard) -> bool {
    &&& a.rate_card_version@ == "v0"@
    &&& card.version@ == "v0"@
    &&& published_unit(a.capability_class@) == Some(a.unit@)
    &&& a.earner_identity_commitment matches Some(text) ==> names_32_bytes(text@)
    &&& a.payer_identity_commitment matches Some(text) ==> names_32_bytes(text@)
    &&& a.capability_class@ == "default"@ || (card.prices@.dom().contains(a.capability_class@)
        && a.work_units * card.prices@[a.capability_class@] <= u64::MAX)
}

/// An attribution is valued exactly if it can be, and the unit says who
/// earned, who paid and how much, what was done with what evidence, and what
/// that is worth on the card.
pub proof fn attributions_are_valued(
    a: WorkAttribution,
    earner: IdentityId,
    payer: IdentityId,
    price: Nanotos,
    card: RateCard,
)
    ensures
        a.valuation(earner, payer, price, card) is Ok <==> can_be_valued(a, card),
        a.valuation(earner, payer, price, card) matches Ok(unit) ==> {
            &&& unit.identity == earner
            &&& unit.payer == payer
            &&& unit.settled_price == price
            &&& unit.capability == a.capability_class@
            &&& unit.evidence == a.evidence_level
            &&& unit.is_challenge_task == a.challenge_task
            &&& !unit.payer_related
            &&& a.capability_class@ == "default"@ ==> unit.rate_card_value == price
            &&& a.capability_class@ != "default"@ ==> unit.rate_card_value == a.work_units
                * card.prices@[a.capability_class@]
        },
{
    registry_is_as_published(a.capability_class@);
    if let Some(text) = a.earner_identity_commitment {
        hashes_are_64_digits(text@);
    }
    if let Some(text) = a.payer_identity_commitment {
        hashes_are_64_digits(text@);
    }
    assert(commitment_ok(a.earner_identity_commitment) <==> (
    a.earner_identity_commitment matches Some(text) ==> names_32_bytes(text@)));
    assert(commitment_ok(a.payer_identity_commitment) <==> (
    a.payer_identity_commitment matches Some(text) ==> names_32_bytes(text@)));
    if card.prices@.dom().contains(a.capability_class@) {
        let w = a.work_units;
        let p = card.prices@[a.capability_class@];
        assert(w * p >= 0) by (nonlinear_arith);
    }
}

/// The attribution has the fault that the refusal names.
pub open spec fn refused_for(a: WorkAttribution, card: RateCard, e: AttributionErrorView) -> bool {
    match e {
        AttributionErrorView::UnknownVersion(got, known) => {
            &&& got == a.rate_card_version@
            &&& known == "v0"@
            &&& a.rate_card_version@ != "v0"@ || card.version@ != "v0"@
        },
        AttributionErrorView::UnknownClass(class) => {
            &&& class == a.capability_class@
            &&& published_unit(class) is None
        },
        AttributionErrorView::UnitMismatch { class, expected, got } => {
            &&& class == a.capability_class@
            &&& published_unit(class) == Some(expected)
            &&& got == a.unit@
            &&& got != expected
        },
        AttributionErrorView::Unpriced { version, class } => {
            &&& version == card.version@
            &&& class == a.capability_class@
            &&& class != "default"@
            &&& !card.prices@.dom().contains(class)
        },
        AttributionErrorView::Overflow(class) => {
            &&& class == a.capability_class@
            &&& class != "default"@
            &&& card.prices@.dom().contains(class)
            &&& a.work_units * card.prices@[class] > u64::MAX
        },
        AttributionErrorView::BadCommitment(label) => {
            ||| label == "earner"@ && a.earner_identity_commitment is Some && !names_32_bytes(
                a.earner_identity_commitment->Some_0@,
            )
            ||| label == "payer"@ && a.payer_identity_commitment is Some && !names_32_bytes(
                a.payer_identity_commitment->Some_0@,
            )
        },
    }
}

/// A refusal names a fault that the attribution has.
pub proof fn refusals_say_why(
    a: WorkAttribution,
    earner: IdentityId,
    payer: IdentityId,
    price: Nanotos,
    card: RateCard,
)
    ensures
        a.valuation(earner, payer, price, card) matches Err(e) ==> refused_for(a, card, e),
{
    registry_is_as_published(a.capability_class@);
    if let Some(text) = a.earner_identity_commitment {
        hashes_are_64_digits(text@);
    }
    if let Some(text) = a.payer_identity_commitment {
        hashes_are_64_digits(text@);
    }
}

/// The units of an epoch are its units as they are, and then one for every
/// attributed settlement, in order, with that settlement's earner, payer and
/// price.
pub proof fn every_settlement_is_valued(data: EpochData, card: RateCard)
    ensures
        data.valued(card) is Ok <==> forall|i: int|
            0 <= i < data.attributed@.len() ==> can_be_valued(
                (#[trigger] data.attributed@[i]).attribution,
                card,
            ),
        data.valued(card) matches Ok(units) ==> {
            &&& units.len() == data.units@.len() + data.attributed@.len()
            &&& forall|i: int|
                0 <= i < data.units@.len() ==> {
                    let u = #[trigger] data.units@[i];
                    &&& units[i].identity == u.identity
                    &&& units[i].payer == u.payer
                    &&& units[i].capability == u.capability.0@
                    &&& units[i].rate_card_value == u.rate_card_value
                    &&& units[i].settled_price == u.settled_price
                    &&& units[i].evidence == u.evidence
                    &&& units[i].is_challenge_task == u.is_challenge_task
                    &&& units[i].payer_related == u.payer_related
                }
            &&& forall|i: int|
                0 <= i < data.attributed@.len() ==> {
                    let s = #[trigger] data.attributed@[i];
                    let unit = units[data.units@.len() + i];
                    &&& unit.identity == s.earner
                    &&& unit.payer == s.payer
                    &&& unit.settled_price == s.settled_price
                    &&& unit.capability == s.attribution.capability_class@
                    &&& unit.evidence == s.attribution.evidence_level
                    &&& unit.is_challenge_task == s.attribution.challenge_task
                    &&& !unit.payer_related
                    &&& s.attribution.capability_class@ == "default"@ ==> unit.rate_card_value
                        == s.settled_price
                    &&& s.attribution.capability_class@ != "default"@ ==> unit.rate_card_value
                        == s.attribution.work_units
                        * card.prices@[s.attribution.capability_class@]
                }
        },
{
    let outcomes = valuations(data.attributed@, card);
    assert forall|i: int| 0 <= i < data.attributed@.len() implies outcomes[i] is Ok
        <==> can_be_valued((#[trigger] data.attributed@[i]).attribution, card) by {
        let s = data.attributed@[i];
        attributions_are_valued(s.attribution, s.earner, s.payer, s.settled_price, card);
    }
    if collect(outcomes) is Err {
        let i = collect_error(outcomes);
        assert(!can_be_valued(data.attributed@[i].attribution, card));
    } else {
        collect_values(outcomes);
        let values = collect(outcomes)->Ok_0;
        let units = unit_views(data.units@) + values;
        assert forall|i: int| 0 <= i < data.attributed@.len() implies outcomes[i] == Ok::<
            WorkUnitView,
            AttributionErrorView,
        >(units[data.units@.len() + i]) && can_be_valued(
            (#[trigger] data.attributed@[i]).attribution,
            card,
        ) by {
            assert(outcomes[i] == Ok::<WorkUnitView, AttributionErrorView>(values[i]));
        }
        assert forall|i: int| 0 <= i < data.attributed@.len() implies {
            let s = #[trigger] data.attributed@[i];
            let unit = units[data.units@.len() + i];
            &&& unit.identity == s.earner
            &&& unit.payer == s.payer
            &&& unit.settled_price == s.settled_price
            &&& unit.capability == s.attribution.capability_class@
            &&& unit.evidence == s.attribution.evidence_level
            &&& unit.is_challenge_task == s.attribution.challenge_task
            &&& !unit.payer_related
            &&& s.attribution.capability_class@ == "default"@ ==> unit.rate_card_value
                == s.settled_price
            &&& s.attribution.capability_class@ != "default"@ ==> unit.rate_card_value
                == s.attribution.work_units * card.prices@[s.attribution.capability_class@]
        } by {
            let s = data.attributed@[i];
            attributions_are_valued(s.attribution, s.earner, s.payer, s.settled_price, card);
        }
    }
}

/// The pair at a position is the identity's last.
pub open spec fn is_last_pair<V>(pairs: Seq<(IdentityId, V)>, id: IdentityId, i: int) -> bool {
    &&& 0 <= i < pairs.len()
    &&& pairs[i].0 == id
    &&& forall|j: int| i < j < pairs.len() ==> (#[trigger] pairs[j]).0 != id
}

/// The last pair of an identity decides: it is assigned what its last pair
/// says, and nothing where no pair names it.
pub proof fn last_pair_decides<V>(pairs: Seq<(IdentityId, V)>, id: IdentityId)
    ensures
        forall|i: int| #[trigger]
            is_last_pair(pairs, id, i) ==> last_assignment(pairs).dom().contains(id)
                && last_assignment(pairs)[id] == pairs[i].1,
        last_assignment(pairs).dom().contains(id) ==> exists|i: int|
            is_last_pair(pairs, id, i),
    decreases pairs.len(),
{
    if pairs.len() > 0 {
        let rest = pairs.drop_last();
        let n = pairs.len() - 1;
        last_pair_decides(rest, id);
        assert forall|i: int| #[trigger] is_last_pair(pairs, id, i) implies last_assignment(
            pairs,
        ).dom().contains(id) && last_assignment(pairs)[id] == pairs[i].1 by {
            if i < n {
                assert(pairs[n].0 != id);
                assert forall|j: int| i < j < rest.len() implies (#[trigger] rest[j]).0 != id by {
                    assert(pairs[j].0 != id);
                }
                assert(is_last_pair(rest, id, i));
            }
        }
        if last_assignment(pairs).dom().contains(id) {
            if pairs[n].0 == id {
                assert(is_last_pair(pairs, id, n));
            } else {
                let i = choose|i: int| is_last_pair(rest, id, i);
                assert forall|j: int| i < j < pairs.len() implies (#[trigger] pairs[j]).0 != id by {
                    if j < n {
                        assert(rest[j].0 != id);
                    }
                }
                assert(is_last_pair(pairs, id, i));
            }
        }
    }
}

/// The epoch of a time: how many whole epochs have passed, and the first
/// where epochs have no length.
pub open spec fn epoch_passed(time: u64, seconds: u64) -> int {
    if seconds == 0 {
        0
    } else {
        time as int / seconds as int
    }
}

/// How many of the first `n` rows were observed in the epoch.
pub open spec fn rows_before(events: Seq<WireEvent>, seconds: u64, epoch: u64, n: int) -> nat
    decreases n,
{
    if n <= 0 {
        0
    } else if epoch_passed(events[n - 1].observed_at, seconds) == epoch {
        rows_before(events, seconds, epoch, n - 1) + 1
    } else {
        rows_before(events, seconds, epoch, n - 1)
    }
}

/// The evidence level that a name is for.
pub open spec fn published_level(name: Seq<char>) -> Option<EvidenceLevel> {
    if name == "Declared"@ {
        Some(EvidenceLevel::Declared)
    } else if name == "Observed"@ {
        Some(EvidenceLevel::Observed)
    } else if name == "Benchmarked"@ {
        Some(EvidenceLevel::Benchmarked)
    } else if name == "Audited"@ {
        Some(EvidenceLevel::Audited)
    } else if name == "Attested"@ {
        Some(EvidenceLevel::Attested)
    } else if name == "Replicated"@ {
        Some(EvidenceLevel::Replicated)
    } else {
        None
    }
}

/// The text after the last colon, or all of it where there is none.
pub open spec fn is_last_part(text: Seq<char>, part: Seq<char>) -> bool {
    &&& !part.contains(':')
    &&& part.len() <= text.len()
    &&& part == text.skip(text.len() - part.len())
    &&& part.len() < text.len() ==> text[text.len() - part.len() - 1] == ':'
}

/// The address names an identity: its last part is 64 hexadecimal digits.
pub open spec fn names_identity(address: Seq<char>) -> bool {
    exists|part: Seq<char>| #[trigger] is_last_part(address, part) && names_32_bytes(part)
}

/// The bytes are those of the address: its last part is their 64
/// hexadecimal digits.
pub open spec fn bytes_named(address: Seq<char>, bytes: Seq<u8>) -> bool {
    exists|part: Seq<char>| #[trigger]
        is_last_part(address, part) && names_32_bytes(part) && bytes == hex_bytes(part)
}

/// The part from the last colon on is the last part.
proof fn last_part_is_last(text: Seq<char>)
    ensures
        0 <= last_part_start(text) <= text.len(),
        is_last_part(text, text.skip(last_part_start(text))),
    decreases text.len(),
{
    let start = last_part_start(text);
    if text.len() > 0 && text.last() != ':' {
        let rest = text.drop_last();
        last_part_is_last(rest);
        let before = rest.skip(start);
        let part = text.skip(start);
        assert(part =~= before.push(text.last()));
        if part.contains(':') {
            let i = part.index_of(':');
            if i < before.len() {
                assert(before[i] == ':');
                assert(before.contains(':'));
            }
        }
        if part.len() < text.len() {
            assert(rest[rest.len() - before.len() - 1] == ':');
        }
    } else {
        assert(text.skip(start) =~= Seq::empty());
    }
}

/// There is only one last part.
proof fn last_part_is_one(text: Seq<char>, a: Seq<char>, b: Seq<char>)
    requires
        is_last_part(text, a),
        is_last_part(text, b),
    ensures
        a == b,
{
    let (short, long) = if a.len() <= b.len() {
        (a, b)
    } else {
        (b, a)
    };
    if short.len() < long.len() {
        let i = long.len() - short.len() - 1;
        assert(long[i] == text[text.len() - short.len() - 1]);
        assert(long.contains(':'));
    }
}

/// An address names an identity exactly if its last part is 64 hexadecimal
/// digits, and then the identity of those bytes.
pub proof fn addresses_name_their_last_part(address: Seq<char>)
    ensures
        identity_named(address) is Some <==> names_identity(address),
        forall|part: Seq<char>| #[trigger]
            is_last_part(address, part) && names_32_bytes(part) ==> identity_named(address) == Some(
                hex_bytes(part),
            ),
        identity_named(address) matches Some(bytes) ==> bytes_named(address, bytes),
{
    let mine = address.skip(last_part_start(address));
    last_part_is_last(address);
    hashes_are_64_digits(mine);
    assert forall|part: Seq<char>| #[trigger] is_last_part(address, part) implies part == mine by {
        last_part_is_one(address, part, mine);
    }
    if identity_named(address) is Some {
        assert(is_last_part(address, mine) && names_32_bytes(mine));
    }
}

/// A row makes a unit exactly if its two addresses name identities and its
/// evidence is a level. The unit is earned by the one and paid by the other,
/// for the amount of the row.
pub proof fn rows_make_units(event: WireEvent)
    ensures
        unit_of(event) is Ok <==> names_identity(event.earner@) && names_identity(event.payer@)
            && published_level(event.evidence@) is Some,
        unit_of(event) matches Ok(unit) ==> {
            &&& Some(unit.identity.0@) == identity_named(event.earner@)
            &&& Some(unit.payer.0@) == identity_named(event.payer@)
            &&& Some(unit.evidence) == published_level(event.evidence@)
            &&& unit.settled_price == event.amount
            &&& unit.rate_card_value == event.amount
            &&& unit.capability == "default"@
            &&& !unit.is_challenge_task
            &&& !unit.payer_related
        },
{
    addresses_name_their_last_part(event.earner@);
    addresses_name_their_last_part(event.payer@);
    if unit_of(event) is Ok {
        unit_has_named_identities(event);
    }
}

/// The rows of an epoch, position by position.
proof fn epoch_rows_by_position(events: Seq<WireEvent>, seconds: u64, epoch: u64)
    ensures
        epoch_rows(events, seconds, epoch).len() == rows_before(
            events,
            seconds,
            epoch,
            events.len() as int,
        ),
        forall|i: int|
            0 <= i < events.len() && epoch_passed((#[trigger] events[i]).observed_at, seconds)
                == epoch ==> {
                let at = rows_before(events, seconds, epoch, i) as int;
                at < epoch_rows(events, seconds, epoch).len() && epoch_rows(
                    events,
                    seconds,
                    epoch,
                )[at] == events[i]
            },
    decreases events.len(),
{
    if events.len() > 0 {
        let rest = events.drop_last();
        let n = events.len() - 1;
        epoch_rows_by_position(rest, seconds, epoch);
        rows_before_agree(events, rest, seconds, epoch, n);
        let t = events[n].observed_at as int;
        let s = seconds as int;
        assert(epoch_at(events.last().observed_at, seconds) == epoch_passed(
            events[n].observed_at,
            seconds,
        ));
        assert forall|i: int|
            0 <= i < events.len() && epoch_passed((#[trigger] events[i]).observed_at, seconds)
                == epoch implies {
            let at = rows_before(events, seconds, epoch, i) as int;
            at < epoch_rows(events, seconds, epoch).len() && epoch_rows(
                events,
                seconds,
                epoch,
            )[at] == events[i]
        } by {
            if i < n {
                rows_before_agree(events, rest, seconds, epoch, i);
                assert(rest[i] == events[i]);
            }
        }
    }
}

proof fn rows_before_agree(
    a: Seq<WireEvent>,
    b: Seq<WireEvent>,
    seconds: u64,
    epoch: u64,
    n: int,
)
    requires
        0 <= n <= a.len(),
        n <= b.len(),
        forall|i: int| 0 <= i < n ==> a[i] == b[i],
    ensures
        rows_before(a, seconds, epoch, n) == rows_before(b, seconds, epoch, n),
    decreases n,
{
    if n > 0 {
        rows_before_agree(a, b, seconds, epoch, n - 1);
        assert(a[n - 1] == b[n - 1]);
    }
}

/// No row is lost: the units of an epoch are, in order and one for each, the
/// rows observed in it. There are as many units as such rows, and the unit of
/// a row stands where as many of them came before it.
pub proof fn every_row_of_the_epoch_is_a_unit(events: Seq<WireEvent>, seconds: u64, epoch: u64)
    requires
        epoch_units(events, seconds, epoch) is Ok,
    ensures
        epoch_units(events, seconds, epoch)->Ok_0.len() == rows_before(
            events,
            seconds,
            epoch,
            events.len() as int,
        ),
        forall|i: int|
            0 <= i < events.len() && epoch_passed((#[trigger] events[i]).observed_at, seconds)
                == epoch ==> {
                let at = rows_before(events, seconds, epoch, i) as int;
                let units = epoch_units(events, seconds, epoch)->Ok_0;
                &&& at < units.len()
                &&& Some(units[at].identity.0@) == identity_named(events[i].earner@)
                &&& Some(units[at].payer.0@) == identity_named(events[i].payer@)
                &&& Some(units[at].evidence) == published_level(events[i].evidence@)
                &&& units[at].settled_price == events[i].amount
                &&& units[at].rate_card_value == events[i].amount
                &&& units[at].capability == "default"@
                &&& !units[at].is_challenge_task
                &&& !units[at].payer_related
            },
{
    let rows = epoch_rows(events, seconds, epoch);
    let outcomes = rows.map_values(|e: WireEvent| unit_of(e));
    let units = epoch_units(events, seconds, epoch)->Ok_0;
    epoch_rows_by_position(events, seconds, epoch);
    collect_values(outcomes);
    assert forall|i: int|
        0 <= i < events.len() && epoch_passed((#[trigger] events[i]).observed_at, seconds)
            == epoch implies {
        let at = rows_before(events, seconds, epoch, i) as int;
        &&& at < units.len()
        &&& Some(units[at].identity.0@) == identity_named(events[i].earner@)
        &&& Some(units[at].payer.0@) == identity_named(events[i].payer@)
        &&& Some(units[at].evidence) == published_level(events[i].evidence@)
        &&& units[at].settled_price == events[i].amount
        &&& units[at].rate_card_value == events[i].amount
        &&& units[at].capability == "default"@
        &&& !units[at].is_challenge_task
        &&& !units[at].payer_related
    } by {
        let at = rows_before(events, seconds, epoch, i) as int;
        assert(outcomes[at] == Ok::<WorkUnitView, Seq<char>>(units[at]));
        assert(outcomes[at] == unit_of(events[i]));
        rows_make_units(events[i]);
    }
}

/// A walk over the pages goes on exactly while every page held rows and they
/// are still fewer than the page said there are; it ends well with a page
/// that is empty or completes them, and fails with the first answer that is
/// none.
pub proof fn walks_end_when_complete<E>(
    rows: Seq<WireEvent>,
    reply: Result<SettledWorkReply, E>,
)
    ensures
        match reply {
            Err(e) => after_reply(rows, reply) == Walk::Failed(TosctldError::Transport(e)),
            Ok(SettledWorkReply::Malformed) => after_reply(rows, reply) == Walk::<E>::Failed(
                TosctldError::Shape("settled-work response"),
            ),
            Ok(SettledWorkReply::Page(page)) => {
                &&& after_reply(rows, reply) matches Walk::Going(more) ==> more == rows
                    + page.result@ && page.result@.len() > 0 && more.len() < page.total
                &&& after_reply(rows, reply) matches Walk::Done(all) ==> all == rows + page.result@
                    && (page.result@.len() == 0 || all.len() >= page.total)
                &&& !(after_reply(rows, reply) is Failed)
            },
        },
{
}

/// A page is asked for at the number of rows that came before it, a thousand
/// at a time.
pub proof fn pages_are_asked_by_offset(base: Seq<char>, offset: nat)
    ensures
        page_url(base, offset) == base + "/poiw/settled-work?offset="@ + decimal(offset)
            + "&limit=1000"@,
{
    reveal_with_fuel(decimal, 5);
    reveal_strlit("&limit=");
    reveal_strlit("&limit=1000");
    assert(decimal(1000) =~= seq!['1', '0', '0', '0']);
    assert(page_url(base, offset) =~= base + "/poiw/settled-work?offset="@ + decimal(offset)
        + "&limit=1000"@);
}

/// A walk begins with no rows; every answer continues it as long as it goes
/// on, and none once it has ended. A walk has at most ten thousand pages of a
/// thousand rows.
pub proof fn walks_take_answer_after_answer<E>(
    replies: Seq<Result<SettledWorkReply, E>>,
    reply: Result<SettledWorkReply, E>,
)
    ensures
        walk(Seq::<Result<SettledWorkReply, E>>::empty()) == Walk::<E>::Going(Seq::empty()),
        walk(replies.push(reply)) == match walk(replies) {
            Walk::Going(rows) => after_reply(rows, reply),
            Walk::Done(rows) => Walk::Done(rows),
            Walk::Failed(e) => Walk::Failed(e),
        },
        MAX_PAGES == 10_000,
        PAGE_LIMIT == 1_000,
{
    assert(replies.push(reply).drop_last() =~= replies);
}

/// Every page is asked for where the pages before it ended: at as many rows
/// as they held.
pub proof fn pages_follow_each_other<G: HttpGetJson>(
    source: TosctldSource<G>,
    replies: Seq<Result<SettledWorkReply, G::Error>>,
    i: int,
)
    requires
        source.answered(replies),
        0 <= i < replies.len(),
    ensures
        exists|url: &str|
            url@ == source.base() + "/poiw/settled-work?offset="@ + decimal(
                page_rows(replies.take(i)).len(),
            ) + "&limit=1000"@ && #[trigger] call_ensures(
                G::get_json,
                (&source.getter(), url),
                replies[i],
            ),
{
    let earlier = replies.take(i);
    assert(source.answered_at(earlier, replies[i]));
    if i > 0 {
        assert(earlier.drop_last() =~= replies.take(i - 1));
        assert(source.answered_at(replies.take(i - 1), replies[i - 1]));
    }
    walk_keeps_every_row(earlier);
    pages_are_asked_by_offset(source.base(), page_rows(earlier).len());
}

} // verus!
