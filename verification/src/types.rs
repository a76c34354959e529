//! Core domain types shared by every scorer component.
//!
//! All monetary amounts are integer nanotos (1 TOS = 1,000,000,000 nanotos).
//! All multipliers are integer basis points or integer percent. No floating
//! point appears anywhere in the scoring pipeline: score roots must be
//! reproducible byte for byte, and integer arithmetic is the only way to
//! guarantee that across languages.

use vstd::prelude::*;
use vstd::utf8::encode_utf8;

use crate::hex;
use crate::hex::hex_array;
use crate::keyed::{first_entries_ends, first_entries_next, KeyedMap};
use crate::order::{compare_bytes, lex_irreflexive, KeyOrder, OrdKey};
use crate::text::{encoding_injective, same_text};
use crate::vocabulary;
use crate::vocabulary::{class_unit, DEFAULT_CLASS, RATE_CARD_VERSION};

verus! {

/// Integer nanotos. 1 TOS = 1_000_000_000 nanotos.
pub type Nanotos = u64;

/// Basis points: 10_000 bps = 1.0.
pub type Bps = u32;

/// One basis-point unit as a divisor.
pub const BPS_DENOMINATOR: u128 = 10_000;

/// A scoring identity: the 32-byte account identifier of a bonded
/// Capability Registry entry.
#[derive(Debug, Clone, Copy, PartialEq, Eq, PartialOrd, Ord, Hash)]
pub struct IdentityId(pub [u8; 32]);

/// An epoch number (aligned with the 65,536-second validation epoch).
#[derive(Debug, Clone, Copy, PartialEq, Eq, PartialOrd, Ord, Hash, Structural)]
pub struct EpochId(pub u64);

/// A capability class from the published rate-card vocabulary
/// (for example `text-generation`, `embedding`, `storage-byte-hour`).
#[derive(Debug, PartialEq, Eq, PartialOrd, Ord, Hash)]
pub struct CapabilityClass(pub String);

/// A disclosed control domain from the common-control registry.
#[derive(Debug, PartialEq, Eq, PartialOrd, Ord, Hash)]
pub struct DomainId(pub String);

/// The effective control domain of an identity: either its disclosed
/// domain, or a singleton domain of itself when nothing is disclosed.
#[derive(Debug, PartialEq, Eq, PartialOrd, Ord, Hash)]
pub enum DomainKey {
    Declared(DomainId),
    Solo(IdentityId),
}

/// What a [`DomainKey`] says: the name of a disclosed domain, or an identity
/// on its own.
pub enum DomainKeyView {
    Declared(Seq<char>),
    Solo(IdentityId),
}

impl Clone for CapabilityClass {
    fn clone(&self) -> (r: Self)
        ensures
            r == *self,
    {
        CapabilityClass(self.0.clone())
    }
}

impl Clone for DomainId {
    fn clone(&self) -> (r: Self)
        ensures
            r == *self,
    {
        DomainId(self.0.clone())
    }
}

impl Clone for DomainKey {
    fn clone(&self) -> (r: Self)
        ensures
            r == *self,
    {
        match self {
            DomainKey::Declared(domain) => DomainKey::Declared(domain.clone()),
            DomainKey::Solo(identity) => DomainKey::Solo(*identity),
        }
    }
}

impl View for IdentityId {
    type V = IdentityId;

    open spec fn view(&self) -> IdentityId {
        *self
    }
}

impl View for DomainKey {
    type V = DomainKeyView;

    open spec fn view(&self) -> DomainKeyView {
        match self {
            DomainKey::Declared(domain) => DomainKeyView::Declared(domain.0@),
            DomainKey::Solo(identity) => DomainKeyView::Solo(*identity),
        }
    }
}

impl OrdKey for IdentityId {
    open spec fn rank(key: IdentityId) -> Seq<u8> {
        key.0@
    }

    proof fn rank_injective(a: IdentityId, b: IdentityId) {
        assert(a.0 =~= b.0);
    }

    fn compare(&self, other: &IdentityId) -> (r: KeyOrder) {
        compare_bytes(self.0.as_slice(), other.0.as_slice())
    }
}

impl OrdKey for DomainKey {
    open spec fn rank(key: DomainKeyView) -> Seq<u8> {
        match key {
            DomainKeyView::Declared(name) => seq![0u8] + encode_utf8(name),
            DomainKeyView::Solo(identity) => seq![1u8] + identity.0@,
        }
    }

    proof fn rank_injective(a: DomainKeyView, b: DomainKeyView) {
        let x = Self::rank(a);
        let y = Self::rank(b);
        assert(x[0] == y[0]);
        assert(x.drop_first() == y.drop_first());
        match (a, b) {
            (DomainKeyView::Declared(m), DomainKeyView::Declared(n)) => {
                assert(x.drop_first() =~= encode_utf8(m));
                assert(y.drop_first() =~= encode_utf8(n));
                encoding_injective(m, n);
            },
            (DomainKeyView::Solo(m), DomainKeyView::Solo(n)) => {
                assert(x.drop_first() =~= m.0@);
                assert(y.drop_first() =~= n.0@);
                IdentityId::rank_injective(m, n);
            },
            _ => {},
        }
    }

    fn compare(&self, other: &DomainKey) -> (r: KeyOrder) {
        proof {
            let x = Self::rank(self@);
            let y = Self::rank(other@);
            match self@ {
                DomainKeyView::Declared(m) => assert(x.drop_first() =~= encode_utf8(m)),
                DomainKeyView::Solo(m) => assert(x.drop_first() =~= m.0@),
            }
            match other@ {
                DomainKeyView::Declared(n) => assert(y.drop_first() =~= encode_utf8(n)),
                DomainKeyView::Solo(n) => assert(y.drop_first() =~= n.0@),
            }
            if x[0] == y[0] && x.drop_first() == y.drop_first() {
                assert(x =~= seq![x[0]] + x.drop_first());
                assert(y =~= seq![y[0]] + y.drop_first());
            }
        }
        match (self, other) {
            (DomainKey::Declared(a), DomainKey::Declared(b)) => a.0.compare(&b.0),
            (DomainKey::Solo(a), DomainKey::Solo(b)) => a.compare(b),
            (DomainKey::Declared(_), DomainKey::Solo(_)) => KeyOrder::Before,
            (DomainKey::Solo(_), DomainKey::Declared(_)) => KeyOrder::After,
        }
    }
}

/// Whether two keys are the same.
pub fn same_key<K: OrdKey>(a: &K, b: &K) -> (r: bool)
    ensures
        r == (a@ == b@),
{
    proof {
        lex_irreflexive(K::rank(a@));
    }
    match a.compare(b) {
        KeyOrder::Same => {
            proof {
                K::rank_injective(a@, b@);
            }
            true
        },
        _ => false,
    }
}

/// Identity-to-domain assignments from the disclosed common-control
/// registry. Identities without an entry form singleton domains.
#[derive(Debug, PartialEq, Eq)]
pub struct DomainMap(pub KeyedMap<IdentityId, DomainId>);

/// The assignment that the last pair for each identity makes.
pub open spec fn last_assignment<V>(pairs: Seq<(IdentityId, V)>) -> Map<IdentityId, V>
    decreases pairs.len(),
{
    if pairs.len() == 0 {
        Map::empty()
    } else {
        last_assignment(pairs.drop_last()).insert(pairs.last().0, pairs.last().1)
    }
}

impl Default for DomainMap {
    fn default() -> (r: DomainMap)
        ensures
            r.0@ == Map::<IdentityId, DomainId>::empty(),
    {
        DomainMap(KeyedMap::new())
    }
}

impl Clone for DomainMap {
    fn clone(&self) -> (r: DomainMap)
        ensures
            r.0@ == self.0@,
    {
        let mut map: KeyedMap<IdentityId, DomainId> = KeyedMap::new();
        let count: usize = self.0.len();
        let mut i: usize = 0;
        proof {
            first_entries_ends(self.0);
        }
        while i < count
            invariant
                i <= count,
                count == self.0.keys().len(),
                self.0@.dom().finite(),
                map@ == self.0.first_entries(i as int),
            decreases count - i,
        {
            map.insert(*self.0.key_at(i), self.0.value_at(i).clone());
            proof {
                first_entries_next(self.0, i as int);
            }
            i = i + 1;
        }
        DomainMap(map)
    }
}

impl DomainMap {
    /// The effective domain of an identity.
    pub open spec fn domain(&self, identity: IdentityId) -> DomainKeyView {
        if self.0@.dom().contains(identity) {
            DomainKeyView::Declared(self.0@[identity].0@)
        } else {
            DomainKeyView::Solo(identity)
        }
    }

    /// The map in which each identity has the domain of its last pair.
    pub fn from_pairs(pairs: Vec<(IdentityId, DomainId)>) -> (r: Self)
        ensures
            r.0@ == last_assignment(pairs@),
    {
        let mut map: KeyedMap<IdentityId, DomainId> = KeyedMap::new();
        let mut i: usize = 0;
        while i < pairs.len()
            invariant
                i <= pairs@.len(),
                map@ == last_assignment(pairs@.take(i as int)),
            decreases pairs@.len() - i,
        {
            map.insert(pairs[i].0, pairs[i].1.clone());
            assert(pairs@.take(i + 1).drop_last() =~= pairs@.take(i as int));
            i = i + 1;
        }
        assert(pairs@.take(i as int) =~= pairs@);
        DomainMap(map)
    }

    /// The effective domain of `identity`.
    pub fn domain_of(&self, identity: IdentityId) -> (r: DomainKey)
        ensures
            r@ == self.domain(identity),
    {
        match self.0.get(&identity) {
            Some(domain) => DomainKey::Declared(domain.clone()),
            None => DomainKey::Solo(identity),
        }
    }

    /// Whether two identities share a control domain.
    pub fn same_domain(&self, a: IdentityId, b: IdentityId) -> (r: bool)
        ensures
            r == (self.domain(a) == self.domain(b)),
    {
        if same_key(&a, &b) {
            return true;
        }
        same_key(&self.domain_of(a), &self.domain_of(b))
    }

    /// Identities that are not disclosed share a domain only with themselves.
    pub proof fn undisclosed_is_alone(&self, a: IdentityId, b: IdentityId)
        requires
            !self.0@.dom().contains(a),
        ensures
            self.domain(a) == self.domain(b) <==> a == b,
    {
    }
}

/// The evidence ladder. The variant order is the trust order; `Declared`
/// deliberately multiplies every score to zero.
#[derive(Debug, Clone, Copy, PartialEq, Eq, PartialOrd, Ord, Hash, Structural)]
pub enum EvidenceLevel {
    Declared,
    Observed,
    Benchmarked,
    Audited,
    Attested,
    Replicated,
}

/// The position of a level on the ladder.
pub open spec fn ladder_rung(level: EvidenceLevel) -> int {
    match level {
        EvidenceLevel::Declared => 0,
        EvidenceLevel::Observed => 1,
        EvidenceLevel::Benchmarked => 2,
        EvidenceLevel::Audited => 3,
        EvidenceLevel::Attested => 4,
        EvidenceLevel::Replicated => 5,
    }
}

impl EvidenceLevel {
    /// The score multiplier of a level, in percent.
    pub open spec fn percent(self) -> nat {
        match self {
            EvidenceLevel::Declared => 0,
            EvidenceLevel::Observed => 100,
            EvidenceLevel::Benchmarked => 120,
            EvidenceLevel::Audited => 150,
            EvidenceLevel::Attested => 170,
            EvidenceLevel::Replicated => 200,
        }
    }

    /// Score multiplier in integer percent (100 = 1.0x).
    pub fn multiplier_percent(self) -> (r: u64)
        ensures
            r == self.percent(),
    {
        match self {
            EvidenceLevel::Declared => 0,
            EvidenceLevel::Observed => 100,
            EvidenceLevel::Benchmarked => 120,
            EvidenceLevel::Audited => 150,
            EvidenceLevel::Attested => 170,
            EvidenceLevel::Replicated => 200,
        }
    }

    /// A higher level on the ladder has a strictly larger multiplier.
    pub proof fn ladder_is_strictly_increasing(a: EvidenceLevel, b: EvidenceLevel)
        ensures
            ladder_rung(a) < ladder_rung(b) <==> a.percent() < b.percent(),
    {
    }
}

/// One settled, on-chain-observable unit of work, as extracted from a Task
/// Escrow settlement or Service Actor receipt by the indexer.
#[derive(Debug, PartialEq, Eq)]
pub struct SettledWorkUnit {
    /// The earning identity.
    pub identity: IdentityId,
    /// The paying counterparty identity.
    pub payer: IdentityId,
    /// Capability class under the published rate-card vocabulary.
    pub capability: CapabilityClass,
    /// Protocol rate-card valuation of the measured work, in nanotos.
    pub rate_card_value: Nanotos,
    /// The amount an arm's-length consumer actually escrowed and settled.
    pub settled_price: Nanotos,
    /// Evidence level attached to this settlement.
    pub evidence: EvidenceLevel,
    /// True when the work unit is a protocol-issued challenge task.
    /// Challenge work scores normally but never counts toward the
    /// organic settled value that drives emission.
    pub is_challenge_task: bool,
    /// True when the payer is inside the earner's disclosed control
    /// domain. Related-payer settlements are excluded from scoring and
    /// from organic settled value.
    pub payer_related: bool,
}

/// What a [`SettledWorkUnit`] says.
pub struct WorkUnitView {
    pub identity: IdentityId,
    pub payer: IdentityId,
    pub capability: Seq<char>,
    pub rate_card_value: Nanotos,
    pub settled_price: Nanotos,
    pub evidence: EvidenceLevel,
    pub is_challenge_task: bool,
    pub payer_related: bool,
}

impl View for SettledWorkUnit {
    type V = WorkUnitView;

    open spec fn view(&self) -> WorkUnitView {
        WorkUnitView {
            identity: self.identity,
            payer: self.payer,
            capability: self.capability.0@,
            rate_card_value: self.rate_card_value,
            settled_price: self.settled_price,
            evidence: self.evidence,
            is_challenge_task: self.is_challenge_task,
            payer_related: self.payer_related,
        }
    }
}

impl Clone for SettledWorkUnit {
    fn clone(&self) -> (r: Self)
        ensures
            r == *self,
    {
        SettledWorkUnit {
            identity: self.identity,
            payer: self.payer,
            capability: self.capability.clone(),
            rate_card_value: self.rate_card_value,
            settled_price: self.settled_price,
            evidence: self.evidence,
            is_challenge_task: self.is_challenge_task,
            payer_related: self.payer_related,
        }
    }
}

/// What some units say.
pub open spec fn unit_views(units: Seq<SettledWorkUnit>) -> Seq<WorkUnitView> {
    units.map_values(|u: SettledWorkUnit| u@)
}

/// Appends copies of some units.
pub fn append_units(out: &mut Vec<SettledWorkUnit>, units: &Vec<SettledWorkUnit>)
    ensures
        final(out)@ == old(out)@ + units@,
{
    let mut i: usize = 0;
    while i < units.len()
        invariant
            i <= units@.len(),
            out@ == old(out)@ + units@.take(i as int),
        decreases units@.len() - i,
    {
        out.push(units[i].clone());
        assert(out@ =~= old(out)@ + units@.take(i + 1));
        i = i + 1;
    }
    assert(units@.take(i as int) =~= units@);
}

/// The reliability inputs of each identity: those of its last pair.
pub fn reliability_inputs(pairs: &Vec<(IdentityId, ReliabilityInputs)>) -> (r: KeyedMap<
    IdentityId,
    ReliabilityInputs,
>)
    ensures
        r@ == last_assignment(pairs@),
{
    let mut map: KeyedMap<IdentityId, ReliabilityInputs> = KeyedMap::new();
    let mut i: usize = 0;
    while i < pairs.len()
        invariant
            i <= pairs@.len(),
            map@ == last_assignment(pairs@.take(i as int)),
        decreases pairs@.len() - i,
    {
        map.insert(pairs[i].0, pairs[i].1);
        assert(pairs@.take(i + 1).drop_last() =~= pairs@.take(i as int));
        i = i + 1;
    }
    assert(pairs@.take(i as int) =~= pairs@);
    map
}

/// Copies reliability pairs.
pub fn copy_reliability(pairs: &Vec<(IdentityId, ReliabilityInputs)>) -> (r: Vec<
    (IdentityId, ReliabilityInputs),
>)
    ensures
        r@ == pairs@,
{
    let mut out: Vec<(IdentityId, ReliabilityInputs)> = Vec::new();
    let mut i: usize = 0;
    while i < pairs.len()
        invariant
            i <= pairs@.len(),
            out@ == pairs@.take(i as int),
        decreases pairs@.len() - i,
    {
        out.push((pairs[i].0, pairs[i].1));
        assert(out@ =~= pairs@.take(i + 1));
        i = i + 1;
    }
    assert(pairs@.take(i as int) =~= pairs@);
    out
}

/// A protocol-published rate card: nanotos per normalized unit, per
/// capability class. The `default` class needs no entry: its work units
/// already are the settled amount (an implicit price of 1).
#[derive(Debug, PartialEq, Eq)]
pub struct RateCard {
    pub version: String,
    pub prices: KeyedMap<String, Nanotos>,
}

impl Default for RateCard {
    fn default() -> (r: RateCard)
        ensures
            r.version@ == Seq::<char>::empty(),
            r.prices@ == Map::<Seq<char>, Nanotos>::empty(),
    {
        RateCard { version: String::new(), prices: KeyedMap::new() }
    }
}

impl Clone for RateCard {
    fn clone(&self) -> (r: RateCard)
        ensures
            r.version == self.version,
            r.prices@ == self.prices@,
    {
        let mut prices: KeyedMap<String, Nanotos> = KeyedMap::new();
        let count: usize = self.prices.len();
        let mut i: usize = 0;
        proof {
            first_entries_ends(self.prices);
        }
        while i < count
            invariant
                i <= count,
                count == self.prices.keys().len(),
                self.prices@.dom().finite(),
                prices@ == self.prices.first_entries(i as int),
            decreases count - i,
        {
            prices.insert(self.prices.key_at(i).clone(), *self.prices.value_at(i));
            proof {
                first_entries_next(self.prices, i as int);
            }
            i = i + 1;
        }
        RateCard { version: self.version.clone(), prices }
    }
}

/// Work attribution as carried inside a signed settlement receipt.
#[derive(Debug, PartialEq, Eq)]
pub struct WorkAttribution {
    pub capability_class: String,
    pub unit: String,
    pub work_units: u64,
    pub rate_card_version: String,
    pub evidence_level: EvidenceLevel,
    /// Optional sha256 commitments (64 hex chars) to the earner/payer
    /// chain accounts. Not consumed by valuation; validated for shape
    /// when present.
    pub earner_identity_commitment: Option<String>,
    pub payer_identity_commitment: Option<String>,
    pub challenge_task: bool,
}

fn clone_text(text: &Option<String>) -> (r: Option<String>)
    ensures
        r == *text,
{
    match text {
        Some(t) => Some(t.clone()),
        None => None,
    }
}

impl Clone for WorkAttribution {
    fn clone(&self) -> (r: Self)
        ensures
            r == *self,
    {
        WorkAttribution {
            capability_class: self.capability_class.clone(),
            unit: self.unit.clone(),
            work_units: self.work_units,
            rate_card_version: self.rate_card_version.clone(),
            evidence_level: self.evidence_level,
            earner_identity_commitment: clone_text(&self.earner_identity_commitment),
            payer_identity_commitment: clone_text(&self.payer_identity_commitment),
            challenge_task: self.challenge_task,
        }
    }
}

/// Attribution consumption errors. Every variant is a hard scoring
/// error: a malformed or unpriceable attribution is rejected, never
/// repaired or silently skipped.
#[derive(Debug, Clone, PartialEq, Eq)]
pub enum AttributionError {
    /// The rate card version of the attribution, and the one implemented.
    UnknownVersion(String, &'static str),
    UnknownClass(String),
    UnitMismatch { class: String, expected: &'static str, got: String },
    Unpriced { version: String, class: String },
    Overflow(String),
    BadCommitment(&'static str),
}

/// What an [`AttributionError`] says.
pub enum AttributionErrorView {
    UnknownVersion(Seq<char>, Seq<char>),
    UnknownClass(Seq<char>),
    UnitMismatch { class: Seq<char>, expected: Seq<char>, got: Seq<char> },
    Unpriced { version: Seq<char>, class: Seq<char> },
    Overflow(Seq<char>),
    BadCommitment(Seq<char>),
}

impl View for AttributionError {
    type V = AttributionErrorView;

    open spec fn view(&self) -> AttributionErrorView {
        match self {
            AttributionError::UnknownVersion(got, known) => AttributionErrorView::UnknownVersion(
                got@,
                known@,
            ),
            AttributionError::UnknownClass(class) => AttributionErrorView::UnknownClass(class@),
            AttributionError::UnitMismatch { class, expected, got } => {
                AttributionErrorView::UnitMismatch {
                    class: class@,
                    expected: expected@,
                    got: got@,
                }
            },
            AttributionError::Unpriced { version, class } => AttributionErrorView::Unpriced {
                version: version@,
                class: class@,
            },
            AttributionError::Overflow(class) => AttributionErrorView::Overflow(class@),
            AttributionError::BadCommitment(label) => AttributionErrorView::BadCommitment(label@),
        }
    }
}

/// A commitment, where there is one, is the hex form of 32 bytes.
pub open spec fn commitment_ok(commitment: Option<String>) -> bool {
    commitment matches Some(text) ==> hex_array(text@, 32) is Some
}

/// Checks the shape of a commitment, where there is one.
pub fn validate_commitment(label: &'static str, commitment: &Option<String>) -> (r: Result<
    (),
    AttributionError,
>)
    ensures
        r is Ok <==> commitment_ok(*commitment),
        r matches Err(e) ==> e == AttributionError::BadCommitment(label),
{
    match commitment {
        None => Ok(()),
        Some(text) => match hex::decode_array::<32>(text.as_str()) {
            Some(_) => Ok(()),
            None => Err(AttributionError::BadCommitment(label)),
        },
    }
}

impl WorkAttribution {
    /// The rate-card valuation of the attributed work: the settled amount
    /// itself for the `default` class, the work units at the card's price for
    /// any other, and nothing for a class without a price.
    pub open spec fn card_value(&self, settled_price: Nanotos, rate_card: RateCard) -> Option<
        nat,
    > {
        if self.capability_class@ == DEFAULT_CLASS@ {
            Some(settled_price as nat)
        } else if rate_card.prices@.dom().contains(self.capability_class@) {
            Some((self.work_units * rate_card.prices@[self.capability_class@]) as nat)
        } else {
            None
        }
    }

    /// What an attribution is worth under a rate card, or the first reason
    /// for which it is rejected.
    pub open spec fn valuation(
        &self,
        earner: IdentityId,
        payer: IdentityId,
        settled_price: Nanotos,
        rate_card: RateCard,
    ) -> Result<WorkUnitView, AttributionErrorView> {
        let class = self.capability_class@;
        if self.rate_card_version@ != RATE_CARD_VERSION@ || rate_card.version@
            != RATE_CARD_VERSION@ {
            Err(AttributionErrorView::UnknownVersion(self.rate_card_version@, RATE_CARD_VERSION@))
        } else if class_unit(class) is None {
            Err(AttributionErrorView::UnknownClass(class))
        } else if self.unit@ != class_unit(class).unwrap()@ {
            Err(
                AttributionErrorView::UnitMismatch {
                    class,
                    expected: class_unit(class).unwrap()@,
                    got: self.unit@,
                },
            )
        } else if !commitment_ok(self.earner_identity_commitment) {
            Err(AttributionErrorView::BadCommitment("earner"@))
        } else if !commitment_ok(self.payer_identity_commitment) {
            Err(AttributionErrorView::BadCommitment("payer"@))
        } else {
            match self.card_value(settled_price, rate_card) {
                None => Err(AttributionErrorView::Unpriced { version: rate_card.version@, class }),
                Some(value) => if value > u64::MAX {
                    Err(AttributionErrorView::Overflow(class))
                } else {
                    Ok(
                        WorkUnitView {
                            identity: earner,
                            payer,
                            capability: class,
                            rate_card_value: value as u64,
                            settled_price,
                            evidence: self.evidence_level,
                            is_challenge_task: self.challenge_task,
                            payer_related: false,
                        },
                    )
                },
            }
        }
    }

    /// Convert a receipt attribution into a scoreable settled work unit
    /// under a rate card: `rate_card_value = work_units x price per
    /// unit` for priced classes, and the settled amount itself for the
    /// `default` class. The attribution's rate-card version must match
    /// both this scorer's vocabulary and the supplied card.
    pub fn to_settled_work_unit(
        &self,
        earner: IdentityId,
        payer: IdentityId,
        settled_price: Nanotos,
        rate_card: &RateCard,
    ) -> (r: Result<SettledWorkUnit, AttributionError>)
        ensures
            r matches Ok(unit) ==> self.valuation(earner, payer, settled_price, *rate_card) == Ok::<
                WorkUnitView,
                AttributionErrorView,
            >(unit@),
            r matches Err(e) ==> self.valuation(earner, payer, settled_price, *rate_card) == Err::<
                WorkUnitView,
                AttributionErrorView,
            >(e@),
            r matches Ok(unit) ==> {
                &&& unit.identity == earner
                &&& unit.payer == payer
                &&& unit.settled_price == settled_price
                &&& unit.capability.0@ == self.capability_class@
                &&& unit.evidence == self.evidence_level
                &&& unit.is_challenge_task == self.challenge_task
                &&& !unit.payer_related
                &&& self.capability_class@ == DEFAULT_CLASS@ ==> unit.rate_card_value
                    == settled_price
                &&& self.capability_class@ != DEFAULT_CLASS@ ==> unit.rate_card_value
                    == self.work_units * rate_card.prices@[self.capability_class@]
            },
    {
        if !same_text(self.rate_card_version.as_str(), RATE_CARD_VERSION) || !same_text(
            rate_card.version.as_str(),
            RATE_CARD_VERSION,
        ) {
            return Err(
                AttributionError::UnknownVersion(self.rate_card_version.clone(), RATE_CARD_VERSION),
            );
        }
        let expected_unit: &'static str = match vocabulary::unit_for(
            self.capability_class.as_str(),
        ) {
            Some(unit) => unit,
            None => {
                return Err(AttributionError::UnknownClass(self.capability_class.clone()));
            },
        };
        if !same_text(self.unit.as_str(), expected_unit) {
            return Err(
                AttributionError::UnitMismatch {
                    class: self.capability_class.clone(),
                    expected: expected_unit,
                    got: self.unit.clone(),
                },
            );
        }
        if let Err(e) = validate_commitment("earner", &self.earner_identity_commitment) {
            return Err(e);
        }
        if let Err(e) = validate_commitment("payer", &self.payer_identity_commitment) {
            return Err(e);
        }
        let rate_card_value: Nanotos = if same_text(
            self.capability_class.as_str(),
            DEFAULT_CLASS,
        ) {
            settled_price
        } else {
            match rate_card.prices.get(&self.capability_class) {
                None => {
                    return Err(
                        AttributionError::Unpriced {
                            version: rate_card.version.clone(),
                            class: self.capability_class.clone(),
                        },
                    );
                },
                Some(price) => match self.work_units.checked_mul(*price) {
                    Some(value) => value,
                    None => {
                        return Err(AttributionError::Overflow(self.capability_class.clone()));
                    },
                },
            }
        };
        Ok(
            SettledWorkUnit {
                identity: earner,
                payer,
                capability: CapabilityClass(self.capability_class.clone()),
                rate_card_value,
                settled_price,
                evidence: self.evidence_level,
                is_challenge_task: self.challenge_task,
                payer_related: false,
            },
        )
    }
}

/// Trailing-window reliability inputs for one identity, all in basis
/// points of the relevant totals. Absence of history means a neutral
/// factor, never a bonus.
#[derive(Debug, Clone, Copy, PartialEq, Eq, Structural)]
pub struct ReliabilityInputs {
    /// Share of accepted tasks that settled successfully.
    pub settlement_success_bps: Bps,
    /// Share of disputes lost.
    pub dispute_loss_bps: Bps,
    /// Share of accepted tasks with SLA breaches.
    pub sla_breach_bps: Bps,
}

/// Errors shared across scorer components.
#[derive(Debug, Clone, Copy, PartialEq, Eq)]
pub enum PoiwError {
    /// Integer overflow in score arithmetic.
    Overflow,
    /// An invalid parameter, and what is asked of it.
    InvalidParameter(&'static str),
}

/// The same errors, under the name they have in the AIPoW pipeline.
pub type AipowError = PoiwError;

} // verus!
