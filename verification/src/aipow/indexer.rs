//! Chain-ingestion boundary.
//!
//! The scorer never talks to the chain directly; it consumes a
//! [`ChainSource`]. Two sources exist here:
//!
//! - [`FixtureSource`]: a complete, deterministic source backed by a
//!   fixture, used for test vectors;
//! - [`crate::aipow::rpc::RpcChainSource`]: walks finalized blocks over a
//!   [`crate::aipow::rpc::ChainRpc`] with reorg-safe checkpoints.

use std::collections::BTreeMap;

use vstd::prelude::*;

pub use crate::source::{Checkpoint, FixtureError};

use crate::keyed::KeyedMap;
use crate::listing::{ascending_keys, ascending_numbers};
use crate::sums::{collect, collect_next, collect_prefix_error};
use crate::types::{
    append_units, copy_reliability, last_assignment, reliability_inputs, unit_views,
    AttributionError, AttributionErrorView, DomainId, DomainMap, EpochId, IdentityId, Nanotos,
    RateCard, ReliabilityInputs, SettledWorkUnit, WorkAttribution, WorkUnitView,
};

verus! {

/// One settlement carrying a receipt-borne work attribution, not
/// yet valued: a rate card turns it into a [`SettledWorkUnit`].
#[derive(Debug, PartialEq, Eq)]
pub struct AttributedSettlement {
    pub earner: IdentityId,
    pub payer: IdentityId,
    pub settled_price: Nanotos,
    pub attribution: WorkAttribution,
}

impl Clone for AttributedSettlement {
    fn clone(&self) -> (r: Self)
        ensures
            r == *self,
    {
        AttributedSettlement {
            earner: self.earner,
            payer: self.payer,
            settled_price: self.settled_price,
            attribution: self.attribution.clone(),
        }
    }
}

/// Everything the scorer needs for one epoch.
#[derive(Debug, PartialEq, Eq)]
pub struct EpochData {
    pub units: Vec<SettledWorkUnit>,
    /// Settlements whose receipts carry work attributions; valued
    /// against a rate card by [`EpochData::valued_units`]. Sources that
    /// serve attributions populate this instead of pre-valuing `units`.
    pub attributed: Vec<AttributedSettlement>,
    /// Trailing-window reliability inputs per identity, where history
    /// exists. Identities without history score at the neutral factor.
    pub reliability: Vec<(IdentityId, ReliabilityInputs)>,
}

impl Default for EpochData {
    fn default() -> (r: EpochData)
        ensures
            r.units@ == Seq::<SettledWorkUnit>::empty(),
            r.attributed@ == Seq::<AttributedSettlement>::empty(),
            r.reliability@ == Seq::<(IdentityId, ReliabilityInputs)>::empty(),
    {
        EpochData { units: Vec::new(), attributed: Vec::new(), reliability: Vec::new() }
    }
}

impl Clone for EpochData {
    fn clone(&self) -> (r: Self)
        ensures
            r.units@ == self.units@,
            r.attributed@ == self.attributed@,
            r.reliability@ == self.reliability@,
    {
        let mut units: Vec<SettledWorkUnit> = Vec::new();
        append_units(&mut units, &self.units);
        assert(units@ =~= self.units@);
        let mut attributed: Vec<AttributedSettlement> = Vec::new();
        let mut i: usize = 0;
        while i < self.attributed.len()
            invariant
                i <= self.attributed@.len(),
                attributed@ == self.attributed@.take(i as int),
            decreases self.attributed@.len() - i,
        {
            attributed.push(self.attributed[i].clone());
            assert(attributed@ =~= self.attributed@.take(i + 1));
            i = i + 1;
        }
        assert(attributed@ =~= self.attributed@);
        EpochData { units, attributed, reliability: copy_reliability(&self.reliability) }
    }
}

/// The valuations of some settlements under a rate card, one outcome each.
pub open spec fn valuations(
    settlements: Seq<AttributedSettlement>,
    rate_card: RateCard,
) -> Seq<Result<WorkUnitView, AttributionErrorView>> {
    settlements.map_values(
        |s: AttributedSettlement|
            s.attribution.valuation(s.earner, s.payer, s.settled_price, rate_card),
    )
}

impl EpochData {
    /// The reliability inputs per identity.
    pub fn reliability_map(&self) -> (r: KeyedMap<IdentityId, ReliabilityInputs>)
        ensures
            r@ == last_assignment(self.reliability@),
    {
        reliability_inputs(&self.reliability)
    }

    /// The pre-valued units, then the valued settlements, or the first
    /// settlement's error.
    pub open spec fn valued(&self, rate_card: RateCard) -> Result<
        Seq<WorkUnitView>,
        AttributionErrorView,
    > {
        match collect(valuations(self.attributed@, rate_card)) {
            Err(e) => Err(e),
            Ok(values) => Ok(unit_views(self.units@) + values),
        }
    }

    /// All scoreable units: the pre-valued `units` plus every attributed
    /// settlement valued under `rate_card`. A malformed or unpriceable
    /// attribution is a hard error, never a silent skip.
    pub fn valued_units(&self, rate_card: &RateCard) -> (r: Result<
        Vec<SettledWorkUnit>,
        AttributionError,
    >)
        ensures
            r matches Ok(units) ==> self.valued(*rate_card) == Ok::<
                Seq<WorkUnitView>,
                AttributionErrorView,
            >(unit_views(units@)),
            r matches Err(e) ==> self.valued(*rate_card) == Err::<
                Seq<WorkUnitView>,
                AttributionErrorView,
            >(e@),
            r matches Ok(units) ==> {
                &&& units@.len() == self.units@.len() + self.attributed@.len()
                &&& units@.take(self.units@.len() as int) == self.units@
                &&& forall|i: int|
                    0 <= i < self.attributed@.len() ==> {
                        let unit = units@[self.units@.len() + i];
                        &&& unit.identity == (#[trigger] self.attributed@[i]).earner
                        &&& unit.payer == self.attributed@[i].payer
                        &&& unit.settled_price == self.attributed@[i].settled_price
                    }
            },
    {
        let mut units: Vec<SettledWorkUnit> = Vec::new();
        append_units(&mut units, &self.units);
        let ghost outcomes = valuations(self.attributed@, *rate_card);
        let ghost mut values = Seq::<WorkUnitView>::empty();
        let mut i: usize = 0;
        assert(outcomes.take(0) =~= Seq::empty());
        assert(unit_views(units@) =~= unit_views(self.units@) + values);
        assert(units@.take(self.units@.len() as int) =~= self.units@);
        while i < self.attributed.len()
            invariant
                i <= self.attributed@.len(),
                outcomes == valuations(self.attributed@, *rate_card),
                collect(outcomes.take(i as int)) == Ok::<Seq<WorkUnitView>, AttributionErrorView>(
                    values,
                ),
                unit_views(units@) == unit_views(self.units@) + values,
                units@.len() == self.units@.len() + i,
                units@.take(self.units@.len() as int) == self.units@,
                forall|j: int|
                    0 <= j < i ==> {
                        let unit = units@[self.units@.len() + j];
                        &&& unit.identity == (#[trigger] self.attributed@[j]).earner
                        &&& unit.payer == self.attributed@[j].payer
                        &&& unit.settled_price == self.attributed@[j].settled_price
                    },
            decreases self.attributed@.len() - i,
        {
            let settlement: &AttributedSettlement = &self.attributed[i];
            proof {
                collect_next(outcomes, i as int);
            }
            match settlement.attribution.to_settled_work_unit(
                settlement.earner,
                settlement.payer,
                settlement.settled_price,
                rate_card,
            ) {
                Ok(unit) => {
                    let ghost before = units@;
                    let ghost said = unit@;
                    units.push(unit);
                    proof {
                        assert(units@.take(self.units@.len() as int) =~= before.take(
                            self.units@.len() as int,
                        ));
                        assert(unit_views(units@) =~= unit_views(before).push(said));
                        values = values.push(said);
                        assert(unit_views(units@) =~= unit_views(self.units@) + values);
                    }
                },
                Err(e) => {
                    proof {
                        collect_prefix_error(outcomes, i + 1);
                    }
                    return Err(e);
                },
            }
            i = i + 1;
        }
        assert(outcomes.take(i as int) =~= outcomes);
        Ok(units)
    }
}

/// A source of settled-work records per epoch.
pub trait ChainSource {
    type Error;

    /// All settled work units and reliability inputs for `epoch`.
    fn epoch_data(&self, epoch: EpochId) -> Result<EpochData, Self::Error>;
}

/// A fixture: epochs keyed by number, plus the disclosed control-domain
/// assignments in force.
#[derive(Debug, Clone, PartialEq, Eq)]
pub struct Fixture {
    pub epochs: BTreeMap<u64, EpochData>,
    pub domains: Vec<(IdentityId, DomainId)>,
}

impl Default for Fixture {
    fn default() -> (r: Fixture)
        ensures
            r.epochs@ == Map::<u64, EpochData>::empty(),
            r.domains@ == Seq::<(IdentityId, DomainId)>::empty(),
    {
        Fixture { epochs: BTreeMap::new(), domains: Vec::new() }
    }
}

/// A deterministic, in-memory [`ChainSource`] loaded from a fixture. This is
/// a real source (used for test vectors), not a mock of a chain
/// source.
#[derive(Debug, Clone)]
pub struct FixtureSource {
    fixture: Fixture,
}

impl FixtureSource {
    /// The epochs that are served.
    pub closed spec fn served(&self) -> Map<u64, EpochData> {
        self.fixture.epochs@
    }

    /// The disclosed assignments.
    pub closed spec fn disclosed(&self) -> Seq<(IdentityId, DomainId)> {
        self.fixture.domains@
    }

    /// The source that serves a fixture.
    pub fn new(fixture: Fixture) -> (r: Self)
        ensures
            r.served() == fixture.epochs@,
            r.disclosed() == fixture.domains@,
    {
        FixtureSource { fixture }
    }

    /// The epochs that are served, ascending.
    pub fn epochs(&self) -> (r: Vec<EpochId>)
        ensures
            r@ == ascending_numbers(self.served().dom()).map_values(|k: u64| EpochId(k)),
            forall|i: int, j: int|
                0 <= i < j < r@.len() ==> (#[trigger] r@[i]).0 < (#[trigger] r@[j]).0,
            forall|k: u64| #[trigger]
                self.served().dom().contains(k) <==> r@.contains(EpochId(k)),
    {
        let keys: Vec<u64> = ascending_keys(&self.fixture.epochs);
        let mut out: Vec<EpochId> = Vec::new();
        let mut i: usize = 0;
        while i < keys.len()
            invariant
                i <= keys@.len(),
                out@ == keys@.take(i as int).map_values(|k: u64| EpochId(k)),
            decreases keys@.len() - i,
        {
            out.push(EpochId(keys[i]));
            assert(out@ =~= keys@.take(i + 1).map_values(|k: u64| EpochId(k)));
            i = i + 1;
        }
        assert(keys@.take(i as int) =~= keys@);
        proof {
            assert forall|k: u64| #[trigger]
                self.served().dom().contains(k) <==> out@.contains(EpochId(k)) by {
                assert(self.served().dom().contains(k) == keys@.to_set().contains(k));
                if keys@.contains(k) {
                    assert(out@[keys@.index_of(k)] == EpochId(k));
                }
                if out@.contains(EpochId(k)) {
                    assert(keys@[out@.index_of(EpochId(k))] == k);
                }
            }
        }
        out
    }

    /// The disclosed control-domain assignments carried by the fixture.
    pub fn domain_map(&self) -> (r: DomainMap)
        ensures
            r.0@ == last_assignment(self.disclosed()),
    {
        let mut pairs: Vec<(IdentityId, DomainId)> = Vec::new();
        let mut i: usize = 0;
        while i < self.fixture.domains.len()
            invariant
                i <= self.fixture.domains@.len(),
                pairs@ == self.fixture.domains@.take(i as int),
            decreases self.fixture.domains@.len() - i,
        {
            pairs.push((self.fixture.domains[i].0, self.fixture.domains[i].1.clone()));
            assert(pairs@ =~= self.fixture.domains@.take(i + 1));
            i = i + 1;
        }
        assert(pairs@ =~= self.fixture.domains@);
        DomainMap::from_pairs(pairs)
    }
}

impl ChainSource for FixtureSource {
    type Error = FixtureError;

    fn epoch_data(&self, epoch: EpochId) -> (r: Result<EpochData, FixtureError>)
        ensures
            r is Ok <==> self.served().dom().contains(epoch.0),
            r matches Ok(data) ==> {
                &&& data.units@ == self.served()[epoch.0].units@
                &&& data.attributed@ == self.served()[epoch.0].attributed@
                &&& data.reliability@ == self.served()[epoch.0].reliability@
            },
            r matches Err(e) ==> e == FixtureError::UnknownEpoch(epoch.0),
    {
        broadcast use vstd::std_specs::btree::group_btree_axioms;

        match self.fixture.epochs.get(&epoch.0) {
            Some(data) => Ok(data.clone()),
            None => Err(FixtureError::UnknownEpoch(epoch.0)),
        }
    }
}

} // verus!
