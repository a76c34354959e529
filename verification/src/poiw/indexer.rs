//! Chain-ingestion boundary.
//!
//! The scorer never talks to the chain directly; it consumes a
//! [`ChainSource`]. This module provides the trait, the checkpoint type, and
//! [`FixtureSource`]: a complete, deterministic source backed by a fixture,
//! used for test vectors and the command line.

use std::collections::BTreeMap;

use vstd::prelude::*;

pub use crate::source::{Checkpoint, FixtureError};

use crate::keyed::KeyedMap;
use crate::listing::{ascending_keys, ascending_numbers};
use crate::types::{
    append_units, copy_reliability, last_assignment, reliability_inputs, EpochId, IdentityId,
    ReliabilityInputs, SettledWorkUnit,
};

verus! {

/// Everything the scorer needs for one epoch.
#[derive(Debug, PartialEq, Eq)]
pub struct EpochData {
    pub units: Vec<SettledWorkUnit>,
    /// Trailing-window reliability inputs per identity, where history
    /// exists. Identities without history score at the neutral factor.
    pub reliability: Vec<(IdentityId, ReliabilityInputs)>,
}

impl Default for EpochData {
    fn default() -> (r: EpochData)
        ensures
            r.units@ == Seq::<SettledWorkUnit>::empty(),
            r.reliability@ == Seq::<(IdentityId, ReliabilityInputs)>::empty(),
    {
        EpochData { units: Vec::new(), reliability: Vec::new() }
    }
}

impl Clone for EpochData {
    fn clone(&self) -> (r: Self)
        ensures
            r.units@ == self.units@,
            r.reliability@ == self.reliability@,
    {
        let mut units: Vec<SettledWorkUnit> = Vec::new();
        append_units(&mut units, &self.units);
        assert(units@ =~= self.units@);
        EpochData { units, reliability: copy_reliability(&self.reliability) }
    }
}

impl EpochData {
    /// The reliability inputs per identity.
    pub fn reliability_map(&self) -> (r: KeyedMap<IdentityId, ReliabilityInputs>)
        ensures
            r@ == last_assignment(self.reliability@),
    {
        reliability_inputs(&self.reliability)
    }
}

/// A source of settled-work records per epoch.
pub trait ChainSource {
    type Error;

    /// All settled work units and reliability inputs for `epoch`.
    fn epoch_data(&self, epoch: EpochId) -> Result<EpochData, Self::Error>;
}

/// A fixture: epochs keyed by number.
#[derive(Debug, Clone, PartialEq, Eq)]
pub struct Fixture {
    pub epochs: BTreeMap<u64, EpochData>,
}

impl Default for Fixture {
    fn default() -> (r: Fixture)
        ensures
            r.epochs@ == Map::<u64, EpochData>::empty(),
    {
        Fixture { epochs: BTreeMap::new() }
    }
}

/// A deterministic, in-memory [`ChainSource`] loaded from a fixture. This is
/// a real source (used for test vectors and the command line), not a mock of
/// a chain source.
#[derive(Debug, Clone)]
pub struct FixtureSource {
    fixture: Fixture,
}

impl FixtureSource {
    /// The epochs that are served.
    pub closed spec fn served(&self) -> Map<u64, EpochData> {
        self.fixture.epochs@
    }

    /// The source that serves a fixture.
    pub fn new(fixture: Fixture) -> (r: Self)
        ensures
            r.served() == fixture.epochs@,
    {
        FixtureSource { fixture }
    }

    /// The epochs that are served, ascending.
    pub fn epochs(&self) -> (r: Vec<EpochId>)
        ensures
            r@ == ascending_numbers(self.served().dom()).map_values(|k: u64| EpochId(k)),
            forall|i: int, j: int|
                0 <= i < j < r@.len() ==> (#[trigger] r@[i]).0 < (#[trigger] r@[j]).0,
            forall|k: u64| #[trigger]
                self.served().dom().contains(k) <==> r@.contains(EpochId(k)),
    {
        let keys: Vec<u64> = ascending_keys(&self.fixture.epochs);
        let mut out: Vec<EpochId> = Vec::new();
        let mut i: usize = 0;
        while i < keys.len()
            invariant
                i <= keys@.len(),
                out@ == keys@.take(i as int).map_values(|k: u64| EpochId(k)),
            decreases keys@.len() - i,
        {
            out.push(EpochId(keys[i]));
            assert(out@ =~= keys@.take(i + 1).map_values(|k: u64| EpochId(k)));
            i = i + 1;
        }
        assert(keys@.take(i as int) =~= keys@);
        proof {
            assert forall|k: u64| #[trigger]
                self.served().dom().contains(k) <==> out@.contains(EpochId(k)) by {
                assert(self.served().dom().contains(k) == keys@.to_set().contains(k));
                if keys@.contains(k) {
                    assert(out@[keys@.index_of(k)] == EpochId(k));
                }
                if out@.contains(EpochId(k)) {
                    assert(keys@[out@.index_of(EpochId(k))] == k);
                }
            }
        }
        out
    }
}

impl ChainSource for FixtureSource {
    type Error = FixtureError;

    fn epoch_data(&self, epoch: EpochId) -> (r: Result<EpochData, FixtureError>)
        ensures
            r is Ok <==> self.served().dom().contains(epoch.0),
            r matches Ok(data) ==> data.units@ == self.served()[epoch.0].units@ && data.reliability@
                == self.served()[epoch.0].reliability@,
            r matches Err(e) ==> e == FixtureError::UnknownEpoch(epoch.0),
    {
        broadcast use vstd::std_specs::btree::group_btree_axioms;

        match self.fixture.epochs.get(&epoch.0) {
            Some(data) => Ok(data.clone()),
            None => Err(FixtureError::UnknownEpoch(epoch.0)),
        }
    }
}

} // verus!
