//! RPC-backed chain ingestion.
//!
//! [`RpcChainSource`] walks finalized masterchain blocks through any
//! [`ChainRpc`] implementation with reorg-safe checkpoints, following
//! the block-walking discipline of the node's contract indexer: record
//! the hash of the last scanned block, re-verify it before advancing,
//! and rewind a fixed safety margin on a mismatch.

use std::collections::BTreeMap;

use vstd::prelude::*;

use crate::aipow::indexer::{AttributedSettlement, ChainSource, EpochData};
use crate::listing::{ascending_keys, ascending_numbers, lists_numbers};
use crate::order::{compare_bytes, lex_irreflexive, KeyOrder};
use crate::source::{epoch_at, epoch_of_time};
use crate::types::{append_units, EpochId, IdentityId, ReliabilityInputs, SettledWorkUnit};

verus! {

/// A block reference: seqno plus root hash.
#[derive(Debug, Clone, Copy, PartialEq, Eq)]
pub struct BlockRef {
    pub seqno: u64,
    pub hash: [u8; 32],
}

/// Block metadata needed for epoch bucketing.
#[derive(Debug, Clone, Copy, PartialEq, Eq)]
pub struct BlockMeta {
    pub block: BlockRef,
    pub unix_time: u64,
}

/// The minimal chain surface the walker needs.
pub trait ChainRpc {
    type Error;

    /// Current masterchain head.
    fn head(&self) -> Result<BlockRef, Self::Error>;

    /// Metadata of the block at `seqno` on the current chain.
    fn block_meta(&self, seqno: u64) -> Result<BlockMeta, Self::Error>;

    /// Settled work units recorded in the block at `seqno`.
    fn settled_units(&self, seqno: u64) -> Result<Vec<SettledWorkUnit>, Self::Error>;
}

/// Walker configuration.
#[derive(Debug, Clone, Copy, PartialEq, Eq, Structural)]
pub struct WalkerConfig {
    /// Blocks up to `head - confirmations` are treated as finalized.
    pub confirmations: u64,
    /// How far to rewind when the checkpoint hash no longer matches.
    pub reorg_margin: u64,
    /// Upper bound on blocks ingested per [`RpcChainSource::tick`].
    pub max_blocks_per_tick: u64,
    /// Epoch length in seconds (the 65,536-second validation epoch).
    pub epoch_seconds: u64,
    /// First seqno to scan when starting from an empty checkpoint.
    pub start_seqno: u64,
}

impl Default for WalkerConfig {
    fn default() -> (r: WalkerConfig)
        ensures
            r.confirmations == 16,
            r.reorg_margin == 5,
            r.max_blocks_per_tick == 256,
            r.epoch_seconds == 65_536,
            r.start_seqno == 1,
    {
        WalkerConfig {
            confirmations: 16,
            reorg_margin: 5,
            max_blocks_per_tick: 256,
            epoch_seconds: 65_536,
            start_seqno: 1,
        }
    }
}

/// Walker errors.
#[derive(Debug, PartialEq, Eq)]
pub enum SourceError<E> {
    /// The chain could not be asked.
    Rpc(E),
    /// The configuration is invalid, and why.
    InvalidConfig(&'static str),
    /// The epoch is not fully covered by finalized scanned blocks yet.
    IncompleteEpoch(u64),
}

/// Progress report from one walker tick.
#[derive(Debug, Clone, Copy, PartialEq, Eq, Structural)]
pub struct TickProgress {
    pub blocks_scanned: u64,
    pub reorg_detected: bool,
    pub finalized_head: u64,
}

impl Default for TickProgress {
    fn default() -> (r: TickProgress)
        ensures
            r.blocks_scanned == 0,
            !r.reorg_detected,
            r.finalized_head == 0,
    {
        TickProgress { blocks_scanned: 0, reorg_detected: false, finalized_head: 0 }
    }
}

/// A block that was ingested.
#[derive(Debug, PartialEq, Eq)]
pub struct ScannedBlock {
    pub hash: [u8; 32],
    pub unix_time: u64,
    pub units: Vec<SettledWorkUnit>,
}

/// `a - b`, but never below zero.
pub open spec fn minus(a: u64, b: u64) -> u64 {
    if a >= b {
        (a - b) as u64
    } else {
        0
    }
}

/// `a + b`, but never above the largest number.
pub open spec fn plus(a: u64, b: nat) -> u64 {
    if a + b <= u64::MAX {
        (a + b) as u64
    } else {
        u64::MAX
    }
}

/// What is known of the chain: the last block ingested, and all blocks that
/// were.
#[verifier::ext_equal]
pub struct WalkerView {
    pub checkpoint: Option<BlockRef>,
    pub blocks: Map<u64, ScannedBlock>,
}

/// The walker's blocks and checkpoint, apart from the chain they come from.
#[derive(Debug)]
pub struct Walker {
    config: WalkerConfig,
    checkpoint: Option<BlockRef>,
    blocks: BTreeMap<u64, ScannedBlock>,
}

impl View for Walker {
    type V = WalkerView;

    closed spec fn view(&self) -> WalkerView {
        WalkerView { checkpoint: self.checkpoint, blocks: self.blocks@ }
    }
}

/// The hash that the chain reports for the checkpoint's block is another one.
pub open spec fn forked(state: WalkerView, live: BlockMeta) -> bool {
    state.checkpoint matches Some(checkpoint) && live.block.hash != checkpoint.hash
}

/// Where blocks are dropped from after a fork.
pub open spec fn rewind_point(state: WalkerView, config: WalkerConfig) -> u64 {
    minus(state.checkpoint.unwrap().seqno, config.reorg_margin)
}

/// The state after a fork: blocks from the rewind point on are dropped, and
/// the block just before it, where there is one, is the checkpoint.
pub open spec fn rewound(state: WalkerView, config: WalkerConfig) -> WalkerView {
    let point = rewind_point(state, config);
    let kept = state.blocks.restrict(Set::new(|k: u64| k < point));
    let before = minus(point, 1);
    WalkerView {
        checkpoint: if kept.dom().contains(before) {
            Some(BlockRef { seqno: before, hash: kept[before].hash })
        } else {
            None
        },
        blocks: kept,
    }
}

/// The state after the checkpoint was held against the chain.
pub open spec fn checked(state: WalkerView, config: WalkerConfig, live: BlockMeta) -> WalkerView {
    if forked(state, live) {
        rewound(state, config)
    } else {
        state
    }
}

/// The next block to scan.
pub open spec fn next_seqno(state: WalkerView, config: WalkerConfig) -> u64 {
    match state.checkpoint {
        Some(checkpoint) => plus(checkpoint.seqno, 1),
        None => config.start_seqno,
    }
}

/// The state after one block was ingested.
pub open spec fn ingested(
    state: WalkerView,
    seqno: u64,
    meta: BlockMeta,
    units: Vec<SettledWorkUnit>,
) -> WalkerView {
    WalkerView {
        checkpoint: Some(meta.block),
        blocks: state.blocks.insert(
            seqno,
            ScannedBlock { hash: meta.block.hash, unix_time: meta.unix_time, units },
        ),
    }
}

/// The state after a run of blocks from `next` on was ingested.
pub open spec fn scanned(
    state: WalkerView,
    next: u64,
    seen: Seq<(BlockMeta, Vec<SettledWorkUnit>)>,
) -> WalkerView
    decreases seen.len(),
{
    if seen.len() == 0 {
        state
    } else {
        ingested(
            scanned(state, next, seen.drop_last()),
            plus(next, (seen.len() - 1) as nat),
            seen.last().0,
            seen.last().1,
        )
    }
}

/// How many blocks one tick ingests: from `next` to the finalized head, but
/// no more than `most`.
pub open spec fn blocks_to_scan(next: u64, finalized: u64, most: u64) -> nat {
    if next > finalized {
        0
    } else if finalized == u64::MAX || finalized - next + 1 >= most {
        most as nat
    } else {
        (finalized - next + 1) as nat
    }
}

/// The units of an epoch in blocks at ascending seqnos.
pub open spec fn epoch_units_at(
    blocks: Map<u64, ScannedBlock>,
    seqnos: Seq<u64>,
    epoch_seconds: u64,
    epoch: u64,
) -> Seq<SettledWorkUnit>
    decreases seqnos.len(),
{
    if seqnos.len() == 0 {
        Seq::empty()
    } else {
        let before = epoch_units_at(blocks, seqnos.drop_last(), epoch_seconds, epoch);
        let block = blocks[seqnos.last()];
        if epoch_at(block.unix_time, epoch_seconds) == epoch {
            before + block.units@
        } else {
            before
        }
    }
}

/// The units of an epoch, in block order.
pub open spec fn units_in_epoch(
    blocks: Map<u64, ScannedBlock>,
    epoch_seconds: u64,
    epoch: u64,
) -> Seq<SettledWorkUnit> {
    epoch_units_at(blocks, ascending_numbers(blocks.dom()), epoch_seconds, epoch)
}

/// A scanned block's time has reached the end of the epoch. The epoch with
/// the largest number has no end.
pub open spec fn epoch_covered(
    blocks: Map<u64, ScannedBlock>,
    epoch_seconds: u64,
    epoch: u64,
) -> bool {
    &&& epoch < u64::MAX
    &&& exists|seqno: u64| #[trigger]
        blocks.dom().contains(seqno) && blocks[seqno].unix_time >= (epoch + 1) * epoch_seconds
}

/// Whether two hashes are the same.
fn same_hash(a: &[u8; 32], b: &[u8; 32]) -> (r: bool)
    ensures
        r == (*a == *b),
{
    proof {
        lex_irreflexive(a@);
    }
    match compare_bytes(a.as_slice(), b.as_slice()) {
        KeyOrder::Same => {
            assert(*a =~= *b);
            true
        },
        _ => false,
    }
}

impl Walker {
    /// The configuration.
    pub closed spec fn settings(&self) -> WalkerConfig {
        self.config
    }

    /// A walker that has ingested nothing.
    pub fn new(config: WalkerConfig) -> (r: Self)
        ensures
            r.settings() == config,
            r@.checkpoint is None,
            r@.blocks == Map::<u64, ScannedBlock>::empty(),
    {
        Walker { config, checkpoint: None, blocks: BTreeMap::new() }
    }

    /// The configuration.
    pub fn config(&self) -> (r: WalkerConfig)
        ensures
            r == self.settings(),
    {
        self.config
    }

    /// The last block ingested.
    pub fn checkpoint(&self) -> (r: Option<BlockRef>)
        ensures
            r == self@.checkpoint,
    {
        self.checkpoint
    }

    /// The next block to scan.
    pub fn next(&self) -> (r: u64)
        ensures
            r == next_seqno(self@, self.settings()),
    {
        match self.checkpoint {
            Some(checkpoint) => checkpoint.seqno.saturating_add(1),
            None => self.config.start_seqno,
        }
    }

    /// Drops the blocks from `point` on.
    fn drop_from(&mut self, point: u64)
        ensures
            final(self).settings() == old(self).settings(),
            final(self)@.checkpoint == old(self)@.checkpoint,
            final(self)@.blocks == old(self)@.blocks.restrict(Set::new(|k: u64| k < point)),
    {
        broadcast use vstd::std_specs::btree::group_btree_axioms;

        let ghost before = self.blocks@;
        let seqnos: Vec<u64> = ascending_keys(&self.blocks);
        let mut i: usize = 0;
        while i < seqnos.len()
            invariant
                i <= seqnos@.len(),
                self.settings() == old(self).settings(),
                self.checkpoint == old(self).checkpoint,
                lists_numbers(seqnos@, before.dom()),
                self.blocks@.dom().subset_of(before.dom()),
                forall|k: u64| #[trigger]
                    self.blocks@.dom().contains(k) ==> self.blocks@[k] == before[k],
                forall|k: u64| #[trigger]
                    before.dom().contains(k) && k < point ==> self.blocks@.dom().contains(k),
                forall|j: int|
                    0 <= j < i && #[trigger] seqnos@[j] >= point
                        ==> !self.blocks@.dom().contains(seqnos@[j]),
            decreases seqnos@.len() - i,
        {
            if seqnos[i] >= point {
                self.blocks.remove(&seqnos[i]);
            }
            i = i + 1;
        }
        proof {
            let kept = before.restrict(Set::new(|k: u64| k < point));
            assert forall|k: u64| #[trigger] self.blocks@.dom().contains(k) implies k < point by {
                assert(seqnos@.to_set().contains(k));
                let j = seqnos@.index_of(k);
                assert(seqnos@[j] == k);
            }
            assert(self.blocks@ =~= kept);
        }
    }

    /// Holds the checkpoint against what the chain says of its block; on a
    /// hash mismatch rewinds `reorg_margin` blocks and drops everything
    /// scanned from there on, so that it is ingested again from the new
    /// branch.
    pub fn check(&mut self, live: &BlockMeta) -> (r: bool)
        ensures
            final(self).settings() == old(self).settings(),
            final(self)@ == checked(old(self)@, old(self).settings(), *live),
            r == forked(old(self)@, *live),
    {
        broadcast use vstd::std_specs::btree::group_btree_axioms;

        let checkpoint: BlockRef = match self.checkpoint {
            Some(checkpoint) => checkpoint,
            None => {
                return false;
            },
        };
        if same_hash(&live.block.hash, &checkpoint.hash) {
            return false;
        }
        let point: u64 = checkpoint.seqno.saturating_sub(self.config.reorg_margin);
        self.drop_from(point);
        let before: u64 = point.saturating_sub(1);
        self.checkpoint = match self.blocks.get(&before) {
            Some(block) => Some(BlockRef { seqno: before, hash: block.hash }),
            None => None,
        };
        assert(self@ =~= rewound(old(self)@, old(self).settings()));
        true
    }

    /// Takes in the block at `seqno`.
    pub fn ingest(&mut self, seqno: u64, meta: BlockMeta, units: Vec<SettledWorkUnit>)
        ensures
            final(self).settings() == old(self).settings(),
            final(self)@ == ingested(old(self)@, seqno, meta, units),
    {
        broadcast use vstd::std_specs::btree::group_btree_axioms;

        self.blocks.insert(
            seqno,
            ScannedBlock { hash: meta.block.hash, unix_time: meta.unix_time, units },
        );
        self.checkpoint = Some(meta.block);
    }

    /// An epoch is complete once a finalized scanned block's time has passed
    /// the epoch's end.
    pub fn epoch_complete(&self, epoch: u64) -> (r: bool)
        ensures
            r == epoch_covered(self@.blocks, self.settings().epoch_seconds, epoch),
    {
        broadcast use vstd::std_specs::btree::group_btree_axioms;

        let after: u64 = match epoch.checked_add(1) {
            Some(after) => after,
            None => {
                return false;
            },
        };
        let end: u64 = match after.checked_mul(self.config.epoch_seconds) {
            Some(end) => end,
            None => {
                return false;
            },
        };
        let seqnos: Vec<u64> = ascending_keys(&self.blocks);
        let mut i: usize = seqnos.len();
        while i > 0
            invariant
                i <= seqnos@.len(),
                lists_numbers(seqnos@, self.blocks@.dom()),
                epoch < u64::MAX,
                end == (epoch + 1) * self.config.epoch_seconds,
                forall|j: int|
                    i <= j < seqnos@.len() ==> self.blocks@[#[trigger] seqnos@[j]].unix_time < end,
            decreases i,
        {
            i = i - 1;
            let seqno: u64 = seqnos[i];
            assert(seqnos@.to_set().contains(seqno));
            if let Some(block) = self.blocks.get(&seqno) {
                if block.unix_time >= end {
                    return true;
                }
            }
        }
        proof {
            assert forall|k: u64| #[trigger] self.blocks@.dom().contains(k) implies self.blocks@[k]
                .unix_time < end by {
                assert(seqnos@.to_set().contains(k));
                let j = seqnos@.index_of(k);
                assert(seqnos@[j] == k);
            }
        }
        false
    }

    /// A walker holds finitely many blocks.
    pub proof fn blocks_are_finite(&self)
        ensures
            self@.blocks.dom().finite(),
    {
        broadcast use vstd::std_specs::btree::group_btree_axioms;

    }

    /// The units of an epoch, in block order.
    pub fn epoch_units(&self, epoch: u64) -> (r: Vec<SettledWorkUnit>)
        ensures
            r@ == units_in_epoch(self@.blocks, self.settings().epoch_seconds, epoch),
    {
        broadcast use vstd::std_specs::btree::group_btree_axioms;

        let seqnos: Vec<u64> = ascending_keys(&self.blocks);
        let mut units: Vec<SettledWorkUnit> = Vec::new();
        let mut i: usize = 0;
        while i < seqnos.len()
            invariant
                i <= seqnos@.len(),
                lists_numbers(seqnos@, self.blocks@.dom()),
                units@ == epoch_units_at(
                    self@.blocks,
                    seqnos@.take(i as int),
                    self.config.epoch_seconds,
                    epoch,
                ),
            decreases seqnos@.len() - i,
        {
            let seqno: u64 = seqnos[i];
            assert(seqnos@.to_set().contains(seqno));
            assert(seqnos@.take(i + 1).drop_last() =~= seqnos@.take(i as int));
            if let Some(block) = self.blocks.get(&seqno) {
                if epoch_of_time(block.unix_time, self.config.epoch_seconds) == epoch {
                    append_units(&mut units, &block.units);
                }
            }
            i = i + 1;
        }
        assert(seqnos@.take(i as int) =~= seqnos@);
        units
    }
}

/// Everything the chain answered during one tick.
pub struct TickTrace<E> {
    /// What it said of the checkpoint's block, if it was asked.
    pub live: Result<BlockMeta, E>,
    /// Its head, if it was asked.
    pub head: Result<BlockRef, E>,
    /// The blocks that were ingested.
    pub seen: Seq<(BlockMeta, Vec<SettledWorkUnit>)>,
    /// What stopped the scan, if anything did.
    pub failure: Option<E>,
}

/// The state from which a tick scans, once the checkpoint has been checked.
pub open spec fn scan_start<E>(
    state: WalkerView,
    config: WalkerConfig,
    trace: TickTrace<E>,
) -> WalkerView {
    match (state.checkpoint, trace.live) {
        (Some(_), Ok(live)) => checked(state, config, live),
        _ => state,
    }
}

/// The checkpoint could not be checked.
pub open spec fn check_failed<E>(state: WalkerView, trace: TickTrace<E>) -> bool {
    state.checkpoint is Some && trace.live is Err
}

/// The finalized head: the chain's head less the confirmations.
pub open spec fn finalized_at(head: BlockRef, config: WalkerConfig) -> u64 {
    minus(head.seqno, config.confirmations)
}

/// The state after a tick.
pub open spec fn state_after<E>(
    state: WalkerView,
    config: WalkerConfig,
    trace: TickTrace<E>,
) -> WalkerView {
    let start = scan_start(state, config, trace);
    if check_failed(state, trace) || trace.head is Err {
        start
    } else {
        scanned(start, next_seqno(start, config), trace.seen)
    }
}

/// What a tick returns.
pub open spec fn tick_outcome<E>(
    state: WalkerView,
    config: WalkerConfig,
    trace: TickTrace<E>,
) -> Result<TickProgress, SourceError<E>> {
    if check_failed(state, trace) {
        Err(SourceError::Rpc(trace.live->Err_0))
    } else {
        match (trace.head, trace.failure) {
            (Err(e), _) => Err(SourceError::Rpc(e)),
            (Ok(_), Some(e)) => Err(SourceError::Rpc(e)),
            (Ok(head), None) => Ok(
                TickProgress {
                    blocks_scanned: trace.seen.len() as u64,
                    reorg_detected: state.checkpoint is Some && forked(state, trace.live->Ok_0),
                    finalized_head: finalized_at(head, config),
                },
            ),
        }
    }
}

/// A [`ChainSource`] that ingests settled work from finalized blocks
/// over RPC, bucketing units into epochs by block time.
#[derive(Debug)]
pub struct RpcChainSource<R> {
    rpc: R,
    walker: Walker,
}

impl<R: ChainRpc> RpcChainSource<R> {
    /// The chain that is asked.
    pub closed spec fn chain(&self) -> R {
        self.rpc
    }

    /// What is known of the chain.
    pub closed spec fn state(&self) -> WalkerView {
        self.walker@
    }

    /// The configuration.
    pub closed spec fn settings(&self) -> WalkerConfig {
        self.walker.settings()
    }

    /// A source that has ingested nothing. Epochs and ticks must be longer
    /// than nothing.
    pub fn new(rpc: R, config: WalkerConfig) -> (r: Result<Self, SourceError<R::Error>>)
        ensures
            r is Ok <==> config.epoch_seconds > 0 && config.max_blocks_per_tick > 0,
            r matches Ok(source) ==> source.chain() == rpc && source.settings() == config
                && source.state().checkpoint is None && source.state().blocks == Map::<
                u64,
                ScannedBlock,
            >::empty(),
            r matches Err(e) ==> e == SourceError::<R::Error>::InvalidConfig(
                if config.epoch_seconds == 0 {
                    "epoch_seconds must be positive"
                } else {
                    "max_blocks_per_tick must be positive"
                },
            ),
    {
        if config.epoch_seconds == 0 {
            return Err(SourceError::InvalidConfig("epoch_seconds must be positive"));
        }
        if config.max_blocks_per_tick == 0 {
            return Err(SourceError::InvalidConfig("max_blocks_per_tick must be positive"));
        }
        Ok(RpcChainSource { rpc, walker: Walker::new(config) })
    }

    /// The last block ingested.
    pub fn checkpoint(&self) -> (r: Option<BlockRef>)
        ensures
            r == self.state().checkpoint,
    {
        self.walker.checkpoint()
    }

    /// A source holds finitely many blocks.
    pub proof fn blocks_are_finite(&self)
        ensures
            self.state().blocks.dom().finite(),
    {
        self.walker.blocks_are_finite();
    }

    /// The chain gave these answers for the blocks from `next` on.
    pub open spec fn blocks_answered(
        &self,
        next: u64,
        seen: Seq<(BlockMeta, Vec<SettledWorkUnit>)>,
    ) -> bool {
        forall|i: int|
            0 <= i < seen.len() ==> self.block_answered(plus(next, i as nat), #[trigger] seen[i])
    }

    /// The chain gave this answer for one block.
    pub open spec fn block_answered(
        &self,
        seqno: u64,
        block: (BlockMeta, Vec<SettledWorkUnit>),
    ) -> bool {
        &&& call_ensures(
            R::block_meta,
            (&self.chain(), seqno),
            Ok::<BlockMeta, R::Error>(block.0),
        )
        &&& call_ensures(
            R::settled_units,
            (&self.chain(), seqno),
            Ok::<Vec<SettledWorkUnit>, R::Error>(block.1),
        )
    }

    /// The chain failed to answer for one block: for its metadata, or, where
    /// it gave that, for its units.
    pub open spec fn block_failed(&self, seqno: u64, e: R::Error) -> bool {
        ||| call_ensures(R::block_meta, (&self.chain(), seqno), Err::<BlockMeta, R::Error>(e))
        ||| {
            &&& exists|meta: BlockMeta|
                call_ensures(
                    R::block_meta,
                    (&self.chain(), seqno),
                    Ok::<BlockMeta, R::Error>(meta),
                )
            &&& call_ensures(
                R::settled_units,
                (&self.chain(), seqno),
                Err::<Vec<SettledWorkUnit>, R::Error>(e),
            )
        }
    }

    /// The chain answered as the trace says, and the tick asked as far as it
    /// should: for the checkpoint, the head, and every block up to the
    /// finalized head or the bound of one tick, unless a block failed.
    pub open spec fn happened(&self, trace: TickTrace<R::Error>) -> bool {
        let start = scan_start(self.state(), self.settings(), trace);
        let next = next_seqno(start, self.settings());
        &&& self.state().checkpoint matches Some(checkpoint) ==> call_ensures(
            R::block_meta,
            (&self.chain(), checkpoint.seqno),
            trace.live,
        )
        &&& !check_failed(self.state(), trace) ==> call_ensures(
            R::head,
            (&self.chain(),),
            trace.head,
        )
        &&& !check_failed(self.state(), trace) && trace.head is Ok ==> {
            let count = blocks_to_scan(
                next,
                finalized_at(trace.head->Ok_0, self.settings()),
                self.settings().max_blocks_per_tick,
            );
            &&& self.blocks_answered(next, trace.seen)
            &&& match trace.failure {
                None => trace.seen.len() == count,
                Some(e) => trace.seen.len() < count && self.block_failed(
                    plus(next, trace.seen.len()),
                    e,
                ),
            }
        }
    }

    /// Advance toward the finalized head, ingesting at most
    /// `max_blocks_per_tick` blocks. Safe to call repeatedly; each call
    /// resumes from the stored checkpoint.
    pub fn tick(&mut self) -> (r: Result<TickProgress, SourceError<R::Error>>)
        ensures
            final(self).chain() == old(self).chain(),
            final(self).settings() == old(self).settings(),
            exists|trace: TickTrace<R::Error>|
                {
                    &&& #[trigger] old(self).happened(trace)
                    &&& final(self).state() == state_after(
                        old(self).state(),
                        old(self).settings(),
                        trace,
                    )
                    &&& r == tick_outcome(old(self).state(), old(self).settings(), trace)
                },
    {
        let ghost before = *old(self);
        let ghost config = self.settings();
        let ghost mut trace: TickTrace<R::Error> = arbitrary();
        proof {
            trace = TickTrace { seen: Seq::empty(), failure: None, ..trace };
        }
        let mut reorg_detected: bool = false;
        if let Some(checkpoint) = self.walker.checkpoint() {
            let answer: Result<BlockMeta, R::Error> = self.rpc.block_meta(checkpoint.seqno);
            proof {
                trace = TickTrace { live: answer, ..trace };
            }
            match answer {
                Ok(live) => {
                    reorg_detected = self.walker.check(&live);
                },
                Err(e) => {
                    assert(before.happened(trace));
                    return Err(SourceError::Rpc(e));
                },
            }
        }
        let ghost start = self.walker@;
        assert(start == scan_start(before.state(), config, trace));
        let answer: Result<BlockRef, R::Error> = self.rpc.head();
        proof {
            trace = TickTrace { head: answer, ..trace };
        }
        let head: BlockRef = match answer {
            Ok(head) => head,
            Err(e) => {
                assert(before.happened(trace));
                return Err(SourceError::Rpc(e));
            },
        };
        let settings: WalkerConfig = self.walker.config();
        let finalized: u64 = head.seqno.saturating_sub(settings.confirmations);
        let first: u64 = self.walker.next();
        let ghost mut seen = Seq::<(BlockMeta, Vec<SettledWorkUnit>)>::empty();
        let ghost count = blocks_to_scan(first, finalized, settings.max_blocks_per_tick);
        let mut done: u64 = 0;
        let mut next: u64 = first;
        while next <= finalized && done < settings.max_blocks_per_tick
            invariant
                self.rpc == before.rpc,
                self.walker.settings() == config,
                settings == config,
                before.settings() == config,
                done <= settings.max_blocks_per_tick,
                seen.len() == done,
                next == plus(first, done as nat),
                done <= count,
                count == blocks_to_scan(first, finalized, settings.max_blocks_per_tick),
                self.walker@ == scanned(start, first, seen),
                before.blocks_answered(first, seen),
                trace.seen == Seq::<(BlockMeta, Vec<SettledWorkUnit>)>::empty(),
                trace.failure is None,
                start == scan_start(before.state(), config, trace),
                first == next_seqno(start, config),
                trace.head == Ok::<BlockRef, R::Error>(head),
                finalized == finalized_at(head, config),
                !check_failed(before.state(), trace),
                before.state().checkpoint matches Some(checkpoint) ==> call_ensures(
                    R::block_meta,
                    (&before.chain(), checkpoint.seqno),
                    trace.live,
                ),
                call_ensures(R::head, (&before.chain(),), trace.head),
                *old(self) == before,
            decreases settings.max_blocks_per_tick - done,
        {
            let meta_answer: Result<BlockMeta, R::Error> = self.rpc.block_meta(next);
            let meta: BlockMeta = match meta_answer {
                Ok(meta) => meta,
                Err(e) => {
                    proof {
                        let failed = TickTrace { seen, failure: Some(e), ..trace };
                        assert(before.block_failed(next, e));
                        assert(before.happened(failed));
                    }
                    return Err(SourceError::Rpc(e));
                },
            };
            let units_answer: Result<Vec<SettledWorkUnit>, R::Error> = self.rpc.settled_units(next);
            let units: Vec<SettledWorkUnit> = match units_answer {
                Ok(units) => units,
                Err(e) => {
                    proof {
                        let failed = TickTrace { seen, failure: Some(e), ..trace };
                        assert(before.block_failed(next, e));
                        assert(before.happened(failed));
                    }
                    return Err(SourceError::Rpc(e));
                },
            };
            proof {
                let more = seen.push((meta, units));
                assert(more.drop_last() =~= seen);
                assert(before.block_answered(next, (meta, units)));
                assert forall|i: int| 0 <= i < more.len() implies before.block_answered(
                    plus(first, i as nat),
                    #[trigger] more[i],
                ) by {
                    if i < seen.len() {
                        assert(before.block_answered(plus(first, i as nat), seen[i]));
                    }
                }
                seen = more;
            }
            self.walker.ingest(next, meta, units);
            done = done + 1;
            next = next.saturating_add(1);
        }
        proof {
            let all = TickTrace { seen, ..trace };
            assert(seen.len() == count);
            assert(before.happened(all));
        }
        Ok(TickProgress { blocks_scanned: done, reorg_detected, finalized_head: finalized })
    }
}

impl<R: ChainRpc> ChainSource for RpcChainSource<R> {
    type Error = SourceError<R::Error>;

    fn epoch_data(&self, epoch: EpochId) -> (r: Result<EpochData, SourceError<R::Error>>)
        ensures
            r is Ok <==> epoch_covered(
                self.state().blocks,
                self.settings().epoch_seconds,
                epoch.0,
            ),
            r matches Ok(data) ==> {
                &&& data.units@ == units_in_epoch(
                    self.state().blocks,
                    self.settings().epoch_seconds,
                    epoch.0,
                )
                &&& data.attributed@ == Seq::<AttributedSettlement>::empty()
                &&& data.reliability@ == Seq::<(IdentityId, ReliabilityInputs)>::empty()
            },
            r matches Err(e) ==> e == SourceError::<R::Error>::IncompleteEpoch(epoch.0),
    {
        if !self.walker.epoch_complete(epoch.0) {
            return Err(SourceError::IncompleteEpoch(epoch.0));
        }
        // Reliability inputs are part of the pending node-side method
        // surface; until then identities score at the neutral factor.
        Ok(
            EpochData {
                units: self.walker.epoch_units(epoch.0),
                attributed: Vec::new(),
                reliability: Vec::new(),
            },
        )
    }
}

} // verus!
