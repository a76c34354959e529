//! What the block walker promises across ticks and reorganisations.

use vstd::prelude::*;

use crate::aipow::rpc::{
    blocks_to_scan, checked, epoch_covered, epoch_units_at, finalized_at, forked, next_seqno, plus,
    rewind_point, rewound, scan_start, scanned, state_after, tick_outcome, units_in_epoch,
    BlockMeta, ChainRpc, RpcChainSource, ScannedBlock, SourceError, TickProgress, TickTrace,
    WalkerConfig, WalkerView,
};
use crate::listing::{
    ascending_numbers, is_ascending, listing_of_numbers, lists_numbers, numbers_are_listed,
};
use crate::source::epoch_at;
use crate::types::SettledWorkUnit;

verus! {

/// A tick never ingests more blocks than its bound, nor any beyond the
/// finalized head.
pub proof fn tick_is_bounded<R: ChainRpc>(
    source: RpcChainSource<R>,
    trace: TickTrace<R::Error>,
    progress: TickProgress,
)
    requires
        source.happened(trace),
        tick_outcome(source.state(), source.settings(), trace) == Ok::<
            TickProgress,
            SourceError<R::Error>,
        >(progress),
    ensures
        progress.blocks_scanned <= source.settings().max_blocks_per_tick,
        progress.blocks_scanned == blocks_to_scan(
            next_seqno(
                scan_start(source.state(), source.settings(), trace),
                source.settings(),
            ),
            progress.finalized_head,
            source.settings().max_blocks_per_tick,
        ),
{
}

/// A tick that has nothing to scan and finds no fork changes nothing.
pub proof fn idle_tick_changes_nothing<R: ChainRpc>(
    source: RpcChainSource<R>,
    trace: TickTrace<R::Error>,
)
    requires
        source.happened(trace),
        trace.live is Ok,
        trace.head is Ok,
        !forked(source.state(), trace.live->Ok_0),
        next_seqno(source.state(), source.settings()) > finalized_at(
            trace.head->Ok_0,
            source.settings(),
        ),
    ensures
        state_after(source.state(), source.settings(), trace) == source.state(),
        tick_outcome(source.state(), source.settings(), trace) == Ok::<
            TickProgress,
            SourceError<R::Error>,
        >(
            TickProgress {
                blocks_scanned: 0,
                reorg_detected: false,
                finalized_head: finalized_at(trace.head->Ok_0, source.settings()),
            },
        ),
{
}

/// Scanning from `next` on leaves every block below `next` as it is.
pub proof fn scan_keeps_earlier_blocks(
    state: WalkerView,
    next: u64,
    seen: Seq<(BlockMeta, Vec<SettledWorkUnit>)>,
    seqno: u64,
)
    requires
        seqno < next,
    ensures
        scanned(state, next, seen).blocks.dom().contains(seqno)
            == state.blocks.dom().contains(seqno),
        scanned(state, next, seen).blocks[seqno] == state.blocks[seqno],
    decreases seen.len(),
{
    if seen.len() > 0 {
        scan_keeps_earlier_blocks(state, next, seen.drop_last(), seqno);
    }
}

/// A rewind keeps every block below the rewind point as it is, and no other.
pub proof fn rewind_keeps_earlier_blocks(state: WalkerView, config: WalkerConfig, seqno: u64)
    requires
        state.checkpoint is Some,
    ensures
        rewound(state, config).blocks.dom().contains(seqno) <==> state.blocks.dom().contains(seqno)
            && seqno < rewind_point(state, config),
        rewound(state, config).blocks.dom().contains(seqno) ==> rewound(state, config).blocks[seqno]
            == state.blocks[seqno],
{
}

/// The checkpoint's block was ingested with the checkpoint's hash, and no
/// block after it was.
pub open spec fn anchored(state: WalkerView) -> bool {
    state.checkpoint matches Some(checkpoint) ==> {
        &&& state.blocks.dom().contains(checkpoint.seqno)
        &&& state.blocks[checkpoint.seqno].hash == checkpoint.hash
        &&& forall|k: u64| #[trigger]
            state.blocks.dom().contains(k) ==> k <= checkpoint.seqno
    }
}

/// Checking the checkpoint keeps the walker anchored; after a rewind the
/// scan resumes at the rewind point where the block before it was ingested,
/// and from the start where it was not.
pub proof fn check_stays_anchored(state: WalkerView, config: WalkerConfig, live: BlockMeta)
    requires
        anchored(state),
    ensures
        anchored(checked(state, config, live)),
        forked(state, live) && checked(state, config, live).checkpoint is Some && rewind_point(
            state,
            config,
        ) > 0 ==> next_seqno(checked(state, config, live), config) == rewind_point(state, config),
        forked(state, live) && checked(state, config, live).checkpoint is None ==> next_seqno(
            checked(state, config, live),
            config,
        ) == config.start_seqno,
{
    if forked(state, live) {
        let after = rewound(state, config);
        let point = rewind_point(state, config);
        if after.checkpoint is Some {
            assert forall|k: u64| #[trigger] after.blocks.dom().contains(k) implies k
                <= after.checkpoint->Some_0.seqno by {
                assert(k < point);
            }
        }
    }
}

/// Every answer is for the block that was asked for.
pub open spec fn names_its_block(
    next: u64,
    seen: Seq<(BlockMeta, Vec<SettledWorkUnit>)>,
) -> bool {
    forall|i: int| 0 <= i < seen.len() ==> (#[trigger] seen[i]).0.block.seqno == next + i
}

/// Where every answer is for the block asked for, a scan from just after the
/// checkpoint keeps the walker anchored, at the last block scanned, and holds
/// every scanned block as it was answered.
pub proof fn scan_stays_anchored(
    state: WalkerView,
    config: WalkerConfig,
    seen: Seq<(BlockMeta, Vec<SettledWorkUnit>)>,
)
    requires
        anchored(state),
        state.checkpoint is None ==> forall|k: u64| #[trigger]
            state.blocks.dom().contains(k) ==> k < config.start_seqno,
        state.checkpoint matches Some(checkpoint) ==> checkpoint.seqno < u64::MAX,
        names_its_block(next_seqno(state, config), seen),
    ensures
        ({
            let next = next_seqno(state, config);
            let after = scanned(state, next, seen);
            &&& anchored(after)
            &&& seen.len() > 0 ==> after.checkpoint == Some(seen.last().0.block)
            &&& seen.len() == 0 ==> after == state
            &&& forall|i: int|
                0 <= i < seen.len() ==> {
                    let seqno = (#[trigger] seen[i]).0.block.seqno;
                    &&& after.blocks.dom().contains(seqno)
                    &&& after.blocks[seqno].hash == seen[i].0.block.hash
                    &&& after.blocks[seqno].unix_time == seen[i].0.unix_time
                    &&& after.blocks[seqno].units == seen[i].1
                }
        }),
    decreases seen.len(),
{
    let next = next_seqno(state, config);
    if seen.len() > 0 {
        let rest = seen.drop_last();
        let n = seen.len() - 1;
        assert forall|i: int| 0 <= i < rest.len() implies (#[trigger] rest[i]).0.block.seqno == next
            + i by {
            assert(seen[i].0.block.seqno == next + i);
        }
        scan_stays_anchored(state, config, rest);
        let before = scanned(state, next, rest);
        let after = scanned(state, next, seen);
        assert(seen[n].0.block.seqno == next + n);
        assert(plus(next, n as nat) == next + n);
        assert forall|k: u64| #[trigger] after.blocks.dom().contains(k) implies k <= next + n by {
            if k != next + n {
                assert(before.blocks.dom().contains(k));
                if n > 0 {
                    assert(rest[n - 1].0.block.seqno == next + n - 1);
                    assert(rest.last() == rest[n - 1]);
                }
            }
        }
        assert forall|i: int| 0 <= i < seen.len() implies ({
            let seqno = (#[trigger] seen[i]).0.block.seqno;
            &&& after.blocks.dom().contains(seqno)
            &&& after.blocks[seqno].hash == seen[i].0.block.hash
            &&& after.blocks[seqno].unix_time == seen[i].0.unix_time
            &&& after.blocks[seqno].units == seen[i].1
        }) by {
            assert(seen[i].0.block.seqno == next + i);
            if i < n {
                assert(rest[i] == seen[i]);
            }
        }
    }
}

/// A covered epoch means that every earlier one is covered too.
pub proof fn coverage_reaches_back(
    blocks: Map<u64, ScannedBlock>,
    epoch_seconds: u64,
    earlier: u64,
    later: u64,
)
    requires
        earlier <= later,
        epoch_covered(blocks, epoch_seconds, later),
    ensures
        epoch_covered(blocks, epoch_seconds, earlier),
{
    assert((earlier + 1) * epoch_seconds <= (later + 1) * epoch_seconds) by (nonlinear_arith)
        requires
            earlier <= later,
    ;
}

/// A covered epoch stays covered by a scan of blocks that come after all
/// blocks held, whatever their times are.
pub proof fn scan_keeps_coverage(
    state: WalkerView,
    next: u64,
    seen: Seq<(BlockMeta, Vec<SettledWorkUnit>)>,
    epoch_seconds: u64,
    epoch: u64,
)
    requires
        forall|k: u64| #[trigger] state.blocks.dom().contains(k) ==> k < next,
        epoch_covered(state.blocks, epoch_seconds, epoch),
    ensures
        epoch_covered(scanned(state, next, seen).blocks, epoch_seconds, epoch),
{
    let seqno = choose|seqno: u64| #[trigger]
        state.blocks.dom().contains(seqno) && state.blocks[seqno].unix_time >= (epoch + 1)
            * epoch_seconds;
    scan_keeps_earlier_blocks(state, next, seen, seqno);
    assert(scanned(state, next, seen).blocks.dom().contains(seqno));
}

/// The block is one of the epoch.
pub open spec fn in_epoch(
    blocks: Map<u64, ScannedBlock>,
    epoch_seconds: u64,
    epoch: u64,
    seqno: u64,
) -> bool {
    blocks.dom().contains(seqno) && epoch_at(blocks[seqno].unix_time, epoch_seconds) == epoch
}

/// The listed blocks that are of the epoch.
spec fn epoch_seqnos(
    blocks: Map<u64, ScannedBlock>,
    seqnos: Seq<u64>,
    epoch_seconds: u64,
    epoch: u64,
) -> Seq<u64>
    decreases seqnos.len(),
{
    if seqnos.len() == 0 {
        Seq::empty()
    } else {
        let before = epoch_seqnos(blocks, seqnos.drop_last(), epoch_seconds, epoch);
        if epoch_at(blocks[seqnos.last()].unix_time, epoch_seconds) == epoch {
            before.push(seqnos.last())
        } else {
            before
        }
    }
}

/// The blocks of other epochs contribute nothing.
proof fn only_epoch_blocks_count(
    blocks: Map<u64, ScannedBlock>,
    seqnos: Seq<u64>,
    epoch_seconds: u64,
    epoch: u64,
)
    requires
        is_ascending(seqnos),
    ensures
        ({
            let chosen = epoch_seqnos(blocks, seqnos, epoch_seconds, epoch);
            &&& epoch_units_at(blocks, seqnos, epoch_seconds, epoch) == epoch_units_at(
                blocks,
                chosen,
                epoch_seconds,
                epoch,
            )
            &&& is_ascending(chosen)
            &&& forall|i: int|
                0 <= i < chosen.len() ==> seqnos.contains(#[trigger] chosen[i]) && epoch_at(
                    blocks[chosen[i]].unix_time,
                    epoch_seconds,
                ) == epoch
            &&& forall|i: int|
                0 <= i < seqnos.len() && epoch_at(
                    blocks[#[trigger] seqnos[i]].unix_time,
                    epoch_seconds,
                ) == epoch ==> chosen.contains(seqnos[i])
        }),
    decreases seqnos.len(),
{
    if seqnos.len() > 0 {
        let rest = seqnos.drop_last();
        only_epoch_blocks_count(blocks, rest, epoch_seconds, epoch);
        let before = epoch_seqnos(blocks, rest, epoch_seconds, epoch);
        let chosen = epoch_seqnos(blocks, seqnos, epoch_seconds, epoch);
        let last = seqnos[seqnos.len() - 1];
        let taken = epoch_at(blocks[last].unix_time, epoch_seconds) == epoch;
        if taken {
            assert(chosen.drop_last() =~= before);
        }
        assert forall|i: int| 0 <= i < chosen.len() implies seqnos.contains(#[trigger] chosen[i])
            && epoch_at(blocks[chosen[i]].unix_time, epoch_seconds) == epoch by {
            if i < before.len() {
                assert(chosen[i] == before[i]);
                assert(rest.contains(before[i]));
                let j = rest.index_of(before[i]);
                assert(seqnos[j] == before[i]);
            } else {
                assert(seqnos[seqnos.len() - 1] == chosen[i]);
            }
        }
        assert forall|i: int, j: int| 0 <= i < j < chosen.len() implies #[trigger] chosen[i]
            < #[trigger] chosen[j] by {
            if j < before.len() {
                assert(before[i] < before[j]);
            } else {
                assert(rest.contains(before[i]));
                let k = rest.index_of(before[i]);
                assert(seqnos[k] < seqnos[seqnos.len() - 1]);
            }
        }
        assert forall|i: int|
            0 <= i < seqnos.len() && epoch_at(
                blocks[#[trigger] seqnos[i]].unix_time,
                epoch_seconds,
            ) == epoch implies chosen.contains(seqnos[i]) by {
            if i < rest.len() {
                assert(rest[i] == seqnos[i]);
                assert(before.contains(rest[i]));
                let j = before.index_of(rest[i]);
                assert(chosen[j] == seqnos[i]);
            } else {
                assert(chosen[before.len() as int] == seqnos[i]);
            }
        }
    }
}

/// Units listed from the same blocks are the same.
proof fn same_blocks_same_units(
    a: Map<u64, ScannedBlock>,
    b: Map<u64, ScannedBlock>,
    seqnos: Seq<u64>,
    epoch_seconds: u64,
    epoch: u64,
)
    requires
        forall|i: int| 0 <= i < seqnos.len() ==> a[#[trigger] seqnos[i]] == b[seqnos[i]],
    ensures
        epoch_units_at(a, seqnos, epoch_seconds, epoch) == epoch_units_at(
            b,
            seqnos,
            epoch_seconds,
            epoch,
        ),
    decreases seqnos.len(),
{
    if seqnos.len() > 0 {
        assert forall|i: int| 0 <= i < seqnos.len() - 1 implies a[#[trigger] seqnos.drop_last()[i]]
            == b[seqnos.drop_last()[i]] by {
            assert(a[seqnos[i]] == b[seqnos[i]]);
        }
        same_blocks_same_units(a, b, seqnos.drop_last(), epoch_seconds, epoch);
        assert(a[seqnos[seqnos.len() - 1]] == b[seqnos[seqnos.len() - 1]]);
    }
}

/// An epoch whose blocks are untouched keeps its units, whatever happens to
/// the blocks of other epochs.
pub proof fn untouched_epoch_is_unchanged(
    a: Map<u64, ScannedBlock>,
    b: Map<u64, ScannedBlock>,
    epoch_seconds: u64,
    epoch: u64,
)
    requires
        a.dom().finite(),
        b.dom().finite(),
        forall|k: u64|
            #![trigger a.dom().contains(k)]
            #![trigger b.dom().contains(k)]
            in_epoch(a, epoch_seconds, epoch, k) == in_epoch(b, epoch_seconds, epoch, k) && (
            in_epoch(a, epoch_seconds, epoch, k) ==> a[k] == b[k]),
    ensures
        units_in_epoch(a, epoch_seconds, epoch) == units_in_epoch(b, epoch_seconds, epoch),
{
    numbers_are_listed(a.dom());
    numbers_are_listed(b.dom());
    let ka = ascending_numbers(a.dom());
    let kb = ascending_numbers(b.dom());
    let ca = epoch_seqnos(a, ka, epoch_seconds, epoch);
    let cb = epoch_seqnos(b, kb, epoch_seconds, epoch);
    only_epoch_blocks_count(a, ka, epoch_seconds, epoch);
    only_epoch_blocks_count(b, kb, epoch_seconds, epoch);
    let chosen = Set::new(|k: u64| in_epoch(a, epoch_seconds, epoch, k));
    assert forall|k: u64| #[trigger] ca.to_set().contains(k) == chosen.contains(k) by {
        if ca.contains(k) {
            let i = ca.index_of(k);
            assert(ka.contains(ca[i]));
            assert(ka.to_set().contains(k));
        }
        if in_epoch(a, epoch_seconds, epoch, k) {
            assert(ka.to_set().contains(k));
            let i = ka.index_of(k);
            assert(ka[i] == k);
        }
    }
    assert forall|k: u64| #[trigger] cb.to_set().contains(k) == chosen.contains(k) by {
        if cb.contains(k) {
            let i = cb.index_of(k);
            assert(kb.contains(cb[i]));
            assert(kb.to_set().contains(k));
            assert(b.dom().contains(k));
        }
        if in_epoch(a, epoch_seconds, epoch, k) {
            assert(a.dom().contains(k));
            assert(kb.to_set().contains(k));
            let i = kb.index_of(k);
            assert(kb[i] == k);
        }
    }
    assert(lists_numbers(ca, chosen));
    assert(lists_numbers(cb, chosen));
    listing_of_numbers(ca, chosen);
    listing_of_numbers(cb, chosen);
    assert forall|i: int| 0 <= i < ca.len() implies a[#[trigger] ca[i]] == b[ca[i]] by {
        assert(ca.to_set().contains(ca[i]));
        assert(chosen.contains(ca[i]));
        assert(a.dom().contains(ca[i]));
    }
    same_blocks_same_units(a, b, ca, epoch_seconds, epoch);
}

/// A rewind leaves an epoch alone whose blocks all come before the rewind
/// point: its units are the same.
pub proof fn rewind_keeps_earlier_epochs<R: ChainRpc>(source: RpcChainSource<R>, epoch: u64)
    requires
        source.state().checkpoint is Some,
        forall|k: u64| #[trigger]
            source.state().blocks.dom().contains(k) && in_epoch(
                source.state().blocks,
                source.settings().epoch_seconds,
                epoch,
                k,
            ) ==> k < rewind_point(source.state(), source.settings()),
    ensures
        units_in_epoch(
            rewound(source.state(), source.settings()).blocks,
            source.settings().epoch_seconds,
            epoch,
        ) == units_in_epoch(source.state().blocks, source.settings().epoch_seconds, epoch),
{
    let a = rewound(source.state(), source.settings()).blocks;
    let b = source.state().blocks;
    source.blocks_are_finite();
    assert(a.dom().subset_of(b.dom()));
    vstd::set_lib::lemma_len_subset(a.dom(), b.dom());
    untouched_epoch_is_unchanged(a, b, source.settings().epoch_seconds, epoch);
}

} // verus!
