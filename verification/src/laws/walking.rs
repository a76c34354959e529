//! What walking the chain does: which blocks a tick holds afterwards, and
//! what the blocks held say of an epoch.

use vstd::prelude::*;

use crate::aipow::jsonrpc::{
    block_named, decoded_hash, hash_named, head_from, lookup_from, time_from, units_from,
    JsonRpcChainError, JsonRpcChainRpc, JsonRpcTransport, RpcParams, RpcReply, WireBlockId,
};
use crate::aipow::rpc::{
    epoch_covered, epoch_units_at, forked, next_seqno, plus, rewind_point, scan_start, scanned,
    state_after, tick_outcome, units_in_epoch, BlockMeta, BlockRef, ChainRpc, RpcChainSource,
    ScannedBlock, SourceError, TickProgress, TickTrace, WalkerConfig, WalkerView,
};
use crate::decoding::{base64_standard, base64_url_safe};
use crate::hex::hex_array;
use crate::laws::ingestion::epoch_passed;
use crate::laws::plain::{larger, smaller};
use crate::listing::{
    ascending_numbers, is_ascending, listing_of_numbers, lists_numbers, numbers_are_listed,
};
use crate::source::epoch_at;
use crate::types::SettledWorkUnit;
use vstd::utf8::encode_utf8;

verus! {

/// The chain no longer has the block that was held last.
pub open spec fn saw_reorg<E>(state: WalkerView, trace: TickTrace<E>) -> bool {
    state.checkpoint is Some && trace.live is Ok && trace.live->Ok_0.block.hash
        != state.checkpoint->Some_0.hash
}

/// Where the blocks that are given up after a reorganisation begin.
pub open spec fn given_up_from(state: WalkerView, config: WalkerConfig) -> int {
    larger(0, state.checkpoint->Some_0.seqno - config.reorg_margin)
}

/// The block is still held when the tick begins to scan.
pub open spec fn still_held<E>(
    state: WalkerView,
    config: WalkerConfig,
    trace: TickTrace<E>,
    seqno: u64,
) -> bool {
    state.blocks.dom().contains(seqno) && (saw_reorg(state, trace) ==> seqno < given_up_from(
        state,
        config,
    ))
}

/// The first block that the tick scans: the one after the last block held,
/// the first one given up where the block before it is still held, and the
/// configured start where nothing is to be resumed.
pub open spec fn scanned_from<E>(
    state: WalkerView,
    config: WalkerConfig,
    trace: TickTrace<E>,
) -> int {
    if state.checkpoint is None {
        config.start_seqno as int
    } else if !saw_reorg(state, trace) {
        state.checkpoint->Some_0.seqno + 1
    } else if given_up_from(state, config) > 0 && state.blocks.dom().contains(
        (given_up_from(state, config) - 1) as u64,
    ) {
        given_up_from(state, config)
    } else {
        config.start_seqno as int
    }
}

/// The block held is the one that was answered.
pub open spec fn holds_answer(
    block: ScannedBlock,
    answer: (BlockMeta, Vec<SettledWorkUnit>),
) -> bool {
    block.hash == answer.0.block.hash && block.unix_time == answer.0.unix_time && block.units
        == answer.1
}

/// Ingesting a run of blocks puts each of them in its place and leaves all
/// others as they are.
proof fn scan_places_blocks(
    state: WalkerView,
    next: u64,
    seen: Seq<(BlockMeta, Vec<SettledWorkUnit>)>,
)
    requires
        next + seen.len() <= u64::MAX,
    ensures
        forall|k: u64|
            next <= k < next + seen.len() ==> #[trigger] scanned(
                state,
                next,
                seen,
            ).blocks.dom().contains(k) && holds_answer(
                scanned(state, next, seen).blocks[k],
                seen[k - next],
            ),
        forall|k: u64|
            !(next <= k < next + seen.len()) ==> #[trigger] scanned(
                state,
                next,
                seen,
            ).blocks.dom().contains(k) == state.blocks.dom().contains(k) && (
            state.blocks.dom().contains(k) ==> scanned(state, next, seen).blocks[k]
                == state.blocks[k]),
        seen.len() == 0 ==> scanned(state, next, seen) == state,
        seen.len() > 0 ==> scanned(state, next, seen).checkpoint == Some(seen.last().0.block),
    decreases seen.len(),
{
    if seen.len() > 0 {
        let rest = seen.drop_last();
        scan_places_blocks(state, next, rest);
        let before = scanned(state, next, rest);
        let after = scanned(state, next, seen);
        let n = (seen.len() - 1) as nat;
        assert(plus(next, n) == next + n);
        assert forall|k: u64| next <= k < next + seen.len() implies #[trigger]
            after.blocks.dom().contains(k) && holds_answer(after.blocks[k], seen[k - next]) by {
            if k < next + n {
                assert(before.blocks.dom().contains(k));
                assert(rest[k - next] == seen[k - next]);
            }
        }
        assert forall|k: u64| !(next <= k < next + seen.len()) implies #[trigger]
            after.blocks.dom().contains(k) == state.blocks.dom().contains(k) && (
        state.blocks.dom().contains(k) ==> after.blocks[k] == state.blocks[k]) by {
            assert(before.blocks.dom().contains(k) == state.blocks.dom().contains(k));
        }
    }
}

/// A tick that succeeds reports the finalized head, which is the chain's head
/// less the confirmations, and whether the last block held is gone from the
/// chain. It scans, from where it resumes, every block up to that head, as
/// far as the bound of one tick goes; it then holds those blocks as the chain
/// answered them, and of the others those that it held and did not give up.
pub proof fn ticks_hold_what_was_answered<R: ChainRpc>(
    source: RpcChainSource<R>,
    trace: TickTrace<R::Error>,
    progress: TickProgress,
)
    requires
        source.happened(trace),
        tick_outcome(source.state(), source.settings(), trace) == Ok::<
            TickProgress,
            SourceError<R::Error>,
        >(progress),
        progress.finalized_head < u64::MAX,
    ensures
        ({
            let state = source.state();
            let config = source.settings();
            let after = state_after(state, config, trace);
            let first = scanned_from(state, config, trace);
            let last = first + progress.blocks_scanned;
            &&& trace.head is Ok
            &&& progress.finalized_head == larger(
                0,
                trace.head->Ok_0.seqno - config.confirmations,
            )
            &&& progress.reorg_detected == saw_reorg(state, trace)
            &&& progress.blocks_scanned == larger(
                0,
                smaller(
                    config.max_blocks_per_tick as int,
                    progress.finalized_head + 1 - first,
                ),
            )
            &&& trace.seen.len() == progress.blocks_scanned
            &&& state.checkpoint matches Some(block) ==> call_ensures(
                R::block_meta,
                (&source.chain(), block.seqno),
                trace.live,
            )
            &&& call_ensures(R::head, (&source.chain(),), trace.head)
            &&& forall|i: int|
                0 <= i < trace.seen.len() ==> call_ensures(
                    R::block_meta,
                    (&source.chain(), (first + i) as u64),
                    Ok::<BlockMeta, R::Error>((#[trigger] trace.seen[i]).0),
                ) && call_ensures(
                    R::settled_units,
                    (&source.chain(), (first + i) as u64),
                    Ok::<Vec<SettledWorkUnit>, R::Error>(trace.seen[i].1),
                )
            &&& forall|k: u64|
                first <= k < last ==> #[trigger] after.blocks.dom().contains(k) && holds_answer(
                    after.blocks[k],
                    trace.seen[k - first],
                )
            &&& forall|k: u64|
                !(first <= k < last) ==> #[trigger] after.blocks.dom().contains(k) == still_held(
                    state,
                    config,
                    trace,
                    k,
                ) && (after.blocks.dom().contains(k) ==> after.blocks[k] == state.blocks[k])
            &&& progress.blocks_scanned > 0 ==> after.checkpoint == Some(
                trace.seen.last().0.block,
            )
            &&& progress.blocks_scanned == 0 && !progress.reorg_detected ==> after == state
            &&& progress.blocks_scanned == 0 && progress.reorg_detected ==> {
                let before = given_up_from(state, config) - 1;
                after.checkpoint == if before >= 0 && state.blocks.dom().contains(before as u64) {
                    Some(BlockRef { seqno: before as u64, hash: state.blocks[before as u64].hash })
                } else {
                    None
                }
            }
        }),
{
    let state = source.state();
    let config = source.settings();
    let start = scan_start(state, config, trace);
    let next = next_seqno(start, config);
    let after = state_after(state, config, trace);
    let first = scanned_from(state, config, trace);
    if state.checkpoint is Some {
        assert(trace.live is Ok);
        assert(forked(state, trace.live->Ok_0) == saw_reorg(state, trace));
        assert(rewind_point(state, config) == given_up_from(state, config));
    }
    assert(next == first || (next == u64::MAX && first == u64::MAX + 1));
    if next <= progress.finalized_head {
        scan_places_blocks(start, next, trace.seen);
    } else {
        assert(trace.seen.len() == 0);
    }
    assert forall|k: u64| #[trigger] start.blocks.dom().contains(k) == still_held(
        state,
        config,
        trace,
        k,
    ) && (start.blocks.dom().contains(k) ==> start.blocks[k] == state.blocks[k]) by {}
    assert forall|i: int| 0 <= i < trace.seen.len() implies call_ensures(
        R::block_meta,
        (&source.chain(), (first + i) as u64),
        Ok::<BlockMeta, R::Error>((#[trigger] trace.seen[i]).0),
    ) && call_ensures(
        R::settled_units,
        (&source.chain(), (first + i) as u64),
        Ok::<Vec<SettledWorkUnit>, R::Error>(trace.seen[i].1),
    ) by {
        assert(source.block_answered(plus(next, i as nat), trace.seen[i]));
        assert(plus(next, i as nat) == first + i);
    }
    let last = first + progress.blocks_scanned;
    assert forall|k: u64| !(first <= k < last) implies #[trigger] after.blocks.dom().contains(k)
        == still_held(state, config, trace, k) && (after.blocks.dom().contains(k)
        ==> after.blocks[k] == state.blocks[k]) by {
        assert(start.blocks.dom().contains(k) == still_held(state, config, trace, k));
    }
}

/// A tick fails exactly with the first answer that the chain failed to give:
/// for the last block held, for the head, or for a block on the way.
pub proof fn ticks_fail_with_the_chain<R: ChainRpc>(
    source: RpcChainSource<R>,
    trace: TickTrace<R::Error>,
)
    requires
        source.happened(trace),
    ensures
        tick_outcome(source.state(), source.settings(), trace) == if source.state().checkpoint
            is Some && trace.live is Err {
            Err::<TickProgress, SourceError<R::Error>>(SourceError::Rpc(trace.live->Err_0))
        } else if trace.head is Err {
            Err(SourceError::Rpc(trace.head->Err_0))
        } else if trace.failure is Some {
            Err(SourceError::Rpc(trace.failure->Some_0))
        } else {
            Ok(tick_outcome(source.state(), source.settings(), trace)->Ok_0)
        },
{
}

/// The blocks held are, from `first` on, those that were answered, and of the
/// others those that were held and not given up, as they were.
pub open spec fn holds_run<E>(
    after: WalkerView,
    state: WalkerView,
    config: WalkerConfig,
    trace: TickTrace<E>,
    first: int,
    n: int,
) -> bool {
    &&& forall|k: u64|
        first <= k < first + n ==> #[trigger] after.blocks.dom().contains(k) && holds_answer(
            after.blocks[k],
            trace.seen[k - first],
        )
    &&& forall|k: u64|
        !(first <= k < first + n) ==> #[trigger] after.blocks.dom().contains(k) == still_held(
            state,
            config,
            trace,
            k,
        ) && (after.blocks.dom().contains(k) ==> after.blocks[k] == state.blocks[k])
}

/// The chain failed to give the block's metadata, or gave that and failed to
/// give its units.
pub open spec fn failed_at<R: ChainRpc>(
    source: RpcChainSource<R>,
    seqno: u64,
    e: R::Error,
) -> bool {
    ||| call_ensures(R::block_meta, (&source.chain(), seqno), Err::<BlockMeta, R::Error>(e))
    ||| {
        &&& exists|meta: BlockMeta|
            call_ensures(
                R::block_meta,
                (&source.chain(), seqno),
                Ok::<BlockMeta, R::Error>(meta),
            )
        &&& call_ensures(
            R::settled_units,
            (&source.chain(), seqno),
            Err::<Vec<SettledWorkUnit>, R::Error>(e),
        )
    }
}

/// A tick that could not ask for the last block held changes nothing; one
/// that could not ask for the head only gives up what is gone from the chain.
pub proof fn unanswered_ticks_scan_nothing<R: ChainRpc>(
    source: RpcChainSource<R>,
    trace: TickTrace<R::Error>,
)
    requires
        source.happened(trace),
    ensures
        source.state().checkpoint is Some && trace.live is Err ==> state_after(
            source.state(),
            source.settings(),
            trace,
        ) == source.state(),
        trace.head is Err ==> holds_run(
            state_after(source.state(), source.settings(), trace),
            source.state(),
            source.settings(),
            trace,
            0,
            0,
        ),
{
    let state = source.state();
    let config = source.settings();
    if state.checkpoint is Some && trace.live is Ok {
        assert(forked(state, trace.live->Ok_0) == saw_reorg(state, trace));
        assert(rewind_point(state, config) == given_up_from(state, config));
    }
}

/// A tick that fails on the way keeps all blocks answered before the one that
/// failed, which is within the bound and the finalized head. The error is
/// that of the failed block's metadata, or of its units where the metadata
/// was given.
pub proof fn failed_ticks_keep_what_they_scanned<R: ChainRpc>(
    source: RpcChainSource<R>,
    trace: TickTrace<R::Error>,
    e: R::Error,
)
    requires
        source.happened(trace),
        source.state().checkpoint is Some ==> trace.live is Ok,
        trace.head is Ok,
        trace.failure == Some(e),
        scanned_from(source.state(), source.settings(), trace) + trace.seen.len() <= u64::MAX,
    ensures
        ({
            let first = scanned_from(source.state(), source.settings(), trace);
            let last = first + trace.seen.len();
            &&& last <= larger(0, trace.head->Ok_0.seqno - source.settings().confirmations)
            &&& trace.seen.len() < source.settings().max_blocks_per_tick
            &&& failed_at(source, last as u64, e)
            &&& holds_run(
                state_after(source.state(), source.settings(), trace),
                source.state(),
                source.settings(),
                trace,
                first,
                trace.seen.len() as int,
            )
        }),
        trace.seen.len() > 0 ==> state_after(
            source.state(),
            source.settings(),
            trace,
        ).checkpoint == Some(trace.seen.last().0.block),
        tick_outcome(source.state(), source.settings(), trace) == Err::<
            TickProgress,
            SourceError<R::Error>,
        >(SourceError::Rpc(e)),
{
    let state = source.state();
    let config = source.settings();
    let start = scan_start(state, config, trace);
    let next = next_seqno(start, config);
    let after = state_after(state, config, trace);
    let first = scanned_from(state, config, trace);
    let last = first + trace.seen.len();
    if state.checkpoint is Some {
        assert(forked(state, trace.live->Ok_0) == saw_reorg(state, trace));
        assert(rewind_point(state, config) == given_up_from(state, config));
    }
    assert forall|k: u64| #[trigger] start.blocks.dom().contains(k) == still_held(
        state,
        config,
        trace,
        k,
    ) && (start.blocks.dom().contains(k) ==> start.blocks[k] == state.blocks[k]) by {}
    assert(next == first);
    scan_places_blocks(start, next, trace.seen);
    assert(plus(next, trace.seen.len()) == last);
    assert(source.block_failed(last as u64, e));
    assert forall|k: u64| !(first <= k < last) implies #[trigger] after.blocks.dom().contains(k)
        == still_held(state, config, trace, k) && (after.blocks.dom().contains(k)
        ==> after.blocks[k] == state.blocks[k]) by {
        assert(start.blocks.dom().contains(k) == still_held(state, config, trace, k));
    }
}

/// Units listed from maps that agree on the listed blocks are the same.
proof fn listed_blocks_decide(
    a: Map<u64, ScannedBlock>,
    b: Map<u64, ScannedBlock>,
    seqnos: Seq<u64>,
    seconds: u64,
    epoch: u64,
)
    requires
        forall|i: int| 0 <= i < seqnos.len() ==> a[#[trigger] seqnos[i]] == b[seqnos[i]],
    ensures
        epoch_units_at(a, seqnos, seconds, epoch) == epoch_units_at(b, seqnos, seconds, epoch),
    decreases seqnos.len(),
{
    if seqnos.len() > 0 {
        let rest = seqnos.drop_last();
        assert forall|i: int| 0 <= i < rest.len() implies a[#[trigger] rest[i]] == b[rest[i]] by {
            assert(a[seqnos[i]] == b[seqnos[i]]);
        }
        listed_blocks_decide(a, b, rest, seconds, epoch);
        assert(a[seqnos[seqnos.len() - 1]] == b[seqnos[seqnos.len() - 1]]);
    }
}

/// Without blocks an epoch has no units; a block above all others adds, at
/// the end, all of its units to the epoch of its time, and nothing to any
/// other.
pub proof fn blocks_add_their_units(
    blocks: Map<u64, ScannedBlock>,
    seqno: u64,
    block: ScannedBlock,
    seconds: u64,
    epoch: u64,
)
    requires
        blocks.dom().finite(),
        forall|k: u64| #[trigger] blocks.dom().contains(k) ==> k < seqno,
    ensures
        units_in_epoch(Map::<u64, ScannedBlock>::empty(), seconds, epoch) == Seq::<
            SettledWorkUnit,
        >::empty(),
        units_in_epoch(blocks.insert(seqno, block), seconds, epoch) == units_in_epoch(
            blocks,
            seconds,
            epoch,
        ) + if epoch_passed(block.unix_time, seconds) == epoch {
            block.units@
        } else {
            Seq::empty()
        },
{
    let none = Map::<u64, ScannedBlock>::empty();
    assert(lists_numbers(Seq::<u64>::empty(), none.dom()));
    listing_of_numbers(Seq::<u64>::empty(), none.dom());
    let more = blocks.insert(seqno, block);
    let keys = ascending_numbers(blocks.dom());
    numbers_are_listed(blocks.dom());
    let all = keys.push(seqno);
    assert forall|i: int| 0 <= i < keys.len() implies #[trigger] keys[i] < seqno
        && blocks.dom().contains(keys[i]) by {
        assert(keys.to_set().contains(keys[i]));
    }
    assert(is_ascending(all));
    assert forall|k: u64| #[trigger] all.to_set().contains(k) == more.dom().contains(k) by {
        if keys.contains(k) {
            let i = keys.index_of(k);
            assert(all[i] == k);
        }
        if all.contains(k) && k != seqno {
            let i = all.index_of(k);
            assert(keys[i] == k);
        }
        assert(keys.to_set().contains(k) == blocks.dom().contains(k));
        assert(all[keys.len() as int] == seqno);
    }
    assert(lists_numbers(all, more.dom()));
    listing_of_numbers(all, more.dom());
    assert(all.drop_last() =~= keys);
    listed_blocks_decide(more, blocks, keys, seconds, epoch);
    assert(epoch_at(block.unix_time, seconds) == epoch_passed(block.unix_time, seconds));
    let before = units_in_epoch(blocks, seconds, epoch);
    assert(before + Seq::<SettledWorkUnit>::empty() =~= before);
}

/// An epoch is served exactly once some block held is not older than the
/// epoch's end.
pub proof fn epochs_are_served_when_passed(
    blocks: Map<u64, ScannedBlock>,
    seconds: u64,
    epoch: u64,
)
    requires
        epoch < u64::MAX,
    ensures
        epoch_covered(blocks, seconds, epoch) <==> exists|k: u64| #[trigger]
            blocks.dom().contains(k) && blocks[k].unix_time >= (epoch + 1) * seconds,
{
}

/// A hash is 32 bytes: of a text of 64 bytes what it denotes in hexadecimal,
/// and of any other what it denotes in base64, by the standard alphabet where
/// that applies and by the URL-safe one where it does not.
pub proof fn hashes_are_read_by_length(text: Seq<char>)
    ensures
        encode_utf8(text).len() == 64 ==> hash_named(text) == hex_array(text, 32),
        encode_utf8(text).len() != 64 ==> match (base64_standard(text), base64_url_safe(text)) {
            (Some(bytes), _) => hash_named(text) == if bytes.len() == 32 {
                Some(bytes)
            } else {
                None::<Seq<u8>>
            },
            (None, Some(bytes)) => hash_named(text) == if bytes.len() == 32 {
                Some(bytes)
            } else {
                None::<Seq<u8>>
            },
            (None, None) => hash_named(text) is None,
        },
{
}

/// Of two readings of a hash the first decides where there is one, and it
/// must be 32 bytes.
pub proof fn first_reading_decides(standard: Option<Seq<u8>>, url_safe: Option<Seq<u8>>)
    ensures
        decoded_hash(standard, url_safe) matches Some(hash) ==> hash.len() == 32 && (standard
            == Some(hash) || (standard is None && url_safe == Some(hash))),
        decoded_hash(standard, url_safe) is None ==> match (standard, url_safe) {
            (Some(bytes), _) => bytes.len() != 32,
            (None, Some(bytes)) => bytes.len() != 32,
            (None, None) => true,
        },
{
}

/// A block is named by the seqno and the hash of the answer, and only where
/// that hash can be read.
pub proof fn blocks_are_named_by_answers<E>(
    id: WireBlockId,
    r: Result<BlockRef, JsonRpcChainError<E>>,
)
    requires
        block_named(id, r),
    ensures
        r matches Ok(block) ==> block.seqno == id.seqno && hash_named(id.root_hash@) == Some(
            block.hash@,
        ),
        r matches Err(e) ==> e == JsonRpcChainError::<E>::BadHash && hash_named(id.root_hash@)
            is None,
{
}

/// The head and a looked-up block are those of the answer, a block's time and
/// units are the answer's, and an answer of another kind gives nothing.
pub proof fn answers_are_taken_as_given<E>(
    reply: Result<RpcReply, E>,
    head: Result<BlockRef, JsonRpcChainError<E>>,
    found: Result<BlockRef, JsonRpcChainError<E>>,
)
    requires
        head_from(reply, head),
        lookup_from(reply, found),
    ensures
        head matches Ok(block) ==> (reply matches Ok(RpcReply::MasterchainInfo(info)) && block.seqno
            == info.last.seqno && hash_named(info.last.root_hash@) == Some(block.hash@)),
        reply matches Ok(RpcReply::MasterchainInfo(info)) ==> (hash_named(info.last.root_hash@)
            is Some ==> head is Ok),
        found matches Ok(block) ==> (reply matches Ok(RpcReply::LookupBlock(looked)) && block.seqno
            == looked.id.seqno && hash_named(looked.id.root_hash@) == Some(block.hash@)),
        reply matches Ok(RpcReply::LookupBlock(looked)) ==> (hash_named(looked.id.root_hash@)
            is Some ==> found is Ok),
        time_from(reply) matches Ok(time) ==> (reply matches Ok(RpcReply::BlockHeader(header))
            && time == header.gen_utime),
        reply matches Ok(RpcReply::BlockHeader(_)) ==> time_from(reply) is Ok,
        units_from(reply) matches Ok(units) ==> (reply matches Ok(RpcReply::SettledWork(work))
            && units == work.units),
        reply matches Ok(RpcReply::SettledWork(_)) ==> units_from(reply) is Ok,
        reply matches Err(e) ==> {
            &&& head == Err::<BlockRef, JsonRpcChainError<E>>(JsonRpcChainError::Transport(e))
            &&& found == Err::<BlockRef, JsonRpcChainError<E>>(JsonRpcChainError::Transport(e))
            &&& time_from(reply) == Err::<u64, JsonRpcChainError<E>>(
                JsonRpcChainError::Transport(e),
            )
            &&& units_from(reply) == Err::<Vec<SettledWorkUnit>, JsonRpcChainError<E>>(
                JsonRpcChainError::Transport(e),
            )
        },
{
}

/// A block is asked for by its own seqno, on the adapter's chain; its header
/// by its hash as well.
pub proof fn blocks_are_asked_by_seqno<T: JsonRpcTransport>(
    rpc: JsonRpcChainRpc<T>,
    seqno: u64,
    hash: Seq<char>,
    params: RpcParams,
)
    ensures
        rpc.asks_header(seqno, hash, params) ==> (params matches RpcParams::BlockWithHash {
            workchain,
            shard,
            seqno: at,
            root_hash,
        } && workchain == rpc.workchain && shard == rpc.shard && at == seqno && root_hash@ == hash),
        rpc.place(seqno) matches RpcParams::Block { workchain, shard, seqno: at } && workchain
            == rpc.workchain && shard == rpc.shard && at == seqno,
{
}

} // verus!
