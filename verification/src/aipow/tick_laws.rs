//! Many ticks amount to one: what a run of ticks over a steady chain ends
//! with.

use vstd::prelude::*;

use crate::aipow::rpc::{
    check_failed, forked, next_seqno, plus, rewound, scan_start, scanned, state_after,
    tick_outcome, BlockMeta, ChainRpc, RpcChainSource, TickTrace, WalkerConfig, WalkerView,
};
use crate::types::SettledWorkUnit;

verus! {

/// Every answer of the chain names the block that was asked for.
pub open spec fn names_every_block(
    chain: spec_fn(u64) -> (BlockMeta, Vec<SettledWorkUnit>),
) -> bool {
    forall|seqno: u64| (#[trigger] chain(seqno)).0.block.seqno == seqno
}

/// What a chain answers for `n` blocks from `next` on.
pub open spec fn answers_from(
    chain: spec_fn(u64) -> (BlockMeta, Vec<SettledWorkUnit>),
    next: u64,
    n: nat,
) -> Seq<(BlockMeta, Vec<SettledWorkUnit>)> {
    Seq::new(n, |i: int| chain(plus(next, i as nat)))
}

/// The state's checkpoint is not a block of the chain.
pub open spec fn off_chain(
    chain: spec_fn(u64) -> (BlockMeta, Vec<SettledWorkUnit>),
    state: WalkerView,
) -> bool {
    state.checkpoint matches Some(checkpoint) && forked(state, chain(checkpoint.seqno).0)
}

/// A tick took the source from `before` to `after`.
pub open spec fn ticked<R: ChainRpc>(
    before: RpcChainSource<R>,
    trace: TickTrace<R::Error>,
    after: RpcChainSource<R>,
) -> bool {
    &&& before.happened(trace)
    &&& after.settings() == before.settings()
    &&& after.state() == state_after(before.state(), before.settings(), trace)
}

/// The blocks that a tick ingested.
pub open spec fn ingested_by<E>(
    state: WalkerView,
    trace: TickTrace<E>,
) -> Seq<(BlockMeta, Vec<SettledWorkUnit>)> {
    if check_failed(state, trace) || trace.head is Err {
        Seq::empty()
    } else {
        trace.seen
    }
}

/// What the tick was told of blocks is what the chain answers.
pub open spec fn told_by<E>(
    chain: spec_fn(u64) -> (BlockMeta, Vec<SettledWorkUnit>),
    state: WalkerView,
    config: WalkerConfig,
    trace: TickTrace<E>,
) -> bool {
    let next = next_seqno(scan_start(state, config, trace), config);
    let seen = ingested_by(state, trace);
    &&& state.checkpoint is Some && trace.live is Ok ==> trace.live->Ok_0 == chain(
        state.checkpoint->Some_0.seqno,
    ).0
    &&& seen == answers_from(chain, next, seen.len())
}

/// The chain that is asked keeps to these answers, where it answers.
pub open spec fn keeps_to<R: ChainRpc>(
    rpc: R,
    chain: spec_fn(u64) -> (BlockMeta, Vec<SettledWorkUnit>),
) -> bool {
    &&& forall|seqno: u64, meta: BlockMeta| #[trigger]
        call_ensures(R::block_meta, (&rpc, seqno), Ok::<BlockMeta, R::Error>(meta)) ==> meta
            == chain(seqno).0
    &&& forall|seqno: u64, units: Vec<SettledWorkUnit>| #[trigger]
        call_ensures(
            R::settled_units,
            (&rpc, seqno),
            Ok::<Vec<SettledWorkUnit>, R::Error>(units),
        ) ==> units == chain(seqno).1
}

/// What a tick is told by a chain that keeps to its answers are those
/// answers.
pub proof fn steady_chain_tells_its_answers<R: ChainRpc>(
    chain: spec_fn(u64) -> (BlockMeta, Vec<SettledWorkUnit>),
    source: RpcChainSource<R>,
    trace: TickTrace<R::Error>,
)
    requires
        keeps_to(source.chain(), chain),
        source.happened(trace),
    ensures
        told_by(chain, source.state(), source.settings(), trace),
{
    let state = source.state();
    let next = next_seqno(
        scan_start(state, source.settings(), trace),
        source.settings(),
    );
    let seen = ingested_by(state, trace);
    assert forall|i: int| 0 <= i < seen.len() implies seen[i] == answers_from(
        chain,
        next,
        seen.len(),
    )[i] by {
        assert(source.block_answered(plus(next, i as nat), seen[i]));
    }
    assert(seen =~= answers_from(chain, next, seen.len()));
}

/// The sources are one after another what ticks made of the first, over a
/// chain that keeps to its answers.
pub open spec fn made_by_ticks<R: ChainRpc>(
    chain: spec_fn(u64) -> (BlockMeta, Vec<SettledWorkUnit>),
    sources: Seq<RpcChainSource<R>>,
    traces: Seq<TickTrace<R::Error>>,
) -> bool {
    &&& sources.len() == traces.len() + 1
    &&& forall|i: int|
        0 <= i < traces.len() ==> ticked(sources[i], #[trigger] traces[i], sources[i + 1])
            && told_by(chain, sources[i].state(), sources[i].settings(), traces[i])
}

/// How many blocks the ticks of a run ingested.
pub open spec fn blocks_ingested<R: ChainRpc>(
    sources: Seq<RpcChainSource<R>>,
    traces: Seq<TickTrace<R::Error>>,
) -> nat
    decreases traces.len(),
{
    if traces.len() == 0 {
        0
    } else {
        ingested_by(sources[0].state(), traces[0]).len() + blocks_ingested(
            sources.skip(1),
            traces.skip(1),
        )
    }
}

/// A scan may be cut in two: it resumes where it stopped.
proof fn scan_resumes(
    chain: spec_fn(u64) -> (BlockMeta, Vec<SettledWorkUnit>),
    state: WalkerView,
    next: u64,
    m: nat,
    n: nat,
)
    ensures
        scanned(
            scanned(state, next, answers_from(chain, next, m)),
            plus(next, m),
            answers_from(chain, plus(next, m), n),
        ) == scanned(state, next, answers_from(chain, next, m + n)),
    decreases n,
{
    let tail = answers_from(chain, plus(next, m), n);
    let all = answers_from(chain, next, m + n);
    if n == 0 {
        assert(all =~= answers_from(chain, next, m));
    } else {
        scan_resumes(chain, state, next, m, (n - 1) as nat);
        assert(tail.drop_last() =~= answers_from(chain, plus(next, m), (n - 1) as nat));
        assert(all.drop_last() =~= answers_from(chain, next, (m + n - 1) as nat));
        assert(plus(plus(next, m), (n - 1) as nat) == plus(next, (m + n - 1) as nat));
    }
}

/// After some blocks of the chain were scanned, the checkpoint is a block of
/// the chain and the next block is the one after them.
proof fn scan_ends_on_chain(
    chain: spec_fn(u64) -> (BlockMeta, Vec<SettledWorkUnit>),
    state: WalkerView,
    config: WalkerConfig,
    next: u64,
    n: nat,
)
    requires
        names_every_block(chain),
        n > 0,
    ensures
        ({
            let after = scanned(state, next, answers_from(chain, next, n));
            !off_chain(chain, after) && next_seqno(after, config) == plus(next, n)
        }),
{
    let last = plus(next, (n - 1) as nat);
    assert(answers_from(chain, next, n).last() == chain(last));
    assert(chain(last).0.block.seqno == last);
}

/// A run without its first tick.
proof fn rest_of_run<R: ChainRpc>(
    chain: spec_fn(u64) -> (BlockMeta, Vec<SettledWorkUnit>),
    sources: Seq<RpcChainSource<R>>,
    traces: Seq<TickTrace<R::Error>>,
)
    requires
        made_by_ticks(chain, sources, traces),
        traces.len() > 0,
    ensures
        made_by_ticks(chain, sources.skip(1), traces.skip(1)),
        sources.skip(1)[0] == sources[1],
        sources.skip(1).last() == sources.last(),
        ticked(sources[0], traces[0], sources[1]),
        told_by(chain, sources[0].state(), sources[0].settings(), traces[0]),
{
    let s = sources.skip(1);
    let t = traces.skip(1);
    assert(traces[0] == traces[0]);
    assert forall|i: int| 0 <= i < t.len() implies ticked(s[i], #[trigger] t[i], s[i + 1])
        && told_by(chain, s[i].state(), s[i].settings(), t[i]) by {
        assert(t[i] == traces[i + 1]);
    }
}

/// Ticks resume from the checkpoint: over a chain that keeps to its answers
/// and names its blocks, ticks from a checkpoint on that chain amount to one
/// scan of as many blocks as they ingested, in whatever portions, and also
/// where some of them failed.
pub proof fn ticks_amount_to_one_scan<R: ChainRpc>(
    chain: spec_fn(u64) -> (BlockMeta, Vec<SettledWorkUnit>),
    sources: Seq<RpcChainSource<R>>,
    traces: Seq<TickTrace<R::Error>>,
)
    requires
        names_every_block(chain),
        made_by_ticks(chain, sources, traces),
        !off_chain(chain, sources[0].state()),
    ensures
        ({
            let next = next_seqno(sources[0].state(), sources[0].settings());
            sources.last().state() == scanned(
                sources[0].state(),
                next,
                answers_from(chain, next, blocks_ingested(sources, traces)),
            )
        }),
        !off_chain(chain, sources.last().state()),
    decreases traces.len(),
{
    if traces.len() > 0 {
        rest_of_run(chain, sources, traces);
        let state = sources[0].state();
        let config = sources[0].settings();
        let next = next_seqno(state, config);
        let m = ingested_by(state, traces[0]).len();
        let n = blocks_ingested(sources.skip(1), traces.skip(1));
        assert(scan_start(state, config, traces[0]) == state);
        assert(sources[1].state() == scanned(state, next, answers_from(chain, next, m)));
        if m > 0 {
            scan_ends_on_chain(chain, state, config, next, m);
        }
        ticks_amount_to_one_scan(chain, sources.skip(1), traces.skip(1));
        scan_resumes(chain, state, next, m, n);
    }
}

/// Every tick of the run succeeded with this finalized head.
pub open spec fn finalized_throughout<R: ChainRpc>(
    sources: Seq<RpcChainSource<R>>,
    traces: Seq<TickTrace<R::Error>>,
    finalized: u64,
) -> bool {
    forall|i: int|
        0 <= i < traces.len() ==> (tick_outcome(
            sources[i].state(),
            sources[i].settings(),
            #[trigger] traces[i],
        ) matches Ok(progress) && progress.finalized_head == finalized)
}

/// The source has nothing left to do: its checkpoint is on the chain, and
/// the finalized head is scanned.
pub open spec fn caught_up<R: ChainRpc>(
    chain: spec_fn(u64) -> (BlockMeta, Vec<SettledWorkUnit>),
    source: RpcChainSource<R>,
    finalized: u64,
) -> bool {
    &&& !off_chain(chain, source.state())
    &&& next_seqno(source.state(), source.settings()) > finalized
}

/// The state with every block up to the finalized head scanned.
spec fn scanned_to(
    chain: spec_fn(u64) -> (BlockMeta, Vec<SettledWorkUnit>),
    state: WalkerView,
    config: WalkerConfig,
    finalized: u64,
) -> WalkerView {
    let next = next_seqno(state, config);
    if next > finalized {
        state
    } else {
        scanned(state, next, answers_from(chain, next, (finalized - next + 1) as nat))
    }
}

/// The rest of a run that keeps to one finalized head keeps to it.
proof fn rest_is_finalized<R: ChainRpc>(
    sources: Seq<RpcChainSource<R>>,
    traces: Seq<TickTrace<R::Error>>,
    finalized: u64,
)
    requires
        finalized_throughout(sources, traces, finalized),
        sources.len() == traces.len() + 1,
        traces.len() > 0,
    ensures
        finalized_throughout(sources.skip(1), traces.skip(1), finalized),
        tick_outcome(sources[0].state(), sources[0].settings(), traces[0]) matches Ok(progress)
            && progress.finalized_head == finalized,
{
    let s = sources.skip(1);
    let t = traces.skip(1);
    assert(traces[0] == traces[0]);
    assert forall|i: int| 0 <= i < t.len() implies (tick_outcome(
        s[i].state(),
        s[i].settings(),
        #[trigger] t[i],
    ) matches Ok(progress) && progress.finalized_head == finalized) by {
        assert(t[i] == traces[i + 1]);
    }
}

/// A successful tick, from the state that its check leaves, scans part of
/// what is missing.
proof fn tick_scans_toward<R: ChainRpc>(
    chain: spec_fn(u64) -> (BlockMeta, Vec<SettledWorkUnit>),
    before: RpcChainSource<R>,
    trace: TickTrace<R::Error>,
    after: RpcChainSource<R>,
    finalized: u64,
)
    requires
        names_every_block(chain),
        ticked(before, trace, after),
        told_by(chain, before.state(), before.settings(), trace),
        tick_outcome(before.state(), before.settings(), trace) matches Ok(progress)
            && progress.finalized_head == finalized,
        finalized < u64::MAX,
        before.settings().max_blocks_per_tick > 0,
    ensures
        ({
            let start = if off_chain(chain, before.state()) {
                rewound(before.state(), before.settings())
            } else {
                before.state()
            };
            let config = before.settings();
            &&& scanned_to(chain, after.state(), config, finalized) == scanned_to(
                chain,
                start,
                config,
                finalized,
            )
            &&& next_seqno(start, config) > finalized ==> after.state() == start
            &&& next_seqno(start, config) <= finalized ==> !off_chain(chain, after.state())
        }),
{
    let config = before.settings();
    let start = scan_start(before.state(), config, trace);
    let next = next_seqno(start, config);
    let m = trace.seen.len();
    assert(after.state() == scanned(start, next, answers_from(chain, next, m)));
    if next > finalized {
        assert(m == 0);
    } else {
        let missing = (finalized - next + 1) as nat;
        assert(0 < m <= missing);
        scan_ends_on_chain(chain, start, config, next, m);
        let rest = (missing - m) as nat;
        scan_resumes(chain, start, next, m, rest);
        if rest == 0 {
            assert(plus(next, m) > finalized);
        } else {
            assert(plus(next, m) == next + m);
        }
    }
}

/// A run from a checkpoint on the chain that ends caught up has scanned what
/// was missing.
proof fn run_scans_all<R: ChainRpc>(
    chain: spec_fn(u64) -> (BlockMeta, Vec<SettledWorkUnit>),
    sources: Seq<RpcChainSource<R>>,
    traces: Seq<TickTrace<R::Error>>,
    finalized: u64,
)
    requires
        names_every_block(chain),
        made_by_ticks(chain, sources, traces),
        finalized_throughout(sources, traces, finalized),
        caught_up(chain, sources.last(), finalized),
        sources[0].settings().max_blocks_per_tick > 0,
        !off_chain(chain, sources[0].state()),
    ensures
        sources.last().state() == scanned_to(
            chain,
            sources[0].state(),
            sources[0].settings(),
            finalized,
        ),
    decreases traces.len(),
{
    if traces.len() > 0 {
        rest_of_run(chain, sources, traces);
        rest_is_finalized(sources, traces, finalized);
        tick_scans_toward(chain, sources[0], traces[0], sources[1], finalized);
        run_scans_all(chain, sources.skip(1), traces.skip(1), finalized);
    }
}

/// Two configurations are the same but for the bound of one tick.
pub open spec fn same_but_for_bound(a: WalkerConfig, b: WalkerConfig) -> bool {
    a == WalkerConfig { max_blocks_per_tick: a.max_blocks_per_tick, ..b }
}

/// How the way to the finalized head is cut into ticks does not matter: over
/// a chain that keeps to its answers and names its blocks, two sources that
/// start alike and differ only in the bound of one tick are alike once both
/// have caught up, also where they had to rewind first.
pub proof fn cut_into_ticks_does_not_matter<R: ChainRpc>(
    chain: spec_fn(u64) -> (BlockMeta, Vec<SettledWorkUnit>),
    a: Seq<RpcChainSource<R>>,
    a_traces: Seq<TickTrace<R::Error>>,
    b: Seq<RpcChainSource<R>>,
    b_traces: Seq<TickTrace<R::Error>>,
    finalized: u64,
)
    requires
        names_every_block(chain),
        made_by_ticks(chain, a, a_traces),
        made_by_ticks(chain, b, b_traces),
        finalized_throughout(a, a_traces, finalized),
        finalized_throughout(b, b_traces, finalized),
        caught_up(chain, a.last(), finalized),
        caught_up(chain, b.last(), finalized),
        a[0].state() == b[0].state(),
        same_but_for_bound(a[0].settings(), b[0].settings()),
        a[0].settings().max_blocks_per_tick > 0,
        b[0].settings().max_blocks_per_tick > 0,
    ensures
        a.last().state() == b.last().state(),
    decreases a_traces.len(),
{
    if !off_chain(chain, a[0].state()) {
        run_scans_all(chain, a, a_traces, finalized);
        run_scans_all(chain, b, b_traces, finalized);
    } else {
        rest_of_run(chain, a, a_traces);
        rest_of_run(chain, b, b_traces);
        rest_is_finalized(a, a_traces, finalized);
        rest_is_finalized(b, b_traces, finalized);
        tick_scans_toward(chain, a[0], a_traces[0], a[1], finalized);
        tick_scans_toward(chain, b[0], b_traces[0], b[1], finalized);
        let start = rewound(a[0].state(), a[0].settings());
        if next_seqno(start, a[0].settings()) > finalized {
            cut_into_ticks_does_not_matter(
                chain,
                a.skip(1),
                a_traces.skip(1),
                b.skip(1),
                b_traces.skip(1),
                finalized,
            );
        } else {
            run_scans_all(chain, a.skip(1), a_traces.skip(1), finalized);
            run_scans_all(chain, b.skip(1), b_traces.skip(1), finalized);
        }
    }
}

} // verus!
