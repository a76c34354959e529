//! What the sources of data return, said of every call.

use vstd::prelude::*;

use crate::aipow;
use crate::aipow::jsonrpc::{
    hash_from_decoded, parse_hash, read_head, read_time, read_units, JsonRpcChainError, RpcReply,
};
use crate::aipow::rpc::{
    units_in_epoch, BlockRef, ChainRpc, RpcChainSource, SourceError, Walker, WalkerConfig,
};
use crate::aipow::score::ChallengeBudgetParams;
use crate::classifier::ClassifierParams;
use crate::decoding::{base64_standard, base64_url_safe};
use crate::hex;
use crate::hex::hex_bytes;
use crate::laws::committing::{encoded_bytes, names_bytes};
use crate::laws::ingestion::{
    hashes_are_64_digits, is_last_pair, last_pair_decides, names_32_bytes,
    pages_are_asked_by_offset, published_unit, registry_is_as_published, walks_end_when_complete,
};
use crate::laws::walking::hashes_are_read_by_length;
use crate::poiw;
use crate::poiw::cli::{parse_arguments, run_over, Arguments, CliError, Output};
use crate::poiw::tosctld::{
    epoch_units, page_rows, url_at, walk, walk_keeps_every_row, HttpGetJson, SettledWorkReply,
    TosctldError, TosctldSource, Walk, WireEvent,
};
use crate::score::ScoreParams;
use crate::source::FixtureError;
use crate::text::{decimal, parsed_number};
use crate::types::{
    unit_views, validate_commitment, AttributionError, DomainMap, EpochId, SettledWorkUnit,
};
use crate::vocabulary::unit_for;
use vstd::utf8::encode_utf8;

verus! {

/// A fixture serves exactly its epochs, each with its own data.
pub proof fn fixtures_serve_their_epochs(
    poiw_source: &poiw::indexer::FixtureSource,
    aipow_source: &aipow::indexer::FixtureSource,
    epoch: EpochId,
    poiw_data: Result<poiw::indexer::EpochData, FixtureError>,
    aipow_data: Result<aipow::indexer::EpochData, FixtureError>,
)
    requires
        call_ensures(
            <poiw::indexer::FixtureSource as poiw::indexer::ChainSource>::epoch_data,
            (poiw_source, epoch),
            poiw_data,
        ),
        call_ensures(
            <aipow::indexer::FixtureSource as aipow::indexer::ChainSource>::epoch_data,
            (aipow_source, epoch),
            aipow_data,
        ),
    ensures
        poiw_data is Ok <==> poiw_source.served().dom().contains(epoch.0),
        aipow_data is Ok <==> aipow_source.served().dom().contains(epoch.0),
        poiw_data matches Ok(data) ==> data.units@ == poiw_source.served()[epoch.0].units@
            && data.reliability@ == poiw_source.served()[epoch.0].reliability@,
        aipow_data matches Ok(data) ==> data.units@ == aipow_source.served()[epoch.0].units@
            && data.attributed@ == aipow_source.served()[epoch.0].attributed@ && data.reliability@
            == aipow_source.served()[epoch.0].reliability@,
        poiw_data matches Err(e) ==> e == FixtureError::UnknownEpoch(epoch.0),
        aipow_data matches Err(e) ==> e == FixtureError::UnknownEpoch(epoch.0),
{
}

/// A source made from a fixture serves that fixture.
pub proof fn fixtures_are_served(
    poiw_fixture: poiw::indexer::Fixture,
    poiw_source: poiw::indexer::FixtureSource,
    aipow_fixture: aipow::indexer::Fixture,
    aipow_source: aipow::indexer::FixtureSource,
    map: DomainMap,
    id: crate::types::IdentityId,
    i: int,
)
    requires
        call_ensures(poiw::indexer::FixtureSource::new, (poiw_fixture,), poiw_source),
        call_ensures(aipow::indexer::FixtureSource::new, (aipow_fixture,), aipow_source),
        call_ensures(aipow::indexer::FixtureSource::domain_map, (&aipow_source,), map),
    ensures
        poiw_source.served() == poiw_fixture.epochs@,
        aipow_source.served() == aipow_fixture.epochs@,
        is_last_pair(aipow_fixture.domains@, id, i) ==> map.0@.dom().contains(id) && map.0@[id]
            == aipow_fixture.domains@[i].1,
        (forall|j: int| !is_last_pair(aipow_fixture.domains@, id, j)) ==> !map.0@.dom().contains(
            id,
        ),
{
    last_pair_decides(aipow_fixture.domains@, id);
}

/// All rows are fetched: page after page, each asked for where the ones
/// before it ended, until one is empty or completes the rows, and what comes
/// back is what all pages held.
pub proof fn all_rows_are_fetched<G: HttpGetJson>(
    source: &TosctldSource<G>,
    r: Result<Vec<WireEvent>, TosctldError<G::Error>>,
)
    requires
        call_ensures(TosctldSource::<G>::fetch_all, (source,), r),
    ensures
        r matches Ok(rows) ==> exists|replies: Seq<Result<SettledWorkReply, G::Error>>|
            {
                &&& #[trigger] source.answered(replies)
                &&& 0 < replies.len() <= 10_000
                &&& rows@ == page_rows(replies)
                &&& replies.last() matches Ok(SettledWorkReply::Page(page)) && (page.result@.len()
                    == 0 || rows@.len() >= page.total)
            },
        r matches Err(TosctldError::BadRow(_)) ==> false,
{
    if let Ok(rows) = r {
        let replies = choose|replies: Seq<Result<SettledWorkReply, G::Error>>|
            #[trigger] source.answered(replies) && replies.len() <= 10_000 && walk(replies)
                == Walk::<G::Error>::Done(rows@);
        let last = replies.len() - 1;
        assert(replies.len() > 0);
        assert(replies.take(last) =~= replies.drop_last());
        assert(source.answered_at(replies.take(last), replies[last]));
        walk_keeps_every_row(replies);
        walks_end_when_complete(walk(replies.drop_last())->Going_0, replies.last());
    } else {
        let replies = choose|replies: Seq<Result<SettledWorkReply, G::Error>>|
            #[trigger] source.answered(replies) && replies.len() <= 10_000 && (walk(replies)
                == Walk::<G::Error>::Failed(r->Err_0) || r->Err_0 is Pagination);
        if walk(replies) is Failed {
            failures_are_of_answers(replies);
        }
    }
}

/// A walk fails only by transport or shape.
proof fn failures_are_of_answers<E>(replies: Seq<Result<SettledWorkReply, E>>)
    ensures
        walk(replies) matches Walk::Failed(e) ==> e is Transport || e is Shape,
    decreases replies.len(),
{
    if replies.len() > 0 {
        failures_are_of_answers(replies.drop_last());
    }
}

/// The data of an epoch are the units of the rows that were fetched.
pub proof fn epoch_data_is_of_fetched_rows<G: HttpGetJson>(
    source: &TosctldSource<G>,
    epoch: EpochId,
    data: poiw::indexer::EpochData,
)
    requires
        call_ensures(
            <TosctldSource<G> as poiw::indexer::ChainSource>::epoch_data,
            (source, epoch),
            Ok::<poiw::indexer::EpochData, TosctldError<G::Error>>(data),
        ),
    ensures
        data.reliability@.len() == 0,
        exists|replies: Seq<Result<SettledWorkReply, G::Error>>|
            {
                &&& #[trigger] source.answered(replies)
                &&& replies.len() > 0
                &&& replies.last() matches Ok(SettledWorkReply::Page(page)) && (page.result@.len()
                    == 0 || page_rows(replies).len() >= page.total)
                &&& epoch_units(page_rows(replies), source.seconds(), epoch.0) == Ok::<
                    Seq<crate::types::WorkUnitView>,
                    Seq<char>,
                >(unit_views(data.units@))
            },
{
    let replies = choose|replies: Seq<Result<SettledWorkReply, G::Error>>|
        {
            &&& #[trigger] source.answered(replies)
            &&& replies.len() <= 10_000
            &&& walk(replies) matches Walk::Done(rows) && (epoch_units(
                rows,
                source.seconds(),
                epoch.0,
            ) matches Ok(units) && unit_views(data.units@) == units && data.reliability@.len()
                == 0)
        };
    let last = replies.len() - 1;
    assert(replies.len() > 0);
    assert(replies.take(last) =~= replies.drop_last());
    assert(source.answered_at(replies.take(last), replies[last]));
    walk_keeps_every_row(replies);
    walks_end_when_complete(walk(replies.drop_last())->Going_0, replies.last());
}

/// A page is asked for by its offset, a thousand rows at a time.
pub proof fn urls_name_offsets(base: &String, offset: usize, url: String)
    requires
        call_ensures(url_at, (base, offset), url),
    ensures
        url@ == base@ + "/poiw/settled-work?offset="@ + decimal(offset as nat) + "&limit=1000"@,
{
    pages_are_asked_by_offset(base@, offset as nat);
}

/// The walker's units of an epoch are those of its blocks; a source's are
/// given exactly where some block held is past the epoch's end.
pub proof fn walkers_give_units_of_blocks<R: ChainRpc>(
    walker: &Walker,
    units: Vec<SettledWorkUnit>,
    source: &RpcChainSource<R>,
    epoch: EpochId,
    data: Result<aipow::indexer::EpochData, SourceError<R::Error>>,
)
    requires
        call_ensures(Walker::epoch_units, (walker, epoch.0), units),
        call_ensures(
            <RpcChainSource<R> as aipow::indexer::ChainSource>::epoch_data,
            (source, epoch),
            data,
        ),
        epoch.0 < u64::MAX,
    ensures
        units@ == units_in_epoch(walker@.blocks, walker.settings().epoch_seconds, epoch.0),
        data is Ok <==> exists|k: u64| #[trigger]
            source.state().blocks.dom().contains(k) && source.state().blocks[k].unix_time >= (
            epoch.0 + 1) * source.settings().epoch_seconds,
        data matches Ok(d) ==> d.units@ == units_in_epoch(
            source.state().blocks,
            source.settings().epoch_seconds,
            epoch.0,
        ) && d.attributed@.len() == 0 && d.reliability@.len() == 0,
        data matches Err(e) ==> e == SourceError::<R::Error>::IncompleteEpoch(epoch.0),
{
}

/// A source begins with no block and the configuration it was given, which
/// must have epochs and ticks of some length.
pub proof fn sources_begin_empty<R: ChainRpc>(
    rpc: R,
    config: WalkerConfig,
    r: Result<RpcChainSource<R>, SourceError<R::Error>>,
)
    requires
        call_ensures(RpcChainSource::<R>::new, (rpc, config), r),
    ensures
        r is Ok <==> config.epoch_seconds > 0 && config.max_blocks_per_tick > 0,
        r matches Ok(source) ==> {
            &&& source.chain() == rpc
            &&& source.settings() == config
            &&& source.state().checkpoint is None
            &&& forall|k: u64| !(#[trigger] source.state().blocks.dom().contains(k))
        },
        r matches Err(e) ==> e is InvalidConfig,
{
}

/// A hash is read from 64 hexadecimal digits, or from base64 where the text
/// has another length.
pub proof fn hashes_are_read(text: &str, r: Option<[u8; 32]>)
    requires
        call_ensures(parse_hash, (text,), r),
    ensures
        encode_utf8(text@).len() == 64 ==> {
            &&& r is Some <==> names_32_bytes(text@)
            &&& r matches Some(hash) ==> hash@ == hex_bytes(text@)
        },
        encode_utf8(text@).len() != 64 ==> {
            &&& r matches Some(hash) ==> encode_utf8(text@).len() == 44 && (base64_standard(text@)
                == Some(hash@) || (base64_standard(text@) is None && base64_url_safe(text@) == Some(
                hash@,
            )))
            &&& base64_standard(text@) matches Some(bytes) ==> (bytes.len() == 32 <==> r is Some)
            &&& base64_standard(text@) is None ==> (base64_url_safe(text@) matches Some(bytes) ==> (
            bytes.len() == 32 <==> r is Some))
        },
{
    hashes_are_read_by_length(text@);
    hashes_are_64_digits(text@);
}

/// Of two readings the first decides.
pub proof fn readings_decide(
    standard: Option<Vec<u8>>,
    url_safe: Option<Vec<u8>>,
    r: Option<[u8; 32]>,
)
    requires
        call_ensures(hash_from_decoded, (standard, url_safe), r),
    ensures
        match (standard, url_safe) {
            (Some(bytes), _) => (r is Some <==> bytes@.len() == 32) && (r matches Some(hash)
                ==> hash@ == bytes@),
            (None, Some(bytes)) => (r is Some <==> bytes@.len() == 32) && (r matches Some(hash)
                ==> hash@ == bytes@),
            (None, None) => r is None,
        },
{
}

/// Answers of the right kind are taken as given, and no others.
pub proof fn answers_are_read<E>(
    reply: Result<RpcReply, E>,
    head: Result<BlockRef, JsonRpcChainError<E>>,
    time: Result<u64, JsonRpcChainError<E>>,
    units: Result<Vec<SettledWorkUnit>, JsonRpcChainError<E>>,
)
    requires
        call_ensures(read_head::<E>, (reply,), head),
        call_ensures(read_time::<E>, (reply,), time),
        call_ensures(read_units::<E>, (reply,), units),
    ensures
        head matches Ok(block) ==> (reply matches Ok(RpcReply::MasterchainInfo(info)) && block.seqno
            == info.last.seqno && crate::aipow::jsonrpc::hash_named(info.last.root_hash@) == Some(
            block.hash@,
        )),
        time is Ok <==> reply matches Ok(RpcReply::BlockHeader(_)),
        time matches Ok(t) ==> t == reply->Ok_0->BlockHeader_0.gen_utime,
        units is Ok <==> reply matches Ok(RpcReply::SettledWork(_)),
        units matches Ok(u) ==> u == reply->Ok_0->SettledWork_0.units,
        reply matches Err(e) ==> head == Err::<BlockRef, JsonRpcChainError<E>>(
            JsonRpcChainError::Transport(e),
        ) && time == Err::<u64, JsonRpcChainError<E>>(JsonRpcChainError::Transport(e)) && units
            == Err::<Vec<SettledWorkUnit>, JsonRpcChainError<E>>(JsonRpcChainError::Transport(e)),
{
}

/// The published parameters.
pub proof fn defaults_are_published(
    score: ScoreParams,
    classifier: ClassifierParams,
    challenge: ChallengeBudgetParams,
    walker: WalkerConfig,
)
    requires
        call_ensures(<ScoreParams as Default>::default, (), score),
        call_ensures(<ClassifierParams as Default>::default, (), classifier),
        call_ensures(<ChallengeBudgetParams as Default>::default, (), challenge),
        call_ensures(<WalkerConfig as Default>::default, (), walker),
    ensures
        score == (ScoreParams { payout_cap_share_bps: 500 }),
        classifier == (ClassifierParams { top_payer_full_bps: 5_000, top_payer_zero_bps: 10_000 }),
        challenge == (ChallengeBudgetParams {
            max_pool_share_bps: 3_000,
            organic_multiple_percent: 200,
            cold_start_floor: 2_000_000_000_000,
            per_identity_cap: 100_000_000_000,
        }),
        walker == (WalkerConfig {
            confirmations: 16,
            reorg_margin: 5,
            max_blocks_per_tick: 256,
            epoch_seconds: 65_536,
            start_seqno: 1,
        }),
{
}

/// A class has its published unit; a commitment is 64 hexadecimal digits.
pub proof fn attributions_are_checked(
    class: &str,
    unit: Option<&'static str>,
    label: &'static str,
    commitment: &Option<String>,
    r: Result<(), AttributionError>,
)
    requires
        call_ensures(unit_for, (class,), unit),
        call_ensures(validate_commitment, (label, commitment), r),
    ensures
        unit matches Some(name) ==> published_unit(class@) == Some(name@),
        unit is None ==> published_unit(class@) is None,
        r is Ok <==> (*commitment matches Some(text) ==> names_32_bytes(text@)),
        r matches Err(e) ==> e == AttributionError::BadCommitment(label),
{
    registry_is_as_published(class@);
    if let Some(text) = *commitment {
        hashes_are_64_digits(text@);
    }
}

/// Fixed-size values are read from exactly twice as many digits.
pub proof fn arrays_are_read_in_full<const N: usize>(text: &str, r: Option<[u8; N]>)
    requires
        call_ensures(hex::decode_array::<N>, (text,), r),
    ensures
        r is Some <==> names_bytes(text@, N as int),
        r matches Some(array) ==> array@ == hex_bytes(text@),
{
    encoded_bytes(text@, N as nat);
}

/// The arguments are the fixture's path, the epoch, and then, where they are
/// given, the ceiling and the percentage; numbers must fit.
pub proof fn arguments_are_read_in_order(args: &[String], r: Result<Arguments, CliError>)
    requires
        call_ensures(parse_arguments, (args,), r),
    ensures
        args@.len() < 2 <==> r == Err::<Arguments, CliError>(CliError::Usage),
        r matches Ok(a) ==> {
            &&& a.fixture_path@ == args@[0]@
            &&& parsed_number(args@[1]@, u64::MAX as nat) == Some(a.epoch.0 as nat)
            &&& args@.len() > 2 ==> parsed_number(args@[2]@, u128::MAX as nat) == Some(
                a.schedule_cap as nat,
            )
            &&& args@.len() <= 2 ==> a.schedule_cap == 1_170_000_000_000_000
            &&& args@.len() > 3 ==> parsed_number(args@[3]@, u32::MAX as nat) == Some(
                a.k_percent as nat,
            )
            &&& args@.len() <= 3 ==> a.k_percent == 300
        },
        r matches Err(CliError::BadNumber(shown)) ==> args@.len() >= 2 && (shown@ == args@[1]@ || (
        args@.len() > 2 && shown@ == args@[2]@) || (args@.len() > 3 && shown@ == args@[3]@)),
        args@.len() >= 2 && parsed_number(args@[1]@, u64::MAX as nat) is Some && (args@.len() > 2
            ==> parsed_number(args@[2]@, u128::MAX as nat) is Some) && (args@.len() > 3
            ==> parsed_number(args@[3]@, u32::MAX as nat) is Some) ==> r is Ok,
{
}

/// What is reported is the epoch that was asked for, from the fixture's own
/// data, under the ceiling and the percentage of the arguments.
pub proof fn asked_epochs_are_reported(
    source: &poiw::indexer::FixtureSource,
    arguments: &Arguments,
    data: poiw::indexer::EpochData,
    direct: Result<Output, CliError>,
    r: Result<Output, CliError>,
)
    requires
        call_ensures(run_over, (source, arguments), r),
        source.served().dom().contains(arguments.epoch.0),
        data == source.served()[arguments.epoch.0],
        call_ensures(
            crate::poiw::cli::epoch_report,
            (&data, arguments.epoch, arguments.schedule_cap, arguments.k_percent),
            direct,
        ),
    ensures
        r is Ok <==> direct is Ok,
        r matches Ok(output) ==> output@ == direct->Ok_0@,
        r matches Err(e) ==> direct == Err::<Output, CliError>(e),
{
}

} // verus!
