use std::cell::RefCell;
use std::collections::BTreeMap;

use base64::Engine;
use poiw_scorer::aipow::indexer::ChainSource;
use poiw_scorer::aipow::jsonrpc::{
    hash_from_decoded, parse_hash, read_head, read_time, read_units, response_outcome,
    HttpRpcError, JsonRpcChainError, JsonRpcChainRpc, JsonRpcTransport, RpcParams, RpcReply,
    WireBlockHeader, WireBlockId, WireLookupBlock, WireMasterchainInfo, WireSettledWork,
};
use poiw_scorer::aipow::rpc::{
    BlockMeta, BlockRef, ChainRpc, RpcChainSource, SourceError, Walker, WalkerConfig,
};
use poiw_scorer::hex;
use poiw_scorer::types::{CapabilityClass, EpochId, EvidenceLevel, IdentityId, SettledWorkUnit};

fn unit(earner: u8, seq: u8) -> SettledWorkUnit {
    SettledWorkUnit {
        identity: IdentityId([earner; 32]),
        payer: IdentityId([seq; 32]),
        capability: CapabilityClass("embedding".into()),
        rate_card_value: 100,
        settled_price: 100,
        evidence: EvidenceLevel::Observed,
        is_challenge_task: false,
        payer_related: false,
    }
}

/// Per-seqno scripted block: (hash tag, unix time, units).
type ScriptedBlock = (u8, u64, Vec<SettledWorkUnit>);

/// A scripted chain, mutable so tests can inject a reorg between
/// ticks.
struct FakeChain {
    blocks: RefCell<BTreeMap<u64, ScriptedBlock>>,
}

#[derive(Debug, PartialEq)]
struct MissingBlock(u64);

impl ChainRpc for &FakeChain {
    type Error = MissingBlock;

    fn head(&self) -> Result<BlockRef, Self::Error> {
        let blocks = self.blocks.borrow();
        let (seqno, (tag, _, _)) = blocks.iter().next_back().ok_or(MissingBlock(0))?;
        Ok(BlockRef {
            seqno: *seqno,
            hash: [*tag; 32],
        })
    }

    fn block_meta(&self, seqno: u64) -> Result<BlockMeta, Self::Error> {
        let blocks = self.blocks.borrow();
        let (tag, time, _) = blocks.get(&seqno).ok_or(MissingBlock(seqno))?;
        Ok(BlockMeta {
            block: BlockRef {
                seqno,
                hash: [*tag; 32],
            },
            unix_time: *time,
        })
    }

    fn settled_units(&self, seqno: u64) -> Result<Vec<SettledWorkUnit>, Self::Error> {
        let blocks = self.blocks.borrow();
        let (_, _, units) = blocks.get(&seqno).ok_or(MissingBlock(seqno))?;
        Ok(units.clone())
    }
}

fn chain_with(range: std::ops::RangeInclusive<u64>, tag: u8) -> FakeChain {
    let mut blocks = BTreeMap::new();
    for seqno in range {
        let units = if seqno % 3 == 0 {
            vec![unit(u8::try_from(seqno % 200).unwrap(), 9)]
        } else {
            Vec::new()
        };
        blocks.insert(seqno, (tag, seqno.checked_mul(100).unwrap(), units));
    }
    FakeChain {
        blocks: RefCell::new(blocks),
    }
}

fn config() -> WalkerConfig {
    WalkerConfig {
        confirmations: 2,
        reorg_margin: 5,
        max_blocks_per_tick: 1_000,
        epoch_seconds: 1_000,
        start_seqno: 1,
    }
}

#[test]
fn walker_advances_to_finalized_head_and_buckets_epochs() {
    let chain = chain_with(1..=40, 1);
    let mut source = RpcChainSource::new(&chain, config()).unwrap();
    let progress = source.tick().unwrap();
    assert_eq!(progress.finalized_head, 38);
    assert_eq!(progress.blocks_scanned, 38);
    assert!(!progress.reorg_detected);
    assert_eq!(source.checkpoint().unwrap().seqno, 38);

    // Epoch 0 covers times 0..1000 -> seqnos 1..=9; epoch 1 covers
    // 1000..2000 -> seqnos 10..=19. Blocks at multiples of 3 carry
    // one unit each.
    let epoch0 = source.epoch_data(EpochId(0)).unwrap();
    assert_eq!(epoch0.units.len(), 3); // seqnos 3, 6, 9
    let epoch1 = source.epoch_data(EpochId(1)).unwrap();
    assert_eq!(epoch1.units.len(), 3); // seqnos 12, 15, 18

    // Epoch 3 ends at t=4000, beyond the last finalized block time.
    assert!(matches!(
        source.epoch_data(EpochId(3)),
        Err(SourceError::IncompleteEpoch(3))
    ));
}

#[test]
fn walker_bounds_blocks_per_tick_and_resumes() {
    let chain = chain_with(1..=40, 1);
    let mut cfg = config();
    cfg.max_blocks_per_tick = 10;
    let mut source = RpcChainSource::new(&chain, cfg).unwrap();
    assert_eq!(source.tick().unwrap().blocks_scanned, 10);
    assert_eq!(source.checkpoint().unwrap().seqno, 10);
    assert_eq!(source.tick().unwrap().blocks_scanned, 10);
    assert_eq!(source.tick().unwrap().blocks_scanned, 10);
    assert_eq!(source.tick().unwrap().blocks_scanned, 8);
    assert_eq!(source.tick().unwrap().blocks_scanned, 0);
    assert_eq!(source.checkpoint().unwrap().seqno, 38);
}

#[test]
fn walker_rewinds_on_reorg_and_reingests_the_new_branch() {
    let chain = chain_with(1..=40, 1);
    let mut source = RpcChainSource::new(&chain, config()).unwrap();
    source.tick().unwrap();
    // Epoch 2 covers times 2000..3000 -> seqnos 20..=29; unit-bearing
    // seqnos are 21, 24, 27.
    let epoch2_before = source.epoch_data(EpochId(2)).unwrap();
    assert_eq!(epoch2_before.units.len(), 3);

    // Reorg: replace blocks >= 30 with a new branch (tag 2) whose
    // unit-bearing blocks differ (even seqnos), and extend the head.
    {
        let mut blocks = chain.blocks.borrow_mut();
        for seqno in 30..=44u64 {
            let units = if seqno % 2 == 0 {
                vec![unit(u8::try_from(seqno % 200).unwrap(), 9)]
            } else {
                Vec::new()
            };
            blocks.insert(seqno, (2, seqno.checked_mul(100).unwrap(), units));
        }
    }

    let progress = source.tick().unwrap();
    assert!(progress.reorg_detected);
    // Checkpoint was 38; rewound by the 5-block margin to 33 and
    // rescanned 33..=42 from the new branch.
    assert_eq!(source.checkpoint().unwrap().seqno, 42);

    // Epoch 2 is entirely below the rewind point and unchanged.
    let epoch2_after = source.epoch_data(EpochId(2)).unwrap();
    assert_eq!(epoch2_after, epoch2_before);

    // Epoch 3 covers seqnos 30..=39. Blocks 30..=32 predate the
    // rewind point, so the old branch's unit at seqno 30 remains —
    // the reorg margin bounds, but does not eliminate, stale data
    // (the same semantics as the node's contract
    // indexer). Rescanned 33..=39 carry new-branch units at 34, 36,
    // 38.
    let epoch3 = source.epoch_data(EpochId(3)).unwrap();
    assert_eq!(epoch3.units.len(), 4);
}

/// Canned JSON-RPC transport.
struct FakeTransport;

#[derive(Debug, PartialEq)]
struct NoMethod;

impl JsonRpcTransport for FakeTransport {
    type Error = NoMethod;

    fn call(&self, method: &str, _params: RpcParams) -> Result<RpcReply, Self::Error> {
        let hash_hex = hex::encode(&[7u8; 32]);
        match method {
            "getMasterchainInfo" => Ok(RpcReply::MasterchainInfo(WireMasterchainInfo {
                last: WireBlockId {
                    seqno: 99,
                    root_hash: hash_hex,
                },
            })),
            "lookupBlock" => Ok(RpcReply::LookupBlock(WireLookupBlock {
                id: WireBlockId {
                    seqno: 42,
                    root_hash: hash_hex,
                },
            })),
            "getBlockHeader" => Ok(RpcReply::BlockHeader(WireBlockHeader {
                gen_utime: 123456,
            })),
            "aipowGetSettledWork" => {
                let mut sample = unit(1, 2);
                sample.settled_price = 90;
                Ok(RpcReply::SettledWork(WireSettledWork {
                    units: vec![sample],
                }))
            }
            _ => Err(NoMethod),
        }
    }
}

#[test]
fn json_rpc_adapter_parses_the_wire_shapes() {
    let rpc = JsonRpcChainRpc::new(FakeTransport);
    let head = rpc.head().unwrap();
    assert_eq!(head.seqno, 99);
    assert_eq!(head.hash, [7u8; 32]);
    let meta = rpc.block_meta(42).unwrap();
    assert_eq!(meta.block.seqno, 42);
    assert_eq!(meta.unix_time, 123_456);
    let units = rpc.settled_units(42).unwrap();
    assert_eq!(units.len(), 1);
    assert_eq!(units[0].settled_price, 90);
}

#[test]
fn hash_parsing_accepts_hex_and_base64_rejects_garbage() {
    let hex64 = hex::encode(&[9u8; 32]);
    assert_eq!(parse_hash(&hex64).unwrap(), [9u8; 32]);
    let b64 = base64::engine::general_purpose::STANDARD.encode([9u8; 32]);
    assert_eq!(parse_hash(&b64).unwrap(), [9u8; 32]);
    assert!(parse_hash("nope").is_none());
}

fn meta(seqno: u64, tag: u8, unix_time: u64) -> BlockMeta {
    BlockMeta {
        block: BlockRef {
            seqno,
            hash: [tag; 32],
        },
        unix_time,
    }
}

#[test]
fn walker_configuration_is_checked() {
    let chain = chain_with(1..=4, 1);
    let defaults = WalkerConfig::default();
    assert_eq!(defaults.confirmations, 16);
    assert_eq!(defaults.reorg_margin, 5);
    assert_eq!(defaults.max_blocks_per_tick, 256);
    assert_eq!(defaults.epoch_seconds, 65_536);
    assert_eq!(defaults.start_seqno, 1);
    let mut no_epoch = defaults;
    no_epoch.epoch_seconds = 0;
    no_epoch.max_blocks_per_tick = 0;
    assert!(matches!(
        RpcChainSource::new(&chain, no_epoch),
        Err(SourceError::InvalidConfig("epoch_seconds must be positive"))
    ));
    let mut no_blocks = defaults;
    no_blocks.max_blocks_per_tick = 0;
    assert!(matches!(
        RpcChainSource::new(&chain, no_blocks),
        Err(SourceError::InvalidConfig(
            "max_blocks_per_tick must be positive"
        ))
    ));
}

#[test]
fn walker_reports_what_the_chain_cannot_answer() {
    let empty = FakeChain {
        blocks: RefCell::new(BTreeMap::new()),
    };
    let mut source = RpcChainSource::new(&empty, config()).unwrap();
    assert_eq!(source.tick(), Err(SourceError::Rpc(MissingBlock(0))));

    // A gap stops the scan; what came before it is kept.
    let gap = chain_with(1..=40, 1);
    gap.blocks.borrow_mut().remove(&20);
    let mut source = RpcChainSource::new(&gap, config()).unwrap();
    assert_eq!(source.tick(), Err(SourceError::Rpc(MissingBlock(20))));
    assert_eq!(source.checkpoint().unwrap().seqno, 19);
    assert_eq!(source.epoch_data(EpochId(0)).unwrap().units.len(), 3);
}

#[test]
fn an_idle_tick_scans_nothing() {
    let chain = chain_with(1..=10, 1);
    let mut source = RpcChainSource::new(&chain, config()).unwrap();
    assert_eq!(source.tick().unwrap().blocks_scanned, 8);
    let again = source.tick().unwrap();
    assert_eq!(again.blocks_scanned, 0);
    assert!(!again.reorg_detected);
    assert_eq!(again.finalized_head, 8);
}

#[test]
fn a_rewind_past_the_start_scans_again_from_the_start() {
    let mut walker = Walker::new(config());
    assert_eq!(walker.next(), 1);
    for seqno in 1..=3 {
        walker.ingest(seqno, meta(seqno, 1, seqno * 100), vec![unit(1, 2)]);
    }
    assert_eq!(walker.next(), 4);
    assert!(!walker.check(&meta(3, 1, 0)));
    assert!(walker.check(&meta(3, 2, 0)));
    assert_eq!(walker.checkpoint(), None);
    assert_eq!(walker.next(), 1);
    assert!(walker.epoch_units(0).is_empty());
    assert!(!walker.epoch_complete(0));
}

#[test]
fn a_rewind_resumes_just_before_the_margin() {
    let mut walker = Walker::new(config());
    for seqno in 1..=9 {
        walker.ingest(seqno, meta(seqno, seqno as u8, seqno * 100), vec![]);
    }
    assert!(walker.check(&meta(9, 77, 0)));
    assert_eq!(
        walker.checkpoint(),
        Some(BlockRef {
            seqno: 3,
            hash: [3; 32]
        })
    );
    assert_eq!(walker.next(), 4);
}

#[test]
fn epochs_far_away_are_never_complete() {
    let mut walker = Walker::new(config());
    walker.ingest(1, meta(1, 1, u64::MAX), vec![]);
    assert!(walker.epoch_complete(0));
    assert!(!walker.epoch_complete(u64::MAX));
    assert!(!walker.epoch_complete(u64::MAX / 1_000));
    assert!(walker.epoch_complete(u64::MAX / 1_000 - 1));
}

#[test]
fn an_epoch_is_complete_once_a_block_is_past_its_end() {
    let mut walker = Walker::new(config());
    walker.ingest(1, meta(1, 1, 8_999), vec![]);
    // A complete epoch means that every earlier one is complete.
    for epoch in 0..8 {
        assert!(walker.epoch_complete(epoch));
    }
    assert!(!walker.epoch_complete(8));
    walker.ingest(2, meta(2, 1, 9_000), vec![]);
    assert!(walker.epoch_complete(8));
    assert!(!walker.epoch_complete(9));
    // A later block with an earlier time takes nothing back.
    walker.ingest(3, meta(3, 1, 5_000), vec![]);
    assert!(walker.epoch_complete(5));
    assert!(walker.epoch_complete(8));
    assert!(!walker.epoch_complete(9));
}

#[test]
fn the_metadata_of_a_block_is_asked_for_before_its_units() {
    struct Nothing;
    impl ChainRpc for Nothing {
        type Error = &'static str;

        fn head(&self) -> Result<BlockRef, Self::Error> {
            Ok(BlockRef {
                seqno: 40,
                hash: [1; 32],
            })
        }

        fn block_meta(&self, _seqno: u64) -> Result<BlockMeta, Self::Error> {
            Err("no metadata")
        }

        fn settled_units(&self, _seqno: u64) -> Result<Vec<SettledWorkUnit>, Self::Error> {
            Err("no units")
        }
    }
    let mut source = RpcChainSource::new(Nothing, config()).unwrap();
    assert_eq!(source.tick(), Err(SourceError::Rpc("no metadata")));
}

#[test]
fn portions_of_any_size_lead_to_the_same_blocks() {
    let chain = chain_with(1..=40, 1);
    let branch = chain_with(1..=42, 2);
    let mut ends = Vec::new();
    for bound in [1, 7, 256] {
        let mut source = RpcChainSource::new(
            &chain,
            WalkerConfig {
                max_blocks_per_tick: bound,
                ..config()
            },
        )
        .unwrap();
        while source.tick().unwrap().blocks_scanned > 0 {}
        let before = source.epoch_data(EpochId(0)).unwrap().units;
        let held = chain.blocks.replace(branch.blocks.borrow().clone());
        assert!(source.tick().unwrap().reorg_detected);
        while source.tick().unwrap().blocks_scanned > 0 {}
        chain.blocks.replace(held);
        let after = source.epoch_data(EpochId(0)).unwrap().units;
        // The rewind leaves an epoch before the rewind point alone.
        assert_eq!(before, after);
        ends.push((
            source.checkpoint(),
            after,
            source.epoch_data(EpochId(1)).unwrap().units,
            source.epoch_data(EpochId(2)).unwrap().units,
            source.epoch_data(EpochId(3)),
        ));
    }
    assert_eq!(ends[0].0.unwrap().seqno, 40);
    assert_eq!(ends[0].0.unwrap().hash, [2; 32]);
    assert_eq!(ends[0], ends[1]);
    assert_eq!(ends[0], ends[2]);
}

#[test]
fn the_adapter_asks_for_the_masterchain() {
    struct Recorder(RefCell<Vec<(String, RpcParams)>>);
    impl JsonRpcTransport for &Recorder {
        type Error = NoMethod;

        fn call(&self, method: &str, params: RpcParams) -> Result<RpcReply, Self::Error> {
            self.0.borrow_mut().push((method.to_owned(), params));
            FakeTransport.call(method, RpcParams::Empty)
        }
    }
    let recorder = Recorder(RefCell::new(vec![]));
    let rpc = JsonRpcChainRpc::new(&recorder);
    rpc.head().unwrap();
    rpc.block_meta(42).unwrap();
    rpc.settled_units(41).unwrap();
    let block = |seqno: u64| RpcParams::Block {
        workchain: -1,
        shard: i64::MIN,
        seqno,
    };
    let calls = recorder.0.borrow();
    assert_eq!(calls[0], ("getMasterchainInfo".to_owned(), RpcParams::Empty));
    assert_eq!(calls[1], ("lookupBlock".to_owned(), block(42)));
    assert_eq!(
        calls[2],
        (
            "getBlockHeader".to_owned(),
            RpcParams::BlockWithHash {
                workchain: -1,
                shard: i64::MIN,
                seqno: 42,
                root_hash: "07".repeat(32),
            }
        )
    );
    assert_eq!(calls[3], ("aipowGetSettledWork".to_owned(), block(41)));
}

#[test]
fn unexpected_answers_are_told_apart() {
    type Answer = Result<RpcReply, NoMethod>;
    let failed = || -> Answer { Err(NoMethod) };
    let other = || -> Answer { Ok(RpcReply::Other) };
    assert_eq!(read_head(failed()), Err(JsonRpcChainError::Transport(NoMethod)));
    assert_eq!(
        read_head(other()),
        Err(JsonRpcChainError::Shape("getMasterchainInfo"))
    );
    assert_eq!(
        read_head::<NoMethod>(Ok(RpcReply::MasterchainInfo(WireMasterchainInfo {
            last: WireBlockId {
                seqno: 1,
                root_hash: "nope".into()
            }
        }))),
        Err(JsonRpcChainError::BadHash)
    );
    assert_eq!(read_time(failed()), Err(JsonRpcChainError::Transport(NoMethod)));
    assert_eq!(
        read_time(other()),
        Err(JsonRpcChainError::Shape("getBlockHeader"))
    );
    assert_eq!(read_units(failed()), Err(JsonRpcChainError::Transport(NoMethod)));
    assert_eq!(
        read_units(other()),
        Err(JsonRpcChainError::Shape("aipowGetSettledWork"))
    );
    struct Other;
    impl JsonRpcTransport for Other {
        type Error = NoMethod;

        fn call(&self, _method: &str, _params: RpcParams) -> Result<RpcReply, Self::Error> {
            Ok(RpcReply::Other)
        }
    }
    assert_eq!(
        JsonRpcChainRpc::new(Other).block_meta(1),
        Err(JsonRpcChainError::Shape("lookupBlock"))
    );
}

#[test]
fn hashes_decode_in_either_alphabet() {
    assert_eq!(
        parse_hash("+/v7+/v7+/v7+/v7+/v7+/v7+/v7+/v7+/v7+/v7+/s="),
        Some([251u8; 32])
    );
    assert_eq!(
        parse_hash("-_v7-_v7-_v7-_v7-_v7-_v7-_v7-_v7-_v7-_v7-_s="),
        Some([251u8; 32])
    );
    // Without padding, of another length, or hex that is no hex.
    assert_eq!(
        parse_hash("-_v7-_v7-_v7-_v7-_v7-_v7-_v7-_v7-_v7-_v7-_s"),
        None
    );
    assert_eq!(parse_hash("CQkJ"), None);
    assert_eq!(parse_hash(&"zz".repeat(32)), None);
    assert_eq!(parse_hash(&"Ab".repeat(32)), Some([0xab; 32]));
    assert_eq!(hash_from_decoded(Some(vec![1; 32]), None), Some([1; 32]));
    assert_eq!(
        hash_from_decoded(Some(vec![1; 31]), Some(vec![2; 32])),
        None
    );
    assert_eq!(hash_from_decoded(None, Some(vec![2; 32])), Some([2; 32]));
    assert_eq!(hash_from_decoded(None, None), None);
}

#[test]
fn responses_are_errors_results_or_neither() {
    assert_eq!(response_outcome(None, Some(5u8)), Ok(5));
    assert_eq!(
        response_outcome(Some("no".into()), Some(5u8)),
        Err(HttpRpcError::Server("no".into()))
    );
    assert_eq!(
        response_outcome::<u8>(None, None),
        Err(HttpRpcError::Malformed)
    );
}
