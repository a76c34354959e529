//! The block walker's chain surface over the node's JSON-RPC 2.0 endpoint.
//!
//! Wire mapping status:
//!
//! - `getMasterchainInfo`, `lookupBlock`, `getBlockHeader` follow the
//!   node's existing public method surface and must be verified against
//!   a localnet before phase A sign-off;
//! - `aipowGetSettledWork` is the **pending node-side extension** that
//!   returns settled work units per block. Per the node's JSON-RPC
//!   policy, new capabilities are added as explicit new methods; this
//!   client defines the consuming side of that contract.

use vstd::prelude::*;
use vstd::utf8::encode_utf8;

use crate::aipow::rpc::{BlockMeta, BlockRef, ChainRpc};
use crate::decoding::{base64_standard, base64_url_safe, decode_standard, decode_url_safe};
use crate::hex;
use crate::hex::hex_array;
use crate::types::SettledWorkUnit;

verus! {

/// A block as the node names it.
#[derive(Debug, PartialEq, Eq)]
pub struct WireBlockId {
    pub seqno: u64,
    pub root_hash: String,
}

/// The result of `getMasterchainInfo`.
#[derive(Debug, PartialEq, Eq)]
pub struct WireMasterchainInfo {
    pub last: WireBlockId,
}

/// The result of `lookupBlock`.
#[derive(Debug, PartialEq, Eq)]
pub struct WireLookupBlock {
    pub id: WireBlockId,
}

/// The result of `getBlockHeader`.
#[derive(Debug, PartialEq, Eq)]
pub struct WireBlockHeader {
    pub gen_utime: u64,
}

/// The result of `aipowGetSettledWork`.
#[derive(Debug, PartialEq, Eq)]
pub struct WireSettledWork {
    pub units: Vec<SettledWorkUnit>,
}

/// The parameters of a call.
#[derive(Debug, PartialEq, Eq)]
pub enum RpcParams {
    /// No parameters.
    Empty,
    /// A block by its place on the chain.
    Block { workchain: i32, shard: i64, seqno: u64 },
    /// A block by its place on the chain and its root hash.
    BlockWithHash { workchain: i32, shard: i64, seqno: u64, root_hash: String },
}

/// The result of a call, by the shape it has.
#[derive(Debug, PartialEq, Eq)]
pub enum RpcReply {
    MasterchainInfo(WireMasterchainInfo),
    LookupBlock(WireLookupBlock),
    BlockHeader(WireBlockHeader),
    SettledWork(WireSettledWork),
    /// Some other shape.
    Other,
}

/// JSON-RPC 2.0 transport boundary.
pub trait JsonRpcTransport {
    type Error;

    fn call(&self, method: &str, params: RpcParams) -> Result<RpcReply, Self::Error>;
}

/// Errors from the HTTP JSON-RPC transport.
#[derive(Debug, PartialEq, Eq)]
pub enum HttpRpcError {
    /// The request failed.
    Http(String),
    /// The server answered with an error.
    Server(String),
    /// The response is no JSON-RPC response.
    Malformed,
}

/// What a JSON-RPC response means: its error, where it has one, else its
/// result.
pub fn response_outcome<V>(error: Option<String>, result: Option<V>) -> (r: Result<V, HttpRpcError>)
    ensures
        r == match (error, result) {
            (Some(message), _) => Err::<V, HttpRpcError>(HttpRpcError::Server(message)),
            (None, Some(value)) => Ok::<V, HttpRpcError>(value),
            (None, None) => Err::<V, HttpRpcError>(HttpRpcError::Malformed),
        },
{
    match error {
        Some(message) => Err(HttpRpcError::Server(message)),
        None => match result {
            Some(value) => Ok(value),
            None => Err(HttpRpcError::Malformed),
        },
    }
}

/// Errors from the JSON-RPC chain adapter.
#[derive(Debug, PartialEq, Eq)]
pub enum JsonRpcChainError<E> {
    /// The transport failed.
    Transport(E),
    /// The response to this method has an unexpected shape.
    Shape(&'static str),
    /// The block hash cannot be parsed.
    BadHash,
}

/// The 32 bytes of a decoded hash: what the standard alphabet gives, else
/// what the URL-safe one does, if it is 32 bytes.
pub open spec fn decoded_hash(standard: Option<Seq<u8>>, url_safe: Option<Seq<u8>>) -> Option<
    Seq<u8>,
> {
    let bytes = if standard is Some {
        standard
    } else {
        url_safe
    };
    if bytes is Some && bytes.unwrap().len() == 32 {
        bytes
    } else {
        None
    }
}

/// The hash that a text denotes: in hex where it has 64 bytes, else in
/// base64.
pub open spec fn hash_named(text: Seq<char>) -> Option<Seq<u8>> {
    if encode_utf8(text).len() == 64 {
        hex_array(text, 32)
    } else {
        decoded_hash(base64_standard(text), base64_url_safe(text))
    }
}

/// The view of optional bytes.
pub open spec fn bytes_view(bytes: Option<Vec<u8>>) -> Option<Seq<u8>> {
    match bytes {
        Some(v) => Some(v@),
        None => None,
    }
}

/// Takes the hash out of what the two base64 alphabets gave.
pub fn hash_from_decoded(standard: Option<Vec<u8>>, url_safe: Option<Vec<u8>>) -> (r: Option<
    [u8; 32],
>)
    ensures
        r matches Some(hash) ==> decoded_hash(bytes_view(standard), bytes_view(url_safe)) == Some(
            hash@,
        ),
        r is None ==> decoded_hash(bytes_view(standard), bytes_view(url_safe)) is None,
{
    match standard {
        Some(bytes) => hex::to_array::<32>(&bytes),
        None => match url_safe {
            Some(bytes) => hex::to_array::<32>(&bytes),
            None => None,
        },
    }
}

/// Decode a 32-byte hash given as 64 hex characters or 44 base64
/// characters.
pub fn parse_hash(text: &str) -> (r: Option<[u8; 32]>)
    ensures
        r matches Some(hash) ==> hash_named(text@) == Some(hash@),
        r is None ==> hash_named(text@) is None,
        r is Some ==> encode_utf8(text@).len() == 64 || encode_utf8(text@).len() == 44,
{
    if text.as_bytes().len() == 64 {
        return hex::decode_array::<32>(text);
    }
    let standard: Option<Vec<u8>> = decode_standard(text);
    let url_safe: Option<Vec<u8>> = decode_url_safe(text);
    hash_from_decoded(standard, url_safe)
}

/// The block that an answer names, or what is wrong with its hash.
pub open spec fn block_named<E>(
    id: WireBlockId,
    r: Result<BlockRef, JsonRpcChainError<E>>,
) -> bool {
    match hash_named(id.root_hash@) {
        Some(hash) => r matches Ok(block) && block.seqno == id.seqno && block.hash@ == hash,
        None => r == Err::<BlockRef, JsonRpcChainError<E>>(JsonRpcChainError::BadHash),
    }
}

/// What an answer to `getMasterchainInfo` makes of the head.
pub open spec fn head_from<E>(
    reply: Result<RpcReply, E>,
    r: Result<BlockRef, JsonRpcChainError<E>>,
) -> bool {
    match reply {
        Err(e) => r == Err::<BlockRef, JsonRpcChainError<E>>(JsonRpcChainError::Transport(e)),
        Ok(RpcReply::MasterchainInfo(info)) => block_named(info.last, r),
        Ok(_) => r == Err::<BlockRef, JsonRpcChainError<E>>(
            JsonRpcChainError::Shape("getMasterchainInfo"),
        ),
    }
}

/// What an answer to `lookupBlock` makes of the block.
pub open spec fn lookup_from<E>(
    reply: Result<RpcReply, E>,
    r: Result<BlockRef, JsonRpcChainError<E>>,
) -> bool {
    match reply {
        Err(e) => r == Err::<BlockRef, JsonRpcChainError<E>>(JsonRpcChainError::Transport(e)),
        Ok(RpcReply::LookupBlock(looked)) => block_named(looked.id, r),
        Ok(_) => r == Err::<BlockRef, JsonRpcChainError<E>>(
            JsonRpcChainError::Shape("lookupBlock"),
        ),
    }
}

/// What an answer to `getBlockHeader` makes of the block's time.
pub open spec fn time_from<E>(reply: Result<RpcReply, E>) -> Result<u64, JsonRpcChainError<E>> {
    match reply {
        Err(e) => Err(JsonRpcChainError::Transport(e)),
        Ok(RpcReply::BlockHeader(header)) => Ok(header.gen_utime),
        Ok(_) => Err(JsonRpcChainError::Shape("getBlockHeader")),
    }
}

/// What an answer to `aipowGetSettledWork` makes of the block's units.
pub open spec fn units_from<E>(reply: Result<RpcReply, E>) -> Result<
    Vec<SettledWorkUnit>,
    JsonRpcChainError<E>,
> {
    match reply {
        Err(e) => Err(JsonRpcChainError::Transport(e)),
        Ok(RpcReply::SettledWork(work)) => Ok(work.units),
        Ok(_) => Err(JsonRpcChainError::Shape("aipowGetSettledWork")),
    }
}

fn to_block<E>(id: &WireBlockId) -> (r: Result<BlockRef, JsonRpcChainError<E>>)
    ensures
        block_named(*id, r),
{
    match parse_hash(id.root_hash.as_str()) {
        Some(hash) => Ok(BlockRef { seqno: id.seqno, hash }),
        None => Err(JsonRpcChainError::BadHash),
    }
}

/// Reads the head out of an answer to `getMasterchainInfo`.
pub fn read_head<E>(reply: Result<RpcReply, E>) -> (r: Result<BlockRef, JsonRpcChainError<E>>)
    ensures
        head_from(reply, r),
{
    match reply {
        Err(e) => Err(JsonRpcChainError::Transport(e)),
        Ok(RpcReply::MasterchainInfo(info)) => to_block(&info.last),
        Ok(_) => Err(JsonRpcChainError::Shape("getMasterchainInfo")),
    }
}

/// Reads the time out of an answer to `getBlockHeader`.
pub fn read_time<E>(reply: Result<RpcReply, E>) -> (r: Result<u64, JsonRpcChainError<E>>)
    ensures
        r == time_from(reply),
{
    match reply {
        Err(e) => Err(JsonRpcChainError::Transport(e)),
        Ok(RpcReply::BlockHeader(header)) => Ok(header.gen_utime),
        Ok(_) => Err(JsonRpcChainError::Shape("getBlockHeader")),
    }
}

/// Reads the units out of an answer to `aipowGetSettledWork`.
pub fn read_units<E>(reply: Result<RpcReply, E>) -> (r: Result<
    Vec<SettledWorkUnit>,
    JsonRpcChainError<E>,
>)
    ensures
        r == units_from(reply),
{
    match reply {
        Err(e) => Err(JsonRpcChainError::Transport(e)),
        Ok(RpcReply::SettledWork(work)) => Ok(work.units),
        Ok(_) => Err(JsonRpcChainError::Shape("aipowGetSettledWork")),
    }
}

/// [`ChainRpc`] over a JSON-RPC transport.
#[derive(Debug, Clone)]
pub struct JsonRpcChainRpc<T> {
    /// The transport that carries the calls.
    pub transport: T,
    /// Masterchain workchain id used in lookups.
    pub workchain: i32,
    /// Masterchain shard id used in lookups.
    pub shard: i64,
}

impl<T> JsonRpcChainRpc<T> {
    /// The adapter over a transport, for the masterchain.
    pub fn new(transport: T) -> (r: Self)
        ensures
            r.transport == transport,
            r.workchain == -1,
            r.shard == i64::MIN,
    {
        JsonRpcChainRpc { transport, workchain: -1, shard: i64::MIN }
    }

    /// The parameters that name a block.
    pub open spec fn place(&self, seqno: u64) -> RpcParams {
        RpcParams::Block { workchain: self.workchain, shard: self.shard, seqno }
    }
}

impl<T: JsonRpcTransport> JsonRpcChainRpc<T> {
    /// The block that an answer names.
    pub fn block_ref(id: &WireBlockId) -> (r: Result<BlockRef, JsonRpcChainError<T::Error>>)
        ensures
            block_named(*id, r),
    {
        to_block(id)
    }

    /// The transport gave this answer to a call.
    pub open spec fn answered(
        &self,
        method: &str,
        params: RpcParams,
        reply: Result<RpcReply, T::Error>,
    ) -> bool {
        call_ensures(T::call, (&self.transport, method, params), reply)
    }

    /// The parameters ask for the header of the block that was looked up.
    pub open spec fn asks_header(
        &self,
        seqno: u64,
        root_hash: Seq<char>,
        params: RpcParams,
    ) -> bool {
        params matches RpcParams::BlockWithHash { workchain, shard, seqno: at, root_hash: hash }
            && workchain == self.workchain && shard == self.shard && at == seqno && hash@
            == root_hash
    }
}

impl<T: JsonRpcTransport> ChainRpc for JsonRpcChainRpc<T> {
    type Error = JsonRpcChainError<T::Error>;

    fn head(&self) -> (r: Result<BlockRef, JsonRpcChainError<T::Error>>)
        ensures
            exists|reply: Result<RpcReply, T::Error>| #[trigger]
                self.answered("getMasterchainInfo", RpcParams::Empty, reply) && head_from(reply, r),
    {
        let reply: Result<RpcReply, T::Error> = self.transport.call(
            "getMasterchainInfo",
            RpcParams::Empty,
        );
        assert(self.answered("getMasterchainInfo", RpcParams::Empty, reply));
        read_head(reply)
    }

    fn block_meta(&self, seqno: u64) -> (r: Result<BlockMeta, JsonRpcChainError<T::Error>>)
        ensures
            exists|reply: Result<RpcReply, T::Error>, block: Result<
                BlockRef,
                JsonRpcChainError<T::Error>,
            >|
                {
                    &&& #[trigger] self.answered("lookupBlock", self.place(seqno), reply)
                    &&& #[trigger] lookup_from(reply, block)
                    &&& block matches Err(e) ==> r == Err::<
                        BlockMeta,
                        JsonRpcChainError<T::Error>,
                    >(e)
                    &&& block matches Ok(found) ==> exists|
                        params: RpcParams,
                        header: Result<RpcReply, T::Error>,
                    |
                        {
                            &&& #[trigger] self.answered("getBlockHeader", params, header)
                            &&& self.asks_header(seqno, reply->Ok_0->LookupBlock_0.id.root_hash@, params)
                            &&& r == match time_from(header) {
                                Err(e) => Err::<BlockMeta, JsonRpcChainError<T::Error>>(e),
                                Ok(unix_time) => Ok::<BlockMeta, JsonRpcChainError<T::Error>>(
                                    BlockMeta { block: found, unix_time },
                                ),
                            }
                        }
                },
    {
        let reply: Result<RpcReply, T::Error> = self.transport.call(
            "lookupBlock",
            RpcParams::Block { workchain: self.workchain, shard: self.shard, seqno },
        );
        assert(self.answered("lookupBlock", self.place(seqno), reply));
        let ghost said = reply;
        let looked: WireLookupBlock = match reply {
            Err(e) => {
                proof {
                    let none: Result<BlockRef, JsonRpcChainError<T::Error>> = Err(
                        JsonRpcChainError::Transport(e),
                    );
                    assert(lookup_from(said, none));
                }
                return Err(JsonRpcChainError::Transport(e));
            },
            Ok(RpcReply::LookupBlock(looked)) => looked,
            Ok(_) => {
                proof {
                    let none: Result<BlockRef, JsonRpcChainError<T::Error>> = Err(
                        JsonRpcChainError::Shape("lookupBlock"),
                    );
                    assert(lookup_from(said, none));
                }
                return Err(JsonRpcChainError::Shape("lookupBlock"));
            },
        };
        let named: Result<BlockRef, JsonRpcChainError<T::Error>> = Self::block_ref(&looked.id);
        assert(lookup_from(said, named));
        let block: BlockRef = match named {
            Ok(block) => block,
            Err(e) => {
                return Err(e);
            },
        };
        let ghost hash = looked.id.root_hash@;
        let params = RpcParams::BlockWithHash {
            workchain: self.workchain,
            shard: self.shard,
            seqno,
            root_hash: looked.id.root_hash,
        };
        let ghost asked = params;
        let header: Result<RpcReply, T::Error> = self.transport.call("getBlockHeader", params);
        assert(self.answered("getBlockHeader", asked, header));
        assert(self.asks_header(seqno, hash, asked));
        match read_time(header) {
            Ok(unix_time) => Ok(BlockMeta { block, unix_time }),
            Err(e) => Err(e),
        }
    }

    fn settled_units(&self, seqno: u64) -> (r: Result<
        Vec<SettledWorkUnit>,
        JsonRpcChainError<T::Error>,
    >)
        ensures
            exists|reply: Result<RpcReply, T::Error>| #[trigger]
                self.answered("aipowGetSettledWork", self.place(seqno), reply) && r == units_from(
                    reply,
                ),
    {
        let reply: Result<RpcReply, T::Error> = self.transport.call(
            "aipowGetSettledWork",
            RpcParams::Block { workchain: self.workchain, shard: self.shard, seqno },
        );
        assert(self.answered("aipowGetSettledWork", self.place(seqno), reply));
        read_units(reply)
    }
}

/// A hex hash is read back as the bytes it was written from.
pub proof fn hex_hash_round_trip(hash: Seq<u8>)
    requires
        hash.len() == 32,
    ensures
        hash_named(crate::hex::hex_text(hash)) == Some(hash),
{
    let text = crate::hex::hex_text(hash);
    crate::hex::decode_encode(hash);
    assert(vstd::utf8::is_ascii_chars(text));
    vstd::utf8::is_ascii_chars_encode_utf8(text);
}

} // verus!
