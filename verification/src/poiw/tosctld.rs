//! Settled-work ingestion from a `tosctld` query API.
//!
//! [`TosctldSource`] consumes the interim phase-A data plane (the
//! authenticated `GET /poiw/settled-work` endpoint served by the node
//! repository's `tosctld`) and maps its rows onto [`SettledWorkUnit`]s
//! under the published interim mapping: the settled amount is both the
//! work valuation and its price cap, the evidence string is taken as
//! published (`Attested` for attestor-keyed settlements, `Observed`
//! otherwise), and all rows share a single default capability class
//! until the settlement-receipt schema lands.
//!
//! Epoch bucketing uses the row's `observed_at` timestamp. This is an
//! interim choice: the endpoint reports the observing block's seqno but
//! not its time, and shadow scoring only ever scores past epochs. Rows
//! that cannot be parsed are a hard error, never silently skipped,
//! whichever epoch they belong to: two implementations must ingest
//! identical unit sets or fail identically.

use vstd::prelude::*;

use crate::hex;
use crate::hex::{decode_encode, hex_array, hex_text, hex_value};
use crate::poiw::indexer::{ChainSource, EpochData};
use crate::source::{epoch_at, epoch_of_time};
use crate::sums::{collect, collect_error, collect_next, collect_prefix_error, collect_values};
use crate::text::{chars_of, decimal, decimal_string, same_text};
use crate::types::{
    unit_views, CapabilityClass, EpochId, EvidenceLevel, IdentityId, ReliabilityInputs,
    SettledWorkUnit, WorkUnitView,
};

verus! {

/// One row of the settled-work endpoint.
#[derive(Debug, PartialEq, Eq)]
pub struct WireEvent {
    pub address: String,
    pub request_id: String,
    pub earner: String,
    pub payer: String,
    pub amount: u64,
    pub evidence: String,
    pub observed_at: u64,
}

impl Clone for WireEvent {
    fn clone(&self) -> (r: Self)
        ensures
            r == *self,
    {
        WireEvent {
            address: self.address.clone(),
            request_id: self.request_id.clone(),
            earner: self.earner.clone(),
            payer: self.payer.clone(),
            amount: self.amount,
            evidence: self.evidence.clone(),
            observed_at: self.observed_at,
        }
    }
}

/// One page of the settled-work endpoint.
#[derive(Debug, PartialEq, Eq)]
pub struct WireSettledWork {
    pub total: usize,
    pub result: Vec<WireEvent>,
}

/// What the endpoint answered: a page, or something of another shape.
#[derive(Debug, PartialEq, Eq)]
pub enum SettledWorkReply {
    Page(WireSettledWork),
    Malformed,
}

/// Transport boundary for the query API: fetch one URL, return what it
/// answered.
pub trait HttpGetJson {
    type Error;

    fn get_json(&self, url: &str) -> Result<SettledWorkReply, Self::Error>;
}

/// Errors from the tosctld source.
#[derive(Debug, PartialEq, Eq)]
pub enum TosctldError<E> {
    /// The transport failed.
    Transport(E),
    /// The response has an unexpected shape.
    Shape(&'static str),
    /// A settled-work row cannot be parsed.
    BadRow(String),
    /// Pagination did not converge.
    Pagination,
}

/// Rows asked for per page.
pub const PAGE_LIMIT: usize = 1_000;

/// Pages after which pagination is given up.
pub const MAX_PAGES: usize = 10_000;

/// Where the part after the last colon starts.
pub open spec fn last_part_start(text: Seq<char>) -> int
    decreases text.len(),
{
    if text.len() == 0 {
        0
    } else if text.last() == ':' {
        text.len() as int
    } else {
        last_part_start(text.drop_last())
    }
}

/// The identity that a `workchain:hex64` address names.
pub open spec fn identity_named(address: Seq<char>) -> Option<Seq<u8>> {
    hex_array(address.skip(last_part_start(address)), 32)
}

/// Parse a `workchain:hex64` TOS address into the 32-byte identity.
pub fn parse_identity(address: &str) -> (r: Option<IdentityId>)
    ensures
        r matches Some(id) ==> identity_named(address@) == Some(id.0@),
        r is None ==> identity_named(address@) is None,
{
    let chars: Vec<char> = chars_of(address);
    let mut start: usize = chars.len();
    assert(chars@.take(start as int) =~= address@);
    while start > 0 && chars[start - 1] != ':'
        invariant
            start <= chars@.len(),
            chars@ == address@,
            last_part_start(chars@.take(start as int)) == last_part_start(address@),
        decreases start,
    {
        assert(chars@.take(start as int).drop_last() =~= chars@.take(start - 1));
        start = start - 1;
    }
    assert(last_part_start(chars@.take(start as int)) == start);
    match hex::decode_chars(&chars, start) {
        Some(bytes) => match hex::to_array::<32>(&bytes) {
            Some(id) => Some(IdentityId(id)),
            None => None,
        },
        None => None,
    }
}

/// The evidence level of a name.
pub open spec fn evidence_named(text: Seq<char>) -> Option<EvidenceLevel> {
    if text == "Declared"@ {
        Some(EvidenceLevel::Declared)
    } else if text == "Observed"@ {
        Some(EvidenceLevel::Observed)
    } else if text == "Benchmarked"@ {
        Some(EvidenceLevel::Benchmarked)
    } else if text == "Audited"@ {
        Some(EvidenceLevel::Audited)
    } else if text == "Attested"@ {
        Some(EvidenceLevel::Attested)
    } else if text == "Replicated"@ {
        Some(EvidenceLevel::Replicated)
    } else {
        None
    }
}

/// Parse an evidence-level string. All six ladder levels are accepted
/// for forward compatibility with the full receipt schema.
pub fn parse_evidence(text: &str) -> (r: Option<EvidenceLevel>)
    ensures
        r == evidence_named(text@),
{
    if same_text(text, "Declared") {
        Some(EvidenceLevel::Declared)
    } else if same_text(text, "Observed") {
        Some(EvidenceLevel::Observed)
    } else if same_text(text, "Benchmarked") {
        Some(EvidenceLevel::Benchmarked)
    } else if same_text(text, "Audited") {
        Some(EvidenceLevel::Audited)
    } else if same_text(text, "Attested") {
        Some(EvidenceLevel::Attested)
    } else if same_text(text, "Replicated") {
        Some(EvidenceLevel::Replicated)
    } else {
        None
    }
}

/// The unit that a row stands for, or what is wrong with the row.
pub open spec fn unit_of(event: WireEvent) -> Result<WorkUnitView, Seq<char>> {
    match (
        identity_named(event.earner@),
        identity_named(event.payer@),
        evidence_named(event.evidence@),
    ) {
        (None, _, _) => Err("earner "@ + event.earner@),
        (Some(_), None, _) => Err("payer "@ + event.payer@),
        (Some(_), Some(_), None) => Err("evidence "@ + event.evidence@),
        (Some(earner), Some(payer), Some(evidence)) => Ok(
            WorkUnitView {
                identity: id_of(earner),
                payer: id_of(payer),
                capability: "default"@,
                rate_card_value: event.amount,
                settled_price: event.amount,
                evidence,
                is_challenge_task: false,
                payer_related: false,
            },
        ),
    }
}

/// The identity with these bytes.
pub open spec fn id_of(bytes: Seq<u8>) -> IdentityId {
    choose|id: IdentityId| id.0@ == bytes
}

/// An identity is the one with its bytes.
pub proof fn id_of_bytes(id: IdentityId)
    ensures
        id_of(id.0@) == id,
{
    let other = id_of(id.0@);
    assert(other.0@ == id.0@);
    assert(other.0 =~= id.0);
}

/// An identity whose first `n` bytes are these.
proof fn starting_with(bytes: Seq<u8>, n: nat) -> (id: IdentityId)
    requires
        bytes.len() == 32,
        n <= 32,
    ensures
        forall|i: int| 0 <= i < n ==> #[trigger] id.0@[i] == bytes[i],
    decreases n,
{
    if n == 0 {
        arbitrary()
    } else {
        let before = starting_with(bytes, (n - 1) as nat);
        let array = vstd::array::spec_array_update(before.0, n - 1, bytes[n - 1]);
        IdentityId(array)
    }
}

/// The identity with some bytes has those bytes.
pub proof fn bytes_of_id(bytes: Seq<u8>)
    requires
        bytes.len() == 32,
    ensures
        id_of(bytes).0@ == bytes,
{
    let id = starting_with(bytes, 32);
    assert(id.0@ =~= bytes);
}

/// The identities of a unit have the bytes that its row's addresses name.
pub proof fn unit_has_named_identities(event: WireEvent)
    requires
        unit_of(event) is Ok,
    ensures
        identity_named(event.earner@) == Some(unit_of(event)->Ok_0.identity.0@),
        identity_named(event.payer@) == Some(unit_of(event)->Ok_0.payer.0@),
{
    bytes_of_id(identity_named(event.earner@).unwrap());
    bytes_of_id(identity_named(event.payer@).unwrap());
}

fn bad_row(label: &str, text: &String) -> (r: String)
    ensures
        r@ == label@ + text@,
{
    let mut message: String = label.to_owned();
    message.append(text.as_str());
    message
}

/// Maps a row onto a work unit, or says what is wrong with it.
pub fn row_to_unit(event: &WireEvent) -> (r: Result<SettledWorkUnit, String>)
    ensures
        r matches Ok(unit) ==> unit_of(*event) == Ok::<WorkUnitView, Seq<char>>(unit@),
        r matches Err(message) ==> unit_of(*event) == Err::<WorkUnitView, Seq<char>>(message@),
{
    let identity: IdentityId = match parse_identity(event.earner.as_str()) {
        Some(id) => id,
        None => {
            return Err(bad_row("earner ", &event.earner));
        },
    };
    let payer: IdentityId = match parse_identity(event.payer.as_str()) {
        Some(id) => id,
        None => {
            return Err(bad_row("payer ", &event.payer));
        },
    };
    let evidence: EvidenceLevel = match parse_evidence(event.evidence.as_str()) {
        Some(evidence) => evidence,
        None => {
            return Err(bad_row("evidence ", &event.evidence));
        },
    };
    proof {
        id_of_bytes(identity);
        id_of_bytes(payer);
    }
    Ok(
        SettledWorkUnit {
            identity,
            payer,
            capability: CapabilityClass("default".to_owned()),
            rate_card_value: event.amount,
            settled_price: event.amount,
            evidence,
            is_challenge_task: false,
            payer_related: false,
        },
    )
}

/// The rows observed in an epoch, in order.
pub open spec fn epoch_rows(events: Seq<WireEvent>, epoch_seconds: u64, epoch: u64) -> Seq<
    WireEvent,
>
    decreases events.len(),
{
    if events.len() == 0 {
        Seq::empty()
    } else {
        let before = epoch_rows(events.drop_last(), epoch_seconds, epoch);
        if epoch_at(events.last().observed_at, epoch_seconds) == epoch {
            before.push(events.last())
        } else {
            before
        }
    }
}

/// The units of an epoch, or what is wrong with the first bad row of any
/// epoch.
pub open spec fn epoch_units(events: Seq<WireEvent>, epoch_seconds: u64, epoch: u64) -> Result<
    Seq<WorkUnitView>,
    Seq<char>,
> {
    match collect(events.map_values(|e: WireEvent| unit_of(e))) {
        Err(message) => Err(message),
        Ok(_) => collect(
            epoch_rows(events, epoch_seconds, epoch).map_values(|e: WireEvent| unit_of(e)),
        ),
    }
}

/// Maps the rows observed in an epoch onto work units. A row that cannot be
/// parsed is an error, never a skip, whichever epoch it belongs to.
pub fn units_of_epoch(events: &Vec<WireEvent>, epoch_seconds: u64, epoch: EpochId) -> (r: Result<
    Vec<SettledWorkUnit>,
    String,
>)
    ensures
        r matches Ok(units) ==> epoch_units(events@, epoch_seconds, epoch.0) == Ok::<
            Seq<WorkUnitView>,
            Seq<char>,
        >(unit_views(units@)),
        r matches Err(message) ==> epoch_units(events@, epoch_seconds, epoch.0) == Err::<
            Seq<WorkUnitView>,
            Seq<char>,
        >(message@),
{
    let ghost f = |e: WireEvent| unit_of(e);
    let ghost outcomes = events@.map_values(f);
    let mut units: Vec<SettledWorkUnit> = Vec::new();
    let mut i: usize = 0;
    assert(events@.take(0) =~= Seq::empty());
    assert(outcomes.take(0) =~= Seq::empty());
    assert(epoch_rows(events@.take(0), epoch_seconds, epoch.0).map_values(f) =~= Seq::empty());
    assert(unit_views(units@) =~= Seq::empty());
    while i < events.len()
        invariant
            i <= events@.len(),
            f == (|e: WireEvent| unit_of(e)),
            outcomes == events@.map_values(f),
            collect(outcomes.take(i as int)) is Ok,
            collect(epoch_rows(events@.take(i as int), epoch_seconds, epoch.0).map_values(f))
                == Ok::<Seq<WorkUnitView>, Seq<char>>(unit_views(units@)),
        decreases events@.len() - i,
    {
        let event: &WireEvent = &events[i];
        let ghost before = epoch_rows(events@.take(i as int), epoch_seconds, epoch.0);
        let ghost after = epoch_rows(events@.take(i + 1), epoch_seconds, epoch.0);
        assert(events@.take(i + 1).drop_last() =~= events@.take(i as int));
        proof {
            collect_next(outcomes, i as int);
        }
        let unit: SettledWorkUnit = match row_to_unit(event) {
            Ok(unit) => unit,
            Err(message) => {
                proof {
                    collect_prefix_error(outcomes, i + 1);
                }
                return Err(message);
            },
        };
        if epoch_of_time(event.observed_at, epoch_seconds) == epoch.0 {
            assert(after.map_values(f).drop_last() =~= before.map_values(f));
            assert(after.map_values(f).last() == unit_of(*event));
            let ghost so_far = units@;
            let ghost said = unit@;
            units.push(unit);
            assert(unit_views(units@) =~= unit_views(so_far).push(said));
        }
        i = i + 1;
    }
    assert(events@.take(i as int) =~= events@);
    assert(outcomes.take(i as int) =~= outcomes);
    Ok(units)
}

/// The rows of an epoch are among the rows.
proof fn epoch_rows_are_rows(events: Seq<WireEvent>, epoch_seconds: u64, epoch: u64, i: int)
    requires
        0 <= i < epoch_rows(events, epoch_seconds, epoch).len(),
    ensures
        events.contains(epoch_rows(events, epoch_seconds, epoch)[i]),
    decreases events.len(),
{
    let rest = events.drop_last();
    if i < epoch_rows(rest, epoch_seconds, epoch).len() {
        epoch_rows_are_rows(rest, epoch_seconds, epoch, i);
        let row = epoch_rows(rest, epoch_seconds, epoch)[i];
        let j = rest.index_of(row);
        assert(events[j] == row);
    } else {
        assert(events[events.len() - 1] == events.last());
    }
}

/// Some row cannot be parsed.
pub open spec fn has_bad_row(events: Seq<WireEvent>) -> bool {
    exists|i: int| 0 <= i < events.len() && unit_of(#[trigger] events[i]) is Err
}

/// Ingestion fails exactly where some row cannot be parsed, whatever epoch
/// that row and the epoch asked for are.
pub proof fn bad_rows_are_never_skipped(events: Seq<WireEvent>, epoch_seconds: u64, epoch: u64)
    ensures
        epoch_units(events, epoch_seconds, epoch) is Err <==> has_bad_row(events),
{
    let f = |e: WireEvent| unit_of(e);
    let outcomes = events.map_values(f);
    if collect(outcomes) is Err {
        let i = collect_error(outcomes);
        assert(unit_of(events[i]) is Err);
    } else {
        collect_values(outcomes);
        assert forall|i: int| 0 <= i < events.len() implies unit_of(#[trigger] events[i]) is Ok by {
            assert(outcomes[i] is Ok);
        }
        let rows = epoch_rows(events, epoch_seconds, epoch);
        if collect(rows.map_values(f)) is Err {
            let i = collect_error(rows.map_values(f));
            epoch_rows_are_rows(events, epoch_seconds, epoch, i);
            let j = events.index_of(rows[i]);
            assert(unit_of(events[j]) is Ok);
        }
    }
}

/// Where ingestion fails, it fails alike for every epoch and epoch length.
pub proof fn bad_rows_fail_alike(
    events: Seq<WireEvent>,
    seconds: u64,
    epoch: u64,
    other_seconds: u64,
    other_epoch: u64,
)
    requires
        epoch_units(events, seconds, epoch) is Err,
    ensures
        epoch_units(events, other_seconds, other_epoch) == epoch_units(events, seconds, epoch),
{
    bad_rows_are_never_skipped(events, seconds, epoch);
    let f = |e: WireEvent| unit_of(e);
    let outcomes = events.map_values(f);
    if collect(outcomes) is Ok {
        collect_values(outcomes);
        let i = choose|i: int| 0 <= i < events.len() && unit_of(#[trigger] events[i]) is Err;
        assert(outcomes[i] is Ok);
    }
}

/// The URL of the page at an offset.
pub open spec fn page_url(base_url: Seq<char>, offset: nat) -> Seq<char> {
    base_url + "/poiw/settled-work?offset="@ + decimal(offset) + "&limit="@ + decimal(
        PAGE_LIMIT as nat,
    )
}

/// The URL of the page at an offset.
pub fn url_at(base_url: &String, offset: usize) -> (r: String)
    ensures
        r@ == page_url(base_url@, offset as nat),
{
    let mut url: String = base_url.clone();
    url.append("/poiw/settled-work?offset=");
    url.append(decimal_string(offset as u64).as_str());
    url.append("&limit=");
    url.append(decimal_string(PAGE_LIMIT as u64).as_str());
    url
}

/// How far a walk over the pages has come.
pub enum Walk<E> {
    /// These rows so far, and more to ask for.
    Going(Seq<WireEvent>),
    /// All rows.
    Done(Seq<WireEvent>),
    /// It failed.
    Failed(TosctldError<E>),
}

/// A walk after one more answer.
pub open spec fn after_reply<E>(rows: Seq<WireEvent>, reply: Result<SettledWorkReply, E>) -> Walk<
    E,
> {
    match reply {
        Err(e) => Walk::Failed(TosctldError::Transport(e)),
        Ok(SettledWorkReply::Malformed) => Walk::Failed(
            TosctldError::Shape("settled-work response"),
        ),
        Ok(SettledWorkReply::Page(page)) => {
            let all = rows + page.result@;
            if all.len() >= page.total || page.result@.len() == 0 {
                Walk::Done(all)
            } else {
                Walk::Going(all)
            }
        },
    }
}

/// The walk that a sequence of answers makes.
pub open spec fn walk<E>(replies: Seq<Result<SettledWorkReply, E>>) -> Walk<E>
    decreases replies.len(),
{
    if replies.len() == 0 {
        Walk::Going(Seq::empty())
    } else {
        match walk(replies.drop_last()) {
            Walk::Going(rows) => after_reply(rows, replies.last()),
            ended => ended,
        }
    }
}

/// Takes in one page: whether it was the last.
pub fn absorb_page(rows: &mut Vec<WireEvent>, page: WireSettledWork) -> (r: bool)
    ensures
        final(rows)@ == old(rows)@ + page.result@,
        r == (final(rows)@.len() >= page.total || page.result@.len() == 0),
{
    let received: usize = page.result.len();
    let total: usize = page.total;
    let mut result: Vec<WireEvent> = page.result;
    rows.append(&mut result);
    rows.len() >= total || received == 0
}

/// A [`ChainSource`] over a `tosctld` `/poiw/settled-work` endpoint.
#[derive(Debug, Clone)]
pub struct TosctldSource<G> {
    getter: G,
    base_url: String,
    epoch_seconds: u64,
}

impl<G: HttpGetJson> TosctldSource<G> {
    /// The transport.
    pub closed spec fn getter(&self) -> G {
        self.getter
    }

    /// The API root.
    pub closed spec fn base(&self) -> Seq<char> {
        self.base_url@
    }

    /// The epoch length.
    pub closed spec fn seconds(&self) -> u64 {
        self.epoch_seconds
    }

    /// `base_url` is the tosctld HTTP API root, without a trailing
    /// slash (for example `http://127.0.0.1:8080`).
    pub fn new(getter: G, base_url: String, epoch_seconds: u64) -> (r: Self)
        ensures
            r.getter() == getter,
            r.base() == base_url@,
            r.seconds() == epoch_seconds,
    {
        TosctldSource { getter, base_url, epoch_seconds }
    }

    /// Each answer is one that the transport gave for the page at the offset
    /// reached before it.
    pub open spec fn answered(&self, replies: Seq<Result<SettledWorkReply, G::Error>>) -> bool {
        forall|i: int|
            0 <= i < replies.len() ==> self.answered_at(#[trigger] replies.take(i), replies[i])
    }

    /// The transport gave this answer for the page that comes after the
    /// earlier ones.
    pub open spec fn answered_at(
        &self,
        earlier: Seq<Result<SettledWorkReply, G::Error>>,
        reply: Result<SettledWorkReply, G::Error>,
    ) -> bool {
        &&& walk(earlier) is Going
        &&& exists|url: &str|
            url@ == page_url(self.base(), walk(earlier)->Going_0.len()) && #[trigger] call_ensures(
                G::get_json,
                (&self.getter(), url),
                reply,
            )
    }

    /// Asks for page after page until all rows are there.
    pub fn fetch_all(&self) -> (r: Result<Vec<WireEvent>, TosctldError<G::Error>>)
        ensures
            exists|replies: Seq<Result<SettledWorkReply, G::Error>>|
                {
                    &&& #[trigger] self.answered(replies)
                    &&& replies.len() <= MAX_PAGES
                    &&& r matches Ok(rows) ==> walk(replies) == Walk::<G::Error>::Done(rows@)
                    &&& r matches Err(e) ==> walk(replies) == Walk::<G::Error>::Failed(e) || (e
                        == TosctldError::<G::Error>::Pagination && replies.len() == MAX_PAGES
                        && walk(replies) is Going)
                },
    {
        let mut rows: Vec<WireEvent> = Vec::new();
        let ghost mut replies = Seq::<Result<SettledWorkReply, G::Error>>::empty();
        let mut page: usize = 0;
        while page < MAX_PAGES
            invariant
                page <= MAX_PAGES,
                replies.len() == page,
                walk(replies) == Walk::<G::Error>::Going(rows@),
                self.answered(replies),
            decreases MAX_PAGES - page,
        {
            let url: String = url_at(&self.base_url, rows.len());
            let reply: Result<SettledWorkReply, G::Error> = self.getter.get_json(url.as_str());
            proof {
                let more = replies.push(reply);
                assert(more.drop_last() =~= replies);
                assert(self.answered_at(replies, reply));
                assert forall|i: int| 0 <= i < more.len() implies self.answered_at(
                    #[trigger] more.take(i),
                    more[i],
                ) by {
                    if i < replies.len() {
                        assert(more.take(i) =~= replies.take(i));
                    } else {
                        assert(more.take(i) =~= replies);
                    }
                }
                replies = more;
                assert(self.answered(replies));
            }
            match reply {
                Err(e) => {
                    return Err(TosctldError::Transport(e));
                },
                Ok(SettledWorkReply::Malformed) => {
                    return Err(TosctldError::Shape("settled-work response"));
                },
                Ok(SettledWorkReply::Page(received)) => {
                    if absorb_page(&mut rows, received) {
                        return Ok(rows);
                    }
                },
            }
            page = page + 1;
        }
        Err(TosctldError::Pagination)
    }

    /// Maps a row onto a work unit.
    pub fn to_unit(event: &WireEvent) -> (r: Result<SettledWorkUnit, TosctldError<G::Error>>)
        ensures
            r matches Ok(unit) ==> unit_of(*event) == Ok::<WorkUnitView, Seq<char>>(unit@),
            r matches Err(e) ==> e matches TosctldError::BadRow(message) && unit_of(*event)
                == Err::<WorkUnitView, Seq<char>>(message@),
    {
        match row_to_unit(event) {
            Ok(unit) => Ok(unit),
            Err(message) => Err(TosctldError::BadRow(message)),
        }
    }
}

impl<G: HttpGetJson> ChainSource for TosctldSource<G> {
    type Error = TosctldError<G::Error>;

    fn epoch_data(&self, epoch: EpochId) -> (r: Result<EpochData, TosctldError<G::Error>>)
        ensures
            exists|replies: Seq<Result<SettledWorkReply, G::Error>>|
                {
                    &&& #[trigger] self.answered(replies)
                    &&& replies.len() <= MAX_PAGES
                    &&& match walk(replies) {
                        Walk::Done(rows) => match epoch_units(rows, self.seconds(), epoch.0) {
                            Ok(units) => r matches Ok(data) && unit_views(data.units@) == units
                                && data.reliability@ == Seq::<
                                (IdentityId, ReliabilityInputs),
                            >::empty(),
                            Err(message) => r matches Err(TosctldError::BadRow(text)) && text@
                                == message,
                        },
                        Walk::Failed(e) => r == Err::<EpochData, TosctldError<G::Error>>(e),
                        Walk::Going(_) => r == Err::<EpochData, TosctldError<G::Error>>(
                            TosctldError::Pagination,
                        ) && replies.len() == MAX_PAGES,
                    }
                },
    {
        let rows: Vec<WireEvent> = match self.fetch_all() {
            Ok(rows) => rows,
            Err(e) => {
                return Err(e);
            },
        };
        match units_of_epoch(&rows, self.epoch_seconds, epoch) {
            Ok(units) => Ok(EpochData { units, reliability: Vec::new() }),
            Err(message) => Err(TosctldError::BadRow(message)),
        }
    }
}

/// An address is read back as the identity it was written from, whatever
/// stands before its last colon.
pub proof fn address_round_trip(workchain: Seq<char>, identity: IdentityId)
    ensures
        identity_named(workchain + seq![':'] + hex_text(identity.0@)) == Some(identity.0@),
{
    let digits = hex_text(identity.0@);
    let prefix = workchain + seq![':'];
    decode_encode(identity.0@);
    assert forall|i: int| 0 <= i < digits.len() implies #[trigger] digits[i] != ':' by {
        assert(hex_value(digits[i]) is Some);
    }
    last_part_after(prefix, digits);
    assert((prefix + digits).skip(prefix.len() as int) =~= digits);
}

/// What follows a colon and holds none is the last part.
proof fn last_part_after(prefix: Seq<char>, part: Seq<char>)
    requires
        prefix.len() > 0,
        prefix.last() == ':',
        forall|i: int| 0 <= i < part.len() ==> #[trigger] part[i] != ':',
    ensures
        last_part_start(prefix + part) == prefix.len(),
    decreases part.len(),
{
    let text = prefix + part;
    if part.len() == 0 {
        assert(text =~= prefix);
    } else {
        assert(text.last() == part[part.len() - 1]);
        assert(text.drop_last() =~= prefix + part.drop_last());
        assert forall|i: int| 0 <= i < part.len() - 1 implies #[trigger] part.drop_last()[i]
            != ':' by {
            assert(part[i] != ':');
        }
        last_part_after(prefix, part.drop_last());
    }
}

/// The rows of all pages, in order.
pub open spec fn page_rows<E>(replies: Seq<Result<SettledWorkReply, E>>) -> Seq<WireEvent>
    decreases replies.len(),
{
    if replies.len() == 0 {
        Seq::empty()
    } else {
        let before = page_rows(replies.drop_last());
        match replies.last() {
            Ok(SettledWorkReply::Page(page)) => before + page.result@,
            _ => before,
        }
    }
}

/// A walk loses no row and repeats none: what it ends with is what the pages
/// held, in order, where it asked for nothing after it had ended.
pub proof fn walk_keeps_every_row<E>(replies: Seq<Result<SettledWorkReply, E>>)
    requires
        replies.len() > 0 ==> walk(replies.drop_last()) is Going,
    ensures
        walk(replies) matches Walk::Going(rows) ==> rows == page_rows(replies),
        walk(replies) matches Walk::Done(rows) ==> rows == page_rows(replies),
    decreases replies.len(),
{
    if replies.len() > 0 {
        let rest = replies.drop_last();
        if rest.len() > 0 {
            assert(walk(rest.drop_last()) is Going);
        }
        walk_keeps_every_row(rest);
    }
}

} // verus!
