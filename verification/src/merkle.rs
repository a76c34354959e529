//! Deterministic score-root construction.
//!
//! The epoch score root is the value committed on-chain and exposed to
//! the bonded challenge window. It must be reproducible byte for byte from
//! the same scored epoch.
//!
//! Construction:
//! - entries are sorted by identity bytes; duplicate identities are an
//!   error, never silently merged;
//! - leaf hash: `sha256(0x00 || identity(32) || score_be(16))`;
//! - node hash: `sha256(0x01 || left(32) || right(32))`;
//! - an odd node at any level is promoted unchanged;
//! - the empty epoch root is `sha256(0x02 || domain)`.

use vstd::prelude::*;

use crate::bytes::{be_bytes, push_be};
use crate::crypto::{sha256, sha256_of};
use crate::keyed::KeyedMap;
use crate::order::sorted;
use crate::types::{last_assignment, IdentityId};

verus! {

/// One identity's final score, as committed.
#[derive(Debug, Clone, Copy, PartialEq, Eq)]
pub struct ScoreEntry {
    pub identity: IdentityId,
    pub score: u128,
}

/// Commitment construction errors.
#[derive(Debug, Clone, Copy, PartialEq, Eq, Structural)]
pub enum CommitmentError {
    /// Two score entries name the same identity.
    DuplicateIdentity,
}

/// Marks the bytes hashed for a leaf.
pub const LEAF_PREFIX: u8 = 0x00;

/// Marks the bytes hashed for an inner node.
pub const NODE_PREFIX: u8 = 0x01;

/// Marks the bytes hashed for an epoch without entries.
pub const EMPTY_PREFIX: u8 = 0x02;

/// The bytes hashed for a leaf.
pub open spec fn leaf_bytes(entry: ScoreEntry) -> Seq<u8> {
    seq![LEAF_PREFIX] + entry.identity.0@ + be_bytes(entry.score as nat, 16)
}

/// The bytes hashed for an inner node.
pub open spec fn node_bytes(left: [u8; 32], right: [u8; 32]) -> Seq<u8> {
    seq![NODE_PREFIX] + left@ + right@
}

/// The bytes hashed for an epoch without entries.
pub open spec fn empty_bytes(domain: Seq<u8>) -> Seq<u8> {
    seq![EMPTY_PREFIX] + domain
}

/// The level above: neighbours hashed together, an odd last node unchanged.
pub open spec fn next_level(level: Seq<[u8; 32]>) -> Seq<[u8; 32]> {
    Seq::new(
        ((level.len() + 1) / 2) as nat,
        |i: int|
            if 2 * i + 1 < level.len() {
                sha256_of(node_bytes(level[2 * i], level[2 * i + 1]))
            } else {
                level[2 * i]
            },
    )
}

/// The single node above a level.
pub open spec fn level_root(level: Seq<[u8; 32]>) -> [u8; 32]
    decreases level.len(),
{
    if level.len() <= 1 {
        level[0]
    } else {
        level_root(next_level(level))
    }
}

/// Two entries name the same identity.
pub open spec fn has_duplicate(entries: Seq<ScoreEntry>) -> bool {
    exists|i: int, j: int|
        0 <= i < j < entries.len() && (#[trigger] entries[i]).identity == (
        #[trigger] entries[j]).identity
}

/// The score of every identity.
pub open spec fn score_map(entries: Seq<ScoreEntry>) -> Map<IdentityId, u128> {
    last_assignment(entries.map_values(|e: ScoreEntry| (e.identity, e.score)))
}

/// The entries of a map of scores, in ascending order of identity.
pub open spec fn ascending_entries(scores: Map<IdentityId, u128>) -> Seq<ScoreEntry> {
    sorted::<IdentityId>(scores.dom()).map_values(
        |id: IdentityId| ScoreEntry { identity: id, score: scores[id] },
    )
}

/// The leaf hashes of some entries.
pub open spec fn leaf_level(entries: Seq<ScoreEntry>) -> Seq<[u8; 32]> {
    entries.map_values(|e: ScoreEntry| sha256_of(leaf_bytes(e)))
}

/// The score root of an epoch.
pub open spec fn root_of(entries: Seq<ScoreEntry>, domain: Seq<u8>) -> Result<
    [u8; 32],
    CommitmentError,
> {
    if entries.len() == 0 {
        Ok(sha256_of(empty_bytes(domain)))
    } else if has_duplicate(entries) {
        Err(CommitmentError::DuplicateIdentity)
    } else {
        Ok(level_root(leaf_level(ascending_entries(score_map(entries)))))
    }
}

/// The bytes hashed for a leaf: prefix, identity, big-endian score.
pub fn leaf_input(entry: &ScoreEntry) -> (r: Vec<u8>)
    ensures
        r@ == leaf_bytes(*entry),
{
    let mut bytes: Vec<u8> = Vec::new();
    bytes.push(LEAF_PREFIX);
    bytes.extend_from_slice(entry.identity.0.as_slice());
    push_be(&mut bytes, entry.score, 16);
    assert(bytes@ =~= leaf_bytes(*entry));
    bytes
}

/// The bytes hashed for an inner node: prefix, left hash, right hash.
pub fn node_input(left: &[u8; 32], right: &[u8; 32]) -> (r: Vec<u8>)
    ensures
        r@ == node_bytes(*left, *right),
{
    let mut bytes: Vec<u8> = Vec::new();
    bytes.push(NODE_PREFIX);
    bytes.extend_from_slice(left.as_slice());
    bytes.extend_from_slice(right.as_slice());
    assert(bytes@ =~= node_bytes(*left, *right));
    bytes
}

/// The bytes hashed for an epoch without entries: prefix, domain.
pub fn empty_input(domain: &[u8]) -> (r: Vec<u8>)
    ensures
        r@ == empty_bytes(domain@),
{
    let mut bytes: Vec<u8> = Vec::new();
    bytes.push(EMPTY_PREFIX);
    bytes.extend_from_slice(domain);
    assert(bytes@ =~= empty_bytes(domain@));
    bytes
}

fn leaf_hash(entry: &ScoreEntry) -> (r: [u8; 32])
    ensures
        r == sha256_of(leaf_bytes(*entry)),
{
    sha256(leaf_input(entry).as_slice())
}

fn node_hash(left: &[u8; 32], right: &[u8; 32]) -> (r: [u8; 32])
    ensures
        r == sha256_of(node_bytes(*left, *right)),
{
    sha256(node_input(left, right).as_slice())
}

fn empty_root(domain: &[u8]) -> (r: [u8; 32])
    ensures
        r == sha256_of(empty_bytes(domain@)),
{
    sha256(empty_input(domain).as_slice())
}

/// Hashes one level into the one above it.
fn hash_level(level: &Vec<[u8; 32]>) -> (r: Vec<[u8; 32]>)
    ensures
        r@ == next_level(level@),
{
    let mut next: Vec<[u8; 32]> = Vec::new();
    let mut i: usize = 0;
    while i < level.len()
        invariant
            0 <= i <= level@.len() + 1,
            i % 2 == 0 || i == level@.len(),
            i <= level@.len(),
            next@.len() == (i + 1) / 2,
            forall|j: int| 0 <= j < next@.len() ==> #[trigger] next@[j] == next_level(level@)[j],
        decreases level@.len() - i,
    {
        if level.len() - i >= 2 {
            next.push(node_hash(&level[i], &level[i + 1]));
            assert(2 * (i as int / 2) == i);
            i = i + 2;
        } else {
            next.push(level[i]);
            assert(2 * (i as int / 2) == i);
            i = i + 1;
        }
    }
    assert(next@ =~= next_level(level@));
    next
}

/// Whether a map of scores holds what the first entries say.
proof fn score_map_next(entries: Seq<ScoreEntry>, i: int)
    requires
        0 <= i < entries.len(),
    ensures
        score_map(entries.take(i + 1)) == score_map(entries.take(i)).insert(
            entries[i].identity,
            entries[i].score,
        ),
{
    let pairs = entries.map_values(|e: ScoreEntry| (e.identity, e.score));
    let next = entries.take(i + 1).map_values(|e: ScoreEntry| (e.identity, e.score));
    assert(next.drop_last() =~= entries.take(i).map_values(
        |e: ScoreEntry| (e.identity, e.score),
    ));
}

/// The map of scores holds exactly the named identities.
pub proof fn score_map_domain(entries: Seq<ScoreEntry>, id: IdentityId)
    ensures
        score_map(entries).dom().contains(id) <==> exists|i: int|
            0 <= i < entries.len() && (#[trigger] entries[i]).identity == id,
        score_map(entries).dom().finite(),
    decreases entries.len(),
{
    if entries.len() > 0 {
        let n = entries.len() - 1;
        let rest = entries.drop_last();
        score_map_next(entries, n);
        assert(entries.take(n + 1) =~= entries);
        assert(entries.take(n) =~= rest);
        score_map_domain(rest, id);
        if score_map(entries).dom().contains(id) {
            if id != entries[n].identity {
                let i = choose|i: int|
                    0 <= i < rest.len() && (#[trigger] rest[i]).identity == id;
                assert(entries[i].identity == id);
            }
        }
        if exists|i: int| 0 <= i < entries.len() && (#[trigger] entries[i]).identity == id {
            let i = choose|i: int|
                0 <= i < entries.len() && (#[trigger] entries[i]).identity == id;
            if i < n {
                assert(rest[i].identity == id);
            }
        }
    }
}

/// Where no identity repeats, the map holds the score of every entry.
pub proof fn score_map_value(entries: Seq<ScoreEntry>, i: int)
    requires
        !has_duplicate(entries),
        0 <= i < entries.len(),
    ensures
        score_map(entries)[entries[i].identity] == entries[i].score,
    decreases entries.len(),
{
    let n = entries.len() - 1;
    let rest = entries.drop_last();
    score_map_next(entries, n);
    assert(entries.take(n + 1) =~= entries);
    assert(entries.take(n) =~= rest);
    if i < n {
        assert(!has_duplicate(rest)) by {
            if has_duplicate(rest) {
                let (a, b) = choose|a: int, b: int|
                    0 <= a < b < rest.len() && (#[trigger] rest[a]).identity == (
                    #[trigger] rest[b]).identity;
                assert(entries[a].identity == entries[b].identity);
            }
        }
        score_map_value(rest, i);
        assert(entries[i].identity != entries[n].identity);
    }
}

/// Computes the score root of an epoch. Input order does not matter; entries
/// are sorted by identity before hashing. Duplicate identities are rejected.
pub fn compute_root(entries: &[ScoreEntry], domain: &[u8]) -> (r: Result<[u8; 32], CommitmentError>)
    ensures
        r == root_of(entries@, domain@),
{
    if entries.len() == 0 {
        return Ok(empty_root(domain));
    }
    let mut scores: KeyedMap<IdentityId, u128> = KeyedMap::new();
    let mut i: usize = 0;
    assert(entries@.take(0).map_values(|e: ScoreEntry| (e.identity, e.score)) =~= Seq::empty());
    while i < entries.len()
        invariant
            i <= entries@.len(),
            scores@ == score_map(entries@.take(i as int)),
            !has_duplicate(entries@.take(i as int)),
        decreases entries@.len() - i,
    {
        let entry: ScoreEntry = entries[i];
        proof {
            score_map_domain(entries@.take(i as int), entry.identity);
            score_map_next(entries@, i as int);
        }
        if let Some(_) = scores.get(&entry.identity) {
            proof {
                let head = entries@.take(i as int);
                let j = choose|j: int|
                    0 <= j < head.len() && (#[trigger] head[j]).identity == entry.identity;
                assert(entries@[j].identity == entries@[i as int].identity);
                assert(has_duplicate(entries@));
            }
            return Err(CommitmentError::DuplicateIdentity);
        }
        proof {
            let more = entries@.take(i + 1);
            if has_duplicate(more) {
                let (a, b) = choose|a: int, b: int|
                    0 <= a < b < more.len() && (#[trigger] more[a]).identity == (
                    #[trigger] more[b]).identity;
                let head = entries@.take(i as int);
                assert(head[a].identity == more[a].identity);
                if b < i {
                    assert(head[b].identity == more[b].identity);
                }
                assert(false);
            }
        }
        scores.insert(entry.identity, entry.score);
        i = i + 1;
    }
    assert(entries@.take(i as int) =~= entries@);
    let count: usize = scores.len();
    let ghost listed = ascending_entries(scores@);
    let mut level: Vec<[u8; 32]> = Vec::new();
    let mut k: usize = 0;
    proof {
        score_map_domain(entries@, entries@[0].identity);
        assert(scores@.dom().contains(entries@[0].identity));
        assert(count > 0) by {
            assert(scores.keys().to_set().contains(entries@[0].identity));
        }
    }
    while k < count
        invariant
            k <= count,
            count == scores.keys().len(),
            listed == ascending_entries(scores@),
            listed.len() == count,
            level@ == leaf_level(listed).take(k as int),
        decreases count - k,
    {
        let entry = ScoreEntry { identity: *scores.key_at(k), score: *scores.value_at(k) };
        level.push(leaf_hash(&entry));
        assert(level@ =~= leaf_level(listed).take(k + 1));
        k = k + 1;
    }
    assert(level@ =~= leaf_level(listed));
    let ghost root = level_root(level@);
    while level.len() > 1
        invariant
            level@.len() >= 1,
            level_root(level@) == root,
        decreases level@.len(),
    {
        level = hash_level(&level);
    }
    Ok(level[0])
}

} // verus!
