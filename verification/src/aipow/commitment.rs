//! Score roots, and the signed commitment of an epoch.
//!
//! The [`CommitmentEnvelope`] is the canonical signing payload for a
//! committed epoch: its byte encoding and digest are fixed here so that
//! shadow-scoring publication (phase A) and on-chain submission (phase
//! C, once the distributor contract exists) sign the very same bytes.
//! Submission itself is behind the [`Submitter`] trait.

use vstd::prelude::*;
use vstd::utf8::encode_utf8;

pub use crate::merkle::{CommitmentError, ScoreEntry};

use crate::bytes::{be_bytes, be_injective, be_length, int_ranges, push_be};
use crate::crypto::{
    ed25519_accepts, ed25519_key_valid, ed25519_public_key, ed25519_signature, key_is_valid,
    public_key, sha256, sha256_of, sign_message, signature_accepted,
};
use crate::hex;
use crate::hex::{decode_encode, hex_array, hex_bytes, hex_text, is_hex};
use crate::merkle::{compute_root, root_of};
use crate::text::{decimal, decimal_round_trip, decimal_string, encoding_injective};

verus! {

/// The domain of the empty epoch root.
pub const EMPTY_DOMAIN: &'static str = "aipow-empty-v0";

/// The domain of the canonical envelope bytes.
pub const ENVELOPE_DOMAIN: &'static str = "aipow-commit-v0";

/// Compute the epoch score root. Input order does not matter; entries
/// are sorted by identity before hashing. Duplicate identities are
/// rejected.
pub fn score_root(entries: &[ScoreEntry]) -> (r: Result<[u8; 32], CommitmentError>)
    ensures
        r == root_of(entries@, encode_utf8(EMPTY_DOMAIN@)),
{
    compute_root(entries, EMPTY_DOMAIN.as_bytes())
}

/// The canonical epoch-commitment payload. Field order and byte
/// encoding are fixed: the same digest is signed and verified
/// everywhere.
#[derive(Debug, PartialEq, Eq)]
pub struct CommitmentEnvelope {
    pub epoch: u64,
    pub methodology_version: String,
    /// Epoch score root over the merged per-identity totals (organic
    /// plus challenge score per identity), as produced by
    /// [`score_root`].
    pub score_root_hex: String,
    pub entry_count: u64,
    pub total_score: u128,
    pub organic_settled_value: u128,
}

impl Clone for CommitmentEnvelope {
    fn clone(&self) -> (r: Self)
        ensures
            r == *self,
    {
        CommitmentEnvelope {
            epoch: self.epoch,
            methodology_version: self.methodology_version.clone(),
            score_root_hex: self.score_root_hex.clone(),
            entry_count: self.entry_count,
            total_score: self.total_score,
            organic_settled_value: self.organic_settled_value,
        }
    }
}

/// Envelope handling errors.
#[derive(Debug, Clone, PartialEq, Eq)]
pub enum EnvelopeError {
    /// `score_root_hex` is not 64 hex characters.
    BadRoot,
    /// Bad key or signature encoding.
    BadKeyMaterial,
    /// Signature verification failed.
    BadSignature,
    /// Submission failed, and why.
    Submit(String),
}

/// The bytes between the domain and the root: epoch, version length, version.
pub open spec fn envelope_head(epoch: u64, version: Seq<u8>) -> Seq<u8> {
    be_bytes(epoch as nat, 8) + be_bytes(version.len(), 4) + version
}

/// The bytes after the root: entry count, total score, organic value.
pub open spec fn envelope_tail(entry_count: u64, total_score: u128, organic: u128) -> Seq<u8> {
    be_bytes(entry_count as nat, 8) + be_bytes(total_score as nat, 16) + be_bytes(
        organic as nat,
        16,
    )
}

impl CommitmentEnvelope {
    /// The canonical bytes, or why there are none: a version too long for
    /// its length field, or a root that is not 32 hex bytes.
    pub open spec fn canonical(&self) -> Result<Seq<u8>, EnvelopeError> {
        let version = encode_utf8(self.methodology_version@);
        if version.len() > u32::MAX {
            Err(EnvelopeError::BadKeyMaterial)
        } else {
            match hex_array(self.score_root_hex@, 32) {
                None => Err(EnvelopeError::BadRoot),
                Some(root) => Ok(
                    encode_utf8(ENVELOPE_DOMAIN@) + envelope_head(self.epoch, version) + root
                        + envelope_tail(
                        self.entry_count,
                        self.total_score,
                        self.organic_settled_value,
                    ),
                ),
            }
        }
    }

    /// The digest of the canonical bytes.
    pub open spec fn canonical_digest(&self) -> Result<[u8; 32], EnvelopeError> {
        match self.canonical() {
            Err(e) => Err(e),
            Ok(bytes) => Ok(sha256_of(bytes)),
        }
    }

    /// The committed score root.
    pub fn root(&self) -> (r: Result<[u8; 32], EnvelopeError>)
        ensures
            r matches Ok(root) ==> hex_array(self.score_root_hex@, 32) == Some(root@),
            r matches Err(e) ==> hex_array(self.score_root_hex@, 32) is None && e
                == EnvelopeError::BadRoot,
    {
        match hex::decode_array::<32>(self.score_root_hex.as_str()) {
            Some(root) => Ok(root),
            None => Err(EnvelopeError::BadRoot),
        }
    }

    /// The canonical byte encoding:
    /// `domain || epoch_be(8) || len_be(4) || methodology_version_utf8 ||
    ///  root(32) || entry_count_be(8) || total_score_be(16) ||
    ///  organic_settled_value_be(16)`.
    pub fn canonical_bytes(&self) -> (r: Result<Vec<u8>, EnvelopeError>)
        ensures
            r matches Ok(bytes) ==> self.canonical() == Ok::<Seq<u8>, EnvelopeError>(bytes@),
            r matches Err(e) ==> self.canonical() == Err::<Seq<u8>, EnvelopeError>(e),
    {
        let version: &[u8] = self.methodology_version.as_str().as_bytes();
        if version.len() as u128 > u32::MAX as u128 {
            return Err(EnvelopeError::BadKeyMaterial);
        }
        let root: [u8; 32] = match self.root() {
            Ok(root) => root,
            Err(e) => {
                return Err(e);
            },
        };
        let mut out: Vec<u8> = Vec::new();
        out.extend_from_slice(ENVELOPE_DOMAIN.as_bytes());
        push_be(&mut out, self.epoch as u128, 8);
        push_be(&mut out, version.len() as u128, 4);
        out.extend_from_slice(version);
        out.extend_from_slice(root.as_slice());
        push_be(&mut out, self.entry_count as u128, 8);
        push_be(&mut out, self.total_score, 16);
        push_be(&mut out, self.organic_settled_value, 16);
        assert(out@ =~= encode_utf8(ENVELOPE_DOMAIN@) + envelope_head(self.epoch, version@) + root@
            + envelope_tail(self.entry_count, self.total_score, self.organic_settled_value));
        Ok(out)
    }

    /// The digest that gets signed.
    pub fn digest(&self) -> (r: Result<[u8; 32], EnvelopeError>)
        ensures
            r == self.canonical_digest(),
    {
        match self.canonical_bytes() {
            Ok(bytes) => Ok(sha256(bytes.as_slice())),
            Err(e) => Err(e),
        }
    }

    /// Puts the envelope together with a public key and a signature.
    pub fn with_signature(&self, key: &[u8; 32], signature: &[u8; 64]) -> (r: SignedCommitment)
        ensures
            r.envelope == *self,
            r.public_key_hex@ == hex_text(key@),
            r.signature_hex@ == hex_text(signature@),
    {
        SignedCommitment {
            envelope: self.clone(),
            public_key_hex: hex::encode(key.as_slice()),
            signature_hex: hex::encode(signature.as_slice()),
        }
    }

    /// Sign the envelope with an ed25519 key. What is signed verifies.
    pub fn sign(&self, signing_key: &SigningKey) -> (r: Result<SignedCommitment, EnvelopeError>)
        ensures
            r is Ok <==> self.canonical_digest() is Ok,
            r matches Err(e) ==> self.canonical_digest() == Err::<[u8; 32], EnvelopeError>(e),
            r matches Ok(signed) ==> {
                &&& signed.envelope == *self
                &&& signed.public_key_hex@ == hex_text(ed25519_public_key(signing_key@))
                &&& signed.signature_hex@ == hex_text(
                    ed25519_signature(signing_key@, self.canonical_digest()->Ok_0@),
                )
                &&& signed.verification() == Ok::<(), EnvelopeError>(())
            },
    {
        let digest: [u8; 32] = match self.digest() {
            Ok(digest) => digest,
            Err(e) => {
                return Err(e);
            },
        };
        let key: [u8; 32] = public_key(&signing_key.secret);
        let signature: [u8; 64] = sign_message(&signing_key.secret, digest.as_slice());
        proof {
            decode_encode(key@);
            decode_encode(signature@);
        }
        Ok(self.with_signature(&key, &signature))
    }
}

/// An ed25519 secret key.
#[derive(Clone, Copy)]
pub struct SigningKey {
    secret: [u8; 32],
}

impl View for SigningKey {
    type V = Seq<u8>;

    closed spec fn view(&self) -> Seq<u8> {
        self.secret@
    }
}

impl SigningKey {
    /// The key with these secret bytes.
    pub fn from_bytes(secret: &[u8; 32]) -> (r: Self)
        ensures
            r@ == secret@,
    {
        SigningKey { secret: *secret }
    }
}

/// A signed epoch commitment, ready for publication or submission.
#[derive(Debug, PartialEq, Eq)]
pub struct SignedCommitment {
    pub envelope: CommitmentEnvelope,
    pub public_key_hex: String,
    pub signature_hex: String,
}

impl Clone for SignedCommitment {
    fn clone(&self) -> (r: Self)
        ensures
            r == *self,
    {
        SignedCommitment {
            envelope: self.envelope.clone(),
            public_key_hex: self.public_key_hex.clone(),
            signature_hex: self.signature_hex.clone(),
        }
    }
}

impl SignedCommitment {
    /// What verification finds: the first of the key's and the signature's
    /// encoding, the key itself, the envelope and the signature that is bad.
    pub open spec fn verification(&self) -> Result<(), EnvelopeError> {
        match (hex_array(self.public_key_hex@, 32), hex_array(self.signature_hex@, 64)) {
            (Some(key), Some(signature)) => if !ed25519_key_valid(key) {
                Err(EnvelopeError::BadKeyMaterial)
            } else {
                match self.envelope.canonical_digest() {
                    Err(e) => Err(e),
                    Ok(digest) => verdict_of(ed25519_accepts(key, digest@, signature)),
                }
            },
            _ => Err(EnvelopeError::BadKeyMaterial),
        }
    }

    /// Verify the signature against the envelope's canonical digest.
    pub fn verify(&self) -> (r: Result<(), EnvelopeError>)
        ensures
            r == self.verification(),
    {
        let key: [u8; 32] = match hex::decode_array::<32>(self.public_key_hex.as_str()) {
            Some(key) => key,
            None => {
                return Err(EnvelopeError::BadKeyMaterial);
            },
        };
        let signature: [u8; 64] = match hex::decode_array::<64>(self.signature_hex.as_str()) {
            Some(signature) => signature,
            None => {
                return Err(EnvelopeError::BadKeyMaterial);
            },
        };
        if !key_is_valid(&key) {
            return Err(EnvelopeError::BadKeyMaterial);
        }
        let digest: [u8; 32] = match self.envelope.digest() {
            Ok(digest) => digest,
            Err(e) => {
                return Err(e);
            },
        };
        verdict(signature_accepted(&key, digest.as_slice(), &signature))
    }

    /// The name of the file that a verified commitment is published in.
    pub open spec fn published_name(&self) -> Seq<char> {
        "aipow-commitment-epoch-"@ + decimal(self.envelope.epoch as nat) + ".json"@
    }

    /// Verifies the commitment and names the file to publish it in. A
    /// commitment that does not verify is refused before anything is written.
    pub fn publish_as(&self) -> (r: Result<String, EnvelopeError>)
        ensures
            r matches Ok(name) ==> self.verification() is Ok && name@ == self.published_name(),
            r matches Err(e) ==> self.verification() == Err::<(), EnvelopeError>(e),
    {
        if let Err(e) = self.verify() {
            return Err(e);
        }
        let mut name: String = "aipow-commitment-epoch-".to_owned();
        name.append(decimal_string(self.envelope.epoch).as_str());
        name.append(".json");
        Ok(name)
    }
}

/// What a key's answer means.
pub open spec fn verdict_of(accepted: bool) -> Result<(), EnvelopeError> {
    if accepted {
        Ok(())
    } else {
        Err(EnvelopeError::BadSignature)
    }
}

/// What a key's answer means: a signature that it does not accept is bad.
pub fn verdict(accepted: bool) -> (r: Result<(), EnvelopeError>)
    ensures
        r == verdict_of(accepted),
{
    if accepted {
        Ok(())
    } else {
        Err(EnvelopeError::BadSignature)
    }
}

/// Where signed commitments go. On-chain submission through the AIPoW
/// distributor contract implements this trait once that contract exists;
/// the shadow-scoring phase publishes files.
pub trait Submitter {
    fn submit(&self, commitment: &SignedCommitment) -> Result<(), EnvelopeError>;
}

/// A verified commitment was signed over exactly these envelope bytes: the
/// key accepts the signature for their digest.
pub proof fn verified_means_accepted(signed: SignedCommitment)
    requires
        signed.verification() is Ok,
    ensures
        signed.envelope.canonical() is Ok,
        is_hex(signed.public_key_hex@),
        is_hex(signed.signature_hex@),
        ed25519_key_valid(hex_bytes(signed.public_key_hex@)),
        ed25519_accepts(
            hex_bytes(signed.public_key_hex@),
            sha256_of(signed.envelope.canonical()->Ok_0)@,
            hex_bytes(signed.signature_hex@),
        ),
{
}

/// The canonical bytes determine every field of the envelope.
pub proof fn canonical_is_injective(a: CommitmentEnvelope, b: CommitmentEnvelope)
    requires
        a.canonical() is Ok,
        a.canonical() == b.canonical(),
    ensures
        a.epoch == b.epoch,
        a.methodology_version@ == b.methodology_version@,
        hex_bytes(a.score_root_hex@) == hex_bytes(b.score_root_hex@),
        a.entry_count == b.entry_count,
        a.total_score == b.total_score,
        a.organic_settled_value == b.organic_settled_value,
{
    let x = a.canonical()->Ok_0;
    let y = b.canonical()->Ok_0;
    let d = encode_utf8(ENVELOPE_DOMAIN@).len() as int;
    let va = encode_utf8(a.methodology_version@);
    let vb = encode_utf8(b.methodology_version@);
    int_ranges();
    be_length(a.epoch as nat, 8);
    be_length(b.epoch as nat, 8);
    be_length(va.len(), 4);
    be_length(vb.len(), 4);
    be_length(a.entry_count as nat, 8);
    be_length(b.entry_count as nat, 8);
    be_length(a.total_score as nat, 16);
    be_length(b.total_score as nat, 16);
    be_length(a.organic_settled_value as nat, 16);
    be_length(b.organic_settled_value as nat, 16);
    assert(x.subrange(d, d + 8) =~= be_bytes(a.epoch as nat, 8));
    assert(y.subrange(d, d + 8) =~= be_bytes(b.epoch as nat, 8));
    be_injective(a.epoch as nat, b.epoch as nat, 8);
    assert(x.subrange(d + 8, d + 12) =~= be_bytes(va.len(), 4));
    assert(y.subrange(d + 8, d + 12) =~= be_bytes(vb.len(), 4));
    be_injective(va.len(), vb.len(), 4);
    let v = d + 12 + va.len() as int;
    assert(x.subrange(d + 12, v) =~= va);
    assert(y.subrange(d + 12, v) =~= vb);
    encoding_injective(a.methodology_version@, b.methodology_version@);
    assert(x.subrange(v, v + 32) =~= hex_bytes(a.score_root_hex@));
    assert(y.subrange(v, v + 32) =~= hex_bytes(b.score_root_hex@));
    assert(x.subrange(v + 32, v + 40) =~= be_bytes(a.entry_count as nat, 8));
    assert(y.subrange(v + 32, v + 40) =~= be_bytes(b.entry_count as nat, 8));
    be_injective(a.entry_count as nat, b.entry_count as nat, 8);
    assert(x.subrange(v + 40, v + 56) =~= be_bytes(a.total_score as nat, 16));
    assert(y.subrange(v + 40, v + 56) =~= be_bytes(b.total_score as nat, 16));
    be_injective(a.total_score as nat, b.total_score as nat, 16);
    assert(x.subrange(v + 56, v + 72) =~= be_bytes(a.organic_settled_value as nat, 16));
    assert(y.subrange(v + 56, v + 72) =~= be_bytes(b.organic_settled_value as nat, 16));
    be_injective(a.organic_settled_value as nat, b.organic_settled_value as nat, 16);
}

/// Commitments of different epochs are published in different files.
pub proof fn published_names_are_distinct(a: SignedCommitment, b: SignedCommitment)
    requires
        a.published_name() == b.published_name(),
    ensures
        a.envelope.epoch == b.envelope.epoch,
{
    let head = "aipow-commitment-epoch-"@;
    let tail = ".json"@;
    let x = decimal(a.envelope.epoch as nat);
    let y = decimal(b.envelope.epoch as nat);
    let p = a.published_name();
    let q = b.published_name();
    assert(p.len() == q.len());
    assert(p.subrange(head.len() as int, (head.len() + x.len()) as int) =~= x);
    assert(q.subrange(head.len() as int, (head.len() + y.len()) as int) =~= y);
    decimal_round_trip(a.envelope.epoch as nat, u64::MAX as nat);
    decimal_round_trip(b.envelope.epoch as nat, u64::MAX as nat);
}

} // verus!
