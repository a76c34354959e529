use poiw_scorer::aipow::commitment::{
    score_root, verdict, CommitmentEnvelope, CommitmentError, EnvelopeError, ScoreEntry,
    SignedCommitment, SigningKey,
};
use poiw_scorer::hex;
use poiw_scorer::types::IdentityId;

fn entry(id: u8, score: u128) -> ScoreEntry {
    ScoreEntry {
        identity: IdentityId([id; 32]),
        score,
    }
}

#[test]
fn lib_empty_root_is_stable_and_distinct() {
    let empty = score_root(&[]).unwrap();
    assert_eq!(empty, score_root(&[]).unwrap());
    let one = score_root(&[entry(1, 10)]).unwrap();
    assert_ne!(empty, one);
}

#[test]
fn lib_root_is_order_independent() {
    let forward = score_root(&[entry(1, 10), entry(2, 20), entry(3, 30)]).unwrap();
    let shuffled = score_root(&[entry(3, 30), entry(1, 10), entry(2, 20)]).unwrap();
    assert_eq!(forward, shuffled);
}

#[test]
fn lib_root_depends_on_scores_and_membership() {
    let base = score_root(&[entry(1, 10), entry(2, 20)]).unwrap();
    let changed_score = score_root(&[entry(1, 10), entry(2, 21)]).unwrap();
    let extra_member = score_root(&[entry(1, 10), entry(2, 20), entry(3, 0)]).unwrap();
    assert_ne!(base, changed_score);
    assert_ne!(base, extra_member);
}

#[test]
fn lib_duplicate_identities_are_rejected() {
    let result = score_root(&[entry(1, 10), entry(1, 20)]);
    assert_eq!(result, Err(CommitmentError::DuplicateIdentity));
}

#[test]
fn lib_odd_leaf_counts_are_handled() {
    for count in 1u8..=9 {
        let entries: Vec<ScoreEntry> = (1..=count).map(|i| entry(i, u128::from(i))).collect();
        let root = score_root(&entries).unwrap();
        assert_eq!(root, score_root(&entries).unwrap());
    }
}

fn sample_envelope() -> CommitmentEnvelope {
    let root = score_root(&[entry(1, 10), entry(2, 20)]).unwrap();
    CommitmentEnvelope {
        epoch: 42,
        methodology_version: "v0".into(),
        score_root_hex: hex::encode(&root),
        entry_count: 2,
        total_score: 30,
        organic_settled_value: 1_000,
    }
}

#[test]
fn envelope_digest_is_deterministic_and_field_sensitive() {
    let envelope = sample_envelope();
    assert_eq!(envelope.digest().unwrap(), envelope.digest().unwrap());
    let mut changed = envelope.clone();
    changed.epoch = 43;
    assert_ne!(envelope.digest().unwrap(), changed.digest().unwrap());
    let mut bad = envelope;
    bad.score_root_hex = "zz".into();
    assert_eq!(bad.digest(), Err(EnvelopeError::BadRoot));
}

#[test]
fn sign_verify_round_trip_and_tamper_detection() {
    let signing_key = SigningKey::from_bytes(&[7u8; 32]);
    let signed = sample_envelope().sign(&signing_key).unwrap();
    signed.verify().unwrap();

    let mut tampered = signed.clone();
    tampered.envelope.total_score = 31;
    assert_eq!(tampered.verify(), Err(EnvelopeError::BadSignature));

    let mut bad_key = signed.clone();
    bad_key.public_key_hex = "00".into();
    assert_eq!(bad_key.verify(), Err(EnvelopeError::BadKeyMaterial));

    let back: SignedCommitment = signed.clone();
    back.verify().unwrap();
}

#[test]
fn the_empty_root_has_its_own_domain() {
    assert_eq!(
        hex::encode(&score_root(&[]).unwrap()),
        "a16bdcc91c669673048b9c081d7e0365db5e4c97e084baddaeac0ac08ffa92dd"
    );
}

#[test]
fn canonical_bytes_and_digest_have_their_published_values() {
    let envelope = sample_envelope();
    let root = "2ffb072194cdc74c9295cfa1512b77fde81946b09b8160b1299a316d7614d33a";
    assert_eq!(envelope.score_root_hex, root);
    assert_eq!(
        hex::encode(&envelope.canonical_bytes().unwrap()),
        format!(
            "{}{}{}{}{}{}{}{}",
            hex::encode(b"aipow-commit-v0"),
            "000000000000002a",
            "00000002",
            hex::encode(b"v0"),
            root,
            "0000000000000002",
            "0000000000000000000000000000001e",
            "000000000000000000000000000003e8"
        )
    );
    assert_eq!(
        hex::encode(&envelope.digest().unwrap()),
        "7db5b5b6975f71277e13bc0c74a38bbb433fa2eeed0cbdfbe0f6862149a55a17"
    );
    assert_eq!(hex::encode(&envelope.root().unwrap()), root);
}

#[test]
fn signatures_are_deterministic_ed25519() {
    let signed = sample_envelope()
        .sign(&SigningKey::from_bytes(&[7u8; 32]))
        .unwrap();
    assert_eq!(
        signed.public_key_hex,
        "ea4a6c63e29c520abef5507b132ec5f9954776aebebe7b92421eea691446d22c"
    );
    assert_eq!(
        signed.signature_hex,
        "be677cd44f013a43e4afe035bc91d3a8505abd23464ef97917ffce0de0ad8083fde6e3fae4dd3d3efe614bb53ef162816fd51b9a7759099bb43ccfff2702c20f"
    );
}

#[test]
fn every_part_of_a_commitment_is_checked() {
    let signed = sample_envelope()
        .sign(&SigningKey::from_bytes(&[9u8; 32]))
        .unwrap();
    let mut version = signed.clone();
    version.envelope.methodology_version = "v1".into();
    assert_eq!(version.verify(), Err(EnvelopeError::BadSignature));
    let mut root = signed.clone();
    root.envelope.score_root_hex = "zz".into();
    assert_eq!(root.verify(), Err(EnvelopeError::BadRoot));
    let mut signature = signed.clone();
    signature.signature_hex = "00".into();
    assert_eq!(signature.verify(), Err(EnvelopeError::BadKeyMaterial));
    // The bytes of no point on the curve.
    let mut key = signed.clone();
    key.public_key_hex = format!("02{}", "00".repeat(31));
    assert_eq!(key.verify(), Err(EnvelopeError::BadKeyMaterial));
    // Another key does not accept the signature.
    let mut other = signed.clone();
    other.public_key_hex = sample_envelope()
        .sign(&SigningKey::from_bytes(&[8u8; 32]))
        .unwrap()
        .public_key_hex;
    assert_eq!(other.verify(), Err(EnvelopeError::BadSignature));
    assert_eq!(signed.verify(), Ok(()));
    assert_eq!(verdict(true), Ok(()));
    assert_eq!(verdict(false), Err(EnvelopeError::BadSignature));
}

#[test]
fn unsignable_envelopes_are_refused() {
    let mut bad = sample_envelope();
    bad.score_root_hex = "00".into();
    assert_eq!(
        bad.sign(&SigningKey::from_bytes(&[9u8; 32])),
        Err(EnvelopeError::BadRoot)
    );
}

#[test]
fn only_verified_commitments_get_a_file_name() {
    let signed = sample_envelope()
        .sign(&SigningKey::from_bytes(&[9u8; 32]))
        .unwrap();
    assert_eq!(
        signed.publish_as().unwrap(),
        "aipow-commitment-epoch-42.json"
    );
    // A tampered commitment is refused before it is written.
    let mut tampered = signed;
    tampered.envelope.epoch = 43;
    assert_eq!(tampered.publish_as(), Err(EnvelopeError::BadSignature));
}

#[test]
fn signatures_can_be_put_together_by_hand() {
    let signed = sample_envelope().with_signature(&[1; 32], &[2; 64]);
    assert_eq!(signed.envelope, sample_envelope());
    assert_eq!(signed.public_key_hex, "01".repeat(32));
    assert_eq!(signed.signature_hex, "02".repeat(64));
}
