use poiw_scorer::hex;
use poiw_scorer::merkle::{empty_input, leaf_input, node_input};
use poiw_scorer::poiw::commitment::{score_root, CommitmentError, ScoreEntry};
use poiw_scorer::types::IdentityId;

fn entry(id: u8, score: u128) -> ScoreEntry {
    ScoreEntry {
        identity: IdentityId([id; 32]),
        score,
    }
}

#[test]
fn empty_root_is_stable_and_distinct() {
    let empty = score_root(&[]).unwrap();
    assert_eq!(empty, score_root(&[]).unwrap());
    let one = score_root(&[entry(1, 10)]).unwrap();
    assert_ne!(empty, one);
}

#[test]
fn root_is_order_independent() {
    let forward = score_root(&[entry(1, 10), entry(2, 20), entry(3, 30)]).unwrap();
    let shuffled = score_root(&[entry(3, 30), entry(1, 10), entry(2, 20)]).unwrap();
    assert_eq!(forward, shuffled);
}

#[test]
fn root_depends_on_scores_and_membership() {
    let base = score_root(&[entry(1, 10), entry(2, 20)]).unwrap();
    let changed_score = score_root(&[entry(1, 10), entry(2, 21)]).unwrap();
    let extra_member = score_root(&[entry(1, 10), entry(2, 20), entry(3, 0)]).unwrap();
    assert_ne!(base, changed_score);
    assert_ne!(base, extra_member);
}

#[test]
fn duplicate_identities_are_rejected() {
    let result = score_root(&[entry(1, 10), entry(1, 20)]);
    assert_eq!(result, Err(CommitmentError::DuplicateIdentity));
}

#[test]
fn odd_leaf_counts_are_handled() {
    for count in 1u8..=9 {
        let entries: Vec<ScoreEntry> = (1..=count).map(|i| entry(i, u128::from(i))).collect();
        let root = score_root(&entries).unwrap();
        assert_eq!(root, score_root(&entries).unwrap());
    }
}

#[test]
fn roots_have_their_published_values() {
    assert_eq!(
        hex::encode(&score_root(&[]).unwrap()),
        "8e6a187f94b7bbaf67995fd14cf127f8e11b1f4f1efa324e202602f976130bea"
    );
    assert_eq!(
        hex::encode(&score_root(&[entry(1, 10)]).unwrap()),
        "be4fd5438e67e1a7025beef13b448209e321279e13f29ce887d566284eb6cf85"
    );
    assert_eq!(
        hex::encode(&score_root(&[entry(2, 20), entry(1, 10)]).unwrap()),
        "2ffb072194cdc74c9295cfa1512b77fde81946b09b8160b1299a316d7614d33a"
    );
    assert_eq!(
        hex::encode(&score_root(&[entry(2, 20), entry(3, 30), entry(1, 10)]).unwrap()),
        "b417eb4e87092652d5c44bdd9bf4ed29cb482a210f65656132008e827af0a5a8"
    );
}

#[test]
fn hashed_inputs_carry_their_prefixes() {
    assert_eq!(
        hex::encode(&leaf_input(&entry(1, 10))),
        "0001010101010101010101010101010101010101010101010101010101010101010000000000000000000000000000000a"
    );
    let node = node_input(&[2; 32], &[3; 32]);
    assert_eq!(node.len(), 65);
    assert_eq!((node[0], node[1], node[33]), (1, 2, 3));
    assert_eq!(empty_input(b"ab"), vec![2, b'a', b'b']);
}
