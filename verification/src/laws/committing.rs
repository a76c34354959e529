//! What is committed: the layout of every byte string that is hashed or
//! signed, the shape of the tree over the scores, and what verifying means.

use vstd::prelude::*;
use vstd::utf8::encode_utf8;

use crate::aipow::commitment::{CommitmentEnvelope, EnvelopeError, SignedCommitment};
use crate::bytes::{be_bytes, be_round_trip, be_value, int_ranges};
use crate::crypto::{ed25519_accepts, ed25519_key_valid, sha256_of};
use crate::hex::{hex_array, hex_bytes, hex_text, hex_value, is_hex};
use crate::laws::ingestion::{hashes_are_64_digits, hex_digit, names_32_bytes};
use crate::merkle::{
    ascending_entries, empty_bytes, has_duplicate, leaf_bytes, leaf_level, level_root, next_level,
    node_bytes, root_of, score_map, score_map_domain, score_map_value, CommitmentError, ScoreEntry,
};
use crate::order::{key_before, lex_before, sorted, sorted_lists};
use crate::text::{all_decimal, decimal_number, decimal_value, numeral_digits, parsed_number};
use crate::types::IdentityId;

verus! {

/// The value of a hexadecimal digit.
pub open spec fn digit_worth(c: char) -> int {
    if c <= '9' {
        c as int - '0' as int
    } else if c <= 'F' {
        c as int - 'A' as int + 10
    } else {
        c as int - 'a' as int + 10
    }
}

/// The bytes in hexadecimal: two lowercase digits each, the high one first.
pub open spec fn written_as(bytes: Seq<u8>, text: Seq<char>) -> bool {
    &&& text.len() == 2 * bytes.len()
    &&& forall|i: int|
        0 <= i < bytes.len() ==> {
            &&& lower_hex(text[2 * i])
            &&& lower_hex(text[2 * i + 1])
            &&& #[trigger] bytes[i] == 16 * digit_worth(text[2 * i]) + digit_worth(
                text[2 * i + 1],
            )
        }
}

/// A lowercase hexadecimal digit.
pub open spec fn lower_hex(c: char) -> bool {
    '0' <= c <= '9' || 'a' <= c <= 'f'
}

/// Pairs of hexadecimal digits.
pub open spec fn digit_pairs(text: Seq<char>) -> bool {
    text.len() % 2 == 0 && forall|i: int| 0 <= i < text.len() ==> hex_digit(#[trigger] text[i])
}

/// The bytes that pairs of digits denote.
pub open spec fn read_as(text: Seq<char>, bytes: Seq<u8>) -> bool {
    &&& bytes.len() == text.len() / 2
    &&& forall|i: int|
        0 <= i < bytes.len() ==> #[trigger] bytes[i] == 16 * digit_worth(text[2 * i]) + digit_worth(
            text[2 * i + 1],
        )
}

/// Bytes are written with two digits each, the high one first, in lowercase,
/// and read back so from either case.
pub proof fn hex_has_the_high_digit_first(bytes: Seq<u8>, text: Seq<char>)
    ensures
        written_as(bytes, hex_text(bytes)),
        is_hex(text) <==> digit_pairs(text),
        is_hex(text) ==> read_as(text, hex_bytes(text)),
{
    assert forall|i: int| 0 <= i < bytes.len() implies {
        &&& lower_hex(hex_text(bytes)[2 * i])
        &&& lower_hex(hex_text(bytes)[2 * i + 1])
        &&& #[trigger] bytes[i] == 16 * digit_worth(hex_text(bytes)[2 * i]) + digit_worth(
            hex_text(bytes)[2 * i + 1],
        )
    } by {
        assert((2 * i) / 2 == i);
        assert((2 * i + 1) / 2 == i);
        assert((2 * i) % 2 == 0);
        assert((2 * i + 1) % 2 == 1);
        digit_is_worth(bytes[i] as int / 16);
        digit_is_worth(bytes[i] as int % 16);
    }
    if digit_pairs(text) {
        assert forall|i: int| 0 <= i < text.len() implies hex_value(#[trigger] text[i]) is Some by {
            assert(hex_digit(text[i]));
        }
    }
    if is_hex(text) {
        assert forall|i: int| 0 <= i < text.len() implies hex_digit(#[trigger] text[i]) by {
            assert(hex_value(text[i]) is Some);
        }
        assert forall|i: int| 0 <= i < text.len() / 2 implies #[trigger] hex_bytes(text)[i] == 16
            * digit_worth(text[2 * i]) + digit_worth(text[2 * i + 1]) by {
            assert(hex_value(text[2 * i]) == Some(digit_worth(text[2 * i])));
            assert(hex_value(text[2 * i + 1]) == Some(digit_worth(text[2 * i + 1])));
        }
    }
}

proof fn digit_is_worth(d: int)
    requires
        0 <= d < 16,
    ensures
        ({
            let c = crate::text::digit_char(d);
            lower_hex(c) && digit_worth(c) == d
        }),
{
}

/// Byte strings are ordered by the first byte in which they differ, and a
/// proper prefix comes first.
pub proof fn order_goes_by_the_first_difference(a: Seq<u8>, b: Seq<u8>, i: int)
    requires
        0 <= i <= a.len(),
        i <= b.len(),
        a.take(i) == b.take(i),
    ensures
        i < a.len() && i < b.len() && a[i] != b[i] ==> lex_before(a, b) == (a[i] < b[i]),
        i == a.len() && i < b.len() ==> lex_before(a, b),
        i == b.len() ==> !lex_before(a, b),
    decreases i,
{
    if i > 0 {
        assert(a[0] == a.take(i)[0]);
        assert(b[0] == b.take(i)[0]);
        let x = a.drop_first();
        let y = b.drop_first();
        assert(x.take(i - 1) =~= a.take(i).drop_first());
        assert(y.take(i - 1) =~= b.take(i).drop_first());
        order_goes_by_the_first_difference(x, y, i - 1);
        assert(lex_before(a, b) == lex_before(x, y));
        assert(i < a.len() ==> x[i - 1] == a[i]);
        assert(i < b.len() ==> y[i - 1] == b[i]);
    }
}

/// A numeral is decimal digits after at most one plus sign. One more digit
/// multiplies its number by ten and adds the digit; a number beyond the
/// largest one allowed is none.
pub proof fn numerals_are_decimal(text: Seq<char>, digit: char, max: nat)
    requires
        text.len() > 0,
    ensures
        parsed_number(Seq::<char>::empty(), max) is None,
        parsed_number(seq!['+'], max) is None,
        !('0' <= digit <= '9') ==> parsed_number(text.push(digit), max) is None,
        '0' <= digit <= '9' && text != seq!['+'] ==> (parsed_number(text.push(digit), max)
            matches Some(n) ==> parsed_number(text, max) is Some && n == 10 * parsed_number(
            text,
            max,
        ).unwrap() + (digit as int - '0' as int)),
        '0' <= digit <= '9' ==> (parsed_number(text, max) matches Some(n) ==> (parsed_number(
            text.push(digit),
            max,
        ) is Some <==> 10 * n + (digit as int - '0' as int) <= max)),
        '0' <= digit <= '9' ==> parsed_number(seq![digit], max) == (if digit as int - '0' as int
            <= max {
            Some((digit as int - '0' as int) as nat)
        } else {
            None
        }) && parsed_number(seq!['+', digit], max) == parsed_number(seq![digit], max),
{
    let more = text.push(digit);
    let short = numeral_digits(text);
    let long = numeral_digits(more);
    assert(long =~= short.push(digit));
    assert(long.drop_last() =~= short);
    assert(numeral_digits(seq!['+']) =~= Seq::<char>::empty());
    if '0' <= digit <= '9' {
        assert(all_decimal(short) ==> all_decimal(long)) by {
            if all_decimal(short) {
                assert forall|i: int| 0 <= i < long.len() implies decimal_value(
                    #[trigger] long[i],
                ) is Some by {
                    if i < short.len() {
                        assert(short[i] == long[i]);
                    }
                }
            }
        }
        assert(all_decimal(long) ==> all_decimal(short)) by {
            if all_decimal(long) {
                assert forall|i: int| 0 <= i < short.len() implies decimal_value(
                    #[trigger] short[i],
                ) is Some by {
                    assert(long[i] == short[i]);
                }
            }
        }
        if short.len() == 0 {
            assert(text =~= seq!['+']);
        }
        let one = seq![digit];
        assert(one.drop_last() =~= Seq::<char>::empty());
        reveal_with_fuel(decimal_number, 3);
        assert(decimal_number(one) == digit as int - '0' as int);
        assert(all_decimal(one));
        assert(numeral_digits(one) =~= one);
        assert(numeral_digits(seq!['+', digit]) =~= one);
    } else {
        assert(decimal_value(long[long.len() - 1]) is None);
    }
}

/// A leaf is hashed over a zero byte, the identity, and the score in sixteen
/// bytes, most significant first; an inner node over a one byte and its two
/// children, left first; an empty epoch over a two byte and the domain.
pub proof fn hashed_bytes_are_laid_out(
    entry: ScoreEntry,
    left: [u8; 32],
    right: [u8; 32],
    domain: Seq<u8>,
)
    ensures
        ({
            let leaf = leaf_bytes(entry);
            &&& leaf.len() == 49
            &&& leaf[0] == 0
            &&& leaf.subrange(1, 33) == entry.identity.0@
            &&& be_value(leaf.subrange(33, 49)) == entry.score
        }),
        ({
            let node = node_bytes(left, right);
            &&& node.len() == 65
            &&& node[0] == 1
            &&& node.subrange(1, 33) == left@
            &&& node.subrange(33, 65) == right@
        }),
        empty_bytes(domain) == seq![2u8] + domain,
{
    int_ranges();
    be_round_trip(entry.score as nat, 16);
    let leaf = leaf_bytes(entry);
    assert(leaf.subrange(1, 33) =~= entry.identity.0@);
    assert(leaf.subrange(33, 49) =~= be_bytes(entry.score as nat, 16));
    let node = node_bytes(left, right);
    assert(node.subrange(1, 33) =~= left@);
    assert(node.subrange(33, 65) =~= right@);
}

/// The number that bytes stand for, digit by digit.
pub proof fn bytes_are_read_in_order(bytes: Seq<u8>, byte: u8)
    ensures
        be_value(Seq::<u8>::empty()) == 0,
        be_value(bytes.push(byte)) == 256 * be_value(bytes) + byte,
{
    assert(bytes.push(byte).drop_last() =~= bytes);
}

/// A power of two.
pub open spec fn power(p: nat) -> nat
    decreases p,
{
    if p == 0 {
        1
    } else {
        2 * power((p - 1) as nat)
    }
}

proof fn power_is_positive(p: nat)
    ensures
        power(p) >= 1,
    decreases p,
{
    if p > 0 {
        power_is_positive((p - 1) as nat);
    }
}

/// The tree over a level is split at the largest power of two below its
/// width: the root joins the roots of the two parts, left first. A level of
/// one is its own root.
pub proof fn trees_split_at_a_power_of_two(level: Seq<[u8; 32]>, p: nat)
    ensures
        level.len() == 1 ==> level_root(level) == level[0],
        power(p) < level.len() <= 2 * power(p) ==> level_root(level) == sha256_of(
            node_bytes(
                level_root(level.take(power(p) as int)),
                level_root(level.skip(power(p) as int)),
            ),
        ),
    decreases p,
{
    let k = power(p) as int;
    let n = level.len() as int;
    power_is_positive(p);
    if k < n <= 2 * k {
        let left = level.take(k);
        let right = level.skip(k);
        let next = next_level(level);
        if p == 0 {
            assert(next.len() == 1);
            assert(level_root(next) == next[0]);
            assert(left[0] == level[0]);
            assert(right[0] == level[1]);
        } else {
            let half = power((p - 1) as nat) as int;
            assert(k == 2 * half);
            trees_split_at_a_power_of_two(next, (p - 1) as nat);
            assert(next.len() == (n + 1) / 2);
            assert(half < next.len() <= 2 * half);
            let a = next_level(left);
            let b = next_level(right);
            assert forall|i: int| 0 <= i < half implies #[trigger] a[i] == next.take(half)[i] by {
                assert(2 * i + 1 < k);
                assert(left[2 * i] == level[2 * i]);
                assert(left[2 * i + 1] == level[2 * i + 1]);
            }
            assert(a =~= next.take(half));
            assert(right.len() == n - k);
            assert(b.len() == (n - k + 1) / 2);
            assert forall|i: int| 0 <= i < b.len() implies #[trigger] b[i] == next.skip(
                half,
            )[i] by {
                assert(next.skip(half)[i] == next[half + i]);
                assert(right[2 * i] == level[k + 2 * i]);
                assert(2 * (half + i) == k + 2 * i);
                if 2 * i + 1 < right.len() {
                    assert(right[2 * i + 1] == level[k + 2 * i + 1]);
                }
            }
            assert(b =~= next.skip(half));
            assert(level_root(left) == level_root(a));
            if right.len() == 1 {
                assert(b =~= right);
            }
            assert(level_root(right) == level_root(b));
        }
    }
}

/// The entries in ascending order of identity, each once.
pub open spec fn in_order(listed: Seq<ScoreEntry>, entries: Seq<ScoreEntry>) -> bool {
    &&& listed.len() == entries.len()
    &&& forall|i: int, j: int|
        0 <= i < j < listed.len() ==> lex_before(
            (#[trigger] listed[i]).identity.0@,
            (#[trigger] listed[j]).identity.0@,
        )
    &&& forall|e: ScoreEntry| #[trigger] listed.contains(e) <==> entries.contains(e)
}

/// The root of an epoch: refused exactly where two entries name one identity,
/// the hash of the domain where there is no entry, and else the root of the
/// tree over all entries, each hashed as a leaf, in ascending order of
/// identity.
pub proof fn roots_are_over_all_entries(entries: Seq<ScoreEntry>, domain: Seq<u8>)
    ensures
        root_of(entries, domain) is Err <==> exists|i: int, j: int|
            0 <= i < j < entries.len() && (#[trigger] entries[i]).identity == (
            #[trigger] entries[j]).identity,
        entries.len() == 0 ==> root_of(entries, domain) == Ok::<[u8; 32], CommitmentError>(
            sha256_of(empty_bytes(domain)),
        ),
        entries.len() > 0 && root_of(entries, domain) is Ok ==> exists|listed: Seq<ScoreEntry>|
            #[trigger]
            in_order(listed, entries) && root_of(entries, domain)->Ok_0 == level_root(
                Seq::new(listed.len(), |i: int| sha256_of(leaf_bytes(listed[i]))),
            ),
{
    if entries.len() > 0 && !has_duplicate(entries) {
        let scores = score_map(entries);
        let keys = sorted::<IdentityId>(scores.dom());
        let listed = ascending_entries(scores);
        score_map_domain(entries, entries[0].identity);
        sorted_lists::<IdentityId>(scores.dom());
        assert forall|i: int, j: int| 0 <= i < j < listed.len() implies lex_before(
            (#[trigger] listed[i]).identity.0@,
            (#[trigger] listed[j]).identity.0@,
        ) by {
            assert(key_before::<IdentityId>(keys[i], keys[j]));
        }
        assert forall|e: ScoreEntry| #[trigger] listed.contains(e) <==> entries.contains(e) by {
            if listed.contains(e) {
                let i = listed.index_of(e);
                assert(keys.to_set().contains(keys[i]));
                score_map_domain(entries, keys[i]);
                let j = choose|j: int|
                    0 <= j < entries.len() && (#[trigger] entries[j]).identity == keys[i];
                score_map_value(entries, j);
                assert(entries[j] == e);
            }
            if entries.contains(e) {
                let j = entries.index_of(e);
                score_map_value(entries, j);
                score_map_domain(entries, e.identity);
                assert(entries[j].identity == e.identity);
                assert(keys.to_set().contains(e.identity));
                let i = keys.index_of(e.identity);
                assert(listed[i] == e);
            }
        }
        let ids = entries.map_values(|e: ScoreEntry| e.identity);
        assert(ids.no_duplicates()) by {
            assert forall|i: int, j: int|
                0 <= i < ids.len() && 0 <= j < ids.len() && i != j implies ids[i] != ids[j] by {
                if i < j {
                    assert(entries[i].identity != entries[j].identity);
                } else {
                    assert(entries[j].identity != entries[i].identity);
                }
            }
        }
        crate::order::ascending_distinct::<IdentityId>(keys);
        assert(ids.to_set() =~= keys.to_set()) by {
            assert forall|id: IdentityId| #[trigger] ids.to_set().contains(id)
                == keys.to_set().contains(id) by {
                score_map_domain(entries, id);
                if ids.contains(id) {
                    assert(entries[ids.index_of(id)].identity == id);
                }
                if scores.dom().contains(id) {
                    let i = choose|i: int|
                        0 <= i < entries.len() && (#[trigger] entries[i]).identity == id;
                    assert(ids[i] == id);
                }
            }
        }
        ids.unique_seq_to_set();
        keys.unique_seq_to_set();
        assert(in_order(listed, entries));
        assert(leaf_level(listed) =~= Seq::new(
            listed.len(),
            |i: int| sha256_of(leaf_bytes(listed[i])),
        ));
    }
}

/// The bytes that are signed: the domain, the epoch in eight bytes, the
/// version's length in four and the version, the root, the number of entries
/// in eight bytes, and the total score and the organic value in sixteen each,
/// most significant byte first. There are none exactly where the root is not
/// 64 hexadecimal digits or the version's length does not fit.
pub proof fn envelopes_are_laid_out(envelope: CommitmentEnvelope)
    ensures
        envelope.canonical() is Ok <==> names_32_bytes(envelope.score_root_hex@) && encode_utf8(
            envelope.methodology_version@,
        ).len() <= u32::MAX,
        envelope.canonical() matches Ok(bytes) ==> {
            let domain = encode_utf8("aipow-commit-v0"@);
            let version = encode_utf8(envelope.methodology_version@);
            let d = domain.len() as int;
            let v = version.len() as int;
            &&& bytes.len() == d + 12 + v + 72
            &&& bytes.subrange(0, d) == domain
            &&& be_value(bytes.subrange(d, d + 8)) == envelope.epoch
            &&& be_value(bytes.subrange(d + 8, d + 12)) == v
            &&& bytes.subrange(d + 12, d + 12 + v) == version
            &&& bytes.subrange(d + 12 + v, d + 44 + v) == hex_bytes(envelope.score_root_hex@)
            &&& be_value(bytes.subrange(d + 44 + v, d + 52 + v)) == envelope.entry_count
            &&& be_value(bytes.subrange(d + 52 + v, d + 68 + v)) == envelope.total_score
            &&& be_value(bytes.subrange(d + 68 + v, d + 84 + v)) == envelope.organic_settled_value
        },
        envelope.canonical() matches Err(e) ==> e == if encode_utf8(
            envelope.methodology_version@,
        ).len() > u32::MAX {
            EnvelopeError::BadKeyMaterial
        } else {
            EnvelopeError::BadRoot
        },
        envelope.canonical() matches Ok(bytes) ==> envelope.canonical_digest() == Ok::<
            [u8; 32],
            EnvelopeError,
        >(sha256_of(bytes)),
        envelope.canonical() matches Err(e) ==> envelope.canonical_digest() == Err::<
            [u8; 32],
            EnvelopeError,
        >(e),
{
    hashes_are_64_digits(envelope.score_root_hex@);
    if envelope.canonical() is Ok {
        let bytes = envelope.canonical()->Ok_0;
        let domain = encode_utf8("aipow-commit-v0"@);
        let version = encode_utf8(envelope.methodology_version@);
        let d = domain.len() as int;
        let v = version.len() as int;
        int_ranges();
        be_round_trip(envelope.epoch as nat, 8);
        be_round_trip(version.len(), 4);
        be_round_trip(envelope.entry_count as nat, 8);
        be_round_trip(envelope.total_score as nat, 16);
        be_round_trip(envelope.organic_settled_value as nat, 16);
        assert(bytes.subrange(0, d) =~= domain);
        assert(bytes.subrange(d, d + 8) =~= be_bytes(envelope.epoch as nat, 8));
        assert(bytes.subrange(d + 8, d + 12) =~= be_bytes(version.len(), 4));
        assert(bytes.subrange(d + 12, d + 12 + v) =~= version);
        assert(bytes.subrange(d + 12 + v, d + 44 + v) =~= hex_bytes(envelope.score_root_hex@));
        assert(bytes.subrange(d + 44 + v, d + 52 + v) =~= be_bytes(
            envelope.entry_count as nat,
            8,
        ));
        assert(bytes.subrange(d + 52 + v, d + 68 + v) =~= be_bytes(
            envelope.total_score as nat,
            16,
        ));
        assert(bytes.subrange(d + 68 + v, d + 84 + v) =~= be_bytes(
            envelope.organic_settled_value as nat,
            16,
        ));
    }
}

/// The text is so many bytes in hexadecimal.
pub open spec fn names_bytes(text: Seq<char>, n: int) -> bool {
    text.len() == 2 * n && forall|i: int| 0 <= i < text.len() ==> hex_digit(#[trigger] text[i])
}

/// A commitment verifies exactly if its key and signature are written in
/// full, the key is one, the envelope has bytes to sign, and the key accepts
/// the signature for the digest of those bytes. Anything wrong with key or
/// encoding comes first, then the envelope, and only then the signature.
pub proof fn commitments_verify_by_signature(signed: SignedCommitment)
    ensures
        ({
            let key = hex_bytes(signed.public_key_hex@);
            let signature = hex_bytes(signed.signature_hex@);
            let encoded = names_bytes(signed.public_key_hex@, 32) && names_bytes(
                signed.signature_hex@,
                64,
            );
            &&& signed.verification() is Ok <==> {
                &&& encoded
                &&& ed25519_key_valid(key)
                &&& signed.envelope.canonical() is Ok
                &&& ed25519_accepts(
                    key,
                    sha256_of(signed.envelope.canonical()->Ok_0)@,
                    signature,
                )
            }
            &&& !(encoded && ed25519_key_valid(key)) ==> signed.verification() == Err::<
                (),
                EnvelopeError,
            >(EnvelopeError::BadKeyMaterial)
            &&& encoded && ed25519_key_valid(key) && signed.envelope.canonical() is Err
                ==> signed.verification() == Err::<(), EnvelopeError>(
                signed.envelope.canonical()->Err_0,
            )
            &&& encoded && ed25519_key_valid(key) && signed.envelope.canonical() is Ok
                && signed.verification() is Err ==> signed.verification() == Err::<
                (),
                EnvelopeError,
            >(EnvelopeError::BadSignature)
        }),
{
    encoded_bytes(signed.public_key_hex@, 32);
    encoded_bytes(signed.signature_hex@, 64);
}

pub proof fn encoded_bytes(text: Seq<char>, n: nat)
    ensures
        hex_array(text, n) == (if names_bytes(text, n as int) {
            Some(hex_bytes(text))
        } else {
            None
        }),
{
    if names_bytes(text, n as int) {
        assert forall|i: int| 0 <= i < text.len() implies hex_value(#[trigger] text[i]) is Some by {
            assert(hex_digit(text[i]));
        }
    }
    if hex_array(text, n) is Some {
        assert forall|i: int| 0 <= i < text.len() implies hex_digit(#[trigger] text[i]) by {
            assert(hex_value(text[i]) is Some);
        }
    }
}

} // verus!
