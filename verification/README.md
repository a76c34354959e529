# poiw-scorer

A verified scorer for Proof of Intelligent Work on TOS Network: per-epoch
scores from settled work, the demand-coupled pool, capped payouts, and the
score root that is committed on-chain. The scorer computes; it never mints,
holds, or moves funds.

The library under `src/` is written in Verus: its functions carry contracts,
and the contracts are proved. What is trusted instead are a few functions of
outside crates. Amounts are integer nanotos,
multipliers are integer basis points or percent, and arithmetic is checked:
overflow ends scoring with an error rather than wrapping.

## Layout

| Where | What |
|---|---|
| `src/types.rs`, `src/vocabulary.rs`, `src/hex.rs`, `src/text.rs`, `src/bytes.rs` | Domain types, the class registry, encodings |
| `src/order.rs`, `src/keyed.rs`, `src/listing.rs` | Ordered keys, maps walked in key order |
| `src/sums.rs`, `src/tally.rs`, `src/selection.rs` | Sums, totals per key, what the units of an epoch post |
| `src/score.rs`, `src/classifier.rs`, `src/payout.rs` | Score arithmetic, the concentration discount, pro-rata shares |
| `src/merkle.rs`, `src/merkle_laws.rs` | The score root, and what it commits to |
| `src/crypto.rs`, `src/decoding.rs` | The functions of outside crates that are trusted: SHA-256, ed25519, base64 |
| `src/source.rs` | What every chain source has |
| `src/poiw/` | The PoIW pipeline: scoring by identity, fixtures, `tosctld` ingestion, the command line |
| `src/aipow/` | The AIPoW pipeline: control domains, challenge budgets, signed commitments, the block walker |
| `app/` | The `poiw-scorer` program, JSON, files and HTTP |
| `tests/` | Tests of the library |

## Use

```text
poiw-scorer <fixture.json> <epoch> [schedule_cap] [k_percent]
```
