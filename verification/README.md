# atomr

Primitives for regulated, real-money systems on top of an actor and streaming
substrate. The library is written in Verus: each executable function carries a
contract that is proved, and the properties that span functions are proved as
public proof functions.

| module | holds |
| --- | --- |
| `money` | exact decimals, currencies, money, prices and quantities |
| `persistence` | persisted events, a seeded generator, record-and-replay, effects |
| `sql` | dialects, migrations, statements, the rows a journal writes, the hash chain |
| `patterns` | the transactional outbox |
| `fix` | FIX messages and their wire form, sequence stores, the session |
| `streams` | clock gating, lock-stepping, rate mediation, polling and websocket decisions |
| `crdt` | signed sums that converge, flags and registers |
| `cluster` | membership, downing strategies, the split-brain resolver |
| `cluster_tools` | the kill switch, the cluster singleton, publish/subscribe |
| `actor` | references, metadata, envelopes, operating modes |
| `telemetry` | events and topics, export settings, trace context |
| `time`, `calendar` | logical clocks, civil dates |
| `text`, `scan`, `seqs`, `ordmap`, `buffer` | what the others are built from |

What the library does not prove is in items marked `external_body` (or
`assume_specification`): calls into `rust_decimal`, `rand_chacha`, `sha2`,
`bytes`, `opentelemetry` and a few functions of the standard library. The doc
comment of each names the function and says what is believed of it.

`app/` is ordinary Rust around the library: databases, sockets, timers,
serialization, telemetry export and Python bindings. `tests/` runs the library
on concrete values, with the real crates linked.
