# open-pubusb

A message broker that speaks the Google Cloud Pub/Sub v1 API over gRPC and REST, on one machine and
without TLS. Its logic is a library verified with Verus; a thin program around it does the I/O.

## Layout

| Path | Holds |
|---|---|
| `src/` | the verified library `open_pubusb` |
| `tests/` | its tests |
| `app/` | the program: command line, sockets, disk, timers, JSON and protobuf |

The modules of the library:

| Module | Holds |
|---|---|
| `arith`, `text`, `string_map`, `id_map`, `encoding` | arithmetic that saturates, texts, ordered maps, JSON, Base64 and RFC 3339 |
| `error`, `names`, `limits`, `listing`, `clock` | errors and their codes, resource names, limits, pages, time |
| `filter` | the filter language: syntax, parser, evaluation |
| `store` | keys, the key/value store, records, the version of the format on disk |
| `topic`, `subscription` | the stored resources and the logs of messages |
| `topic_index` | why the index from topics to subscriptions is always right |
| `name_index` | why names and records always lead to each other, and why the pages of a list hold each resource once |
| `delivery` | cursors, leases, streams, retry backoff, dead letters, retention, snapshots, and the engine that hands messages out |
| `service` | the operations of the broker |
| `laws` | what holds across operations |
| `grpc`, `rest` | what the two interfaces decide: requests in, replies and errors out |
| `push` | the requests of push delivery, and which dispatchers run |
| `maintenance`, `metrics`, `config`, `shutdown`, `lifecycle` | sweeps, metrics, configuration, and the life of the process |

## How to read the contracts

Everything that is stored is a map from keyspace and key to a value (`store::kv::Rows`). A function
that changes the store says which writes it makes, in order, and a store may fail at any of them:
`store::kv::stored` and `service::performed` say what is then left. A store that never fails, such
as the one in memory, is `reliable`, and for it the contracts promise success. What depends on the
time takes it as an argument in the functions that end in `_at`; those that read the clock hold for
every time that it may tell.

What the library has from other crates (Base64, JSON strings, RFC 3339) stands behind small trusted
functions in `encoding` and `delivery::lease`, and from the standard library in `text` and `clock`.
