# nntp_proxy

A caching proxy for NNTP servers. The library under `src/` holds its logic, with
contracts that Verus proves; the program under `app/` reads, writes and connects.

| Module | What it holds |
| --- | --- |
| `types`, `protocol`, `command` | values that are valid by construction, status codes, requests and how they are classified |
| `auth` | logins of clients and logins at backends |
| `config`, `args`, `launch` | configuration, command-line arguments, and the life of a proxy from start to exit |
| `cache::payload`, `cache::ingest`, `cache::article` | what is kept of a response, and how it is served again |
| `cache::hybrid_codec`, `cache::hybrid` | the stored form of entries, and the decisions of the cache with a disk tier |
| `cache::filter`, `cache::availability_index` | a fixed-size index of which backends miss which articles |
| `cache::availability_identity`, `cache::availability_snapshot` | whose facts they are, and the files they are kept in |
| `cache::restoring`, `cache::lasting`, `cache::partitions` | laws on saving and loading, and on splitting the index |
| `cache::location`, `cache::session` | where articles are, and sessions that answer from the cache |
| `compression`, `client`, `connection_error` | compressed streams, fetching articles, and what goes wrong with connections |

Laws that hold of several functions are public proof functions whose names start
with `law_`.
