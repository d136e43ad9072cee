# Esclusa

A safety gate for agent-driven infrastructure. Every mutating call that an agent
intends to make is evaluated against the live service topology before it runs:
refused when it violates policy, allowed and recorded when it does not, and held
against reality afterwards.

`src/` is the verified library. It decides; it does no I/O.

| Module | What it holds |
|---|---|
| `policy` | the ordered rules; the first that matches decides |
| `ledger` | canonical text, HMAC chain, pages, single-use authorizations |
| `json`, `clock`, `text`, `lists` | documents, instants and texts as the ledger signs them; facts about lists |
| `evaluation` | one request for a decision, step by step, fail closed |
| `topology`, `sync`, `reconcile` | the topology model, its reconciliation with a snapshot, and what that makes of the whole table |
| `probe`, `watch` | what to probe, and what an answer or a silence leads to |
| `rate_limit` | 30 requests per minute and client |
| `http`, `state`, `demo`, `db` | replies, secrets, the decommission scenario, start-up |

A proof function whose name begins with `law_` states something that holds of the
library as a whole.

Where a decision alternates with outside work (a database, a network), the
library offers a value with an `action`, which says what to do, and a `step`,
which takes how that went. `app/` does the work: HTTP, Postgres, Valkey and the
probes themselves.
