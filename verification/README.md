# QuotaMiser

A proxy that serves requests from a free daily token grant and stops before the
grant is used up. The most a request can consume is reserved before it is sent,
and the difference is settled afterwards. What the grant cannot cover is
refused, or, where one of OpenRouter's free models can take it, sent there.

```text
request -> upper bound of what it can consume
        -> refused where the bound does not fit what is left
        -> reserved, made durable outside the ledger and in it, then sent
        -> settled by the usage of the final event
```

## Layout

- `src/` is the library: every decision the proxy makes, with its contract.
- `app/` performs what the library decides: HTTP, SQLite, files, locks, clocks.
- `tests/` runs the library.

| Modules of `src/` | |
| --- | --- |
| `ledger`, `transitions`, `sending`, `rollover`, `inventory`, `requests`, `startup` | the ledger's operations, on the tables it stores |
| `tables`, `state`, `error`, `schema`, `hwm`, `lock`, `trust` | what the ledger stores, and whether it can be believed |
| `books`, `histories` | what every operation, and every history of operations, keeps |
| `epoch`, `clock`, `liability` | when a day's grant may be spent, and how much a request can consume |
| `shapes`, `allowlist`, `request`, `bodies`, `tools`, `rejection`, `normal_form`, `request_laws` | what a request may hold, and the bodies made from it |
| `admission`, `dispatch`, `relay`, `retrieval`, `status_policy` | admitting, sending, relaying and settling a request |
| `rate_limit`, `failure_breaker` | when nothing is sent for a while |
| `openrouter`, `openrouter_dispatch` | the fallback, counted by requests |
| `sse`, `responses`, `usage_api`, `upstream`, `json`, `codec`, `text` | what is read and written on the wire |
| `config`, `env_file`, `runtime`, `server`, `replies`, `error_body` | startup, and one exchange with a client |

## What is proved

`histories::upstream_liability_never_exceeds_the_grant` is the property the
proxy exists for. Whatever the history of a ledger, restarts included, in every
pool and on every day: what is reserved is exactly the liabilities of the
requests still open, what is consumed is exactly what requests consumed, and
both together fit the grant, but for what the provider itself reported beyond a
request's limit in that pool on that day. It holds where every day is opened
with the same grants and nothing is recovered from usage reporting;
`histories::no_history_exceeds_the_grant` states the bound for grants that never
shrink and recovered consumption that leaves room.

Around it stand the laws of the parts: that a request is sent only once its
dispatch is durable, that what may have been sent is never released without
proof, that a provider which a status closed is sent nothing until someone
clears it, that only the body a reservation was made for is sent on it and no
more than 32 are open at once, that no day is spent across its reset and none
opens early, that packet boundaries do not change what a stream says, short of
an event cut off at its size limit, that a request's body normalizes to itself.

The proofs rest on a few trusted items, each marked as such where it stands:
`serde_json`'s reading and writing, `reqwest`'s URL parser, `httpdate`'s date
parser, and three functions of the standard library.
