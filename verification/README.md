# Chutes Autopilot

The routing core of an OpenAI-compatible gateway for chat models, written in Rust
and verified with Verus. A client sends its chat completions to one address and
names, as the model,

- the alias `chutesai/AutoPilot`, for the model that ranks best right now,
- a comma-separated list of models, tried in that order, or
- one model, to which the request goes as it is.

The gateway replaces the name of the model in the body, sends the request on, and
streams the answer back. It goes on to the next model only as long as nothing was
handed to the client: when the upstream cannot be reached, does not answer in time,
is unavailable, or sends no body. A rate limit is always handed back. A client goes
on using the model that served it until that model fails.

## Layout

- `src/` is the library. Every function there has a contract that Verus proves;
  calls into other crates stand behind a few functions whose contracts are taken
  on trust and say so in their comments.
- `app/` is the program: environment, clock, sockets, streams, JSON records, and
  the score of a chute, which is computed in floating point.
- `tests/` runs the library on concrete values.

| Module | What it holds |
| --- | --- |
| `models` | aliases, preference lists, the allowlist |
| `ranking` | which chutes are candidates, and their order |
| `client`, `net` | the key of a client; addresses and networks |
| `request` | from a body to the models to try |
| `failover` | what follows from each reply of an upstream |
| `state`, `sticky` | snapshots, readiness, the models clients stick to |
| `headers`, `json`, `error` | header fields, bodies, error answers |
| `config`, `text` | settings from the environment; text and numbers |

## What is proved

Besides the contract of each function, the library states what holds of it as a
whole, as public proof functions: that the ranking is one and does not depend on
the order of the feed, that a preference list reads back as written, that models
are tried in order and the first usable reply settles the request, that a rate
limit is never retried, that fields of one connection never cross the gateway,
that only the model changes in a body, and that a client sticks to the model that
served it.

## Settings

| Variable | Default |
| --- | --- |
| `LISTEN_ADDR` | `0.0.0.0:8080` |
| `BACKEND_BASE_URL` | `https://llm.chutes.ai` |
| `MODELS_URL` | `https://llm.chutes.ai/v1/models` |
| `MODELS_REFRESH_MS` | `300000` |
| `UTILIZATION_URL` | `https://api.chutes.ai/chutes/utilization` |
| `UTILIZATION_REFRESH_MS` | `5000` |
| `CONTROL_PLANE_TIMEOUT_MS` | `10000` |
| `READYZ_MAX_SNAPSHOT_AGE_MS` | `20000` |
| `STICKY_TTL_SECS` | `1800` |
| `STICKY_MAX_ENTRIES` | `10000` |
| `TRUST_PROXY_HEADERS` | `false` |
| `TRUSTED_PROXY_CIDRS` | none |
| `MAX_REQUEST_BYTES` | `1048576` |
| `MAX_MODEL_LIST_ITEMS` | `8` |
| `UPSTREAM_CONNECT_TIMEOUT_MS` | `2000` |
| `UPSTREAM_HEADER_TIMEOUT_MS` | `10000` |
| `UPSTREAM_FIRST_BODY_BYTE_TIMEOUT_MS` | `120000` |
| `RUST_LOG` | `info` |
