# cache-proxy-api

An HTTP proxy with a Redis-backed response cache, in front of one or more backends.
The decisions are a library verified with Verus; a thin program performs the I/O.

- `src/` — the verified library:
  - `config` — the backend catalog, routing rules, their validation, and the
    process settings (`PORT`, `REDIS_URL`, `PROXY_CONFIG_PATH`);
  - `proxy` — longest-prefix route resolution, upstream URLs, cache keys, the cache
    bypass and header forwarding rules, and the proxy's error answers;
  - `response` — the response sent to clients, and how a response is stored in the
    cache and replayed from it;
  - `flow` — the handling of one request as a state machine over cache reads, the
    backend's answer and cache writes;
  - `laws` — properties that span several functions;
  - `text` — character-level string operations;
  - `boundary` — the calls into `reqwest` (URL parsing), `base64`, `http` (through
    `axum`) and std's UTF-8 decoding, with the contracts taken on trust.
- `app/` — the Axum service: environment and file reading, JSON (serde), Redis, the
  HTTP client, and the loop that performs what the state machine asks for.
- `tests/` — tests of the library.

The backend catalog is kept as a list of name/URL pairs with distinct names (`Backends`),
since vstd gives `HashMap` no key model for `String` keys; headers are kept as lists of
name/value pairs in the order `http::HeaderMap` yields them, the form in which the
library's rules can be stated and proved.
