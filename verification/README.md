# veex

The core of a proxy runtime, written and proved in Verus.

- `src/dns`: the DNS wire format, the response cache, server selection, DNS over
  HTTPS and over streams, and the executor that answers queries and resolves the
  domains the runtime dials.
- `src/execution`: outbounds, the dispatch of streams and packets, and the
  accounting of relayed bytes.
- `src/inbound`: the direct, redirect, tproxy and SOCKS inbounds.
- `src/text.rs`, `src/time.rs`, `src/types.rs`, `src/session.rs`,
  `src/error.rs`: what these share.

The core does no I/O. Work that has to wait is split into steps: a function takes
the state and what has happened, and says what to do next. `app/` holds the
sockets, tasks and timers that carry the steps out. What is promised of several
functions together is stated as proof functions whose names begin with `law_`.
