# udp-balancer

A UDP load balancer whose logic is verified with Verus: flow-consistent hashing,
weighted round robin, rendezvous and Maglev hashing, sessions, traffic mirroring,
raw datagrams with a source address of choice, health checks, configuration
checks and status reports.

## Layout

- `src/` is the library. Verus proves every function in it against its
  contract, but for the few wrappers around calls into other crates, each of
  which says what it claims of the call. It does no I/O: what sockets, clocks
  and other machines say reaches it as plain values, and what it decides leaves
  it as plain values.
  - `balancer/` chooses backends (`wrr`, `rh`, `maglev`), tells flows apart
    (`flow`), keeps sessions (`session`) and plans what becomes of a packet
    (`dispatch`, `mirror`, `backend`).
  - `raw_socket` builds and checksums datagrams.
  - `config` and `app` judge a configuration and turn it into what is set up.
  - `listener`, `server` and `metrics` take packets in, watch backends, count
    and report.
  - `number`, `whole`, `net`, `time`, `text`, `hashing` are the values all of
    this is made of, and `family_ids` works out that the metrics can be told
    apart.
- `app/` is the program: command line, sockets, HTTP, timers and the tasks that
  run them.
- `tests/` runs the library.

## Numbers

Weights, probabilities and scores are doubles. The library keeps them by their
bits and compares them itself; the arithmetic on them (a rest, a difference, a
rounded quotient, a score) is handed in as functions, and the contracts hold for
whatever these compute.

## Laws

Proof functions named `law_..` state what holds of the library as a whole, such
as that packets of one flow go to one backend, that a failing backend moves only
its own flows under rendezvous hashing, that a round robin chooses backends in
proportion to their weights in every window of packets, that a backend is given
exactly while one is up, that every packet carries the source it was given and
its checksum verifies at the receiver, that what was counted is exposed, and
that a configuration that was accepted can be set up.
