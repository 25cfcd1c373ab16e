# maiko

A topic-based publish/subscribe actor runtime for Tokio, with its routing,
bookkeeping and event-query logic verified by Verus.

Layout:

- `src/` — the verified library.
  - `routing.rs`: the subscriber registry (who receives an event of a topic),
    the overflow-policy dispatch table and the broker's command handling.
  - `controller.rs`: the actor loop's decisions (step scheduling, batch size,
    which commands stop an actor, the shutdown gate).
  - `topology.rs`: the Mermaid diagram and the subscription export.
  - `monitoring.rs`: the monitor interface and actor lifecycle bookkeeping.
  - `testing/`: recorded deliveries and the queries, spies, causal chains and
    traces built on them.
  - `ids.rs`, `meta.rs`, `envelope.rs`, `topic.rs`, `policy.rs`, `config.rs`,
    `subscribe.rs`, `command.rs`, `error.rs`: the value types.
  - `seqs.rs`, `text.rs`: sequence and text lemmas shared by the above.
- `app/` — the asynchronous runtime around the library: actor tasks, the
  broker task, the supervisor, monitor dispatch, serialisation and the test
  harness.
- `tests/` — tests of the library.
