# rox

A robotics middleware core written in Verus: the message protocol and its wire
format, topic routing with wildcard key expressions, a deterministic task graph
and scheduler, the AI agent's rule engine and self-healing decisions, the
actuator-command guard, a tamper-evident audit chain, and a recording log that
replays bit for bit. Each public function states its behaviour in `requires` /
`ensures`, and Verus proves the code against it.

## Layout

- `src/` — the verified library.
  - `types.rs`, `keyexpr.rs`, `table.rs`, `text.rs` — shared data types, key
    expressions with `*` / `**` wildcards, small lookup tables, string helpers.
  - `message.rs`, `wire.rs`, `framing.rs`, `codec.rs`, `zbuf.rs`, `pool.rs` —
    messages and timestamps, the binary wire format (encode/decode), length
    framing, payload codecs, zero-copy buffers and a buffer pool.
  - `topic.rs`, `bridge.rs`, `registry.rs`, `selector.rs` — topic routing,
    bridging between namespaces, the node registry, transport selection.
  - `graph.rs`, `scheduler.rs`, `engine.rs`, `config.rs`, `commands.rs` — the
    task graph and its deterministic order, cycle scheduling, the engine that
    drives them, configuration sections and the `run` command's bootstrap.
  - `rule_engine.rs`, `healing.rs`, `throttle.rs`, `watchdog.rs` — the agent
    layer: versioned policy proposals, self-healing, throttling, heartbeats.
  - `validator.rs`, `audit.rs` — command validation and the hash-chained audit
    trail.
  - `log.rs`, `replay.rs` — the recording log and replay schedule.
  - `clock.rs`, `api.rs` — clock readings and the monitoring API's responses.
- `tests/` — tests that run the compiled library.
- `app/` — the program around the library: argument handling, file and network
  I/O, the async runtime, and the parts that compute with floating point.

The proof functions whose names begin with `law_` state properties that span
several calls, such as that a decoded frame gives back what was encoded, that
versions rise by one per proposal, or that an intact audit trail verifies.
