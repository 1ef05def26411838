# strategy

A quantitative-strategy toolkit whose decision logic is verified with Verus.

- `src/` is the verified library: cross-validation folds and walk-forward
  windows, time buckets and bar-grid arithmetic, the in-memory k-line store
  and time-series alignment, the least-recently-used caches and bounded
  history, strategy metrics, the versioned strategy registry and builder
  factory, config diffs, schema checks and overlay merging, ensemble voting
  and round-robin rotation, the seeded generator, CSV row reading, the
  parameter grid and perturbation plans, optimisation-job and result
  bookkeeping, order-intent windows and grouping, position and rebalance
  decisions, the paper order book, strategy assembly by category, event
  filtering, scheduling and rate limiting, HTTP routing and endpoints, and the
  trading terminal's interaction state machine.
- `tests/` exercises the library on concrete values.
- `app/` holds what the library does not: floating-point scoring, pricing and
  statistics, serde shapes, environment and file access, the HTTP and
  WebSocket clients, asynchronous loops and the terminal UI. It calls the
  library for the decisions it makes.
