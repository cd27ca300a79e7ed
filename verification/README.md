# picloud_http

The HTTP slice of PiCloud, with its decisions verified by Verus.

- `src/` is the verified library. Every function there carries a
  `requires`/`ensures` contract over spec models (`Seq`, `Set`, `Map`,
  views), and the properties that span several calls are stated as public
  proof functions named `law_*`. Modules:
  - `text`, `iri`: string primitives, content negotiation and IRI routing;
  - `implementation`: the legacy ingress table, OCI registry path and scope
    rules, config-key screening, digests;
  - `router`, `ingress`, `tls`, `proxy`: the ingress router, its event
    handler, per-host certificates and the reverse-proxy rules;
  - `capability`, `alerts`, `data_product_monitor`, `inference`,
    `provisioner`, `apply`: capability resolution, alert and SLO state,
    inference diffs, provisioning and cascade plans, resource application;
  - `otel`, `telemetry`, `telemetry_files`, `metrics`, `self_monitor`: OTLP
    intake and aggregation windows, telemetry queries, partitions and
    retention, reading spans and metrics back from Parquet files, `/proc`
    parsing, health checks;
  - `handlers`, `auth`, `storage`: the request-level decisions of the HTTP
    endpoints (graph access, replay windows, OAuth grants, passkeys,
    volume sync, node enrollment).
- Outside crates are reached only through a few `#[verifier::external_body]`
  wrappers whose doc comments say what their contracts claim (chrono,
  sha2, base64, parquet/arrow encoding and decoding, serde_json validity,
  and `str` case mapping).
- Tables keyed by text (the ingress router's routes and tunnels, the
  per-host certificates, the SLO breach set, the alert firing state and
  the inference engine's previous triples) are held in `Vec`s with an
  invariant that no key occurs twice, rather than in `HashMap`s or
  `HashSet`s keyed by `String`: vstd's specifications of those std maps
  hold only for key types it knows to hash and compare consistently
  (`obeys_key_model`, established for the primitive integers and `bool`),
  and for `String` that can only be assumed, so nothing about a lookup by
  text could be proved. Each such type exposes its contents as a `Set` or `Map`
  of character sequences, and every method states what it does to it.
- `app/` is ordinary Rust around the library: reading `/proc` and the
  file system, the JSONL and Parquet telemetry stores, OTLP JSON decoding,
  and the floating-point arithmetic the library leaves out (metric means,
  alert thresholds, fractional `maxAge` durations). The HTTP server and its
  async drivers (the axum handlers, the projector queries, the event log)
  are not part of this crate.
- `tests/` runs the library on concrete values.
