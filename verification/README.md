# ro11y

Lightweight Rust observability: hand-rolled OTLP protobuf over HTTP, built on
[tracing](https://docs.rs/tracing), with a core that is verified by
[Verus](https://github.com/verus-lang/verus).

- `src/` is the verified library: the protobuf wire format, the OTLP requests for traces, logs and
  metrics, metric aggregation, trace context, the decisions of the export pipeline, and the reading
  of process statistics. Contracts are stated over mathematical models, and the laws of the
  library (what a collector reads back, that nothing is lost on the way to it, that attribute order
  does not matter) are proof functions beside it.
- `app/` is the running stack around it: the tracing subscriber, the exporter task, the HTTP client,
  the tower middleware and the polling loops.
- `tests/` runs the library on concrete values.

## Conventions

Doubles are carried by their IEEE 754 bits. The library compares them; sums of doubles are made by a
function that the caller hands in.

A `MetricsRegistry` owns its data. `Counter`, `Gauge` and `Histogram` are handles into it, and every
measurement names the registry.

## Modules

| Module | What it holds |
|---|---|
| `proto`, `wire`, `reading` | wire format: encoders, the decoder model, reading of fields |
| `otlp_trace`, `otlp_log`, `otlp_metrics` | the requests and their encoders |
| `otlp_reading`, `otlp_metrics_reading`, `batch_reading` | what a collector reads from them |
| `otlp_layer` | what is kept of spans and events |
| `attrs`, `double`, `histogram`, `series`, `snapshot`, `metrics` | metric aggregation |
| `metric_laws`, `metric_runs` | what holds of it after one call, and after any run of calls |
| `exemplar`, `clock`, `trace_id` | links from metrics to traces, time, identifiers |
| `exporter`, `export_laws`, `delivery`, `dropped` | batching, retries, the count of drops |
| `aggregation`, `config`, `use_metrics` | periodic export, set-up, process statistics |
| `tower` | HTTP middleware |

## License

MIT OR Apache-2.0
