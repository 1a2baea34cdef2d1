//! Lightweight observability: OTLP protobuf encoding, metric aggregation, trace context and the
//! decisions of the export pipeline, each verified against a mathematical model.

pub mod aggregation;
pub mod attrs;
pub mod batch_reading;
pub mod clock;
pub mod collect_laws;
pub mod config;
pub mod delivery;
pub mod double;
pub mod dropped;
pub mod exemplar;
pub mod export_laws;
pub mod exporter;
pub mod histogram;
pub mod layer_laws;
pub mod metric_laws;
pub mod metric_runs;
pub mod metrics;
pub mod otlp_laws;
pub mod otlp_layer;
pub mod otlp_log;
pub mod otlp_metrics;
pub mod otlp_metrics_reading;
pub mod otlp_reading;
pub mod otlp_trace;
pub mod proto;
pub mod reading;
pub mod series;
pub mod snapshot;
pub mod tower;
pub mod trace_id;
pub mod use_metrics;
pub mod wire;

pub use config::TelemetryConfig;
pub use metrics::{Counter, Gauge, Histogram};
pub use tower::propagation::{propagation_layer, PropagationLayer};
pub use tower::request::{request_layer, CfRequestIdLayer};
