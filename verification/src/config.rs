//! Configuration of the telemetry stack, and what it asks to be set up.

use std::time::Duration;

use vstd::prelude::*;

verus! {

/// Configuration for the telemetry stack.
pub struct TelemetryConfig {
    pub service_name: &'static str,
    pub service_version: &'static str,
    pub environment: &'static str,
    /// OTLP HTTP endpoint for traces (e.g. "http://jaeger:4318").
    /// If None, trace export is disabled.
    pub otlp_traces_endpoint: Option<&'static str>,
    /// OTLP HTTP endpoint for logs (e.g. "http://vector:4318").
    /// If None, log export is disabled. Can differ from traces endpoint.
    pub otlp_logs_endpoint: Option<&'static str>,
    /// OTLP HTTP endpoint for metrics (e.g. "http://vector:4318").
    /// If None, metrics export is disabled.
    pub otlp_metrics_endpoint: Option<&'static str>,
    /// Whether to emit JSON-formatted logs to stderr.
    pub log_to_stderr: bool,
    /// Polling interval for USE metrics (cpu, memory) from `/proc/self/stat`.
    /// If None, USE metrics collection is disabled.
    /// Only active on Linux; no-op on other platforms.
    pub use_metrics_interval: Option<Duration>,
    /// How often to flush aggregated metrics to the OTLP endpoint.
    /// Defaults to 10 seconds if None.
    pub metrics_flush_interval: Option<Duration>,
}

/// Configuration for the exporter.
pub struct ExporterConfig {
    pub traces_url: Option<String>,
    pub logs_url: Option<String>,
    pub metrics_url: Option<String>,
    /// How many messages wait for the exporter before further ones are dropped.
    pub channel_capacity: usize,
    /// How many messages of one signal make a batch.
    pub batch_size: usize,
    /// How long a batch waits for more messages.
    pub flush_interval_secs: u64,
    /// How many batches are under way at once.
    pub max_concurrent_exports: usize,
}

/// Which signals the tracing layer exports.
#[derive(Clone, Copy, Debug, PartialEq, Eq)]
pub struct LayerPlan {
    pub export_traces: bool,
    pub export_logs: bool,
}

/// How often aggregated metrics are flushed.
pub enum FlushInterval {
    Given(Duration),
    Seconds(u64),
}

/// What a configuration asks to be set up.
pub struct TelemetryPlan {
    /// A layer with JSON output to stderr.
    pub stderr_json: bool,
    /// The exporter that ships every enabled signal.
    pub exporter: Option<ExporterConfig>,
    /// The tracing layer that feeds it.
    pub layer: Option<LayerPlan>,
    /// The polling of process metrics.
    pub use_metrics_interval: Option<Duration>,
    /// The periodic export of aggregated metrics.
    pub metrics_flush: Option<FlushInterval>,
}

/// Messages that wait for the exporter.
pub const CHANNEL_CAPACITY: usize = 1024;

/// Messages in a batch.
pub const BATCH_SIZE: usize = 512;

/// Seconds that a batch waits.
pub const BATCH_WINDOW_SECS: u64 = 1;

/// Batches under way at once.
pub const MAX_CONCURRENT_EXPORTS: usize = 4;

/// Seconds between two flushes of aggregated metrics, where none are given.
pub const METRICS_FLUSH_SECS: u64 = 10;

/// The URL of a signal, where its endpoint is given.
pub open spec fn signal_url(endpoint: Option<&'static str>, path: Seq<char>) -> Option<Seq<char>> {
    match endpoint {
        Some(base) => Some(base@ + path),
        None => None,
    }
}

/// The text that an optional string holds.
pub open spec fn text_of(text: Option<String>) -> Option<Seq<char>> {
    match text {
        Some(s) => Some(s@),
        None => None,
    }
}

impl TelemetryConfig {
    /// Whether any signal is exported.
    pub open spec fn exports(&self) -> bool {
        self.otlp_traces_endpoint is Some || self.otlp_logs_endpoint is Some
            || self.otlp_metrics_endpoint is Some
    }
}

/// The filter in force where the environment sets none.
pub fn default_filter() -> (filter: &'static str)
    ensures
        filter@ == "info,tower_http=info"@,
{
    "info,tower_http=info"
}

/// The URL of a signal, where its endpoint is given.
fn endpoint_url(endpoint: Option<&'static str>, path: &'static str) -> (url: Option<String>)
    ensures
        text_of(url) == signal_url(endpoint, path@),
{
    match endpoint {
        Some(base) => {
            let mut url = base.to_string();
            url.append(path);
            Some(url)
        },
        None => None,
    }
}

/// Decide what a configuration asks to be set up:
/// 1. JSON output to stderr if `log_to_stderr` is true
/// 2. An exporter if any OTLP endpoint is given, with one URL for each that is
/// 3. A tracing layer if traces or logs are exported
/// 4. The polling of process metrics if an interval is given
/// 5. The periodic export of metrics if the metrics endpoint is given
pub fn plan(config: &TelemetryConfig) -> (plan: TelemetryPlan)
    ensures
        plan.stderr_json == config.log_to_stderr,
        plan.exporter is Some <==> config.exports(),
        plan.exporter matches Some(exporter) ==> {
            &&& text_of(exporter.traces_url) == signal_url(
                config.otlp_traces_endpoint,
                "/v1/traces"@,
            )
            &&& text_of(exporter.logs_url) == signal_url(config.otlp_logs_endpoint, "/v1/logs"@)
            &&& text_of(exporter.metrics_url) == signal_url(
                config.otlp_metrics_endpoint,
                "/v1/metrics"@,
            )
            &&& exporter.channel_capacity == CHANNEL_CAPACITY
            &&& exporter.batch_size == BATCH_SIZE
            &&& exporter.flush_interval_secs == BATCH_WINDOW_SECS
            &&& exporter.max_concurrent_exports == MAX_CONCURRENT_EXPORTS
            &&& exporter.traces_url is Some <==> config.otlp_traces_endpoint is Some
            &&& exporter.traces_url matches Some(url) ==> url@ == (config.otlp_traces_endpoint->0)@
                + "/v1/traces"@
            &&& exporter.logs_url is Some <==> config.otlp_logs_endpoint is Some
            &&& exporter.logs_url matches Some(url) ==> url@ == (config.otlp_logs_endpoint->0)@
                + "/v1/logs"@
            &&& exporter.metrics_url is Some <==> config.otlp_metrics_endpoint is Some
            &&& exporter.metrics_url matches Some(url) ==> url@ == (
            config.otlp_metrics_endpoint->0)@ + "/v1/metrics"@
            &&& exporter.channel_capacity == 1024
            &&& exporter.batch_size == 512
            &&& exporter.flush_interval_secs == 1
            &&& exporter.max_concurrent_exports == 4
        },
        plan.exporter is Some <==> config.otlp_traces_endpoint is Some
            || config.otlp_logs_endpoint is Some || config.otlp_metrics_endpoint is Some,
        plan.layer == if config.otlp_traces_endpoint is Some || config.otlp_logs_endpoint is Some {
            Some(
                LayerPlan {
                    export_traces: config.otlp_traces_endpoint is Some,
                    export_logs: config.otlp_logs_endpoint is Some,
                },
            )
        } else {
            None
        },
        plan.use_metrics_interval == config.use_metrics_interval,
        plan.metrics_flush == if config.otlp_metrics_endpoint is Some {
            Some(
                match config.metrics_flush_interval {
                    Some(interval) => FlushInterval::Given(interval),
                    None => FlushInterval::Seconds(METRICS_FLUSH_SECS),
                },
            )
        } else {
            None
        },
{
    let export_traces = config.otlp_traces_endpoint.is_some();
    let export_logs = config.otlp_logs_endpoint.is_some();
    let export_metrics = config.otlp_metrics_endpoint.is_some();

    let exporter = if export_traces || export_logs || export_metrics {
        Some(
            ExporterConfig {
                traces_url: endpoint_url(config.otlp_traces_endpoint, "/v1/traces"),
                logs_url: endpoint_url(config.otlp_logs_endpoint, "/v1/logs"),
                metrics_url: endpoint_url(config.otlp_metrics_endpoint, "/v1/metrics"),
                channel_capacity: CHANNEL_CAPACITY,
                batch_size: BATCH_SIZE,
                flush_interval_secs: BATCH_WINDOW_SECS,
                max_concurrent_exports: MAX_CONCURRENT_EXPORTS,
            },
        )
    } else {
        None
    };
    let layer = if export_traces || export_logs {
        Some(LayerPlan { export_traces, export_logs })
    } else {
        None
    };
    let metrics_flush = if export_metrics {
        match config.metrics_flush_interval {
            Some(interval) => Some(FlushInterval::Given(interval)),
            None => Some(FlushInterval::Seconds(METRICS_FLUSH_SECS)),
        }
    } else {
        None
    };
    TelemetryPlan {
        stderr_json: config.log_to_stderr,
        exporter,
        layer,
        use_metrics_interval: config.use_metrics_interval,
        metrics_flush,
    }
}

/// The URL of a signal is its endpoint followed by its path, and there is one exactly where there
/// is an endpoint.
pub proof fn law_signal_url(endpoint: Option<&'static str>, path: Seq<char>)
    ensures
        endpoint is None ==> signal_url(endpoint, path) is None,
        endpoint matches Some(base) ==> signal_url(endpoint, path) == Some(base@ + path),
{
}

/// Something is exported exactly if some endpoint is given.
pub proof fn law_exports(config: TelemetryConfig)
    ensures
        config.exports() <==> !(config.otlp_traces_endpoint is None
            && config.otlp_logs_endpoint is None && config.otlp_metrics_endpoint is None),
{
}

/// The set-up where nothing else is asked for: 1024 messages wait, 512 make a batch, a batch waits
/// a second, four are under way at once, and metrics are flushed every ten seconds.
pub proof fn law_defaults()
    ensures
        CHANNEL_CAPACITY == 1024,
        BATCH_SIZE == 512,
        BATCH_WINDOW_SECS == 1,
        MAX_CONCURRENT_EXPORTS == 4,
        METRICS_FLUSH_SECS == 10,
{
}

} // verus!
