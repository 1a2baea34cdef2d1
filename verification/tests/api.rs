use std::time::Duration;

use ro11y::config::{default_filter, plan, FlushInterval, LayerPlan};
use ro11y::dropped::{telemetry_dropped_total, DropCounter, Handover};
use ro11y::{propagation_layer, request_layer, TelemetryConfig};

#[test]
fn config_with_none_endpoint_does_not_panic() {
    let _config = TelemetryConfig {
        service_name: "test-service",
        service_version: "0.0.1",
        environment: "test",
        otlp_traces_endpoint: None,
        otlp_logs_endpoint: None,
        otlp_metrics_endpoint: None,
        log_to_stderr: false,
        use_metrics_interval: None,
        metrics_flush_interval: None,
    };
}

#[test]
fn request_layer_constructs() {
    let _layer = request_layer();
}

#[test]
fn lib_propagation_layer_constructs() {
    let _layer = propagation_layer();
}

#[test]
fn telemetry_dropped_total_is_callable() {
    let counter = DropCounter::new();
    let _count = telemetry_dropped_total(&counter);
}

#[test]
fn only_a_full_channel_counts_as_dropped() {
    let mut counter = DropCounter::new();
    assert_eq!(telemetry_dropped_total(&counter), 0);
    counter.note(Handover::Sent);
    counter.note(Handover::Closed);
    assert_eq!(telemetry_dropped_total(&counter), 0);
    counter.note(Handover::Full);
    counter.note(Handover::Full);
    assert_eq!(telemetry_dropped_total(&counter), 2);
}

fn config() -> TelemetryConfig {
    TelemetryConfig {
        service_name: "my-service",
        service_version: "1.2.3",
        environment: "prod",
        otlp_traces_endpoint: None,
        otlp_logs_endpoint: None,
        otlp_metrics_endpoint: None,
        log_to_stderr: false,
        use_metrics_interval: None,
        metrics_flush_interval: None,
    }
}

#[test]
fn nothing_is_set_up_without_endpoints() {
    let plan = plan(&config());
    assert!(!plan.stderr_json);
    assert!(plan.exporter.is_none());
    assert!(plan.layer.is_none());
    assert!(plan.use_metrics_interval.is_none());
    assert!(plan.metrics_flush.is_none());
}

#[test]
fn endpoints_are_independent() {
    let plan = plan(&TelemetryConfig {
        otlp_traces_endpoint: Some("http://jaeger:4318"),
        otlp_metrics_endpoint: Some("http://gateway:4318"),
        log_to_stderr: true,
        use_metrics_interval: Some(Duration::from_secs(30)),
        ..config()
    });
    assert!(plan.stderr_json);
    let exporter = plan.exporter.unwrap();
    assert_eq!(
        exporter.traces_url.as_deref(),
        Some("http://jaeger:4318/v1/traces")
    );
    assert_eq!(exporter.logs_url, None);
    assert_eq!(
        exporter.metrics_url.as_deref(),
        Some("http://gateway:4318/v1/metrics")
    );
    assert_eq!(exporter.channel_capacity, 1024);
    assert_eq!(exporter.batch_size, 512);
    assert_eq!(exporter.flush_interval_secs, 1);
    assert_eq!(exporter.max_concurrent_exports, 4);
    assert_eq!(
        plan.layer,
        Some(LayerPlan {
            export_traces: true,
            export_logs: false
        })
    );
    assert_eq!(plan.use_metrics_interval, Some(Duration::from_secs(30)));
    assert!(matches!(plan.metrics_flush, Some(FlushInterval::Seconds(10))));
}

#[test]
fn metrics_alone_need_no_layer() {
    let plan = plan(&TelemetryConfig {
        otlp_metrics_endpoint: Some("http://vector:4318"),
        metrics_flush_interval: Some(Duration::from_secs(15)),
        ..config()
    });
    assert!(plan.exporter.is_some());
    assert!(plan.layer.is_none());
    match plan.metrics_flush {
        Some(FlushInterval::Given(interval)) => assert_eq!(interval, Duration::from_secs(15)),
        _ => panic!("expected the given interval"),
    }
}

#[test]
fn logs_alone_have_a_layer() {
    let plan = plan(&TelemetryConfig {
        otlp_logs_endpoint: Some("http://vector:4318"),
        ..config()
    });
    let exporter = plan.exporter.unwrap();
    assert_eq!(exporter.traces_url, None);
    assert_eq!(
        exporter.logs_url.as_deref(),
        Some("http://vector:4318/v1/logs")
    );
    assert_eq!(
        plan.layer,
        Some(LayerPlan {
            export_traces: false,
            export_logs: true
        })
    );
    assert!(plan.metrics_flush.is_none());
}

#[test]
fn default_filter_is_info() {
    assert_eq!(default_filter(), "info,tower_http=info");
}

#[test]
fn every_drop_counts_once() {
    let run = [
        Handover::Full,
        Handover::Sent,
        Handover::Full,
        Handover::Closed,
        Handover::Full,
        Handover::Sent,
    ];
    let mut counter = DropCounter::new();
    let mut last = 0;
    for round in 1..=5u64 {
        for handover in run {
            counter.note(handover);
            let total = telemetry_dropped_total(&counter);
            assert_eq!(total, last + (handover == Handover::Full) as u64);
            assert_eq!(total, telemetry_dropped_total(&counter));
            last = total;
        }
        assert_eq!(last, 3 * round);
    }
}
