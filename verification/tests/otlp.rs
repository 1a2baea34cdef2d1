use std::sync::Arc;

use ro11y::exemplar::{Exemplar, ExemplarValue};
use ro11y::otlp_layer::{
    level_text, level_to_severity, service_attrs, FieldCollector, Level, OtlpLayer, SpanFields,
    SpanTiming,
};
use ro11y::otlp_log::{encode_export_logs_request, LogData, SeverityNumber};
use ro11y::otlp_metrics::encode_export_metrics_request;
use ro11y::otlp_trace::{
    encode_export_trace_request, encode_key_value, encode_resource, AnyValue, KeyValue, SpanData,
    SpanKind, SpanStatus, StatusCode,
};
use ro11y::snapshot::{HistogramDataPoint, MetricSnapshot};

/// A field of a message, read independently of the encoder.
#[derive(Debug, PartialEq, Clone)]
enum Got {
    Varint(u64),
    Fixed(u64),
    Bytes(Vec<u8>),
}

fn read_varint(data: &[u8], at: &mut usize) -> u64 {
    let mut value: u64 = 0;
    let mut shift = 0;
    loop {
        let b = data[*at];
        *at += 1;
        value |= ((b & 0x7f) as u64) << shift;
        if b & 0x80 == 0 {
            return value;
        }
        shift += 7;
    }
}

fn read(data: &[u8]) -> Vec<(u64, Got)> {
    let mut fields = Vec::new();
    let mut at = 0;
    while at < data.len() {
        let tag = read_varint(data, &mut at);
        let got = match tag & 7 {
            0 => Got::Varint(read_varint(data, &mut at)),
            1 => {
                let mut le = [0u8; 8];
                le.copy_from_slice(&data[at..at + 8]);
                at += 8;
                Got::Fixed(u64::from_le_bytes(le))
            }
            2 => {
                let len = read_varint(data, &mut at) as usize;
                at += len;
                Got::Bytes(data[at - len..at].to_vec())
            }
            _ => panic!("unexpected wire type"),
        };
        fields.push((tag >> 3, got));
    }
    fields
}

fn all(fields: &[(u64, Got)], number: u64) -> Vec<Got> {
    fields
        .iter()
        .filter(|(n, _)| *n == number)
        .map(|(_, got)| got.clone())
        .collect()
}

fn nested(fields: &[(u64, Got)], number: u64) -> Vec<(u64, Got)> {
    match &all(fields, number)[..] {
        [Got::Bytes(data)] => read(data),
        other => panic!("expected one message, got {:?}", other),
    }
}

fn text(s: &str) -> Vec<Got> {
    vec![Got::Bytes(s.as_bytes().to_vec())]
}

fn kv(key: &str, value: AnyValue) -> KeyValue {
    KeyValue {
        key: key.to_string(),
        value,
    }
}

fn string(s: &str) -> AnyValue {
    AnyValue::String(s.to_string())
}

#[test]
fn key_values_on_the_wire() {
    let cases: Vec<(KeyValue, Vec<u8>)> = vec![
        (
            kv("k", string("v")),
            vec![0x0A, 1, b'k', 0x12, 3, 0x0A, 1, b'v'],
        ),
        (kv("k", AnyValue::Bool(false)), vec![0x0A, 1, b'k', 0x12, 2, 0x10, 0]),
        (kv("k", AnyValue::Bool(true)), vec![0x0A, 1, b'k', 0x12, 2, 0x10, 1]),
        (kv("k", AnyValue::Int(0)), vec![0x0A, 1, b'k', 0x12, 2, 0x18, 0]),
        (
            kv("k", AnyValue::Int(-1)),
            vec![
                0x0A, 1, b'k', 0x12, 11, 0x18, 0xff, 0xff, 0xff, 0xff, 0xff, 0xff, 0xff, 0xff, 0xff,
                0x01,
            ],
        ),
        (
            kv("k", AnyValue::Double(1.5f64.to_bits())),
            vec![0x0A, 1, b'k', 0x12, 9, 0x21, 0, 0, 0, 0, 0, 0, 0xf8, 0x3f],
        ),
        (kv("k", string("")), vec![0x0A, 1, b'k']),
        (kv("", string("")), vec![]),
    ];
    for (attr, expected) in cases {
        let mut buf = Vec::new();
        encode_key_value(&mut buf, &attr);
        assert_eq!(buf, expected, "{:?}", attr);
    }
}

#[test]
fn resource_lists_its_attributes() {
    let mut buf = vec![7];
    encode_resource(&mut buf, &[kv("a", string("1")), kv("b", AnyValue::Int(2))]);
    assert_eq!(
        buf,
        vec![
            7, 0x0A, 8, 0x0A, 1, b'a', 0x12, 3, 0x0A, 1, b'1', 0x0A, 7, 0x0A, 1, b'b', 0x12, 2, 0x18,
            2
        ]
    );
}

fn span() -> SpanData {
    SpanData {
        trace_id: [0xAB; 16],
        span_id: [0xCD; 8],
        parent_span_id: [0; 8],
        name: "work".to_string(),
        kind: SpanKind::Internal,
        start_time_unix_nano: 1000,
        end_time_unix_nano: 2000,
        attributes: vec![kv("job", AnyValue::Int(42))],
        status: None,
    }
}

#[test]
fn trace_request_reads_back() {
    let child = SpanData {
        parent_span_id: [0xCD; 8],
        kind: SpanKind::Server,
        status: Some(SpanStatus {
            message: "boom".to_string(),
            code: StatusCode::Error,
        }),
        ..span()
    };
    let data = encode_export_trace_request(
        &[kv("service.name", string("svc"))],
        "scope",
        "9.9",
        &[span(), child],
    );
    let group = nested(&read(&data), 1);
    let resource = nested(&group, 1);
    assert_eq!(all(&nested(&resource, 1), 1), text("service.name"));
    let scoped = nested(&group, 2);
    let scope = nested(&scoped, 1);
    assert_eq!(all(&scope, 1), text("scope"));
    assert_eq!(all(&scope, 2), text("9.9"));
    let spans: Vec<Vec<(u64, Got)>> = all(&scoped, 2)
        .iter()
        .map(|got| match got {
            Got::Bytes(data) => read(data),
            _ => panic!("expected a span"),
        })
        .collect();
    assert_eq!(spans.len(), 2);
    let root = &spans[0];
    assert_eq!(all(root, 1), vec![Got::Bytes(vec![0xAB; 16])]);
    assert_eq!(all(root, 2), vec![Got::Bytes(vec![0xCD; 8])]);
    assert_eq!(all(root, 4), vec![]);
    assert_eq!(all(root, 5), text("work"));
    assert_eq!(all(root, 6), vec![Got::Varint(1)]);
    assert_eq!(all(root, 7), vec![Got::Fixed(1000)]);
    assert_eq!(all(root, 8), vec![Got::Fixed(2000)]);
    let attr = nested(root, 9);
    assert_eq!(all(&attr, 1), text("job"));
    assert_eq!(all(&nested(&attr, 2), 3), vec![Got::Varint(42)]);
    assert_eq!(all(root, 15), vec![]);
    let child = &spans[1];
    assert_eq!(all(child, 4), vec![Got::Bytes(vec![0xCD; 8])]);
    assert_eq!(all(child, 6), vec![Got::Varint(2)]);
    let status = nested(child, 15);
    assert_eq!(all(&status, 2), text("boom"));
    assert_eq!(all(&status, 3), vec![Got::Varint(2)]);
}

#[test]
fn span_kinds_and_status_codes_are_numbered() {
    let kinds = [
        (SpanKind::Internal, 1),
        (SpanKind::Server, 2),
        (SpanKind::Client, 3),
        (SpanKind::Producer, 4),
        (SpanKind::Consumer, 5),
    ];
    for (kind, number) in kinds {
        let data = encode_export_trace_request(&[], "", "", &[SpanData { kind, ..span() }]);
        let one = nested(&nested(&nested(&read(&data), 1), 2), 2);
        assert_eq!(all(&one, 6), vec![Got::Varint(number)]);
    }
    let status = |code| {
        Some(SpanStatus {
            message: "m".to_string(),
            code,
        })
    };
    let codes = [
        (StatusCode::Unset, vec![]),
        (StatusCode::Okay, vec![Got::Varint(1)]),
        (StatusCode::Error, vec![Got::Varint(2)]),
    ];
    for (code, expected) in codes {
        let data = encode_export_trace_request(&[], "", "", &[SpanData {
            status: status(code),
            ..span()
        }]);
        let one = nested(&nested(&nested(&read(&data), 1), 2), 2);
        assert_eq!(all(&nested(&one, 15), 3), expected);
    }
}

#[test]
fn logs_request_reads_back() {
    let log = LogData {
        time_unix_nano: 77,
        severity_number: SeverityNumber::Warn,
        severity_text: "WARN".to_string(),
        body: string("hello"),
        attributes: vec![kv("ok", AnyValue::Bool(false))],
        trace_id: [1; 16],
        span_id: [0; 8],
    };
    let data = encode_export_logs_request(&[], "s", "", &[log]);
    let scoped = nested(&nested(&read(&data), 1), 2);
    let record = nested(&scoped, 2);
    assert_eq!(all(&record, 1), vec![Got::Fixed(77)]);
    assert_eq!(all(&record, 2), vec![Got::Varint(13)]);
    assert_eq!(all(&record, 3), text("WARN"));
    assert_eq!(all(&nested(&record, 5), 1), text("hello"));
    assert_eq!(all(&nested(&nested(&record, 6), 2), 2), vec![Got::Varint(0)]);
    assert_eq!(all(&record, 9), vec![Got::Bytes(vec![1; 16])]);
    assert_eq!(all(&record, 10), vec![]);
}

#[test]
fn severities_are_numbered() {
    let levels = [
        (Level::Trace, SeverityNumber::Trace, "TRACE", 1),
        (Level::Debug, SeverityNumber::Debug, "DEBUG", 5),
        (Level::Info, SeverityNumber::Info, "INFO", 9),
        (Level::Warn, SeverityNumber::Warn, "WARN", 13),
        (Level::Error, SeverityNumber::Error, "ERROR", 17),
    ];
    let layer = OtlpLayer::new("svc", "1", "test", true, true);
    for (level, severity, name, number) in levels {
        assert_eq!(level_to_severity(level), severity);
        assert_eq!(level_text(level), name);
        let data = layer.on_event(FieldCollector::new(), None, level, 1).unwrap();
        let record = nested(&nested(&nested(&read(&data), 1), 2), 2);
        assert_eq!(all(&record, 2), vec![Got::Varint(number)]);
        assert_eq!(all(&record, 3), text(name));
        assert_eq!(all(&record, 5), vec![]);
    }
}

fn attrs(pairs: &[(&str, &str)]) -> Arc<Vec<(String, String)>> {
    Arc::new(
        pairs
            .iter()
            .map(|(k, v)| (k.to_string(), v.to_string()))
            .collect(),
    )
}

#[test]
fn metrics_request_reads_back() {
    let exemplar = Exemplar {
        trace_id: [3; 16],
        span_id: [4; 8],
        time_unix_nano: 55,
        value: ExemplarValue::Int(-2),
    };
    let snapshots = vec![
        MetricSnapshot::Counter {
            name: "c".to_string(),
            description: "cd".to_string(),
            data_points: vec![(attrs(&[("m", "GET")]), -5, Some(exemplar))],
        },
        MetricSnapshot::Gauge {
            name: "g".to_string(),
            description: String::new(),
            data_points: vec![(attrs(&[]), 2.5f64.to_bits(), None)],
        },
        MetricSnapshot::Histogram {
            name: "h".to_string(),
            description: "hd".to_string(),
            boundaries: vec![1.0f64.to_bits()],
            data_points: vec![HistogramDataPoint {
                attrs: attrs(&[("a", "b")]),
                bucket_counts: vec![3, 0],
                sum: 1.5f64.to_bits(),
                count: 3,
                min: 0,
                max: 0.5f64.to_bits(),
                exemplar: Some(Exemplar {
                    value: ExemplarValue::Double(0.5f64.to_bits()),
                    ..exemplar
                }),
            }],
        },
    ];
    let data = encode_export_metrics_request(&[], "ro11y", "1", &snapshots, 10, 20);
    let scoped = nested(&nested(&read(&data), 1), 2);
    let metrics: Vec<Vec<(u64, Got)>> = all(&scoped, 2)
        .iter()
        .map(|got| match got {
            Got::Bytes(data) => read(data),
            _ => panic!("expected a metric"),
        })
        .collect();
    assert_eq!(metrics.len(), 3);

    assert_eq!(all(&metrics[0], 1), text("c"));
    assert_eq!(all(&metrics[0], 2), text("cd"));
    let sum = nested(&metrics[0], 7);
    assert_eq!(all(&sum, 2), vec![Got::Varint(2)]);
    assert_eq!(all(&sum, 3), vec![Got::Varint(1)]);
    let point = nested(&sum, 1);
    assert_eq!(all(&point, 2), vec![Got::Fixed(10)]);
    assert_eq!(all(&point, 3), vec![Got::Fixed(20)]);
    assert_eq!(all(&point, 6), vec![Got::Fixed(-5i64 as u64)]);
    let pair = nested(&point, 7);
    assert_eq!(all(&pair, 1), text("m"));
    assert_eq!(all(&nested(&pair, 2), 1), text("GET"));
    let link = nested(&point, 5);
    assert_eq!(all(&link, 2), vec![Got::Fixed(55)]);
    assert_eq!(all(&link, 4), vec![Got::Bytes(vec![4; 8])]);
    assert_eq!(all(&link, 5), vec![Got::Bytes(vec![3; 16])]);
    assert_eq!(all(&link, 6), vec![Got::Fixed(-2i64 as u64)]);
    assert_eq!(all(&link, 3), vec![]);

    assert_eq!(all(&metrics[1], 1), text("g"));
    assert_eq!(all(&metrics[1], 2), vec![]);
    let point = nested(&nested(&metrics[1], 5), 1);
    assert_eq!(all(&point, 4), vec![Got::Fixed(2.5f64.to_bits())]);
    assert_eq!(all(&point, 7), vec![]);
    assert_eq!(all(&point, 5), vec![]);

    let histogram = nested(&metrics[2], 9);
    assert_eq!(all(&histogram, 2), vec![Got::Varint(2)]);
    let point = nested(&histogram, 1);
    assert_eq!(all(&point, 4), vec![Got::Fixed(3)]);
    assert_eq!(all(&point, 5), vec![Got::Fixed(1.5f64.to_bits())]);
    let mut counts = 3u64.to_le_bytes().to_vec();
    counts.extend_from_slice(&[0; 8]);
    assert_eq!(all(&point, 6), vec![Got::Bytes(counts)]);
    assert_eq!(all(&point, 7), vec![Got::Bytes(1.0f64.to_le_bytes().to_vec())]);
    assert_eq!(all(&nested(&point, 8), 3), vec![Got::Fixed(0.5f64.to_bits())]);
    assert_eq!(all(&nested(&nested(&point, 9), 2), 1), text("b"));
    assert_eq!(all(&point, 11), vec![Got::Fixed(0)]);
    assert_eq!(all(&point, 12), vec![Got::Fixed(0.5f64.to_bits())]);
}

#[test]
fn fields_become_attributes() {
    let mut fields = FieldCollector::new();
    fields.record_debug("message", "hello".to_string());
    fields.record_debug("d", "Some(1)".to_string());
    fields.record_str("s", "text");
    fields.record_i64("i", -3);
    fields.record_u64("u", u64::MAX);
    fields.record_bool("b", true);
    fields.record_f64("f", 0.5f64.to_bits());
    assert_eq!(fields.message.as_deref(), Some("hello"));
    assert_eq!(fields.trace_id, None);
    assert_eq!(
        fields.attrs,
        vec![
            kv("d", string("Some(1)")),
            kv("s", string("text")),
            kv("i", AnyValue::Int(-3)),
            kv("u", AnyValue::Int(-1)),
            kv("b", AnyValue::Bool(true)),
            kv("f", AnyValue::Double(0.5f64.to_bits())),
        ]
    );
    fields.record_str("message", "again");
    assert_eq!(fields.message.as_deref(), Some("again"));
    assert_eq!(fields.attrs.len(), 6);
    // Only texts can be the message.
    fields.record_i64("message", 1);
    assert_eq!(fields.message.as_deref(), Some("again"));
    assert_eq!(fields.attrs[6], kv("message", AnyValue::Int(1)));
}

#[test]
fn trace_id_field_sets_the_trace() {
    let mut fields = FieldCollector::new();
    fields.record_str("trace_id", "not hex");
    assert_eq!(fields.trace_id, None);
    fields.record_str("trace_id", "0102030405060708090a0b0c0d0e0f10");
    let id = [1, 2, 3, 4, 5, 6, 7, 8, 9, 10, 11, 12, 13, 14, 15, 16];
    assert_eq!(fields.trace_id, Some(id));
    // A later bad value leaves it.
    fields.record_str("trace_id", "bad");
    assert_eq!(fields.trace_id, Some(id));
    assert_eq!(fields.attrs.len(), 3);
    assert_eq!(fields.attrs[1].value, string("0102030405060708090a0b0c0d0e0f10"));
    // A rendered value does not set it.
    let mut rendered = FieldCollector::new();
    rendered.record_debug("trace_id", "0102030405060708090a0b0c0d0e0f10".to_string());
    assert_eq!(rendered.trace_id, None);
}

#[test]
fn service_attributes_name_the_service() {
    assert_eq!(
        service_attrs("svc", "1.0", "prod"),
        vec![
            kv("service.name", string("svc")),
            kv("service.version", string("1.0")),
            kv("deployment.environment", string("prod")),
        ]
    );
}

#[test]
fn spans_are_kept_and_closed() {
    let layer = OtlpLayer::new("svc", "1.0", "prod", true, false);
    let mut fields = FieldCollector::new();
    fields.record_str("trace_id", "0102030405060708090a0b0c0d0e0f10");
    let (timing, root) = layer.on_new_span(fields, None, [1; 8], 100);
    assert_eq!(timing.start_nanos, 100);
    assert_eq!(root.trace_id[15], 16);
    assert_eq!(root.span_id, [1; 8]);
    assert_eq!(root.parent_span_id, [0; 8]);

    let (_, mut child) = layer.on_new_span(FieldCollector::new(), Some(&root), [2; 8], 150);
    assert_eq!(child.trace_id, [0; 16]);
    assert_eq!(child.parent_span_id, [1; 8]);

    let mut late = FieldCollector::new();
    late.record_i64("late", 1);
    late.record_str("trace_id", "0102030405060708090a0b0c0d0e0f10");
    child.record(late);
    assert_eq!(child.attrs.len(), 2);
    assert_eq!(child.trace_id, [0; 16]);

    let data = layer.on_close(Some(&timing), Some(&root), "root", 300).unwrap();
    let expected = encode_export_trace_request(
        &service_attrs("svc", "1.0", "prod"),
        "pz-o11y",
        "0.3.0",
        &[SpanData {
            trace_id: root.trace_id,
            span_id: [1; 8],
            parent_span_id: [0; 8],
            name: "root".to_string(),
            kind: SpanKind::Internal,
            start_time_unix_nano: 100,
            end_time_unix_nano: 300,
            attributes: vec![kv("trace_id", string("0102030405060708090a0b0c0d0e0f10"))],
            status: None,
        }],
    );
    assert_eq!(data, expected);

    assert!(layer.on_close(None, Some(&root), "root", 300).is_none());
    assert!(layer.on_close(Some(&timing), None, "root", 300).is_none());
    assert!(layer.on_event(FieldCollector::new(), None, Level::Info, 1).is_none());
}

#[test]
fn layer_exports_only_what_is_enabled() {
    let logs_only = OtlpLayer::new("svc", "1.0", "prod", false, true);
    let timing = SpanTiming { start_nanos: 1 };
    let fields = SpanFields {
        attrs: vec![],
        trace_id: [1; 16],
        span_id: [2; 8],
        parent_span_id: [0; 8],
    };
    assert!(logs_only.on_close(Some(&timing), Some(&fields), "x", 2).is_none());

    let mut collected = FieldCollector::new();
    collected.record_debug("message", "job completed".to_string());
    collected.record_bool("done", true);
    let data = logs_only
        .on_event(collected, Some(([1; 16], [2; 8])), Level::Error, 9)
        .unwrap();
    let expected = encode_export_logs_request(
        &service_attrs("svc", "1.0", "prod"),
        "pz-o11y",
        "0.3.0",
        &[LogData {
            time_unix_nano: 9,
            severity_number: SeverityNumber::Error,
            severity_text: "ERROR".to_string(),
            body: string("job completed"),
            attributes: vec![kv("done", AnyValue::Bool(true))],
            trace_id: [1; 16],
            span_id: [2; 8],
        }],
    );
    assert_eq!(data, expected);
}

#[test]
fn exports_carry_what_was_collected() {
    let mut registry = ro11y::metrics::MetricsRegistry::new();
    let resource = service_attrs("svc", "1.0", "prod");
    assert!(ro11y::aggregation::export_metrics(&mut registry, &resource, "1.0", 1, 2).is_none());
    let c = registry.counter("hits", "");
    assert!(ro11y::aggregation::export_metrics(&mut registry, &resource, "1.0", 1, 2).is_none());
    c.add(&mut registry, 7, &[]);
    let data = ro11y::aggregation::export_metrics(&mut registry, &resource, "1.0", 1, 2).unwrap();
    let expected = encode_export_metrics_request(
        &resource,
        "ro11y",
        "1.0",
        &[MetricSnapshot::Counter {
            name: "hits".to_string(),
            description: String::new(),
            data_points: vec![(attrs(&[]), 7, None)],
        }],
        1,
        2,
    );
    assert_eq!(data, expected);
}

#[test]
fn a_batch_is_one_request_with_every_group() {
    let config = ro11y::config::ExporterConfig {
        traces_url: Some("u".to_string()),
        logs_url: None,
        metrics_url: None,
        channel_capacity: 16,
        batch_size: 2,
        flush_interval_secs: 1,
        max_concurrent_exports: 1,
    };
    let mut batcher = ro11y::exporter::Batcher::new(&config);
    let mut posted = Vec::new();
    for name in ["one", "two"] {
        let spans = [SpanData {
            name: name.to_string(),
            ..span()
        }];
        let data = encode_export_trace_request(&service_attrs("s", "1", "t"), "", "", &spans);
        let message = ro11y::exporter::data_message(ro11y::exporter::Signal::Traces, data);
        posted.extend(batcher.step(ro11y::exporter::ExportEvent::Message(message)).batches);
    }
    assert_eq!(posted.len(), 1);
    let groups = all(&read(&posted[0].body()), 1);
    assert_eq!(groups.len(), 2);
    for (group, name) in groups.iter().zip(["one", "two"]) {
        match group {
            Got::Bytes(data) => {
                let one = nested(&nested(&read(data), 2), 2);
                assert_eq!(all(&one, 5), text(name));
            }
            _ => panic!("expected a group"),
        }
    }
}
