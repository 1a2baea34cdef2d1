//! Where the parts of a request stand on the wire, by the field numbers of OTLP.

use vstd::prelude::*;

use crate::exemplar::ExemplarValue;
use crate::histogram::HistogramValue;
use crate::otlp_log::{log_fields, LogView};
use crate::otlp_metrics::metric_fields;
use crate::otlp_metrics_reading::{
    histogram_point_reading, law_metric_round_trip, point_reading, read_gauge_point,
    read_histogram_point, read_metric, read_pair, read_pairs, read_sum_point, snapshot_visible,
    unpacked,
};
use crate::otlp_reading::{
    law_any_value_round_trip, law_key_value_round_trip, law_log_is_read, law_span_is_read,
    lemma_read_group, lemma_read_message, lemma_read_request, read_any_value, read_key_value,
    read_log, read_span, shown,
};
use crate::otlp_trace::{
    any_value_fields, key_value_fields, request_fields, span_fields, status_fields, unsigned,
    KeyValueView, SpanView, ValueView,
};
use crate::proto::{message_bytes, message_opt, string_opt, WireField};
use crate::reading::{
    fields_of, has_field, lemma_picked_concat, lemma_picked_delimited, lemma_picked_fixed64,
    lemma_picked_varint, payload_data, picked, read_bytes, read_fixed64, read_message,
    read_repeated, read_string, read_varint,
};
use crate::snapshot::{PointView, SnapshotView};

verus! {

// --- Attributes ---

/// A value stands in the one field of its kind: a text in the first, a truth value in the second,
/// an integer in two's complement in the third, a double in the fourth. Zero and `false` are there
/// too.
pub proof fn law_any_value_on_the_wire(value: ValueView)
    ensures
        value matches ValueView::String(s) ==> read_string(any_value_fields(value), 1) == s,
        value matches ValueView::Bool(b) ==> has_field(any_value_fields(value), 2) && read_varint(
            any_value_fields(value),
            2,
        ) == (if b {
            1u64
        } else {
            0
        }),
        value matches ValueView::Int(n) ==> has_field(any_value_fields(value), 3) && (read_varint(
            any_value_fields(value),
            3,
        ) - n) % 0x1_0000_0000_0000_0000 == 0,
        value matches ValueView::Double(d) ==> has_field(any_value_fields(value), 4)
            && read_fixed64(any_value_fields(value), 4) == d,
        !(value is String) ==> !has_field(any_value_fields(value), 1),
        !(value is Bool) ==> !has_field(any_value_fields(value), 2),
        !(value is Int) ==> !has_field(any_value_fields(value), 3),
        !(value is Double) ==> !has_field(any_value_fields(value), 4),
{
    law_any_value_round_trip(value);
    match value {
        ValueView::String(s) => {
            lemma_picked_delimited(1, vstd::utf8::encode_utf8(s));
        },
        ValueView::Bool(b) => {
            lemma_picked_varint(
                2,
                if b {
                    1
                } else {
                    0
                },
            );
        },
        ValueView::Int(n) => {
            lemma_picked_varint(3, unsigned(n));
        },
        ValueView::Double(d) => {
            lemma_picked_fixed64(4, d);
        },
    }
}

/// An attribute has its key in the first field and its value in the second.
pub proof fn law_key_value_on_the_wire(kv: KeyValueView)
    ensures
        read_string(key_value_fields(kv), 1) == kv.key,
        read_message(key_value_fields(kv), 2) == any_value_fields(kv.value),
{
    let key = string_opt(1, kv.key);
    let value = message_opt(2, any_value_fields(kv.value));
    law_key_value_round_trip(kv);
    lemma_picked_concat(key, value);
    lemma_picked_delimited(1, vstd::utf8::encode_utf8(kv.key));
    lemma_picked_delimited(2, message_bytes(any_value_fields(kv.value)));
    assert(picked(key_value_fields(kv), 2) =~= picked(value, 2));
    lemma_read_message(key_value_fields(kv), 2, any_value_fields(kv.value));
}

// --- Frame ---

/// A request holds its group in the first field; the group holds the resource's attributes in the
/// first field of its first, and the scope with its items in its second.
pub proof fn law_frame_on_the_wire(resource: Seq<KeyValueView>, items: Seq<WireField>)
    ensures
        ({
            let request = fields_of(message_bytes(request_fields(resource, items)));
            let group = read_message(request, 1);
            &&& read_repeated(
                read_message(group, 1),
                1,
                |m: Seq<WireField>| read_key_value(m),
            ) == shown(resource)
            &&& read_message(group, 2) == items
        }),
{
    lemma_read_request(resource, items);
    lemma_read_group(resource, items);
}

// --- Traces ---

/// A span on the wire: the trace in field 1, the span in 2, the parent in 4 unless it is all zero,
/// the name in 5, the kind in 6, the start in 7, the end in 8 and the attributes in 9.
pub proof fn law_span_on_the_wire(span: SpanView)
    requires
        span.trace_id.len() == 16,
        span.span_id.len() == 8,
        span.parent_span_id.len() == 8,
        span.status matches Some(status) ==> status_fields(status).len() > 0,
    ensures
        read_bytes(span_fields(span), 1) == span.trace_id,
        read_bytes(span_fields(span), 2) == span.span_id,
        has_field(span_fields(span), 4) ==> read_bytes(span_fields(span), 4)
            == span.parent_span_id,
        !has_field(span_fields(span), 4) ==> forall|i: int|
            0 <= i < 8 ==> #[trigger] span.parent_span_id[i] == 0,
        read_string(span_fields(span), 5) == span.name,
        span.kind is Server <==> read_varint(span_fields(span), 6) == 2,
        span.kind is Client <==> read_varint(span_fields(span), 6) == 3,
        span.kind is Producer <==> read_varint(span_fields(span), 6) == 4,
        span.kind is Consumer <==> read_varint(span_fields(span), 6) == 5,
        read_fixed64(span_fields(span), 7) == span.start_time_unix_nano,
        read_fixed64(span_fields(span), 8) == span.end_time_unix_nano,
        read_repeated(span_fields(span), 9, |m: Seq<WireField>| read_key_value(m)) == shown(
            span.attributes,
        ),
        has_field(span_fields(span), 15) <==> span.status is Some,
        span.status matches Some(status) ==> read_string(read_message(span_fields(span), 15), 2)
            == status.message && (status.code is Okay <==> read_varint(
            read_message(span_fields(span), 15),
            3,
        ) == 1) && (status.code is Error <==> read_varint(read_message(span_fields(span), 15), 3)
            == 2),
{
    law_span_is_read(span);
    let read = read_span(span_fields(span));
    assert(read.trace_id == span.trace_id && read.parent_span_id == span.parent_span_id);
    if !has_field(span_fields(span), 4) {
        assert forall|i: int| 0 <= i < 8 implies #[trigger] span.parent_span_id[i] == 0 by {
            assert(read.parent_span_id[i] == 0);
        }
    }
    assert(read.kind == span.kind);
    assert(read.status == span.status);
}

// --- Logs ---

/// A log record on the wire: the time in field 1, the severity in 2, its name in 3, the body in 5,
/// the attributes in 6, the trace in 9 and the span in 10, each unless it is all zero.
pub proof fn law_log_on_the_wire(log: LogView)
    requires
        log.trace_id.len() == 16,
        log.span_id.len() == 8,
    ensures
        read_fixed64(log_fields(log), 1) == log.time_unix_nano,
        log.severity_number is Trace <==> read_varint(log_fields(log), 2) == 1,
        log.severity_number is Debug <==> read_varint(log_fields(log), 2) == 5,
        log.severity_number is Warn <==> read_varint(log_fields(log), 2) == 13,
        log.severity_number is Error <==> read_varint(log_fields(log), 2) == 17,
        read_string(log_fields(log), 3) == log.severity_text,
        read_any_value(read_message(log_fields(log), 5)) == log.body,
        read_repeated(log_fields(log), 6, |m: Seq<WireField>| read_key_value(m)) == shown(
            log.attributes,
        ),
        has_field(log_fields(log), 9) ==> read_bytes(log_fields(log), 9) == log.trace_id,
        !has_field(log_fields(log), 9) ==> forall|i: int|
            0 <= i < 16 ==> #[trigger] log.trace_id[i] == 0,
        has_field(log_fields(log), 10) ==> read_bytes(log_fields(log), 10) == log.span_id,
        !has_field(log_fields(log), 10) ==> forall|i: int|
            0 <= i < 8 ==> #[trigger] log.span_id[i] == 0,
{
    law_log_is_read(log);
    let read = read_log(log_fields(log));
    assert(read.trace_id == log.trace_id && read.span_id == log.span_id);
    if !has_field(log_fields(log), 9) {
        assert forall|i: int| 0 <= i < 16 implies #[trigger] log.trace_id[i] == 0 by {
            assert(read.trace_id[i] == 0);
        }
    }
    if !has_field(log_fields(log), 10) {
        assert forall|i: int| 0 <= i < 8 implies #[trigger] log.span_id[i] == 0 by {
            assert(read.span_id[i] == 0);
        }
    }
    assert(read.severity_number == log.severity_number);
}

// --- Metrics ---

/// A counter on the wire is a sum, in field 7, that is cumulative and monotonic: its data points
/// have the start in field 2, the time in 3, the value in 6 and the attributes in 7.
pub proof fn law_counter_on_the_wire(
    name: Seq<char>,
    description: Seq<char>,
    points: Seq<PointView<i64>>,
    start_time: u64,
    time: u64,
    i: int,
)
    requires
        snapshot_visible(SnapshotView::Counter { name, description, points }),
        0 <= i < points.len(),
    ensures
        ({
            let metric = metric_fields(
                SnapshotView::Counter { name, description, points },
                start_time,
                time,
            );
            let sum = read_message(metric, 7);
            let point = fields_of(payload_data(picked(sum, 1)[i]));
            &&& read_string(metric, 1) == name
            &&& read_string(metric, 2) == description
            &&& read_varint(sum, 2) == 2
            &&& read_varint(sum, 3) != 0
            &&& picked(sum, 1).len() == points.len()
            &&& read_fixed64(point, 2) == start_time
            &&& read_fixed64(point, 3) == time
            &&& (read_fixed64(point, 6) - points[i].value) % 0x1_0000_0000_0000_0000 == 0
            &&& read_pairs(point, 7) == points[i].attrs
            &&& has_field(point, 5) <==> points[i].exemplar is Some
            &&& points[i].exemplar matches Some(e) ==> {
                let exemplar = read_message(point, 5);
                &&& read_fixed64(exemplar, 2) == e.time_unix_nano
                &&& read_bytes(exemplar, 4) == e.span_id@
                &&& read_bytes(exemplar, 5) == e.trace_id@
                &&& e.value matches ExemplarValue::Int(n) ==> has_field(exemplar, 6) && (
                read_fixed64(exemplar, 6) - n) % 0x1_0000_0000_0000_0000 == 0
                &&& e.value matches ExemplarValue::Double(d) ==> !has_field(exemplar, 6)
                    && read_fixed64(exemplar, 3) == d
            }
        }),
{
    let snapshot = SnapshotView::Counter { name, description, points };
    let metric = metric_fields(snapshot, start_time, time);
    let sum = read_message(metric, 7);
    law_metric_round_trip(snapshot, start_time, time);
    let read = read_metric(metric);
    assert(has_field(metric, 7));
    let got = read_repeated(sum, 1, |m: Seq<WireField>| read_sum_point(m));
    let meaning = points.map_values(|p: PointView<i64>| point_reading(p, start_time, time));
    assert(got == meaning);
    assert(got.len() == picked(sum, 1).len() && meaning.len() == points.len());
    assert(got[i] == read_sum_point(fields_of(payload_data(picked(sum, 1)[i]))));
    assert(meaning[i] == point_reading(points[i], start_time, time));
}

/// A gauge on the wire stands in field 5: its data points have the start in field 2, the time in 3,
/// the value in 4 and the attributes in 7.
pub proof fn law_gauge_on_the_wire(
    name: Seq<char>,
    description: Seq<char>,
    points: Seq<PointView<u64>>,
    start_time: u64,
    time: u64,
    i: int,
)
    requires
        snapshot_visible(SnapshotView::Gauge { name, description, points }),
        0 <= i < points.len(),
    ensures
        ({
            let metric = metric_fields(
                SnapshotView::Gauge { name, description, points },
                start_time,
                time,
            );
            let gauge = read_message(metric, 5);
            let point = fields_of(payload_data(picked(gauge, 1)[i]));
            &&& read_string(metric, 1) == name
            &&& read_string(metric, 2) == description
            &&& picked(gauge, 1).len() == points.len()
            &&& read_fixed64(point, 2) == start_time
            &&& read_fixed64(point, 3) == time
            &&& read_fixed64(point, 4) == points[i].value
            &&& read_pairs(point, 7) == points[i].attrs
            &&& has_field(point, 5) <==> points[i].exemplar is Some
            &&& points[i].exemplar matches Some(e) ==> {
                let exemplar = read_message(point, 5);
                &&& read_fixed64(exemplar, 2) == e.time_unix_nano
                &&& read_bytes(exemplar, 4) == e.span_id@
                &&& read_bytes(exemplar, 5) == e.trace_id@
                &&& e.value matches ExemplarValue::Int(n) ==> has_field(exemplar, 6) && (
                read_fixed64(exemplar, 6) - n) % 0x1_0000_0000_0000_0000 == 0
                &&& e.value matches ExemplarValue::Double(d) ==> !has_field(exemplar, 6)
                    && read_fixed64(exemplar, 3) == d
            }
        }),
{
    let snapshot = SnapshotView::Gauge { name, description, points };
    let metric = metric_fields(snapshot, start_time, time);
    let gauge = read_message(metric, 5);
    law_metric_round_trip(snapshot, start_time, time);
    let read = read_metric(metric);
    assert(!has_field(metric, 7) && !has_field(metric, 9));
    let got = read_repeated(gauge, 1, |m: Seq<WireField>| read_gauge_point(m));
    let meaning = points.map_values(|p: PointView<u64>| point_reading(p, start_time, time));
    assert(got == meaning);
    assert(got.len() == picked(gauge, 1).len() && meaning.len() == points.len());
    assert(got[i] == read_gauge_point(fields_of(payload_data(picked(gauge, 1)[i]))));
    assert(meaning[i] == point_reading(points[i], start_time, time));
}

/// A histogram on the wire stands in field 9 and is cumulative: its data points have the start in
/// field 2, the time in 3, the count in 4, the sum in 5, the bucket counts in 6, the boundaries in
/// 7, the attributes in 9, the least value in 11 and the greatest in 12.
pub proof fn law_histogram_on_the_wire(
    name: Seq<char>,
    description: Seq<char>,
    boundaries: Seq<u64>,
    points: Seq<PointView<HistogramValue>>,
    start_time: u64,
    time: u64,
    i: int,
)
    requires
        snapshot_visible(SnapshotView::Histogram { name, description, boundaries, points }),
        0 <= i < points.len(),
    ensures
        ({
            let metric = metric_fields(
                SnapshotView::Histogram { name, description, boundaries, points },
                start_time,
                time,
            );
            let histogram = read_message(metric, 9);
            let point = fields_of(payload_data(picked(histogram, 1)[i]));
            &&& read_string(metric, 1) == name
            &&& read_string(metric, 2) == description
            &&& read_varint(histogram, 2) == 2
            &&& picked(histogram, 1).len() == points.len()
            &&& read_fixed64(point, 2) == start_time
            &&& read_fixed64(point, 3) == time
            &&& read_fixed64(point, 4) == points[i].value.count
            &&& read_fixed64(point, 5) == points[i].value.sum
            &&& unpacked(read_bytes(point, 6)) == points[i].value.bucket_counts
            &&& unpacked(read_bytes(point, 7)) == boundaries
            &&& read_pairs(point, 9) == points[i].attrs
            &&& read_fixed64(point, 11) == points[i].value.min
            &&& read_fixed64(point, 12) == points[i].value.max
            &&& has_field(point, 8) <==> points[i].exemplar is Some
            &&& points[i].exemplar matches Some(e) ==> {
                let exemplar = read_message(point, 8);
                &&& read_fixed64(exemplar, 2) == e.time_unix_nano
                &&& read_bytes(exemplar, 4) == e.span_id@
                &&& read_bytes(exemplar, 5) == e.trace_id@
                &&& e.value matches ExemplarValue::Int(n) ==> has_field(exemplar, 6) && (
                read_fixed64(exemplar, 6) - n) % 0x1_0000_0000_0000_0000 == 0
                &&& e.value matches ExemplarValue::Double(d) ==> !has_field(exemplar, 6)
                    && read_fixed64(exemplar, 3) == d
            }
        }),
{
    let snapshot = SnapshotView::Histogram { name, description, boundaries, points };
    let metric = metric_fields(snapshot, start_time, time);
    let histogram = read_message(metric, 9);
    law_metric_round_trip(snapshot, start_time, time);
    let read = read_metric(metric);
    assert(!has_field(metric, 7) && has_field(metric, 9));
    let got = read_repeated(histogram, 1, |m: Seq<WireField>| read_histogram_point(m));
    let meaning = points.map_values(
        |p: PointView<HistogramValue>| histogram_point_reading(p, boundaries, start_time, time),
    );
    assert(got == meaning);
    assert(got.len() == picked(histogram, 1).len() && meaning.len() == points.len());
    assert(got[i] == read_histogram_point(fields_of(payload_data(picked(histogram, 1)[i]))));
    assert(meaning[i] == histogram_point_reading(points[i], boundaries, start_time, time));
}

/// The attributes of a data point are read pair by pair: the key in the first field, the text of
/// the value in the first field of the second.
pub proof fn law_pairs_on_the_wire(fields: Seq<WireField>, number: u32, i: int)
    requires
        0 <= i < read_pairs(fields, number).len(),
    ensures
        ({
            let pair = fields_of(payload_data(picked(fields, number)[i]));
            &&& read_pairs(fields, number)[i].0 == read_string(pair, 1)
            &&& !has_field(read_message(pair, 2), 2) && !has_field(read_message(pair, 2), 3)
                && !has_field(read_message(pair, 2), 4) ==> read_pairs(fields, number)[i].1
                == read_string(read_message(pair, 2), 1)
        }),
{
    let pair = fields_of(payload_data(picked(fields, number)[i]));
    assert(read_pairs(fields, number)[i] == read_pair(pair));
}

} // verus!
