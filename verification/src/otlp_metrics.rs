//! OTLP metrics: snapshots and their `ExportMetricsServiceRequest`.

use vstd::prelude::*;

use crate::attrs::{owned_view, AttrView, Attrs};
use crate::exemplar::{Exemplar, ExemplarValue};
use crate::histogram::HistogramValue;
use crate::otlp_trace::{
    as_unsigned, encode_request, encode_scope, key_value_fields, key_values, request_fields,
    scope_fields, unsigned, KeyValue, KeyValueView, ValueView,
};
use crate::proto::{
    delimited_opt, encode_bytes_field, encode_fixed64_field, encode_fixed64_field_always,
    encode_little_endian, encode_message_field, encode_string_field, encode_varint_field,
    fixed64_always, fixed64_opt, little_endian, message_bytes, message_opt, repeated, string_opt,
    varint_opt, WireField,
};
use crate::snapshot::{
    snapshots_view, triple_view, CounterDataPoint, GaugeDataPoint, HistogramDataPoint,
    MetricSnapshot, PointView, SnapshotView,
};
use crate::wire::{law_message_concat, lemma_append_message};

verus! {

/// `AGGREGATION_TEMPORALITY_CUMULATIVE`: values count from the start time on.
pub const CUMULATIVE: u64 = 2;

// --- Model ---

/// An attribute of a data point on the wire: a `KeyValue` whose value is a string.
pub open spec fn pair_fields(pair: AttrView) -> Seq<WireField> {
    key_value_fields(KeyValueView { key: pair.0, value: ValueView::String(pair.1) })
}

/// The attributes of a data point on the wire, as a repeated field.
pub open spec fn pairs_fields(number: u32, attrs: Seq<AttrView>) -> Seq<WireField> {
    repeated(number, attrs, |pair: AttrView| pair_fields(pair))
}

/// `Exemplar` on the wire.
pub open spec fn exemplar_fields(exemplar: Exemplar) -> Seq<WireField> {
    fixed64_opt(2, exemplar.time_unix_nano) + (match exemplar.value {
        ExemplarValue::Double(bits) => fixed64_always(3, bits),
        ExemplarValue::Int(_) => Seq::empty(),
    }) + delimited_opt(4, exemplar.span_id@) + delimited_opt(5, exemplar.trace_id@) + (
    match exemplar.value {
        ExemplarValue::Int(i) => fixed64_always(6, unsigned(i)),
        ExemplarValue::Double(_) => Seq::empty(),
    })
}

/// The exemplar of a data point on the wire, absent when there is none.
pub open spec fn exemplar_opt(number: u32, exemplar: Option<Exemplar>) -> Seq<WireField> {
    match exemplar {
        Some(exemplar) => message_opt(number, exemplar_fields(exemplar)),
        None => Seq::empty(),
    }
}

/// `NumberDataPoint` of a counter on the wire.
pub open spec fn counter_point_fields(
    point: PointView<i64>,
    start_time: u64,
    time: u64,
) -> Seq<WireField> {
    fixed64_opt(2, start_time) + fixed64_opt(3, time) + exemplar_opt(5, point.exemplar)
        + fixed64_always(6, unsigned(point.value)) + pairs_fields(7, point.attrs)
}

/// `NumberDataPoint` of a gauge on the wire.
pub open spec fn gauge_point_fields(
    point: PointView<u64>,
    start_time: u64,
    time: u64,
) -> Seq<WireField> {
    fixed64_opt(2, start_time) + fixed64_opt(3, time) + fixed64_always(4, point.value)
        + exemplar_opt(5, point.exemplar) + pairs_fields(7, point.attrs)
}

/// Packed eight byte values, one after the other.
pub open spec fn packed(values: Seq<u64>) -> Seq<u8>
    decreases values.len(),
{
    if values.len() == 0 {
        Seq::empty()
    } else {
        packed(values.drop_last()) + little_endian(values.last() as nat, 8)
    }
}

/// `HistogramDataPoint` on the wire.
pub open spec fn histogram_point_fields(
    point: PointView<HistogramValue>,
    boundaries: Seq<u64>,
    start_time: u64,
    time: u64,
) -> Seq<WireField> {
    fixed64_opt(2, start_time) + fixed64_opt(3, time) + fixed64_opt(4, point.value.count)
        + fixed64_always(5, point.value.sum) + delimited_opt(6, packed(point.value.bucket_counts))
        + delimited_opt(7, packed(boundaries)) + exemplar_opt(8, point.exemplar) + pairs_fields(
        9,
        point.attrs,
    ) + fixed64_always(11, point.value.min) + fixed64_always(12, point.value.max)
}

/// `Sum` of a counter on the wire: cumulative and monotonic.
pub open spec fn sum_fields(
    points: Seq<PointView<i64>>,
    start_time: u64,
    time: u64,
) -> Seq<WireField> {
    repeated(1, points, |p: PointView<i64>| counter_point_fields(p, start_time, time))
        + varint_opt(2, CUMULATIVE) + varint_opt(3, 1)
}

/// `Gauge` on the wire.
pub open spec fn gauge_fields(
    points: Seq<PointView<u64>>,
    start_time: u64,
    time: u64,
) -> Seq<WireField> {
    repeated(1, points, |p: PointView<u64>| gauge_point_fields(p, start_time, time))
}

/// `Histogram` on the wire: cumulative.
pub open spec fn histogram_fields(
    points: Seq<PointView<HistogramValue>>,
    boundaries: Seq<u64>,
    start_time: u64,
    time: u64,
) -> Seq<WireField> {
    repeated(
        1,
        points,
        |p: PointView<HistogramValue>| histogram_point_fields(p, boundaries, start_time, time),
    ) + varint_opt(2, CUMULATIVE)
}

/// `Metric` on the wire: a counter is a sum.
pub open spec fn metric_fields(
    snapshot: SnapshotView,
    start_time: u64,
    time: u64,
) -> Seq<WireField> {
    match snapshot {
        SnapshotView::Counter { name, description, points } => string_opt(1, name) + string_opt(
            2,
            description,
        ) + message_opt(7, sum_fields(points, start_time, time)),
        SnapshotView::Gauge { name, description, points } => string_opt(1, name) + string_opt(
            2,
            description,
        ) + message_opt(5, gauge_fields(points, start_time, time)),
        SnapshotView::Histogram { name, description, boundaries, points } => string_opt(1, name)
            + string_opt(2, description) + message_opt(
            9,
            histogram_fields(points, boundaries, start_time, time),
        ),
    }
}

/// `ScopeMetrics` on the wire.
pub open spec fn scope_metrics_fields(
    scope_name: Seq<char>,
    scope_version: Seq<char>,
    snapshots: Seq<SnapshotView>,
    start_time: u64,
    time: u64,
) -> Seq<WireField> {
    message_opt(1, scope_fields(scope_name, scope_version)) + repeated(
        2,
        snapshots,
        |s: SnapshotView| metric_fields(s, start_time, time),
    )
}

/// `ExportMetricsServiceRequest` on the wire.
pub open spec fn metrics_request_fields(
    resource: Seq<KeyValueView>,
    scope_name: Seq<char>,
    scope_version: Seq<char>,
    snapshots: Seq<SnapshotView>,
    start_time: u64,
    time: u64,
) -> Seq<WireField> {
    request_fields(
        resource,
        scope_metrics_fields(scope_name, scope_version, snapshots, start_time, time),
    )
}

// --- Encoders ---

/// Append the attributes of a data point as a repeated field.
fn encode_pairs(buf: &mut Vec<u8>, field: u32, attrs: &Attrs)
    ensures
        final(buf)@ == old(buf)@ + message_bytes(pairs_fields(field, owned_view(attrs@))),
{
    let list: &Vec<(String, String)> = &**attrs;
    let ghost all = owned_view(list@);
    let mut i: usize = 0;
    while i < list.len()
        invariant
            i <= list@.len(),
            all == owned_view(list@),
            buf@ == old(buf)@ + message_bytes(pairs_fields(field, all.take(i as int))),
        decreases list@.len() - i,
    {
        let mut value: Vec<u8> = Vec::new();
        encode_string_field(&mut value, 1, list[i].1.as_str());
        let mut pair: Vec<u8> = Vec::new();
        encode_string_field(&mut pair, 1, list[i].0.as_str());
        encode_message_field(&mut pair, 2, value.as_slice());
        encode_message_field(buf, field, pair.as_slice());
        proof {
            let upto = all.take(i + 1);
            let last = upto.last();
            assert(upto.drop_last() == all.take(i as int));
            assert(last == (list@[i as int].0@, list@[i as int].1@));
            law_message_concat(string_opt(1, last.0), message_opt(2, string_opt(1, last.1)));
            assert(pair@ == message_bytes(pair_fields(last)));
            lemma_append_message(
                old(buf)@,
                pairs_fields(field, all.take(i as int)),
                message_opt(field, pair_fields(last)),
            );
        }
        i = i + 1;
    }
    assert(all.take(i as int) == all);
}

/// Append `Exemplar`.
fn encode_exemplar(buf: &mut Vec<u8>, exemplar: &Exemplar)
    ensures
        final(buf)@ == old(buf)@ + message_bytes(exemplar_fields(*exemplar)),
{
    let ghost start = buf@;
    let ghost timed = fixed64_opt(2, exemplar.time_unix_nano);
    let ghost double = match exemplar.value {
        ExemplarValue::Double(bits) => fixed64_always(3, bits),
        ExemplarValue::Int(_) => Seq::empty(),
    };
    let ghost whole = match exemplar.value {
        ExemplarValue::Int(i) => fixed64_always(6, unsigned(i)),
        ExemplarValue::Double(_) => Seq::empty(),
    };
    let ghost doubled = timed + double;
    let ghost spanned = doubled + delimited_opt(4, exemplar.span_id@);
    let ghost traced = spanned + delimited_opt(5, exemplar.trace_id@);
    encode_fixed64_field(buf, 2, exemplar.time_unix_nano);
    match exemplar.value {
        ExemplarValue::Double(bits) => encode_fixed64_field_always(buf, 3, bits),
        ExemplarValue::Int(_) => {},
    }
    proof {
        lemma_append_message(start, timed, double);
    }
    encode_bytes_field(buf, 4, &exemplar.span_id);
    proof {
        lemma_append_message(start, doubled, delimited_opt(4, exemplar.span_id@));
    }
    encode_bytes_field(buf, 5, &exemplar.trace_id);
    proof {
        lemma_append_message(start, spanned, delimited_opt(5, exemplar.trace_id@));
    }
    match exemplar.value {
        ExemplarValue::Int(i) => encode_fixed64_field_always(buf, 6, as_unsigned(i)),
        ExemplarValue::Double(_) => {},
    }
    proof {
        lemma_append_message(start, traced, whole);
    }
}

/// Append the exemplar of a data point, if there is one.
fn encode_exemplar_field(buf: &mut Vec<u8>, field: u32, exemplar: &Option<Exemplar>)
    ensures
        final(buf)@ == old(buf)@ + message_bytes(exemplar_opt(field, *exemplar)),
{
    match exemplar {
        Some(exemplar) => {
            let mut msg: Vec<u8> = Vec::new();
            encode_exemplar(&mut msg, exemplar);
            encode_message_field(buf, field, msg.as_slice());
        },
        None => {},
    }
}

/// Append `NumberDataPoint` of a counter.
fn encode_counter_point(buf: &mut Vec<u8>, point: &CounterDataPoint, start_time: u64, time: u64)
    ensures
        final(buf)@ == old(buf)@ + message_bytes(
            counter_point_fields(triple_view(*point), start_time, time),
        ),
{
    let ghost start = buf@;
    let ghost started = fixed64_opt(2, start_time);
    let ghost timed = started + fixed64_opt(3, time);
    let ghost linked = timed + exemplar_opt(5, point.2);
    let ghost valued = linked + fixed64_always(6, unsigned(point.1));
    encode_fixed64_field(buf, 2, start_time);
    encode_fixed64_field(buf, 3, time);
    proof {
        lemma_append_message(start, started, fixed64_opt(3, time));
    }
    encode_exemplar_field(buf, 5, &point.2);
    proof {
        lemma_append_message(start, timed, exemplar_opt(5, point.2));
    }
    encode_fixed64_field_always(buf, 6, as_unsigned(point.1));
    proof {
        lemma_append_message(start, linked, fixed64_always(6, unsigned(point.1)));
    }
    encode_pairs(buf, 7, &point.0);
    proof {
        lemma_append_message(start, valued, pairs_fields(7, owned_view(point.0@)));
    }
}

/// Append `NumberDataPoint` of a gauge.
fn encode_gauge_point(buf: &mut Vec<u8>, point: &GaugeDataPoint, start_time: u64, time: u64)
    ensures
        final(buf)@ == old(buf)@ + message_bytes(
            gauge_point_fields(triple_view(*point), start_time, time),
        ),
{
    let ghost start = buf@;
    let ghost started = fixed64_opt(2, start_time);
    let ghost timed = started + fixed64_opt(3, time);
    let ghost valued = timed + fixed64_always(4, point.1);
    let ghost linked = valued + exemplar_opt(5, point.2);
    encode_fixed64_field(buf, 2, start_time);
    encode_fixed64_field(buf, 3, time);
    proof {
        lemma_append_message(start, started, fixed64_opt(3, time));
    }
    encode_fixed64_field_always(buf, 4, point.1);
    proof {
        lemma_append_message(start, timed, fixed64_always(4, point.1));
    }
    encode_exemplar_field(buf, 5, &point.2);
    proof {
        lemma_append_message(start, valued, exemplar_opt(5, point.2));
    }
    encode_pairs(buf, 7, &point.0);
    proof {
        lemma_append_message(start, linked, pairs_fields(7, owned_view(point.0@)));
    }
}

/// Pack eight byte values.
fn pack(values: &[u64]) -> (data: Vec<u8>)
    ensures
        data@ == packed(values@),
{
    let mut data: Vec<u8> = Vec::new();
    let mut i: usize = 0;
    while i < values.len()
        invariant
            i <= values@.len(),
            data@ == packed(values@.take(i as int)),
        decreases values@.len() - i,
    {
        encode_little_endian(&mut data, values[i]);
        assert(values@.take(i + 1).drop_last() == values@.take(i as int));
        i = i + 1;
    }
    assert(values@.take(i as int) == values@);
    data
}

/// Append `HistogramDataPoint`.
fn encode_histogram_point(
    buf: &mut Vec<u8>,
    point: &HistogramDataPoint,
    boundaries: &[u64],
    start_time: u64,
    time: u64,
)
    ensures
        final(buf)@ == old(buf)@ + message_bytes(
            histogram_point_fields(point@, boundaries@, start_time, time),
        ),
{
    let ghost start = buf@;
    let ghost started = fixed64_opt(2, start_time);
    let ghost timed = started + fixed64_opt(3, time);
    let ghost counted = timed + fixed64_opt(4, point.count);
    let ghost summed = counted + fixed64_always(5, point.sum);
    let ghost bucketed = summed + delimited_opt(6, packed(point.bucket_counts@));
    let ghost bounded = bucketed + delimited_opt(7, packed(boundaries@));
    let ghost linked = bounded + exemplar_opt(8, point.exemplar);
    let ghost described = linked + pairs_fields(9, owned_view(point.attrs@));
    let ghost least = described + fixed64_always(11, point.min);
    encode_fixed64_field(buf, 2, start_time);
    encode_fixed64_field(buf, 3, time);
    proof {
        lemma_append_message(start, started, fixed64_opt(3, time));
    }
    encode_fixed64_field(buf, 4, point.count);
    proof {
        lemma_append_message(start, timed, fixed64_opt(4, point.count));
    }
    encode_fixed64_field_always(buf, 5, point.sum);
    proof {
        lemma_append_message(start, counted, fixed64_always(5, point.sum));
    }
    let counts = pack(point.bucket_counts.as_slice());
    encode_bytes_field(buf, 6, counts.as_slice());
    proof {
        lemma_append_message(start, summed, delimited_opt(6, packed(point.bucket_counts@)));
    }
    let bounds = pack(boundaries);
    encode_bytes_field(buf, 7, bounds.as_slice());
    proof {
        lemma_append_message(start, bucketed, delimited_opt(7, packed(boundaries@)));
    }
    encode_exemplar_field(buf, 8, &point.exemplar);
    proof {
        lemma_append_message(start, bounded, exemplar_opt(8, point.exemplar));
    }
    encode_pairs(buf, 9, &point.attrs);
    proof {
        lemma_append_message(start, linked, pairs_fields(9, owned_view(point.attrs@)));
    }
    encode_fixed64_field_always(buf, 11, point.min);
    proof {
        lemma_append_message(start, described, fixed64_always(11, point.min));
    }
    encode_fixed64_field_always(buf, 12, point.max);
    proof {
        lemma_append_message(start, least, fixed64_always(12, point.max));
    }
}

/// Encode `Sum` of a counter.
fn encode_sum(points: &[CounterDataPoint], start_time: u64, time: u64) -> (data: Vec<u8>)
    ensures
        data@ == message_bytes(
            sum_fields(
                points@.map_values(|p: CounterDataPoint| triple_view(p)),
                start_time,
                time,
            ),
        ),
{
    let ghost all = points@.map_values(|p: CounterDataPoint| triple_view(p));
    let ghost f = |p: PointView<i64>| counter_point_fields(p, start_time, time);
    let mut data: Vec<u8> = Vec::new();
    let mut i: usize = 0;
    while i < points.len()
        invariant
            i <= points@.len(),
            all == points@.map_values(|p: CounterDataPoint| triple_view(p)),
            f == |p: PointView<i64>| counter_point_fields(p, start_time, time),
            data@ == message_bytes(repeated(1, all.take(i as int), f)),
        decreases points@.len() - i,
    {
        let mut point: Vec<u8> = Vec::new();
        encode_counter_point(&mut point, &points[i], start_time, time);
        encode_message_field(&mut data, 1, point.as_slice());
        proof {
            let upto = all.take(i + 1);
            assert(upto.drop_last() == all.take(i as int));
            assert(upto.last() == triple_view(points@[i as int]));
            law_message_concat(
                repeated(1, all.take(i as int), f),
                message_opt(1, f(upto.last())),
            );
        }
        i = i + 1;
    }
    assert(all.take(i as int) == all);
    encode_varint_field(&mut data, 2, CUMULATIVE);
    encode_varint_field(&mut data, 3, 1);
    proof {
        law_message_concat(repeated(1, all, f), varint_opt(2, CUMULATIVE));
        law_message_concat(repeated(1, all, f) + varint_opt(2, CUMULATIVE), varint_opt(3, 1));
    }
    data
}

/// Encode `Gauge`.
fn encode_gauge(points: &[GaugeDataPoint], start_time: u64, time: u64) -> (data: Vec<u8>)
    ensures
        data@ == message_bytes(
            gauge_fields(
                points@.map_values(|p: GaugeDataPoint| triple_view(p)),
                start_time,
                time,
            ),
        ),
{
    let ghost all = points@.map_values(|p: GaugeDataPoint| triple_view(p));
    let ghost f = |p: PointView<u64>| gauge_point_fields(p, start_time, time);
    let mut data: Vec<u8> = Vec::new();
    let mut i: usize = 0;
    while i < points.len()
        invariant
            i <= points@.len(),
            all == points@.map_values(|p: GaugeDataPoint| triple_view(p)),
            f == |p: PointView<u64>| gauge_point_fields(p, start_time, time),
            data@ == message_bytes(repeated(1, all.take(i as int), f)),
        decreases points@.len() - i,
    {
        let mut point: Vec<u8> = Vec::new();
        encode_gauge_point(&mut point, &points[i], start_time, time);
        encode_message_field(&mut data, 1, point.as_slice());
        proof {
            let upto = all.take(i + 1);
            assert(upto.drop_last() == all.take(i as int));
            assert(upto.last() == triple_view(points@[i as int]));
            law_message_concat(
                repeated(1, all.take(i as int), f),
                message_opt(1, f(upto.last())),
            );
        }
        i = i + 1;
    }
    assert(all.take(i as int) == all);
    data
}

/// Encode `Histogram`.
fn encode_histogram(
    points: &[HistogramDataPoint],
    boundaries: &[u64],
    start_time: u64,
    time: u64,
) -> (data: Vec<u8>)
    ensures
        data@ == message_bytes(
            histogram_fields(
                points@.map_values(|p: HistogramDataPoint| p@),
                boundaries@,
                start_time,
                time,
            ),
        ),
{
    let ghost all = points@.map_values(|p: HistogramDataPoint| p@);
    let ghost f = |p: PointView<HistogramValue>|
        histogram_point_fields(p, boundaries@, start_time, time);
    let mut data: Vec<u8> = Vec::new();
    let mut i: usize = 0;
    while i < points.len()
        invariant
            i <= points@.len(),
            all == points@.map_values(|p: HistogramDataPoint| p@),
            f == |p: PointView<HistogramValue>|
                histogram_point_fields(p, boundaries@, start_time, time),
            data@ == message_bytes(repeated(1, all.take(i as int), f)),
        decreases points@.len() - i,
    {
        let mut point: Vec<u8> = Vec::new();
        encode_histogram_point(&mut point, &points[i], boundaries, start_time, time);
        encode_message_field(&mut data, 1, point.as_slice());
        proof {
            let upto = all.take(i + 1);
            assert(upto.drop_last() == all.take(i as int));
            assert(upto.last() == points@[i as int]@);
            law_message_concat(
                repeated(1, all.take(i as int), f),
                message_opt(1, f(upto.last())),
            );
        }
        i = i + 1;
    }
    assert(all.take(i as int) == all);
    encode_varint_field(&mut data, 2, CUMULATIVE);
    proof {
        law_message_concat(repeated(1, all, f), varint_opt(2, CUMULATIVE));
    }
    data
}

/// Append a metric: its name, its description, and its data under the number of its kind.
fn encode_named(buf: &mut Vec<u8>, name: &str, description: &str, kind: u32, data: &[u8])
    ensures
        final(buf)@ == old(buf)@ + message_bytes(
            string_opt(1, name@) + string_opt(2, description@) + delimited_opt(kind, data@),
        ),
{
    let ghost start = buf@;
    let ghost named = string_opt(1, name@) + string_opt(2, description@);
    encode_string_field(buf, 1, name);
    encode_string_field(buf, 2, description);
    proof {
        lemma_append_message(start, string_opt(1, name@), string_opt(2, description@));
    }
    encode_message_field(buf, kind, data);
    proof {
        lemma_append_message(start, named, delimited_opt(kind, data@));
    }
}

/// Append `Metric`.
pub(crate) fn encode_metric(
    buf: &mut Vec<u8>,
    snapshot: &MetricSnapshot,
    start_time: u64,
    time: u64,
)
    ensures
        final(buf)@ == old(buf)@ + message_bytes(metric_fields(snapshot@, start_time, time)),
{
    match snapshot {
        MetricSnapshot::Counter { name, description, data_points } => {
            let data = encode_sum(data_points.as_slice(), start_time, time);
            encode_named(buf, name.as_str(), description.as_str(), 7, data.as_slice());
        },
        MetricSnapshot::Gauge { name, description, data_points } => {
            let data = encode_gauge(data_points.as_slice(), start_time, time);
            encode_named(buf, name.as_str(), description.as_str(), 5, data.as_slice());
        },
        MetricSnapshot::Histogram { name, description, boundaries, data_points } => {
            let data = encode_histogram(
                data_points.as_slice(),
                boundaries.as_slice(),
                start_time,
                time,
            );
            encode_named(buf, name.as_str(), description.as_str(), 9, data.as_slice());
        },
    }
}

/// Encode snapshots as an `ExportMetricsServiceRequest`. The values count from `start_time` on and
/// were read at `time`.
pub fn encode_export_metrics_request(
    resource_attrs: &[KeyValue],
    scope_name: &str,
    scope_version: &str,
    snapshots: &[MetricSnapshot],
    start_time: u64,
    time: u64,
) -> (data: Vec<u8>)
    ensures
        data@ == message_bytes(
            metrics_request_fields(
                key_values(resource_attrs@),
                scope_name@,
                scope_version@,
                snapshots_view(snapshots@),
                start_time,
                time,
            ),
        ),
{
    let ghost all = snapshots_view(snapshots@);
    let ghost f = |s: SnapshotView| metric_fields(s, start_time, time);
    let ghost scope_field = message_opt(1, scope_fields(scope_name@, scope_version@));
    let mut scope: Vec<u8> = Vec::new();
    encode_scope(&mut scope, scope_name, scope_version);
    let mut items: Vec<u8> = Vec::new();
    encode_message_field(&mut items, 1, scope.as_slice());
    assert(scope_field + repeated(2, all.take(0), f) == scope_field);
    let mut i: usize = 0;
    while i < snapshots.len()
        invariant
            i <= snapshots@.len(),
            all == snapshots_view(snapshots@),
            f == |s: SnapshotView| metric_fields(s, start_time, time),
            items@ == message_bytes(scope_field + repeated(2, all.take(i as int), f)),
        decreases snapshots@.len() - i,
    {
        let mut metric: Vec<u8> = Vec::new();
        encode_metric(&mut metric, &snapshots[i], start_time, time);
        encode_message_field(&mut items, 2, metric.as_slice());
        proof {
            let upto = all.take(i + 1);
            assert(upto.drop_last() == all.take(i as int));
            assert(upto.last() == snapshots@[i as int]@);
            let before = scope_field + repeated(2, all.take(i as int), f);
            let new = message_opt(2, f(upto.last()));
            law_message_concat(before, new);
            assert(before + new == scope_field + repeated(2, upto, f));
        }
        i = i + 1;
    }
    assert(all.take(i as int) == all);
    encode_request(resource_attrs, items.as_slice())
}

} // verus!
