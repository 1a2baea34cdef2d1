//! What a collector reads back from a metrics request.

use vstd::prelude::*;

use crate::attrs::AttrView;
use crate::exemplar::{Exemplar, ExemplarValue};
use crate::histogram::HistogramValue;
use crate::otlp_metrics::{
    counter_point_fields, exemplar_fields, exemplar_opt, gauge_fields, gauge_point_fields,
    histogram_fields, histogram_point_fields, metric_fields, metrics_request_fields, packed,
    pair_fields, pairs_fields, scope_metrics_fields, sum_fields, CUMULATIVE,
};
use crate::otlp_reading::{
    all_visible, law_key_value_round_trip, lemma_read_bytes, lemma_read_group, lemma_read_message,
    lemma_read_request, lemma_read_scope, lemma_read_string, read_group, read_key_value,
    read_resource, read_scope,
};
use crate::otlp_trace::{group_fields, signed, unsigned, KeyValueView, ValueView};
use crate::proto::{
    delimited_opt, fixed64_always, fixed64_opt, little_endian, message_bytes, message_opt, repeated,
    string_opt, varint_opt, Payload, WireField,
};
use crate::reading::{
    has_field, lemma_message_not_empty, lemma_picked_concat, lemma_picked_delimited,
    lemma_picked_fixed64, lemma_picked_repeated, lemma_picked_varint, lemma_read_repeated, picked,
    read_bytes, read_fixed64, read_message, read_repeated, read_string, read_varint,
};
use crate::snapshot::{PointView, SnapshotView};
use crate::wire::{from_little_endian, law_fixed64_round_trip};

verus! {

// --- Readings ---

/// An exemplar as a collector reads it.
#[verifier::ext_equal]
pub struct ExemplarReading {
    pub trace_id: Seq<u8>,
    pub span_id: Seq<u8>,
    pub time_unix_nano: u64,
    pub value: ExemplarValue,
}

/// A data point as a collector reads it.
#[verifier::ext_equal]
pub struct PointReading<V> {
    pub start_time: u64,
    pub time: u64,
    pub attrs: Seq<AttrView>,
    pub value: V,
    pub exemplar: Option<ExemplarReading>,
}

/// The value of a histogram data point as a collector reads it.
#[verifier::ext_equal]
pub struct HistogramReading {
    pub boundaries: Seq<u64>,
    pub value: HistogramValue,
}

/// A metric as a collector reads it.
#[verifier::ext_equal]
#[allow(inconsistent_fields)]
pub enum MetricReading {
    Sum {
        name: Seq<char>,
        description: Seq<char>,
        temporality: u64,
        monotonic: bool,
        points: Seq<PointReading<i64>>,
    },
    Gauge { name: Seq<char>, description: Seq<char>, points: Seq<PointReading<u64>> },
    Histogram {
        name: Seq<char>,
        description: Seq<char>,
        temporality: u64,
        points: Seq<PointReading<HistogramReading>>,
    },
}

/// What is to be read of an exemplar.
pub open spec fn exemplar_reading(exemplar: Option<Exemplar>) -> Option<ExemplarReading> {
    match exemplar {
        Some(e) => Some(
            ExemplarReading {
                trace_id: e.trace_id@,
                span_id: e.span_id@,
                time_unix_nano: e.time_unix_nano,
                value: e.value,
            },
        ),
        None => None,
    }
}

/// What is to be read of a data point.
pub open spec fn point_reading<V>(
    point: PointView<V>,
    start_time: u64,
    time: u64,
) -> PointReading<V> {
    PointReading {
        start_time,
        time,
        attrs: point.attrs,
        value: point.value,
        exemplar: exemplar_reading(point.exemplar),
    }
}

/// What is to be read of a histogram data point.
pub open spec fn histogram_point_reading(
    point: PointView<HistogramValue>,
    boundaries: Seq<u64>,
    start_time: u64,
    time: u64,
) -> PointReading<HistogramReading> {
    PointReading {
        start_time,
        time,
        attrs: point.attrs,
        value: HistogramReading { boundaries, value: point.value },
        exemplar: exemplar_reading(point.exemplar),
    }
}

/// What is to be read of a metric: a counter is a cumulative, monotonic sum, a histogram is
/// cumulative.
pub open spec fn metric_reading(
    snapshot: SnapshotView,
    start_time: u64,
    time: u64,
) -> MetricReading {
    match snapshot {
        SnapshotView::Counter { name, description, points } => MetricReading::Sum {
            name,
            description,
            temporality: CUMULATIVE,
            monotonic: true,
            points: points.map_values(|p: PointView<i64>| point_reading(p, start_time, time)),
        },
        SnapshotView::Gauge { name, description, points } => MetricReading::Gauge {
            name,
            description,
            points: points.map_values(|p: PointView<u64>| point_reading(p, start_time, time)),
        },
        SnapshotView::Histogram { name, description, boundaries, points } =>
            MetricReading::Histogram {
            name,
            description,
            temporality: CUMULATIVE,
            points: points.map_values(
                |p: PointView<HistogramValue>|
                    histogram_point_reading(p, boundaries, start_time, time),
            ),
        },
    }
}

// --- Readers ---

/// Read an attribute of a data point.
pub open spec fn read_pair(fields: Seq<WireField>) -> AttrView {
    match read_key_value(fields) {
        KeyValueView { key, value: ValueView::String(text) } => (key, text),
        KeyValueView { key, value: _ } => (key, Seq::empty()),
    }
}

/// Read the attributes of a data point.
pub open spec fn read_pairs(fields: Seq<WireField>, number: u32) -> Seq<AttrView> {
    read_repeated(fields, number, |m: Seq<WireField>| read_pair(m))
}

/// Read the exemplar of a data point.
pub open spec fn read_exemplar(fields: Seq<WireField>, number: u32) -> Option<ExemplarReading> {
    if has_field(fields, number) {
        let exemplar = read_message(fields, number);
        Some(
            ExemplarReading {
                trace_id: read_bytes(exemplar, 5),
                span_id: read_bytes(exemplar, 4),
                time_unix_nano: read_fixed64(exemplar, 2),
                value: if has_field(exemplar, 6) {
                    ExemplarValue::Int(signed(read_fixed64(exemplar, 6)) as i64)
                } else {
                    ExemplarValue::Double(read_fixed64(exemplar, 3))
                },
            },
        )
    } else {
        None
    }
}

/// Read `NumberDataPoint` of a sum.
pub open spec fn read_sum_point(fields: Seq<WireField>) -> PointReading<i64> {
    PointReading {
        start_time: read_fixed64(fields, 2),
        time: read_fixed64(fields, 3),
        attrs: read_pairs(fields, 7),
        value: signed(read_fixed64(fields, 6)) as i64,
        exemplar: read_exemplar(fields, 5),
    }
}

/// Read `NumberDataPoint` of a gauge.
pub open spec fn read_gauge_point(fields: Seq<WireField>) -> PointReading<u64> {
    PointReading {
        start_time: read_fixed64(fields, 2),
        time: read_fixed64(fields, 3),
        attrs: read_pairs(fields, 7),
        value: read_fixed64(fields, 4),
        exemplar: read_exemplar(fields, 5),
    }
}

/// Read packed eight byte values.
pub open spec fn unpacked(bytes: Seq<u8>) -> Seq<u64>
    decreases bytes.len(),
{
    if bytes.len() < 8 {
        Seq::empty()
    } else {
        unpacked(bytes.take(bytes.len() - 8)).push(
            from_little_endian(bytes.skip(bytes.len() - 8)) as u64,
        )
    }
}

/// Read `HistogramDataPoint`.
pub open spec fn read_histogram_point(fields: Seq<WireField>) -> PointReading<HistogramReading> {
    PointReading {
        start_time: read_fixed64(fields, 2),
        time: read_fixed64(fields, 3),
        attrs: read_pairs(fields, 9),
        value: HistogramReading {
            boundaries: unpacked(read_bytes(fields, 7)),
            value: HistogramValue {
                bucket_counts: unpacked(read_bytes(fields, 6)),
                sum: read_fixed64(fields, 5),
                count: read_fixed64(fields, 4),
                min: read_fixed64(fields, 11),
                max: read_fixed64(fields, 12),
            },
        },
        exemplar: read_exemplar(fields, 8),
    }
}

/// Read `Metric`.
pub open spec fn read_metric(fields: Seq<WireField>) -> MetricReading {
    if has_field(fields, 7) {
        let sum = read_message(fields, 7);
        MetricReading::Sum {
            name: read_string(fields, 1),
            description: read_string(fields, 2),
            temporality: read_varint(sum, 2),
            monotonic: read_varint(sum, 3) != 0,
            points: read_repeated(sum, 1, |m: Seq<WireField>| read_sum_point(m)),
        }
    } else if has_field(fields, 9) {
        let histogram = read_message(fields, 9);
        MetricReading::Histogram {
            name: read_string(fields, 1),
            description: read_string(fields, 2),
            temporality: read_varint(histogram, 2),
            points: read_repeated(histogram, 1, |m: Seq<WireField>| read_histogram_point(m)),
        }
    } else {
        MetricReading::Gauge {
            name: read_string(fields, 1),
            description: read_string(fields, 2),
            points: read_repeated(
                read_message(fields, 5),
                1,
                |m: Seq<WireField>| read_gauge_point(m),
            ),
        }
    }
}

// --- Laws ---

/// Whether every attribute of a data point shows on the wire: an empty pair has no bytes.
pub open spec fn pairs_visible(attrs: Seq<AttrView>) -> bool {
    forall|i: int| 0 <= i < attrs.len() ==> pair_fields(#[trigger] attrs[i]).len() > 0
}

/// Whether every attribute of a snapshot shows on the wire.
pub open spec fn snapshot_visible(snapshot: SnapshotView) -> bool {
    match snapshot {
        SnapshotView::Counter { points, .. } => forall|i: int|
            0 <= i < points.len() ==> pairs_visible((#[trigger] points[i]).attrs),
        SnapshotView::Gauge { points, .. } => forall|i: int|
            0 <= i < points.len() ==> pairs_visible((#[trigger] points[i]).attrs),
        SnapshotView::Histogram { points, .. } => forall|i: int|
            0 <= i < points.len() ==> pairs_visible((#[trigger] points[i]).attrs),
    }
}

/// What is picked from the attributes of a data point.
proof fn lemma_picked_pairs(number: u32, attrs: Seq<AttrView>)
    requires
        pairs_visible(attrs),
    ensures
        forall|n: u32|
            n != number ==> #[trigger] picked(pairs_fields(number, attrs), n) == Seq::<
                Payload,
            >::empty(),
{
    let f = |pair: AttrView| pair_fields(pair);
    assert forall|i: int| 0 <= i < attrs.len() implies (#[trigger] f(attrs[i])).len() > 0 by {
        assert(pair_fields(attrs[i]).len() > 0);
    }
    lemma_picked_repeated(number, attrs, f);
}

/// The attributes of a data point read back as they were sent.
proof fn lemma_read_pairs(fields: Seq<WireField>, number: u32, attrs: Seq<AttrView>)
    requires
        pairs_visible(attrs),
        picked(fields, number) == picked(pairs_fields(number, attrs), number),
    ensures
        read_pairs(fields, number) == attrs,
{
    let f = |pair: AttrView| pair_fields(pair);
    let read = |m: Seq<WireField>| read_pair(m);
    assert forall|i: int| 0 <= i < attrs.len() implies (#[trigger] f(attrs[i])).len() > 0 by {
        assert(pair_fields(attrs[i]).len() > 0);
    }
    lemma_picked_repeated(number, attrs, f);
    assert forall|i: int| 0 <= i < attrs.len() implies read(f(#[trigger] attrs[i])) == attrs[i] by {
        law_key_value_round_trip(
            KeyValueView { key: attrs[i].0, value: ValueView::String(attrs[i].1) },
        );
    }
    lemma_read_repeated(fields, number, attrs, f, read, attrs);
}

/// What is picked from an exemplar field.
proof fn lemma_picked_exemplar(number: u32, exemplar: Option<Exemplar>)
    ensures
        forall|n: u32|
            n != number ==> #[trigger] picked(exemplar_opt(number, exemplar), n) == Seq::<
                Payload,
            >::empty(),
{
    match exemplar {
        Some(e) => {
            lemma_picked_delimited(number, message_bytes(exemplar_fields(e)));
        },
        None => {},
    }
}

/// An exemplar reads back as it was sent.
proof fn lemma_read_exemplar(fields: Seq<WireField>, number: u32, exemplar: Option<Exemplar>)
    requires
        picked(fields, number) == picked(exemplar_opt(number, exemplar), number),
    ensures
        read_exemplar(fields, number) == exemplar_reading(exemplar),
{
    match exemplar {
        Some(e) => {
            let inner = exemplar_fields(e);
            let p2 = fixed64_opt(2, e.time_unix_nano);
            let p3: Seq<WireField> = match e.value {
                ExemplarValue::Double(bits) => fixed64_always(3, bits),
                ExemplarValue::Int(_) => Seq::empty(),
            };
            let p4 = delimited_opt(4, e.span_id@);
            let p5 = delimited_opt(5, e.trace_id@);
            let p6: Seq<WireField> = match e.value {
                ExemplarValue::Int(i) => fixed64_always(6, unsigned(i)),
                ExemplarValue::Double(_) => Seq::empty(),
            };
            lemma_picked_concat(p2, p3);
            lemma_picked_concat(p2 + p3, p4);
            lemma_picked_concat(p2 + p3 + p4, p5);
            lemma_picked_concat(p2 + p3 + p4 + p5, p6);
            lemma_picked_fixed64(2, e.time_unix_nano);
            lemma_picked_delimited(4, e.span_id@);
            lemma_picked_delimited(5, e.trace_id@);
            match e.value {
                ExemplarValue::Double(bits) => {
                    lemma_picked_fixed64(3, bits);
                },
                ExemplarValue::Int(i) => {
                    lemma_picked_fixed64(6, unsigned(i));
                },
            }
            assert(picked(inner, 2) =~= picked(p2, 2));
            assert(picked(inner, 3) =~= picked(p3, 3));
            assert(picked(inner, 4) =~= picked(p4, 4));
            assert(picked(inner, 5) =~= picked(p5, 5));
            assert(picked(inner, 6) =~= picked(p6, 6));
            assert(p4.len() == 1);
            lemma_message_not_empty(inner);
            lemma_picked_delimited(number, message_bytes(inner));
            lemma_read_message(fields, number, inner);
            lemma_read_bytes(inner, 4, e.span_id@);
            lemma_read_bytes(inner, 5, e.trace_id@);
            assert(read_exemplar(fields, number) =~= exemplar_reading(exemplar));
        },
        None => {},
    }
}

/// A counter's data point reads back as it was sent.
proof fn lemma_read_counter_point(point: PointView<i64>, start_time: u64, time: u64)
    requires
        pairs_visible(point.attrs),
    ensures
        read_sum_point(counter_point_fields(point, start_time, time)) == point_reading(
            point,
            start_time,
            time,
        ),
{
    let fields = counter_point_fields(point, start_time, time);
    let p2 = fixed64_opt(2, start_time);
    let p3 = fixed64_opt(3, time);
    let p5 = exemplar_opt(5, point.exemplar);
    let p6 = fixed64_always(6, unsigned(point.value));
    let p7 = pairs_fields(7, point.attrs);
    lemma_picked_concat(p2, p3);
    lemma_picked_concat(p2 + p3, p5);
    lemma_picked_concat(p2 + p3 + p5, p6);
    lemma_picked_concat(p2 + p3 + p5 + p6, p7);
    lemma_picked_fixed64(2, start_time);
    lemma_picked_fixed64(3, time);
    lemma_picked_exemplar(5, point.exemplar);
    lemma_picked_fixed64(6, unsigned(point.value));
    lemma_picked_pairs(7, point.attrs);
    assert(picked(fields, 2) =~= picked(p2, 2));
    assert(picked(fields, 3) =~= picked(p3, 3));
    assert(picked(fields, 5) =~= picked(p5, 5));
    assert(picked(fields, 6) =~= picked(p6, 6));
    assert(picked(fields, 7) =~= picked(p7, 7));
    lemma_read_exemplar(fields, 5, point.exemplar);
    lemma_read_pairs(fields, 7, point.attrs);
}

/// A gauge's data point reads back as it was sent.
proof fn lemma_read_gauge_point(point: PointView<u64>, start_time: u64, time: u64)
    requires
        pairs_visible(point.attrs),
    ensures
        read_gauge_point(gauge_point_fields(point, start_time, time)) == point_reading(
            point,
            start_time,
            time,
        ),
{
    let fields = gauge_point_fields(point, start_time, time);
    let p2 = fixed64_opt(2, start_time);
    let p3 = fixed64_opt(3, time);
    let p4 = fixed64_always(4, point.value);
    let p5 = exemplar_opt(5, point.exemplar);
    let p7 = pairs_fields(7, point.attrs);
    lemma_picked_concat(p2, p3);
    lemma_picked_concat(p2 + p3, p4);
    lemma_picked_concat(p2 + p3 + p4, p5);
    lemma_picked_concat(p2 + p3 + p4 + p5, p7);
    lemma_picked_fixed64(2, start_time);
    lemma_picked_fixed64(3, time);
    lemma_picked_fixed64(4, point.value);
    lemma_picked_exemplar(5, point.exemplar);
    lemma_picked_pairs(7, point.attrs);
    assert(picked(fields, 2) =~= picked(p2, 2));
    assert(picked(fields, 3) =~= picked(p3, 3));
    assert(picked(fields, 4) =~= picked(p4, 4));
    assert(picked(fields, 5) =~= picked(p5, 5));
    assert(picked(fields, 7) =~= picked(p7, 7));
    lemma_read_exemplar(fields, 5, point.exemplar);
    lemma_read_pairs(fields, 7, point.attrs);
}

/// Packed values read back as they were sent.
pub proof fn law_packed_round_trip(values: Seq<u64>)
    ensures
        packed(values).len() == 8 * values.len(),
        unpacked(packed(values)) == values,
    decreases values.len(),
{
    if values.len() > 0 {
        let rest = packed(values.drop_last());
        let last = little_endian(values.last() as nat, 8);
        let bytes = packed(values);
        law_packed_round_trip(values.drop_last());
        law_fixed64_round_trip(values.last());
        assert(bytes.take(bytes.len() - 8) =~= rest);
        assert(bytes.skip(bytes.len() - 8) =~= last);
        assert(unpacked(bytes) =~= values);
    } else {
        assert(unpacked(packed(values)) =~= values);
    }
}

/// A histogram's data point reads back as it was sent.
proof fn lemma_read_histogram_point(
    point: PointView<HistogramValue>,
    boundaries: Seq<u64>,
    start_time: u64,
    time: u64,
)
    requires
        pairs_visible(point.attrs),
    ensures
        read_histogram_point(histogram_point_fields(point, boundaries, start_time, time))
            == histogram_point_reading(point, boundaries, start_time, time),
{
    let fields = histogram_point_fields(point, boundaries, start_time, time);
    let p2 = fixed64_opt(2, start_time);
    let p3 = fixed64_opt(3, time);
    let p4 = fixed64_opt(4, point.value.count);
    let p5 = fixed64_always(5, point.value.sum);
    let p6 = delimited_opt(6, packed(point.value.bucket_counts));
    let p7 = delimited_opt(7, packed(boundaries));
    let p8 = exemplar_opt(8, point.exemplar);
    let p9 = pairs_fields(9, point.attrs);
    let p11 = fixed64_always(11, point.value.min);
    let p12 = fixed64_always(12, point.value.max);
    lemma_picked_concat(p2, p3);
    lemma_picked_concat(p2 + p3, p4);
    lemma_picked_concat(p2 + p3 + p4, p5);
    lemma_picked_concat(p2 + p3 + p4 + p5, p6);
    lemma_picked_concat(p2 + p3 + p4 + p5 + p6, p7);
    lemma_picked_concat(p2 + p3 + p4 + p5 + p6 + p7, p8);
    lemma_picked_concat(p2 + p3 + p4 + p5 + p6 + p7 + p8, p9);
    lemma_picked_concat(p2 + p3 + p4 + p5 + p6 + p7 + p8 + p9, p11);
    lemma_picked_concat(p2 + p3 + p4 + p5 + p6 + p7 + p8 + p9 + p11, p12);
    lemma_picked_fixed64(2, start_time);
    lemma_picked_fixed64(3, time);
    lemma_picked_fixed64(4, point.value.count);
    lemma_picked_fixed64(5, point.value.sum);
    lemma_picked_delimited(6, packed(point.value.bucket_counts));
    lemma_picked_delimited(7, packed(boundaries));
    lemma_picked_exemplar(8, point.exemplar);
    lemma_picked_pairs(9, point.attrs);
    lemma_picked_fixed64(11, point.value.min);
    lemma_picked_fixed64(12, point.value.max);
    assert(picked(fields, 2) =~= picked(p2, 2));
    assert(picked(fields, 3) =~= picked(p3, 3));
    assert(picked(fields, 4) =~= picked(p4, 4));
    assert(picked(fields, 5) =~= picked(p5, 5));
    assert(picked(fields, 6) =~= picked(p6, 6));
    assert(picked(fields, 7) =~= picked(p7, 7));
    assert(picked(fields, 8) =~= picked(p8, 8));
    assert(picked(fields, 9) =~= picked(p9, 9));
    assert(picked(fields, 11) =~= picked(p11, 11));
    assert(picked(fields, 12) =~= picked(p12, 12));
    lemma_read_bytes(fields, 6, packed(point.value.bucket_counts));
    lemma_read_bytes(fields, 7, packed(boundaries));
    law_packed_round_trip(point.value.bucket_counts);
    law_packed_round_trip(boundaries);
    lemma_read_exemplar(fields, 8, point.exemplar);
    lemma_read_pairs(fields, 9, point.attrs);
}

/// The name, the description and the data of a metric read back as they were sent.
proof fn lemma_read_named(
    name: Seq<char>,
    description: Seq<char>,
    kind: u32,
    data: Seq<WireField>,
)
    requires
        kind == 5 || kind == 7 || kind == 9,
    ensures
        ({
            let fields = string_opt(1, name) + string_opt(2, description) + message_opt(kind, data);
            &&& read_string(fields, 1) == name
            &&& read_string(fields, 2) == description
            &&& read_message(fields, kind) == data
            &&& forall|n: u32| n > 2 && n != kind ==> !#[trigger] has_field(fields, n)
            &&& data.len() > 0 ==> has_field(fields, kind)
        }),
{
    let fields = string_opt(1, name) + string_opt(2, description) + message_opt(kind, data);
    let p1 = string_opt(1, name);
    let p2 = string_opt(2, description);
    let p = message_opt(kind, data);
    lemma_picked_concat(p1, p2);
    lemma_picked_concat(p1 + p2, p);
    lemma_picked_delimited(1, vstd::utf8::encode_utf8(name));
    lemma_picked_delimited(2, vstd::utf8::encode_utf8(description));
    lemma_picked_delimited(kind, message_bytes(data));
    assert(picked(fields, 1) =~= picked(p1, 1));
    assert(picked(fields, 2) =~= picked(p2, 2));
    assert(picked(fields, kind) =~= picked(p, kind));
    lemma_read_string(fields, 1, name);
    lemma_read_string(fields, 2, description);
    lemma_read_message(fields, kind, data);
    assert forall|n: u32| n > 2 && n != kind implies !#[trigger] has_field(fields, n) by {
        assert(picked(fields, n) =~= Seq::<Payload>::empty());
    }
    if data.len() > 0 {
        lemma_message_not_empty(data);
    }
}

/// A counter reads back as it was sent.
proof fn lemma_read_sum(points: Seq<PointView<i64>>, start_time: u64, time: u64)
    requires
        forall|i: int| 0 <= i < points.len() ==> pairs_visible((#[trigger] points[i]).attrs),
    ensures
        ({
            let sum = sum_fields(points, start_time, time);
            &&& sum.len() > 0
            &&& read_varint(sum, 2) == CUMULATIVE
            &&& read_varint(sum, 3) == 1
            &&& read_repeated(sum, 1, |m: Seq<WireField>| read_sum_point(m)) == points.map_values(
                |p: PointView<i64>| point_reading(p, start_time, time),
            )
        }),
{
    let f = |p: PointView<i64>| counter_point_fields(p, start_time, time);
    let read = |m: Seq<WireField>| read_sum_point(m);
    let meaning = points.map_values(|p: PointView<i64>| point_reading(p, start_time, time));
    let sum = sum_fields(points, start_time, time);
    let p1 = repeated(1, points, f);
    let p2 = varint_opt(2, CUMULATIVE);
    let p3 = varint_opt(3, 1);
    assert forall|i: int| 0 <= i < points.len() implies (#[trigger] f(points[i])).len() > 0 by {
        assert(fixed64_always(6, unsigned(points[i].value)).len() == 1);
    }
    lemma_picked_concat(p1, p2);
    lemma_picked_concat(p1 + p2, p3);
    lemma_picked_repeated(1, points, f);
    lemma_picked_varint(2, CUMULATIVE);
    lemma_picked_varint(3, 1);
    assert(picked(sum, 1) =~= picked(p1, 1));
    assert(picked(sum, 2) =~= picked(p2, 2));
    assert(picked(sum, 3) =~= picked(p3, 3));
    assert forall|i: int| 0 <= i < points.len() implies read(f(#[trigger] points[i]))
        == meaning[i] by {
        lemma_read_counter_point(points[i], start_time, time);
    }
    lemma_read_repeated(sum, 1, points, f, read, meaning);
    assert(p2.len() == 1);
}

/// A gauge reads back as it was sent.
proof fn lemma_read_gauge(points: Seq<PointView<u64>>, start_time: u64, time: u64)
    requires
        forall|i: int| 0 <= i < points.len() ==> pairs_visible((#[trigger] points[i]).attrs),
    ensures
        read_repeated(
            gauge_fields(points, start_time, time),
            1,
            |m: Seq<WireField>| read_gauge_point(m),
        ) == points.map_values(|p: PointView<u64>| point_reading(p, start_time, time)),
{
    let f = |p: PointView<u64>| gauge_point_fields(p, start_time, time);
    let read = |m: Seq<WireField>| read_gauge_point(m);
    let meaning = points.map_values(|p: PointView<u64>| point_reading(p, start_time, time));
    assert forall|i: int| 0 <= i < points.len() implies (#[trigger] f(points[i])).len() > 0 by {
        assert(fixed64_always(4, points[i].value).len() == 1);
    }
    lemma_picked_repeated(1, points, f);
    assert forall|i: int| 0 <= i < points.len() implies read(f(#[trigger] points[i]))
        == meaning[i] by {
        lemma_read_gauge_point(points[i], start_time, time);
    }
    lemma_read_repeated(gauge_fields(points, start_time, time), 1, points, f, read, meaning);
}

/// A histogram reads back as it was sent.
proof fn lemma_read_histogram(
    points: Seq<PointView<HistogramValue>>,
    boundaries: Seq<u64>,
    start_time: u64,
    time: u64,
)
    requires
        forall|i: int| 0 <= i < points.len() ==> pairs_visible((#[trigger] points[i]).attrs),
    ensures
        ({
            let histogram = histogram_fields(points, boundaries, start_time, time);
            &&& histogram.len() > 0
            &&& read_varint(histogram, 2) == CUMULATIVE
            &&& read_repeated(histogram, 1, |m: Seq<WireField>| read_histogram_point(m))
                == points.map_values(
                |p: PointView<HistogramValue>|
                    histogram_point_reading(p, boundaries, start_time, time),
            )
        }),
{
    let f = |p: PointView<HistogramValue>| histogram_point_fields(p, boundaries, start_time, time);
    let read = |m: Seq<WireField>| read_histogram_point(m);
    let meaning = points.map_values(
        |p: PointView<HistogramValue>| histogram_point_reading(p, boundaries, start_time, time),
    );
    let histogram = histogram_fields(points, boundaries, start_time, time);
    let p1 = repeated(1, points, f);
    let p2 = varint_opt(2, CUMULATIVE);
    assert forall|i: int| 0 <= i < points.len() implies (#[trigger] f(points[i])).len() > 0 by {
        assert(fixed64_always(12, points[i].value.max).len() == 1);
    }
    lemma_picked_concat(p1, p2);
    lemma_picked_repeated(1, points, f);
    lemma_picked_varint(2, CUMULATIVE);
    assert(picked(histogram, 1) =~= picked(p1, 1));
    assert(picked(histogram, 2) =~= picked(p2, 2));
    assert forall|i: int| 0 <= i < points.len() implies read(f(#[trigger] points[i]))
        == meaning[i] by {
        lemma_read_histogram_point(points[i], boundaries, start_time, time);
    }
    lemma_read_repeated(histogram, 1, points, f, read, meaning);
    assert(p2.len() == 1);
}

/// A metric reads back as it was sent.
pub proof fn law_metric_round_trip(snapshot: SnapshotView, start_time: u64, time: u64)
    requires
        snapshot_visible(snapshot),
    ensures
        read_metric(metric_fields(snapshot, start_time, time)) == metric_reading(
            snapshot,
            start_time,
            time,
        ),
{
    match snapshot {
        SnapshotView::Counter { name, description, points } => {
            lemma_read_named(name, description, 7, sum_fields(points, start_time, time));
            lemma_read_sum(points, start_time, time);
        },
        SnapshotView::Gauge { name, description, points } => {
            lemma_read_named(name, description, 5, gauge_fields(points, start_time, time));
            lemma_read_gauge(points, start_time, time);
        },
        SnapshotView::Histogram { name, description, boundaries, points } => {
            lemma_read_named(
                name,
                description,
                9,
                histogram_fields(points, boundaries, start_time, time),
            );
            lemma_read_histogram(points, boundaries, start_time, time);
        },
    }
}

/// What a collector reads from an `ExportMetricsServiceRequest`.
#[verifier::ext_equal]
pub struct MetricsRequest {
    pub resource: Seq<KeyValueView>,
    pub scope_name: Seq<char>,
    pub scope_version: Seq<char>,
    pub metrics: Seq<MetricReading>,
}

/// Read `ResourceMetrics`.
pub open spec fn read_resource_metrics(group: Seq<WireField>) -> MetricsRequest {
    let scope = read_scope(group);
    MetricsRequest {
        resource: read_resource(group),
        scope_name: read_string(read_message(scope, 1), 1),
        scope_version: read_string(read_message(scope, 1), 2),
        metrics: read_repeated(scope, 2, |m: Seq<WireField>| read_metric(m)),
    }
}

/// Metrics of one resource and scope, as they are sent.
#[verifier::ext_equal]
pub struct MetricsExport {
    pub resource: Seq<KeyValueView>,
    pub scope_name: Seq<char>,
    pub scope_version: Seq<char>,
    pub snapshots: Seq<SnapshotView>,
    pub start_time: u64,
    pub time: u64,
}

/// What is to be read of metrics of one resource and scope.
pub open spec fn export_reading(export: MetricsExport) -> MetricsRequest {
    MetricsRequest {
        resource: export.resource,
        scope_name: export.scope_name,
        scope_version: export.scope_version,
        metrics: export.snapshots.map_values(
            |s: SnapshotView| metric_reading(s, export.start_time, export.time),
        ),
    }
}

/// Whether all attributes show on the wire and every metric has bytes there.
pub open spec fn sendable_export(export: MetricsExport) -> bool {
    &&& all_visible(export.resource)
    &&& forall|i: int|
        0 <= i < export.snapshots.len() ==> sendable_snapshot(
            #[trigger] export.snapshots[i],
            export.start_time,
            export.time,
        )
}

/// `ResourceMetrics` on the wire.
pub open spec fn export_group(export: MetricsExport) -> Seq<WireField> {
    group_fields(
        export.resource,
        scope_metrics_fields(
            export.scope_name,
            export.scope_version,
            export.snapshots,
            export.start_time,
            export.time,
        ),
    )
}

/// Metrics with their resource and scope read back as they were sent.
pub proof fn law_resource_metrics_round_trip(export: MetricsExport)
    requires
        sendable_export(export),
    ensures
        read_resource_metrics(export_group(export)) == export_reading(export),
{
    let snapshots = export.snapshots;
    let f = |s: SnapshotView| metric_fields(s, export.start_time, export.time);
    let read = |m: Seq<WireField>| read_metric(m);
    let meaning = export_reading(export).metrics;
    let scope = scope_metrics_fields(
        export.scope_name,
        export.scope_version,
        snapshots,
        export.start_time,
        export.time,
    );
    lemma_read_group(export.resource, scope);
    assert forall|i: int| 0 <= i < snapshots.len() implies (#[trigger] f(snapshots[i])).len()
        > 0 by {
        assert(sendable_snapshot(snapshots[i], export.start_time, export.time));
    }
    lemma_read_scope(export.scope_name, export.scope_version, snapshots, f);
    assert forall|i: int| 0 <= i < snapshots.len() implies read(f(#[trigger] snapshots[i]))
        == meaning[i] by {
        law_metric_round_trip(snapshots[i], export.start_time, export.time);
    }
    lemma_read_repeated(scope, 2, snapshots, f, read, meaning);
}

/// Read an `ExportMetricsServiceRequest`.
pub open spec fn read_metrics_request(bytes: Seq<u8>) -> MetricsRequest {
    read_resource_metrics(read_group(bytes))
}

/// Whether a metric has bytes on the wire and all its attributes show there. Only a gauge can have
/// none, with neither name, description nor data.
pub open spec fn sendable_snapshot(snapshot: SnapshotView, start_time: u64, time: u64) -> bool {
    snapshot_visible(snapshot) && metric_fields(snapshot, start_time, time).len() > 0
}

/// A collector reads from a metrics request the resource, the scope and the metrics that were sent.
pub proof fn law_metrics_request_round_trip(
    resource: Seq<KeyValueView>,
    scope_name: Seq<char>,
    scope_version: Seq<char>,
    snapshots: Seq<SnapshotView>,
    start_time: u64,
    time: u64,
)
    requires
        all_visible(resource),
        forall|i: int|
            0 <= i < snapshots.len() ==> sendable_snapshot(
                #[trigger] snapshots[i],
                start_time,
                time,
            ),
    ensures
        read_metrics_request(
            message_bytes(
                metrics_request_fields(
                    resource,
                    scope_name,
                    scope_version,
                    snapshots,
                    start_time,
                    time,
                ),
            ),
        ) == (MetricsRequest {
            resource,
            scope_name,
            scope_version,
            metrics: snapshots.map_values(|s: SnapshotView| metric_reading(s, start_time, time)),
        }),
{
    lemma_read_request(
        resource,
        scope_metrics_fields(scope_name, scope_version, snapshots, start_time, time),
    );
    law_resource_metrics_round_trip(
        MetricsExport { resource, scope_name, scope_version, snapshots, start_time, time },
    );
}

} // verus!
