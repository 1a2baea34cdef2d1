//! The periodic export of aggregated metrics.

use vstd::prelude::*;

use crate::metrics::{
    after_collect, collected, counter_snapshot, gauge_snapshot, histogram_snapshot, in_use, Metric,
    MetricsRegistry, RegistryView,
};
use crate::otlp_metrics::{
    encode_export_metrics_request, gauge_fields, gauge_point_fields, histogram_fields,
    metric_fields, metrics_request_fields, sum_fields, CUMULATIVE,
};
use crate::otlp_metrics_reading::{
    law_metrics_request_round_trip, metric_reading, read_metrics_request, sendable_snapshot,
    snapshot_visible, MetricsRequest,
};
use crate::otlp_reading::all_visible;
use crate::otlp_trace::{key_values, KeyValue, KeyValueView};
use crate::proto::{fixed64_always, message_bytes, message_opt, repeated, varint_opt};
use crate::reading::lemma_message_not_empty;
use crate::snapshot::{points_of, snapshots_view, PointView, SnapshotView};

verus! {

/// Collect the metrics and encode them as an `ExportMetricsServiceRequest`; none where nothing was
/// measured yet. `resource_attrs` name the service, `start_time` is when the counting began.
pub fn export_metrics(
    registry: &mut MetricsRegistry,
    resource_attrs: &[KeyValue],
    service_version: &str,
    start_time: u64,
    now: u64,
) -> (data: Option<Vec<u8>>)
    requires
        old(registry).wf(),
    ensures
        final(registry).wf(),
        final(registry)@ == after_collect(old(registry)@),
        data is Some <==> collected(old(registry)@).len() > 0,
        data matches Some(bytes) ==> bytes@ == message_bytes(
            metrics_request_fields(
                key_values(resource_attrs@),
                "ro11y"@,
                service_version@,
                collected(old(registry)@),
                start_time,
                now,
            ),
        ),
{
    let snapshots = registry.collect();
    assert(snapshots_view(snapshots@).len() == snapshots@.len());
    if snapshots.len() == 0 {
        return None;
    }
    Some(
        encode_export_metrics_request(
            resource_attrs,
            "ro11y",
            service_version,
            snapshots.as_slice(),
            start_time,
            now,
        ),
    )
}

/// The instruments in use have data points.
proof fn lemma_in_use<V>(metrics: Seq<Metric<V>>)
    ensures
        forall|i: int| 0 <= i < in_use(metrics).len() ==> (#[trigger] in_use(metrics)[i]).series.len()
            > 0,
{
    let pred = |m: Metric<V>| m.series.len() > 0;
    assert forall|i: int| 0 <= i < in_use(metrics).len() implies (
    #[trigger] in_use(metrics)[i]).series.len() > 0 by {
        metrics.lemma_filter_pred(pred, i);
    }
}

/// What is collected has bytes on the wire.
proof fn lemma_collected_has_bytes(registry: RegistryView, start_time: u64, now: u64, i: int)
    requires
        0 <= i < collected(registry).len(),
    ensures
        metric_fields(collected(registry)[i], start_time, now).len() > 0,
{
    let counters = in_use(registry.counters);
    let gauges = in_use(registry.gauges);
    let histograms = in_use(registry.histograms);
    lemma_in_use(registry.gauges);
    assert(varint_opt(2, CUMULATIVE).len() == 1);
    if i < counters.len() {
        let m = counters[i];
        assert(collected(registry)[i] == counter_snapshot(m));
        let sum = sum_fields(points_of(m.series), start_time, now);
        lemma_message_not_empty(sum);
    } else if i < counters.len() + gauges.len() {
        let m = gauges[i - counters.len()];
        assert(collected(registry)[i] == gauge_snapshot(m));
        assert(m.series.len() > 0);
        let points = points_of(m.series);
        let last = gauge_point_fields(points.last(), start_time, now);
        assert(fixed64_always(4, points.last().value).len() == 1);
        assert(last.len() > 0);
        lemma_message_not_empty(last);
        let f = |p: PointView<u64>| gauge_point_fields(p, start_time, now);
        assert(f(points.last()) == last);
        assert(message_opt(1, last).len() == 1);
        let all = gauge_fields(points, start_time, now);
        assert(all == repeated(1, points.drop_last(), f) + message_opt(1, last));
        lemma_message_not_empty(all);
    } else {
        let m = histograms[i - counters.len() - gauges.len()];
        assert(collected(registry)[i] == histogram_snapshot(m));
        let all = histogram_fields(
            points_of(m.series),
            m.boundaries,
            start_time,
            now,
        );
        lemma_message_not_empty(all);
    }
}

/// A collector reads from an export of the metrics every instrument that has measured something,
/// with each of its data points: attributes, value and exemplar.
pub proof fn law_exported_metrics_are_read(
    registry: RegistryView,
    resource: Seq<KeyValueView>,
    service_version: Seq<char>,
    start_time: u64,
    now: u64,
)
    requires
        all_visible(resource),
        forall|i: int|
            0 <= i < collected(registry).len() ==> snapshot_visible(
                #[trigger] collected(registry)[i],
            ),
    ensures
        read_metrics_request(
            message_bytes(
                metrics_request_fields(
                    resource,
                    "ro11y"@,
                    service_version,
                    collected(registry),
                    start_time,
                    now,
                ),
            ),
        ) == (MetricsRequest {
            resource,
            scope_name: "ro11y"@,
            scope_version: service_version,
            metrics: collected(registry).map_values(
                |s: SnapshotView| metric_reading(s, start_time, now),
            ),
        }),
{
    let snapshots = collected(registry);
    assert forall|i: int| 0 <= i < snapshots.len() implies sendable_snapshot(
        #[trigger] snapshots[i],
        start_time,
        now,
    ) by {
        lemma_collected_has_bytes(registry, start_time, now, i);
    }
    law_metrics_request_round_trip(
        resource,
        "ro11y"@,
        service_version,
        snapshots,
        start_time,
        now,
    );
}

} // verus!
