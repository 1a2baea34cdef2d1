//! What a collector reads from the body of a batch: every request in it, in order.

use vstd::prelude::*;

use crate::export_laws::{
    all_arrived, law_batch_is_one_request, law_drain_posts_everything, merged, posted, run_batches,
};
use crate::exporter::{
    enabled, joined, pending, settled, BatchView, BatcherView, EventView, Signal,
};
use crate::otlp_log::{log_fields, logs_request_fields, scope_logs_fields, severity_value, LogView};
use crate::otlp_metrics::{metric_fields, metrics_request_fields, scope_metrics_fields};
use crate::otlp_metrics_reading::{
    export_group, export_reading, law_resource_metrics_round_trip, read_resource_metrics,
    sendable_export, sendable_snapshot, MetricsExport, MetricsRequest,
};
use crate::otlp_reading::{
    all_visible, law_resource_logs_round_trip, law_resource_spans_round_trip, read_resource_logs,
    read_resource_spans, sendable_log, sendable_span, visible, LogsRequest, TraceRequest,
};
use crate::otlp_trace::{
    group_fields, key_value_fields, resource_fields, scope_fields, scope_spans_fields, span_fields,
    trace_request_fields, KeyValueView, SpanView,
};
use crate::proto::{delimited_opt, message_bytes, message_opt, repeated, varint_opt, WireField};
use crate::reading::{
    fields_of, lemma_fields_of, lemma_message_not_empty, lemma_picked_repeated, lemma_read_repeated,
    read_repeated,
};
use crate::snapshot::SnapshotView;

verus! {

/// Requests with one group each are the groups as a repeated field.
proof fn lemma_merged_groups<T>(items: Seq<T>, group: spec_fn(T) -> Seq<WireField>)
    ensures
        merged(items.map_values(|item: T| message_opt(1, group(item)))) == repeated(
            1,
            items,
            group,
        ),
    decreases items.len(),
{
    let frame = |item: T| message_opt(1, group(item));
    if items.len() > 0 {
        lemma_merged_groups(items.drop_last(), group);
        assert(items.map_values(frame).drop_last() =~= items.drop_last().map_values(frame));
    }
}

/// A collector that reads groups one by one reads from a batch what it reads from each request.
proof fn lemma_read_batch<T, U>(
    items: Seq<T>,
    group: spec_fn(T) -> Seq<WireField>,
    read: spec_fn(Seq<WireField>) -> U,
    meaning: Seq<U>,
)
    requires
        forall|i: int| 0 <= i < items.len() ==> (#[trigger] group(items[i])).len() > 0,
        meaning.len() == items.len(),
        forall|i: int| 0 <= i < items.len() ==> read(group(#[trigger] items[i])) == meaning[i],
    ensures
        read_repeated(
            fields_of(
                joined(items.map_values(|item: T| message_bytes(message_opt(1, group(item))))),
            ),
            1,
            read,
        ) == meaning,
{
    let frame = |item: T| message_opt(1, group(item));
    let requests = items.map_values(frame);
    let message = merged(requests);
    law_batch_is_one_request(requests);
    lemma_merged_groups(items, group);
    lemma_fields_of(message);
    assert(requests.map_values(|fields: Seq<WireField>| message_bytes(fields))
        =~= items.map_values(|item: T| message_bytes(message_opt(1, group(item)))));
    lemma_picked_repeated(1, items, group);
    lemma_read_repeated(message, 1, items, group, read, meaning);
}

// --- Traces ---

/// The bytes of a trace request.
pub open spec fn trace_bytes(request: TraceRequest) -> Seq<u8> {
    message_bytes(
        trace_request_fields(
            request.resource,
            request.scope_name,
            request.scope_version,
            request.spans,
        ),
    )
}

/// A trace request that can be read back: it names its resource or holds a span, and all in it
/// shows on the wire.
pub open spec fn sendable_trace_request(request: TraceRequest) -> bool {
    &&& request.resource.len() > 0 || request.spans.len() > 0
    &&& all_visible(request.resource)
    &&& forall|i: int| 0 <= i < request.spans.len() ==> sendable_span(#[trigger] request.spans[i])
}

/// Read the trace requests in the body of a batch.
pub open spec fn read_trace_batch(body: Seq<u8>) -> Seq<TraceRequest> {
    read_repeated(fields_of(body), 1, |group: Seq<WireField>| read_resource_spans(group))
}

/// A collector reads from a batch of trace requests every request in it, in order.
pub proof fn law_trace_batch_is_read(requests: Seq<TraceRequest>)
    requires
        forall|i: int|
            0 <= i < requests.len() ==> sendable_trace_request(#[trigger] requests[i]),
    ensures
        read_trace_batch(joined(requests.map_values(|r: TraceRequest| trace_bytes(r)))) == requests,
{
    let group = |r: TraceRequest|
        group_fields(r.resource, scope_spans_fields(r.scope_name, r.scope_version, r.spans));
    let read = |g: Seq<WireField>| read_resource_spans(g);
    assert forall|i: int| 0 <= i < requests.len() implies (#[trigger] group(requests[i])).len()
        > 0 by {
        let r = requests[i];
        assert(sendable_trace_request(r));
        if r.resource.len() > 0 {
            lemma_resource_shows(
                r.resource,
                scope_spans_fields(r.scope_name, r.scope_version, r.spans),
            );
        } else {
            let span = r.spans.last();
            assert(sendable_span(r.spans[r.spans.len() - 1]));
            assert(delimited_opt(1, span.trace_id).len() == 1);
            lemma_item_shows(
                r.resource,
                message_opt(1, scope_fields(r.scope_name, r.scope_version)),
                r.spans,
                |s: SpanView| span_fields(s),
            );
        }
    }
    assert forall|i: int| 0 <= i < requests.len() implies read(group(#[trigger] requests[i]))
        == requests[i] by {
        assert(sendable_trace_request(requests[i]));
        law_resource_spans_round_trip(requests[i]);
    }
    lemma_read_batch(requests, group, read, requests);
    assert(requests.map_values(|r: TraceRequest| trace_bytes(r)) =~= requests.map_values(
        |r: TraceRequest| message_bytes(message_opt(1, group(r))),
    ));
}

/// A group with a resource attribute that shows has a field.
proof fn lemma_resource_shows(
    resource: Seq<KeyValueView>,
    items: Seq<WireField>,
)
    requires
        resource.len() > 0,
        all_visible(resource),
    ensures
        group_fields(resource, items).len() > 0,
{
    let last = resource.last();
    assert(visible(resource[resource.len() - 1]));
    lemma_message_not_empty(key_value_fields(last));
    let attrs = resource_fields(resource);
    assert(message_opt(1, key_value_fields(last)).len() == 1);
    assert(attrs.len() > 0);
    lemma_message_not_empty(attrs);
}

/// A group with an item that shows has a field.
proof fn lemma_item_shows<T>(
    resource: Seq<KeyValueView>,
    scope: Seq<WireField>,
    items: Seq<T>,
    fields: spec_fn(T) -> Seq<WireField>,
)
    requires
        items.len() > 0,
        fields(items.last()).len() > 0,
    ensures
        group_fields(resource, scope + repeated(2, items, fields)).len() > 0,
{
    lemma_message_not_empty(fields(items.last()));
    assert(message_opt(2, fields(items.last())).len() == 1);
    lemma_message_not_empty(scope + repeated(2, items, fields));
}

// --- Logs ---

/// The bytes of a logs request.
pub open spec fn logs_bytes(request: LogsRequest) -> Seq<u8> {
    message_bytes(
        logs_request_fields(
            request.resource,
            request.scope_name,
            request.scope_version,
            request.logs,
        ),
    )
}

/// A logs request that can be read back: it names its resource or holds a record, and all in it
/// shows on the wire.
pub open spec fn sendable_logs_request(request: LogsRequest) -> bool {
    &&& request.resource.len() > 0 || request.logs.len() > 0
    &&& all_visible(request.resource)
    &&& forall|i: int| 0 <= i < request.logs.len() ==> sendable_log(#[trigger] request.logs[i])
}

/// Read the logs requests in the body of a batch.
pub open spec fn read_logs_batch(body: Seq<u8>) -> Seq<LogsRequest> {
    read_repeated(fields_of(body), 1, |group: Seq<WireField>| read_resource_logs(group))
}

/// A collector reads from a batch of logs requests every request in it, in order.
pub proof fn law_logs_batch_is_read(requests: Seq<LogsRequest>)
    requires
        forall|i: int| 0 <= i < requests.len() ==> sendable_logs_request(#[trigger] requests[i]),
    ensures
        read_logs_batch(joined(requests.map_values(|r: LogsRequest| logs_bytes(r)))) == requests,
{
    let group = |r: LogsRequest|
        group_fields(r.resource, scope_logs_fields(r.scope_name, r.scope_version, r.logs));
    let read = |g: Seq<WireField>| read_resource_logs(g);
    assert forall|i: int| 0 <= i < requests.len() implies (#[trigger] group(requests[i])).len()
        > 0 by {
        let r = requests[i];
        assert(sendable_logs_request(r));
        if r.resource.len() > 0 {
            lemma_resource_shows(
                r.resource,
                scope_logs_fields(r.scope_name, r.scope_version, r.logs),
            );
        } else {
            let log = r.logs.last();
            assert(varint_opt(
                2,
                severity_value(log.severity_number),
            ).len() == 1);
            lemma_item_shows(
                r.resource,
                message_opt(1, scope_fields(r.scope_name, r.scope_version)),
                r.logs,
                |l: LogView| log_fields(l),
            );
        }
    }
    assert forall|i: int| 0 <= i < requests.len() implies read(group(#[trigger] requests[i]))
        == requests[i] by {
        assert(sendable_logs_request(requests[i]));
        law_resource_logs_round_trip(requests[i]);
    }
    lemma_read_batch(requests, group, read, requests);
    assert(requests.map_values(|r: LogsRequest| logs_bytes(r)) =~= requests.map_values(
        |r: LogsRequest| message_bytes(message_opt(1, group(r))),
    ));
}

// --- Metrics ---

/// The bytes of a metrics request.
pub open spec fn metrics_bytes(export: MetricsExport) -> Seq<u8> {
    message_bytes(
        metrics_request_fields(
            export.resource,
            export.scope_name,
            export.scope_version,
            export.snapshots,
            export.start_time,
            export.time,
        ),
    )
}

/// A metrics request that can be read back: it names its resource or holds a metric, and all in it
/// shows on the wire.
pub open spec fn sendable_metrics_request(export: MetricsExport) -> bool {
    sendable_export(export) && (export.resource.len() > 0 || export.snapshots.len() > 0)
}

/// Read the metrics requests in the body of a batch.
pub open spec fn read_metrics_batch(body: Seq<u8>) -> Seq<MetricsRequest> {
    read_repeated(fields_of(body), 1, |group: Seq<WireField>| read_resource_metrics(group))
}

/// A collector reads from a batch of metrics requests every request in it, in order.
pub proof fn law_metrics_batch_is_read(exports: Seq<MetricsExport>)
    requires
        forall|i: int| 0 <= i < exports.len() ==> sendable_metrics_request(#[trigger] exports[i]),
    ensures
        read_metrics_batch(joined(exports.map_values(|e: MetricsExport| metrics_bytes(e))))
            == exports.map_values(|e: MetricsExport| export_reading(e)),
{
    let group = |e: MetricsExport| export_group(e);
    let read = |g: Seq<WireField>| read_resource_metrics(g);
    let meaning = exports.map_values(|e: MetricsExport| export_reading(e));
    assert forall|i: int| 0 <= i < exports.len() implies (#[trigger] group(exports[i])).len()
        > 0 by {
        let e = exports[i];
        assert(sendable_metrics_request(e));
        if e.resource.len() > 0 {
            lemma_resource_shows(
                e.resource,
                scope_metrics_fields(
                    e.scope_name,
                    e.scope_version,
                    e.snapshots,
                    e.start_time,
                    e.time,
                ),
            );
        } else {
            assert(sendable_snapshot(
                e.snapshots[e.snapshots.len() - 1],
                e.start_time,
                e.time,
            ));
            lemma_item_shows(
                e.resource,
                message_opt(1, scope_fields(e.scope_name, e.scope_version)),
                e.snapshots,
                |s: SnapshotView| metric_fields(s, e.start_time, e.time),
            );
        }
    }
    assert forall|i: int| 0 <= i < exports.len() implies read(group(#[trigger] exports[i]))
        == meaning[i] by {
        assert(sendable_metrics_request(exports[i]));
        law_resource_metrics_round_trip(exports[i]);
    }
    lemma_read_batch(exports, group, read, meaning);
    assert(exports.map_values(|e: MetricsExport| metrics_bytes(e)) =~= exports.map_values(
        |e: MetricsExport| message_bytes(message_opt(1, group(e))),
    ));
}

// --- The whole way ---

/// What a collector reads from the batches of a signal, one after the other.
pub open spec fn read_posted<U>(
    batches: Seq<BatchView>,
    signal: Signal,
    read: spec_fn(Seq<u8>) -> Seq<U>,
) -> Seq<U>
    decreases batches.len(),
{
    if batches.len() == 0 {
        Seq::empty()
    } else if batches.last().signal == signal {
        read_posted(batches.drop_last(), signal, read) + read(joined(batches.last().items))
    } else {
        read_posted(batches.drop_last(), signal, read)
    }
}

/// However requests are split into batches, what is read from the batches is what was sent.
proof fn lemma_read_posted<T, U>(
    batches: Seq<BatchView>,
    signal: Signal,
    items: Seq<T>,
    good: spec_fn(T) -> bool,
    bytes: spec_fn(T) -> Seq<u8>,
    read: spec_fn(Seq<u8>) -> Seq<U>,
    meaning: spec_fn(T) -> U,
)
    requires
        posted(batches, signal) == items.map_values(bytes),
        forall|i: int| 0 <= i < items.len() ==> good(#[trigger] items[i]),
        forall|part: Seq<T>|
            (forall|i: int| 0 <= i < part.len() ==> good(#[trigger] part[i])) ==> read(
                joined(#[trigger] part.map_values(bytes)),
            ) == part.map_values(meaning),
    ensures
        read_posted(batches, signal, read) == items.map_values(meaning),
    decreases batches.len(),
{
    if batches.len() == 0 {
        assert(items.map_values(bytes).len() == 0);
        assert(read_posted(batches, signal, read) =~= items.map_values(meaning));
    } else {
        let rest = batches.drop_last();
        let last = batches.last();
        let split = posted(rest, signal).len() as int;
        if last.signal == signal {
            let first = items.take(split);
            let second = items.skip(split);
            assert(posted(batches, signal).len() == items.len());
            assert(first.map_values(bytes) =~= posted(batches, signal).take(split));
            assert(posted(rest, signal) =~= posted(batches, signal).take(split));
            assert(second.map_values(bytes) =~= posted(batches, signal).skip(split));
            assert(last.items =~= posted(batches, signal).skip(split));
            assert forall|i: int| 0 <= i < first.len() implies good(#[trigger] first[i]) by {
                assert(first[i] == items[i]);
            }
            assert forall|i: int| 0 <= i < second.len() implies good(#[trigger] second[i]) by {
                assert(second[i] == items[i + split]);
            }
            lemma_read_posted(rest, signal, first, good, bytes, read, meaning);
            assert(read(joined(second.map_values(bytes))) == second.map_values(meaning));
            assert(first.map_values(meaning) + second.map_values(meaning) =~= items.map_values(
                meaning,
            ));
        } else {
            lemma_read_posted(rest, signal, items, good, bytes, read, meaning);
        }
    }
}

/// After a flush, at a shutdown and when the window ends, a collector that took every batch has
/// read every trace request that came, once and in order.
pub proof fn law_traces_arrive(
    batcher: BatcherView,
    events: Seq<EventView>,
    requests: Seq<TraceRequest>,
)
    requires
        settled(batcher),
        enabled(batcher, Signal::Traces),
        pending(batcher, Signal::Traces).len() == 0,
        events.len() > 0,
        events.last() !is Data,
        all_arrived(events, Signal::Traces) == requests.map_values(
            |r: TraceRequest| trace_bytes(r),
        ),
        forall|i: int|
            0 <= i < requests.len() ==> sendable_trace_request(#[trigger] requests[i]),
    ensures
        read_posted(
            run_batches(batcher, events),
            Signal::Traces,
            |body: Seq<u8>| read_trace_batch(body),
        ) == requests,
{
    let good = |r: TraceRequest| sendable_trace_request(r);
    let bytes = |r: TraceRequest| trace_bytes(r);
    let read = |body: Seq<u8>| read_trace_batch(body);
    let same = |r: TraceRequest| r;
    law_drain_posts_everything(batcher, events, Signal::Traces);
    assert(posted(run_batches(batcher, events), Signal::Traces) =~= requests.map_values(bytes));
    assert forall|part: Seq<TraceRequest>|
        (forall|i: int| 0 <= i < part.len() ==> good(#[trigger] part[i])) implies read(
        joined(#[trigger] part.map_values(bytes)),
    ) == part.map_values(same) by {
        assert forall|i: int| 0 <= i < part.len() implies sendable_trace_request(
            #[trigger] part[i],
        ) by {
            assert(good(part[i]));
        }
        law_trace_batch_is_read(part);
        assert(part.map_values(same) =~= part);
    }
    lemma_read_posted(
        run_batches(batcher, events),
        Signal::Traces,
        requests,
        good,
        bytes,
        read,
        same,
    );
    assert(requests.map_values(same) =~= requests);
}

/// The same of logs: every request that came is read, once and in order.
pub proof fn law_logs_arrive(
    batcher: BatcherView,
    events: Seq<EventView>,
    requests: Seq<LogsRequest>,
)
    requires
        settled(batcher),
        enabled(batcher, Signal::Logs),
        pending(batcher, Signal::Logs).len() == 0,
        events.len() > 0,
        events.last() !is Data,
        all_arrived(events, Signal::Logs) == requests.map_values(|r: LogsRequest| logs_bytes(r)),
        forall|i: int| 0 <= i < requests.len() ==> sendable_logs_request(#[trigger] requests[i]),
    ensures
        read_posted(
            run_batches(batcher, events),
            Signal::Logs,
            |body: Seq<u8>| read_logs_batch(body),
        ) == requests,
{
    let good = |r: LogsRequest| sendable_logs_request(r);
    let bytes = |r: LogsRequest| logs_bytes(r);
    let read = |body: Seq<u8>| read_logs_batch(body);
    let same = |r: LogsRequest| r;
    law_drain_posts_everything(batcher, events, Signal::Logs);
    assert(posted(run_batches(batcher, events), Signal::Logs) =~= requests.map_values(bytes));
    assert forall|part: Seq<LogsRequest>|
        (forall|i: int| 0 <= i < part.len() ==> good(#[trigger] part[i])) implies read(
        joined(#[trigger] part.map_values(bytes)),
    ) == part.map_values(same) by {
        assert forall|i: int| 0 <= i < part.len() implies sendable_logs_request(
            #[trigger] part[i],
        ) by {
            assert(good(part[i]));
        }
        law_logs_batch_is_read(part);
        assert(part.map_values(same) =~= part);
    }
    lemma_read_posted(
        run_batches(batcher, events),
        Signal::Logs,
        requests,
        good,
        bytes,
        read,
        same,
    );
    assert(requests.map_values(same) =~= requests);
}

/// The same of metrics: every request that came is read, once and in order.
pub proof fn law_metrics_arrive(
    batcher: BatcherView,
    events: Seq<EventView>,
    exports: Seq<MetricsExport>,
)
    requires
        settled(batcher),
        enabled(batcher, Signal::Metrics),
        pending(batcher, Signal::Metrics).len() == 0,
        events.len() > 0,
        events.last() !is Data,
        all_arrived(events, Signal::Metrics) == exports.map_values(
            |e: MetricsExport| metrics_bytes(e),
        ),
        forall|i: int| 0 <= i < exports.len() ==> sendable_metrics_request(#[trigger] exports[i]),
    ensures
        read_posted(
            run_batches(batcher, events),
            Signal::Metrics,
            |body: Seq<u8>| read_metrics_batch(body),
        ) == exports.map_values(|e: MetricsExport| export_reading(e)),
{
    let good = |e: MetricsExport| sendable_metrics_request(e);
    let bytes = |e: MetricsExport| metrics_bytes(e);
    let read = |body: Seq<u8>| read_metrics_batch(body);
    let meaning = |e: MetricsExport| export_reading(e);
    law_drain_posts_everything(batcher, events, Signal::Metrics);
    assert(posted(run_batches(batcher, events), Signal::Metrics) =~= exports.map_values(bytes));
    assert forall|part: Seq<MetricsExport>|
        (forall|i: int| 0 <= i < part.len() ==> good(#[trigger] part[i])) implies read(
        joined(#[trigger] part.map_values(bytes)),
    ) == part.map_values(meaning) by {
        assert forall|i: int| 0 <= i < part.len() implies sendable_metrics_request(
            #[trigger] part[i],
        ) by {
            assert(good(part[i]));
        }
        law_metrics_batch_is_read(part);
    }
    lemma_read_posted(
        run_batches(batcher, events),
        Signal::Metrics,
        exports,
        good,
        bytes,
        read,
        meaning,
    );
}

} // verus!
