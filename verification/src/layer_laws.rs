//! What a collector learns of spans and events, field by field, from what was recorded on them.

use vstd::prelude::*;
use vstd::utf8::encode_utf8;

use crate::exemplar::TraceContext;
use crate::otlp_layer::{
    closed_span, event_ids, event_log, level_name, level_severity, service_attributes, with_attr,
    with_debug, with_str, CollectedView, FieldCollector, LayerView, Level, SpanFields, SpanTiming,
};
use crate::otlp_log::{
    logs_request_fields, logs_view, severity_value, LogData, SeverityNumber,
};
use crate::otlp_reading::{
    law_all_shown, law_logs_request_is_read, law_named_attribute_visible,
    law_trace_request_is_read, read_logs_request, read_trace_request, shown, visible,
};
use crate::otlp_trace::{
    key_values, kind_number, spans_view, status_number, trace_request_fields, AnyValue, KeyValue,
    KeyValueView, SpanData, SpanKind, StatusCode, ValueView,
};
use crate::proto::message_bytes;
use crate::trace_id::{hex_bytes, is_hex_16};

verus! {

// --- Values ---

/// An attribute stands for its key and its value, each kind of value for itself, and a list for its
/// attributes in order.
pub proof fn law_key_values(attrs: Seq<KeyValue>)
    ensures
        key_values(attrs).len() == attrs.len(),
        forall|i: int|
            0 <= i < attrs.len() ==> {
                let kv = #[trigger] key_values(attrs)[i];
                &&& kv.key == attrs[i].key@
                &&& attrs[i].value matches AnyValue::String(s) ==> kv.value == ValueView::String(s@)
                &&& attrs[i].value matches AnyValue::Int(n) ==> kv.value == ValueView::Int(n)
                &&& attrs[i].value matches AnyValue::Bool(b) ==> kv.value == ValueView::Bool(b)
                &&& attrs[i].value matches AnyValue::Double(d) ==> kv.value == ValueView::Double(d)
            },
{
}

/// A span stands for all that it holds, and a list for its spans in order.
pub proof fn law_span_view(spans: Seq<SpanData>, i: int)
    requires
        0 <= i < spans.len(),
    ensures
        spans_view(spans).len() == spans.len(),
        spans_view(spans)[i].trace_id == spans[i].trace_id@,
        spans_view(spans)[i].span_id == spans[i].span_id@,
        spans_view(spans)[i].parent_span_id == spans[i].parent_span_id@,
        spans_view(spans)[i].name == spans[i].name@,
        spans_view(spans)[i].kind == spans[i].kind,
        spans_view(spans)[i].start_time_unix_nano == spans[i].start_time_unix_nano,
        spans_view(spans)[i].end_time_unix_nano == spans[i].end_time_unix_nano,
        spans_view(spans)[i].attributes == key_values(spans[i].attributes@),
        spans_view(spans)[i].status is Some <==> spans[i].status is Some,
        spans[i].status matches Some(status) ==> spans_view(spans)[i].status->0.message
            == status.message@ && spans_view(spans)[i].status->0.code == status.code,
{
}

/// A log record stands for all that it holds, and a list for its records in order.
pub proof fn law_log_view(logs: Seq<LogData>, i: int)
    requires
        0 <= i < logs.len(),
    ensures
        logs_view(logs).len() == logs.len(),
        logs_view(logs)[i].time_unix_nano == logs[i].time_unix_nano,
        logs_view(logs)[i].severity_number == logs[i].severity_number,
        logs_view(logs)[i].severity_text == logs[i].severity_text@,
        logs[i].body matches AnyValue::String(s) ==> logs_view(logs)[i].body == ValueView::String(
            s@,
        ),
        logs[i].body matches AnyValue::Int(n) ==> logs_view(logs)[i].body == ValueView::Int(n),
        logs[i].body matches AnyValue::Bool(b) ==> logs_view(logs)[i].body == ValueView::Bool(b),
        logs[i].body matches AnyValue::Double(d) ==> logs_view(logs)[i].body == ValueView::Double(
            d,
        ),
        logs_view(logs)[i].attributes == key_values(logs[i].attributes@),
        logs_view(logs)[i].trace_id == logs[i].trace_id@,
        logs_view(logs)[i].span_id == logs[i].span_id@,
{
}

/// Collected fields stand for their attributes in order, their trace and their message.
pub proof fn law_collected_view(fields: FieldCollector)
    ensures
        fields@.attrs == key_values(fields.attrs@),
        fields@.trace_id is Some <==> fields.trace_id is Some,
        fields.trace_id matches Some(id) ==> fields@.trace_id == Some(id@),
        fields@.message is Some <==> fields.message is Some,
        fields.message matches Some(message) ==> fields@.message == Some(message@),
{
}

// --- Recording ---

/// A recorded field is the last attribute, under its name and with exactly its value, whatever its
/// kind; all that was recorded before it stays, and so do the trace and the message.
pub proof fn law_field_recorded(fields: CollectedView, name: Seq<char>, value: ValueView)
    ensures
        with_attr(fields, name, value).attrs.len() == fields.attrs.len() + 1,
        with_attr(fields, name, value).attrs.last().key == name,
        with_attr(fields, name, value).attrs.last().value == value,
        forall|i: int|
            0 <= i < fields.attrs.len() ==> #[trigger] with_attr(fields, name, value).attrs[i]
                == fields.attrs[i],
        with_attr(fields, name, value).trace_id == fields.trace_id,
        with_attr(fields, name, value).message == fields.message,
{
}

/// The field `message` is the message and no attribute, however it was recorded. Any other text is
/// the last attribute, under its name, and leaves the message.
pub proof fn law_text_recorded(fields: CollectedView, name: Seq<char>, text: Seq<char>)
    ensures
        name == "message"@ ==> {
            &&& with_debug(fields, name, text).message == Some(text)
            &&& with_debug(fields, name, text).attrs == fields.attrs
            &&& with_str(fields, name, text).message == Some(text)
            &&& with_str(fields, name, text).attrs == fields.attrs
        },
        name != "message"@ ==> {
            &&& with_debug(fields, name, text).message == fields.message
            &&& with_debug(fields, name, text).attrs == fields.attrs.push(
                KeyValueView { key: name, value: ValueView::String(text) },
            )
            &&& with_str(fields, name, text).message == fields.message
            &&& with_str(fields, name, text).attrs == fields.attrs.push(
                KeyValueView { key: name, value: ValueView::String(text) },
            )
        },
        with_debug(fields, name, text).trace_id == fields.trace_id,
{
}

/// A text sets the trace exactly if it is called `trace_id` and is thirty-two hexadecimal digits;
/// it is then the trace with those digits. Any other text leaves the trace that was set before.
pub proof fn law_trace_recorded(fields: CollectedView, name: Seq<char>, text: Seq<char>)
    ensures
        name == "trace_id"@ && is_hex_16(encode_utf8(text)) ==> with_str(
            fields,
            name,
            text,
        ).trace_id == Some(hex_bytes(encode_utf8(text))),
        name != "trace_id"@ || !is_hex_16(encode_utf8(text)) ==> with_str(
            fields,
            name,
            text,
        ).trace_id == fields.trace_id,
{
}

// --- Levels and services ---

/// Each level has its own severity and its own name; on the wire the severities are the first of
/// their ranges of four, from the most verbose level upwards.
pub proof fn law_levels(level: Level)
    ensures
        level is Trace ==> level_severity(level) is Trace && level_name(level) == "TRACE"@
            && severity_value(level_severity(level)) == 1,
        level is Debug ==> level_severity(level) is Debug && level_name(level) == "DEBUG"@
            && severity_value(level_severity(level)) == 5,
        level is Info ==> level_severity(level) is Info && level_name(level) == "INFO"@
            && severity_value(level_severity(level)) == 9,
        level is Warn ==> level_severity(level) is Warn && level_name(level) == "WARN"@
            && severity_value(level_severity(level)) == 13,
        level is Error ==> level_severity(level) is Error && level_name(level) == "ERROR"@
            && severity_value(level_severity(level)) == 17,
{
}

/// The kinds of spans and the codes of outcomes have the numbers that OTLP gives them.
pub proof fn law_kind_numbers(kind: SpanKind, code: StatusCode)
    ensures
        kind is Internal ==> kind_number(kind) == 1,
        kind is Server ==> kind_number(kind) == 2,
        kind is Client ==> kind_number(kind) == 3,
        kind is Producer ==> kind_number(kind) == 4,
        kind is Consumer ==> kind_number(kind) == 5,
        code is Unset ==> status_number(code) == 0,
        code is Okay ==> status_number(code) == 1,
        code is Error ==> status_number(code) == 2,
{
}

/// A service is named by three attributes, under the names that OTLP gives them.
pub proof fn law_service_named(
    service_name: Seq<char>,
    service_version: Seq<char>,
    environment: Seq<char>,
)
    ensures
        ({
            let attrs = service_attributes(service_name, service_version, environment);
            &&& attrs.len() == 3
            &&& attrs[0].key == "service.name"@
            &&& attrs[0].value == ValueView::String(service_name)
            &&& attrs[1].key == "service.version"@
            &&& attrs[1].value == ValueView::String(service_version)
            &&& attrs[2].key == "deployment.environment"@
            &&& attrs[2].value == ValueView::String(environment)
        }),
{
}

// --- Spans ---

/// Attributes that all have a key are all shown, each under its key and with its value.
pub proof fn law_named_attributes_shown(attrs: Seq<KeyValue>)
    requires
        forall|i: int| 0 <= i < attrs.len() ==> (#[trigger] attrs[i]).key@.len() > 0,
    ensures
        shown(key_values(attrs)).len() == attrs.len(),
        forall|i: int|
            0 <= i < attrs.len() ==> {
                let kv = #[trigger] shown(key_values(attrs))[i];
                &&& kv.key == attrs[i].key@
                &&& attrs[i].value matches AnyValue::String(s) ==> kv.value == ValueView::String(s@)
                &&& attrs[i].value matches AnyValue::Int(n) ==> kv.value == ValueView::Int(n)
                &&& attrs[i].value matches AnyValue::Bool(b) ==> kv.value == ValueView::Bool(b)
                &&& attrs[i].value matches AnyValue::Double(d) ==> kv.value == ValueView::Double(d)
            },
{
    let all = key_values(attrs);
    law_key_values(attrs);
    assert forall|i: int| 0 <= i < all.len() implies visible(#[trigger] all[i]) by {
        assert(attrs[i].key@.len() > 0);
        law_named_attribute_visible(all[i]);
    }
    law_all_shown(all);
}

/// A closed span is what the layer kept of it, field by field, under the name it closed with, from
/// when it began until now.
pub proof fn law_closed_span_keeps(
    timing: SpanTiming,
    fields: SpanFields,
    name: Seq<char>,
    now: u64,
)
    ensures
        closed_span(timing, fields, name, now).trace_id == fields.trace_id@,
        closed_span(timing, fields, name, now).span_id == fields.span_id@,
        closed_span(timing, fields, name, now).parent_span_id == fields.parent_span_id@,
        closed_span(timing, fields, name, now).name == name,
        closed_span(timing, fields, name, now).kind is Internal,
        closed_span(timing, fields, name, now).start_time_unix_nano == timing.start_nanos,
        closed_span(timing, fields, name, now).end_time_unix_nano == now,
        closed_span(timing, fields, name, now).attributes == key_values(fields.attrs@),
        closed_span(timing, fields, name, now).status is None,
{
}

/// From the request of a closed span a collector reads one span: the trace, the span and the parent
/// that the layer kept, byte for byte, the name it closed under, when it began, when it ended, and
/// every attribute that was kept, in order, under its key and with its value.
pub proof fn law_closed_span_says(
    layer: LayerView,
    timing: SpanTiming,
    fields: SpanFields,
    name: Seq<char>,
    now: u64,
)
    ensures
        ({
            let request = read_trace_request(
                message_bytes(
                    trace_request_fields(
                        layer.resource,
                        layer.scope_name,
                        layer.scope_version,
                        seq![closed_span(timing, fields, name, now)],
                    ),
                ),
            );
            let span = request.spans[0];
            &&& request.resource == shown(layer.resource)
            &&& request.scope_name == layer.scope_name
            &&& request.scope_version == layer.scope_version
            &&& request.spans.len() == 1
            &&& span.trace_id == fields.trace_id@
            &&& span.span_id == fields.span_id@
            &&& span.parent_span_id == fields.parent_span_id@
            &&& span.name == name
            &&& span.kind is Internal
            &&& span.start_time_unix_nano == timing.start_nanos
            &&& span.end_time_unix_nano == now
            &&& span.attributes == shown(key_values(fields.attrs@))
            &&& span.status is None
        }),
{
    let sent = closed_span(timing, fields, name, now);
    law_trace_request_is_read(
        layer.resource,
        layer.scope_name,
        layer.scope_version,
        seq![sent],
    );
}

// --- Events ---

/// An event has the identifiers of the span around it, byte for byte, and all zeros outside of any.
pub proof fn law_event_ids(context: Option<TraceContext>)
    ensures
        event_ids(context).0.len() == 16,
        event_ids(context).1.len() == 8,
        context matches Some(ids) ==> event_ids(context).0 == ids.0@ && event_ids(context).1
            == ids.1@,
        context is None ==> (forall|i: int| 0 <= i < 16 ==> #[trigger] event_ids(context).0[i] == 0)
            && (forall|i: int| 0 <= i < 8 ==> #[trigger] event_ids(context).1[i] == 0),
{
}

/// The record of an event holds all that was collected of it: every attribute, with or without a
/// message, the message as its body, the time, its level and the span around it.
pub proof fn law_event_keeps(
    fields: CollectedView,
    context: Option<TraceContext>,
    level: Level,
    now: u64,
)
    ensures
        event_log(fields, context, level, now).attributes == fields.attrs,
        fields.message matches Some(message) ==> event_log(fields, context, level, now).body
            == ValueView::String(message),
        fields.message is None ==> event_log(fields, context, level, now).body
            == ValueView::String(Seq::empty()),
        event_log(fields, context, level, now).time_unix_nano == now,
        event_log(fields, context, level, now).severity_number == level_severity(level),
        event_log(fields, context, level, now).severity_text == level_name(level),
        context matches Some(ids) ==> event_log(fields, context, level, now).trace_id == ids.0@
            && event_log(fields, context, level, now).span_id == ids.1@,
{
}

/// From the request of an event a collector reads one log record: the time, the severity and the
/// name of its level, its message, every attribute that was collected, in order, under its key and
/// with its value, whether or not there is a message, and the span around it.
pub proof fn law_event_says(
    layer: LayerView,
    fields: FieldCollector,
    context: Option<TraceContext>,
    level: Level,
    now: u64,
)
    ensures
        ({
            let request = read_logs_request(
                message_bytes(
                    logs_request_fields(
                        layer.resource,
                        layer.scope_name,
                        layer.scope_version,
                        seq![event_log(fields@, context, level, now)],
                    ),
                ),
            );
            let log = request.logs[0];
            &&& request.resource == shown(layer.resource)
            &&& request.scope_name == layer.scope_name
            &&& request.scope_version == layer.scope_version
            &&& request.logs.len() == 1
            &&& log.time_unix_nano == now
            &&& log.severity_number == (match level {
                Level::Trace => SeverityNumber::Trace,
                Level::Debug => SeverityNumber::Debug,
                Level::Info => SeverityNumber::Info,
                Level::Warn => SeverityNumber::Warn,
                Level::Error => SeverityNumber::Error,
            })
            &&& log.severity_text == (match level {
                Level::Trace => "TRACE"@,
                Level::Debug => "DEBUG"@,
                Level::Info => "INFO"@,
                Level::Warn => "WARN"@,
                Level::Error => "ERROR"@,
            })
            &&& fields.message matches Some(message) ==> log.body == ValueView::String(message@)
            &&& fields.message is None ==> log.body == ValueView::String(Seq::empty())
            &&& log.attributes == shown(key_values(fields.attrs@))
            &&& context matches Some(ids) ==> log.trace_id == ids.0@ && log.span_id == ids.1@
            &&& context is None ==> log.trace_id == Seq::new(16, |i: int| 0u8) && log.span_id
                == Seq::new(8, |i: int| 0u8)
        }),
{
    let sent = event_log(fields@, context, level, now);
    law_logs_request_is_read(
        layer.resource,
        layer.scope_name,
        layer.scope_version,
        seq![sent],
    );
}

} // verus!
