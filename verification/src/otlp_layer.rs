//! What the tracing layer keeps of spans and events, and the requests that it makes of them.

use vstd::prelude::*;
use vstd::utf8::encode_utf8;

use crate::attrs::same_text;
use crate::exemplar::TraceContext;
use crate::layer_laws::{law_closed_span_says, law_event_says};
use crate::otlp_log::{
    encode_export_logs_request, logs_request_fields, logs_view, LogData, LogView, SeverityNumber,
};
use crate::otlp_reading::{
    all_visible, law_logs_request_round_trip, law_named_attribute_visible,
    law_trace_request_round_trip, read_logs_request, read_trace_request, shown, visible,
    LogsRequest, TraceRequest,
};
use crate::otlp_trace::{
    as_signed, encode_export_trace_request, key_values, signed, spans_view, trace_request_fields,
    AnyValue, KeyValue, KeyValueView, SpanData, SpanKind, SpanView, ValueView,
};
use crate::proto::message_bytes;
use crate::trace_id::{hex_bytes, hex_to_bytes_16, is_hex_16};

verus! {

// --- Span extensions ---

/// When a span began.
#[derive(Clone, Copy, Debug)]
pub struct SpanTiming {
    pub start_nanos: u64,
}

/// Span context stored in tracing extensions.
pub struct SpanFields {
    pub attrs: Vec<KeyValue>,
    pub trace_id: [u8; 16],
    pub span_id: [u8; 8],
    /// All zero for a root span.
    pub parent_span_id: [u8; 8],
}

impl SpanFields {
    /// The attributes recorded so far.
    pub open spec fn attributes(&self) -> Seq<KeyValueView> {
        key_values(self.attrs@)
    }

    /// Add what was recorded on the span after it began. Its identifiers stay.
    pub fn record(&mut self, recorded: FieldCollector)
        ensures
            final(self).attributes() == old(self).attributes() + recorded@.attrs,
            final(self).trace_id == old(self).trace_id,
            final(self).span_id == old(self).span_id,
            final(self).parent_span_id == old(self).parent_span_id,
    {
        let mut new = recorded.attrs;
        self.attrs.append(&mut new);
        assert(self.attributes() =~= old(self).attributes() + recorded@.attrs);
    }
}

// --- Shared visitor ---

/// Collects tracing fields into attributes. Used for both span attributes and event fields.
pub struct FieldCollector {
    pub attrs: Vec<KeyValue>,
    pub trace_id: Option<[u8; 16]>,
    pub message: Option<String>,
}

/// Model of collected fields.
#[verifier::ext_equal]
pub struct CollectedView {
    pub attrs: Seq<KeyValueView>,
    pub trace_id: Option<Seq<u8>>,
    pub message: Option<Seq<char>>,
}

impl View for FieldCollector {
    type V = CollectedView;

    open spec fn view(&self) -> CollectedView {
        CollectedView {
            attrs: key_values(self.attrs@),
            trace_id: match self.trace_id {
                Some(id) => Some(id@),
                None => None,
            },
            message: match self.message {
                Some(message) => Some(message@),
                None => None,
            },
        }
    }
}

/// The fields with one more attribute.
pub open spec fn with_attr(
    fields: CollectedView,
    name: Seq<char>,
    value: ValueView,
) -> CollectedView {
    CollectedView { attrs: fields.attrs.push(KeyValueView { key: name, value }), ..fields }
}

/// The fields after a rendered value: the field `message` is the message, any other an attribute.
pub open spec fn with_debug(
    fields: CollectedView,
    name: Seq<char>,
    rendered: Seq<char>,
) -> CollectedView {
    if name == "message"@ {
        CollectedView { message: Some(rendered), ..fields }
    } else {
        with_attr(fields, name, ValueView::String(rendered))
    }
}

/// The fields after a text: as after a rendered value, and a `trace_id` of thirty-two hexadecimal
/// digits sets the trace as well.
pub open spec fn with_str(
    fields: CollectedView,
    name: Seq<char>,
    value: Seq<char>,
) -> CollectedView {
    let plain = with_debug(fields, name, value);
    if name == "trace_id"@ && is_hex_16(encode_utf8(value)) {
        CollectedView { trace_id: Some(hex_bytes(encode_utf8(value))), ..plain }
    } else {
        plain
    }
}

impl FieldCollector {
    /// A collector with no fields.
    pub fn new() -> (collector: FieldCollector)
        ensures
            collector@ == (CollectedView { attrs: Seq::empty(), trace_id: None, message: None }),
    {
        let collector = FieldCollector { attrs: Vec::new(), trace_id: None, message: None };
        assert(collector@.attrs =~= Seq::empty());
        collector
    }

    /// Add an attribute.
    fn push(&mut self, name: &str, value: AnyValue)
        ensures
            final(self)@ == with_attr(old(self)@, name@, value@),
            final(self).attrs@.len() == old(self).attrs@.len() + 1,
            final(self).attrs@.drop_last() == old(self).attrs@,
            final(self).attrs@.last().key@ == name@,
            final(self).attrs@.last().value == value,
            final(self).trace_id == old(self).trace_id,
            final(self).message == old(self).message,
    {
        self.attrs.push(KeyValue { key: name.to_string(), value });
        assert(self.attrs@.drop_last() =~= old(self).attrs@);
        assert(self@.attrs =~= with_attr(old(self)@, name@, value@).attrs);
    }

    /// Record a value by its rendering.
    pub fn record_debug(&mut self, name: &str, rendered: String)
        ensures
            final(self)@ == with_debug(old(self)@, name@, rendered@),
            final(self).trace_id == old(self).trace_id,
            name@ == "message"@ ==> final(self).attrs == old(self).attrs && final(self).message
                == Some(rendered),
            name@ != "message"@ ==> final(self).message == old(self).message
                && final(self).attrs@.len() == old(self).attrs@.len() + 1
                && final(self).attrs@.drop_last() == old(self).attrs@
                && final(self).attrs@.last().key@ == name@ && final(self).attrs@.last().value
                == AnyValue::String(rendered),
    {
        if same_text(name, "message") {
            self.message = Some(rendered);
        } else {
            self.push(name, AnyValue::String(rendered));
        }
    }

    /// Record a text.
    pub fn record_str(&mut self, name: &str, value: &str)
        ensures
            final(self)@ == with_str(old(self)@, name@, value@),
            name@ == "message"@ ==> final(self).attrs == old(self).attrs && final(self).trace_id
                == old(self).trace_id && (final(self).message matches Some(text) && text@ == value@),
            name@ != "message"@ ==> final(self).message == old(self).message
                && final(self).attrs@.len() == old(self).attrs@.len() + 1
                && final(self).attrs@.drop_last() == old(self).attrs@
                && final(self).attrs@.last().key@ == name@ && (
            final(self).attrs@.last().value matches AnyValue::String(text) && text@ == value@),
            name@ != "trace_id"@ || !is_hex_16(encode_utf8(value@)) ==> final(self).trace_id
                == old(self).trace_id,
            name@ == "trace_id"@ && is_hex_16(encode_utf8(value@)) ==> (
            final(self).trace_id matches Some(id) && id@ == hex_bytes(encode_utf8(value@))),
    {
        proof {
            reveal_strlit("message");
            reveal_strlit("trace_id");
            assert("message"@.len() != "trace_id"@.len());
        }
        if same_text(name, "message") {
            self.message = Some(value.to_string());
        } else {
            if same_text(name, "trace_id") {
                if let Ok(bytes) = hex_to_bytes_16(value) {
                    self.trace_id = Some(bytes);
                }
            }
            self.push(name, AnyValue::String(value.to_string()));
        }
    }

    /// Record a signed integer.
    pub fn record_i64(&mut self, name: &str, value: i64)
        ensures
            final(self)@ == with_attr(old(self)@, name@, ValueView::Int(value)),
            final(self).attrs@.drop_last() == old(self).attrs@,
            final(self).attrs@.last().key@ == name@,
            final(self).attrs@.last().value == AnyValue::Int(value),
            final(self).attrs@.len() == old(self).attrs@.len() + 1,
            final(self).trace_id == old(self).trace_id,
            final(self).message == old(self).message,
    {
        self.push(name, AnyValue::Int(value));
    }

    /// Record an unsigned integer by its two's complement reading.
    pub fn record_u64(&mut self, name: &str, value: u64)
        ensures
            final(self)@ == with_attr(old(self)@, name@, ValueView::Int(signed(value) as i64)),
            final(self).attrs@.len() == old(self).attrs@.len() + 1,
            final(self).attrs@.drop_last() == old(self).attrs@,
            final(self).attrs@.last().key@ == name@,
            final(self).attrs@.last().value matches AnyValue::Int(i) && (i - value)
                % 0x1_0000_0000_0000_0000 == 0,
            final(self).trace_id == old(self).trace_id,
            final(self).message == old(self).message,
    {
        self.push(name, AnyValue::Int(as_signed(value)));
    }

    /// Record a truth value.
    pub fn record_bool(&mut self, name: &str, value: bool)
        ensures
            final(self)@ == with_attr(old(self)@, name@, ValueView::Bool(value)),
            final(self).attrs@.drop_last() == old(self).attrs@,
            final(self).attrs@.last().key@ == name@,
            final(self).attrs@.last().value == AnyValue::Bool(value),
            final(self).attrs@.len() == old(self).attrs@.len() + 1,
            final(self).trace_id == old(self).trace_id,
            final(self).message == old(self).message,
    {
        self.push(name, AnyValue::Bool(value));
    }

    /// Record a double by its bits.
    pub fn record_f64(&mut self, name: &str, bits: u64)
        ensures
            final(self)@ == with_attr(old(self)@, name@, ValueView::Double(bits)),
            final(self).attrs@.drop_last() == old(self).attrs@,
            final(self).attrs@.last().key@ == name@,
            final(self).attrs@.last().value == AnyValue::Double(bits),
            final(self).attrs@.len() == old(self).attrs@.len() + 1,
            final(self).trace_id == old(self).trace_id,
            final(self).message == old(self).message,
    {
        self.push(name, AnyValue::Double(bits));
    }
}

// --- Helpers ---

/// How verbose an event is.
#[derive(Clone, Copy, Debug, PartialEq, Eq)]
pub enum Level {
    Trace,
    Debug,
    Info,
    Warn,
    Error,
}

/// The severity of a level.
pub open spec fn level_severity(level: Level) -> SeverityNumber {
    match level {
        Level::Trace => SeverityNumber::Trace,
        Level::Debug => SeverityNumber::Debug,
        Level::Info => SeverityNumber::Info,
        Level::Warn => SeverityNumber::Warn,
        Level::Error => SeverityNumber::Error,
    }
}

/// The name of a level.
pub open spec fn level_name(level: Level) -> Seq<char> {
    match level {
        Level::Trace => "TRACE"@,
        Level::Debug => "DEBUG"@,
        Level::Info => "INFO"@,
        Level::Warn => "WARN"@,
        Level::Error => "ERROR"@,
    }
}

/// The severity of a level.
pub fn level_to_severity(level: Level) -> (severity: SeverityNumber)
    ensures
        severity == level_severity(level),
{
    match level {
        Level::Trace => SeverityNumber::Trace,
        Level::Debug => SeverityNumber::Debug,
        Level::Info => SeverityNumber::Info,
        Level::Warn => SeverityNumber::Warn,
        Level::Error => SeverityNumber::Error,
    }
}

/// The name of a level.
pub fn level_text(level: Level) -> (text: &'static str)
    ensures
        text@ == level_name(level),
{
    match level {
        Level::Trace => "TRACE",
        Level::Debug => "DEBUG",
        Level::Info => "INFO",
        Level::Warn => "WARN",
        Level::Error => "ERROR",
    }
}

/// The attributes that name a service.
pub open spec fn service_attributes(
    service_name: Seq<char>,
    service_version: Seq<char>,
    environment: Seq<char>,
) -> Seq<KeyValueView> {
    seq![
        KeyValueView { key: "service.name"@, value: ValueView::String(service_name) },
        KeyValueView { key: "service.version"@, value: ValueView::String(service_version) },
        KeyValueView { key: "deployment.environment"@, value: ValueView::String(environment) },
    ]
}

/// The attributes that name a service.
pub fn service_attrs(
    service_name: &str,
    service_version: &str,
    environment: &str,
) -> (attrs: Vec<KeyValue>)
    ensures
        key_values(attrs@) == service_attributes(service_name@, service_version@, environment@),
{
    let mut attrs: Vec<KeyValue> = Vec::new();
    attrs.push(
        KeyValue {
            key: "service.name".to_string(),
            value: AnyValue::String(service_name.to_string()),
        },
    );
    attrs.push(
        KeyValue {
            key: "service.version".to_string(),
            value: AnyValue::String(service_version.to_string()),
        },
    );
    attrs.push(
        KeyValue {
            key: "deployment.environment".to_string(),
            value: AnyValue::String(environment.to_string()),
        },
    );
    assert(key_values(attrs@) =~= service_attributes(
        service_name@,
        service_version@,
        environment@,
    ));
    attrs
}

/// A copy of an attribute's value.
fn copy_value(value: &AnyValue) -> (copy: AnyValue)
    ensures
        copy@ == value@,
{
    match value {
        AnyValue::String(s) => AnyValue::String(s.clone()),
        AnyValue::Int(i) => AnyValue::Int(*i),
        AnyValue::Bool(b) => AnyValue::Bool(*b),
        AnyValue::Double(bits) => AnyValue::Double(*bits),
    }
}

/// A copy of attributes.
fn copy_attrs(attrs: &Vec<KeyValue>) -> (copy: Vec<KeyValue>)
    ensures
        key_values(copy@) == key_values(attrs@),
{
    let mut copy: Vec<KeyValue> = Vec::new();
    let mut i: usize = 0;
    while i < attrs.len()
        invariant
            i <= attrs@.len(),
            key_values(copy@) == key_values(attrs@).take(i as int),
        decreases attrs@.len() - i,
    {
        let ghost before = copy@;
        let kv = KeyValue { key: attrs[i].key.clone(), value: copy_value(&attrs[i].value) };
        assert(kv@ == attrs@[i as int]@);
        copy.push(kv);
        i = i + 1;
        assert(key_values(copy@) =~= key_values(before).push(kv@));
        assert(key_values(copy@) =~= key_values(attrs@).take(i as int));
    }
    assert(key_values(attrs@).take(i as int) =~= key_values(attrs@));
    copy
}

// --- Layer ---

/// The layer: which service it speaks for, and which signals it exports.
pub struct OtlpLayer {
    resource_attrs: Vec<KeyValue>,
    scope_name: String,
    scope_version: String,
    export_traces: bool,
    export_logs: bool,
}

/// Model of the layer.
#[verifier::ext_equal]
pub struct LayerView {
    pub resource: Seq<KeyValueView>,
    pub scope_name: Seq<char>,
    pub scope_version: Seq<char>,
    pub export_traces: bool,
    pub export_logs: bool,
}

impl View for OtlpLayer {
    type V = LayerView;

    closed spec fn view(&self) -> LayerView {
        LayerView {
            resource: key_values(self.resource_attrs@),
            scope_name: self.scope_name@,
            scope_version: self.scope_version@,
            export_traces: self.export_traces,
            export_logs: self.export_logs,
        }
    }
}

/// The identifiers of an event: those of the span around it, all zero outside of any.
pub open spec fn event_ids(context: Option<TraceContext>) -> (Seq<u8>, Seq<u8>) {
    match context {
        Some((trace_id, span_id)) => (trace_id@, span_id@),
        None => (Seq::new(16, |i: int| 0u8), Seq::new(8, |i: int| 0u8)),
    }
}

/// The log record of an event. An event without a message has an empty body.
pub open spec fn event_log(
    fields: CollectedView,
    context: Option<TraceContext>,
    level: Level,
    now: u64,
) -> LogView {
    LogView {
        time_unix_nano: now,
        severity_number: level_severity(level),
        severity_text: level_name(level),
        body: ValueView::String(
            match fields.message {
                Some(message) => message,
                None => Seq::empty(),
            },
        ),
        attributes: fields.attrs,
        trace_id: event_ids(context).0,
        span_id: event_ids(context).1,
    }
}

/// The span that ends at `now`.
pub open spec fn closed_span(
    timing: SpanTiming,
    fields: SpanFields,
    name: Seq<char>,
    now: u64,
) -> SpanView {
    SpanView {
        trace_id: fields.trace_id@,
        span_id: fields.span_id@,
        parent_span_id: fields.parent_span_id@,
        name,
        kind: SpanKind::Internal,
        start_time_unix_nano: timing.start_nanos,
        end_time_unix_nano: now,
        attributes: fields.attributes(),
        status: None,
    }
}

impl OtlpLayer {
    /// A layer for a service.
    pub fn new(
        service_name: &str,
        service_version: &str,
        environment: &str,
        export_traces: bool,
        export_logs: bool,
    ) -> (layer: OtlpLayer)
        ensures
            layer@ == (LayerView {
                resource: service_attributes(service_name@, service_version@, environment@),
                scope_name: "pz-o11y"@,
                scope_version: "0.3.0"@,
                export_traces,
                export_logs,
            }),
    {
        OtlpLayer {
            resource_attrs: service_attrs(service_name, service_version, environment),
            scope_name: "pz-o11y".to_string(),
            scope_version: "0.3.0".to_string(),
            export_traces,
            export_logs,
        }
    }

    /// What to keep of a span that begins: when it began, the attributes it began with, its trace,
    /// itself and its parent. Without a `trace_id` field the trace is all zero, without a parent
    /// that the layer knows so is the parent.
    pub fn on_new_span(
        &self,
        collected: FieldCollector,
        parent: Option<&SpanFields>,
        span_id: [u8; 8],
        now: u64,
    ) -> (kept: (SpanTiming, SpanFields))
        ensures
            kept.0.start_nanos == now,
            kept.1.attributes() == collected@.attrs,
            kept.1.trace_id@ == (match collected@.trace_id {
                Some(id) => id,
                None => Seq::new(16, |i: int| 0u8),
            }),
            kept.1.span_id == span_id,
            kept.1.parent_span_id@ == (match parent {
                Some(fields) => fields.span_id@,
                None => Seq::new(8, |i: int| 0u8),
            }),
    {
        let trace_id = match collected.trace_id {
            Some(id) => id,
            None => [0u8; 16],
        };
        let parent_span_id = match parent {
            Some(fields) => fields.span_id,
            None => [0u8; 8],
        };
        let kept = SpanFields { attrs: collected.attrs, trace_id, span_id, parent_span_id };
        assert(collected.trace_id is None ==> trace_id@ =~= Seq::new(16, |i: int| 0u8));
        assert(parent is None ==> parent_span_id@ =~= Seq::new(8, |i: int| 0u8));
        (SpanTiming { start_nanos: now }, kept)
    }

    /// The logs request for an event; none where logs are not exported.
    pub fn on_event(
        &self,
        collected: FieldCollector,
        context: Option<TraceContext>,
        level: Level,
        now: u64,
    ) -> (data: Option<Vec<u8>>)
        ensures
            data is Some <==> self@.export_logs,
            data matches Some(bytes) ==> bytes@ == message_bytes(
                logs_request_fields(
                    self@.resource,
                    self@.scope_name,
                    self@.scope_version,
                    seq![event_log(collected@, context, level, now)],
                ),
            ),
            data matches Some(bytes) ==> ({
                let request = read_logs_request(bytes@);
                let log = request.logs[0];
                &&& request.resource == shown(self@.resource)
                &&& request.scope_name == self@.scope_name
                &&& request.scope_version == self@.scope_version
                &&& request.logs.len() == 1
                &&& log.time_unix_nano == now
                &&& log.severity_number == level_severity(level)
                &&& log.severity_text == level_name(level)
                &&& collected.message matches Some(text) ==> log.body == ValueView::String(text@)
                &&& collected.message is None ==> log.body == ValueView::String(Seq::empty())
                &&& log.attributes == shown(key_values(collected.attrs@))
                &&& context matches Some(ids) ==> log.trace_id == ids.0@ && log.span_id == ids.1@
                &&& context is None ==> log.trace_id == Seq::new(16, |i: int| 0u8) && log.span_id
                    == Seq::new(8, |i: int| 0u8)
            }),
    {
        if !self.export_logs {
            return None;
        }
        let (trace_id, span_id) = match context {
            Some(ids) => ids,
            None => ([0u8; 16], [0u8; 8]),
        };
        let message = match collected.message {
            Some(message) => message,
            None => String::new(),
        };
        let log = LogData {
            time_unix_nano: now,
            severity_number: level_to_severity(level),
            severity_text: level_text(level).to_string(),
            body: AnyValue::String(message),
            attributes: collected.attrs,
            trace_id,
            span_id,
        };
        let mut logs: Vec<LogData> = Vec::new();
        logs.push(log);
        proof {
            assert(context is None ==> trace_id@ =~= Seq::new(16, |i: int| 0u8));
            assert(context is None ==> span_id@ =~= Seq::new(8, |i: int| 0u8));
            assert(log@ =~= event_log(collected@, context, level, now));
            assert(logs_view(logs@) =~= seq![
                event_log(collected@, context, level, now),
            ]);
            law_event_says(self@, collected, context, level, now);
        }
        Some(
            encode_export_logs_request(
                self.resource_attrs.as_slice(),
                self.scope_name.as_str(),
                self.scope_version.as_str(),
                logs.as_slice(),
            ),
        )
    }

    /// The trace request for a span that ends; none where the layer does not know the span or
    /// traces are not exported.
    pub fn on_close(
        &self,
        timing: Option<&SpanTiming>,
        fields: Option<&SpanFields>,
        name: &str,
        now: u64,
    ) -> (data: Option<Vec<u8>>)
        ensures
            data is Some <==> self@.export_traces && timing is Some && fields is Some,
            data matches Some(bytes) ==> bytes@ == message_bytes(
                trace_request_fields(
                    self@.resource,
                    self@.scope_name,
                    self@.scope_version,
                    seq![closed_span(*timing->0, *fields->0, name@, now)],
                ),
            ),
            data matches Some(bytes) ==> ({
                let request = read_trace_request(bytes@);
                let span = request.spans[0];
                &&& request.resource == shown(self@.resource)
                &&& request.scope_name == self@.scope_name
                &&& request.scope_version == self@.scope_version
                &&& request.spans.len() == 1
                &&& span.trace_id == (fields->0).trace_id@
                &&& span.span_id == (fields->0).span_id@
                &&& span.parent_span_id == (fields->0).parent_span_id@
                &&& span.name == name@
                &&& span.start_time_unix_nano == (timing->0).start_nanos
                &&& span.end_time_unix_nano == now
                &&& span.attributes == shown(key_values((fields->0).attrs@))
            }),
    {
        if !self.export_traces {
            return None;
        }
        let timing = match timing {
            Some(timing) => timing,
            None => {
                return None;
            },
        };
        let fields = match fields {
            Some(fields) => fields,
            None => {
                return None;
            },
        };
        let span = SpanData {
            trace_id: fields.trace_id,
            span_id: fields.span_id,
            parent_span_id: fields.parent_span_id,
            name: name.to_string(),
            kind: SpanKind::Internal,
            start_time_unix_nano: timing.start_nanos,
            end_time_unix_nano: now,
            attributes: copy_attrs(&fields.attrs),
            status: None,
        };
        let mut spans: Vec<SpanData> = Vec::new();
        spans.push(span);
        proof {
            assert(span@ =~= closed_span(*timing, *fields, name@, now));
            assert(spans_view(spans@) =~= seq![
                closed_span(*timing, *fields, name@, now),
            ]);
            law_closed_span_says(self@, *timing, *fields, name@, now);
        }
        Some(
            encode_export_trace_request(
                self.resource_attrs.as_slice(),
                self.scope_name.as_str(),
                self.scope_version.as_str(),
                spans.as_slice(),
            ),
        )
    }
}

// --- Laws ---

/// The attributes that name a service show on the wire, whatever the service is called.
pub proof fn law_service_attributes_visible(
    service_name: Seq<char>,
    service_version: Seq<char>,
    environment: Seq<char>,
)
    ensures
        all_visible(service_attributes(service_name, service_version, environment)),
{
    let attrs = service_attributes(service_name, service_version, environment);
    reveal_strlit("service.name");
    reveal_strlit("service.version");
    reveal_strlit("deployment.environment");
    assert forall|i: int| 0 <= i < attrs.len() implies visible(#[trigger] attrs[i]) by {
        law_named_attribute_visible(attrs[i]);
    }
}

/// A collector reads from the request of a closed span that very span: its trace, itself, its
/// parent, its name, when it began and ended, and its attributes.
pub proof fn law_closed_span_is_read(
    layer: LayerView,
    timing: SpanTiming,
    fields: SpanFields,
    name: Seq<char>,
    now: u64,
)
    requires
        all_visible(layer.resource),
        all_visible(fields.attributes()),
    ensures
        read_trace_request(
            message_bytes(
                trace_request_fields(
                    layer.resource,
                    layer.scope_name,
                    layer.scope_version,
                    seq![closed_span(timing, fields, name, now)],
                ),
            ),
        ) == (TraceRequest {
            resource: layer.resource,
            scope_name: layer.scope_name,
            scope_version: layer.scope_version,
            spans: seq![closed_span(timing, fields, name, now)],
        }),
{
    law_trace_request_round_trip(
        layer.resource,
        layer.scope_name,
        layer.scope_version,
        seq![closed_span(timing, fields, name, now)],
    );
}

/// A collector reads from the request of an event its time, its severity, its message, its
/// attributes and the span around it.
pub proof fn law_event_is_read(
    layer: LayerView,
    fields: CollectedView,
    context: Option<TraceContext>,
    level: Level,
    now: u64,
)
    requires
        all_visible(layer.resource),
        all_visible(fields.attrs),
    ensures
        read_logs_request(
            message_bytes(
                logs_request_fields(
                    layer.resource,
                    layer.scope_name,
                    layer.scope_version,
                    seq![event_log(fields, context, level, now)],
                ),
            ),
        ) == (LogsRequest {
            resource: layer.resource,
            scope_name: layer.scope_name,
            scope_version: layer.scope_version,
            logs: seq![event_log(fields, context, level, now)],
        }),
{
    law_logs_request_round_trip(
        layer.resource,
        layer.scope_name,
        layer.scope_version,
        seq![event_log(fields, context, level, now)],
    );
}

} // verus!
