//! What a collector reads back from the requests: a model of the receiving side, and the laws that
//! it reads what was sent.

use vstd::prelude::*;

use crate::exemplar::all_zero;
use crate::otlp_log::{
    log_fields, logs_request_fields, scope_logs_fields, severity_value, LogView, SeverityNumber,
};
use crate::otlp_trace::{
    any_value_fields, attribute_fields, group_fields, id_opt, key_value_fields, kind_number,
    request_fields, resource_fields, scope_fields, scope_spans_fields, signed, span_fields,
    status_fields, status_number, status_opt, trace_request_fields, unsigned, KeyValueView,
    SpanKind, SpanView, StatusCode, StatusView, ValueView,
};
use crate::proto::{
    delimited_opt, fixed64_opt, message_bytes, message_opt, repeated, string_opt, varint_opt,
    Payload, WireField,
};
use crate::reading::{
    fields_of, has_field, lemma_fields_of, lemma_message_not_empty, lemma_picked_concat,
    lemma_picked_delimited, lemma_picked_fixed64, lemma_picked_repeated, lemma_picked_shown,
    lemma_picked_varint, lemma_read_repeated, lemma_text, picked, read_bytes, read_fixed64,
    read_message, read_repeated, read_string, read_varint,
};

verus! {

// --- Attributes ---

/// Read `AnyValue`; one without a value reads as the empty text.
pub open spec fn read_any_value(fields: Seq<WireField>) -> ValueView {
    if has_field(fields, 2) {
        ValueView::Bool(read_varint(fields, 2) != 0)
    } else if has_field(fields, 3) {
        ValueView::Int(signed(read_varint(fields, 3)) as i64)
    } else if has_field(fields, 4) {
        ValueView::Double(read_fixed64(fields, 4))
    } else {
        ValueView::String(read_string(fields, 1))
    }
}

/// Read `KeyValue`.
pub open spec fn read_key_value(fields: Seq<WireField>) -> KeyValueView {
    KeyValueView { key: read_string(fields, 1), value: read_any_value(read_message(fields, 2)) }
}

/// Whether an attribute shows on the wire. One with no key and no text in it has no bytes.
pub open spec fn visible(kv: KeyValueView) -> bool {
    key_value_fields(kv).len() > 0
}

/// Whether every attribute shows on the wire.
pub open spec fn all_visible(attrs: Seq<KeyValueView>) -> bool {
    forall|i: int| 0 <= i < attrs.len() ==> visible(#[trigger] attrs[i])
}

/// The attributes that show on the wire, in order.
pub open spec fn shown(attrs: Seq<KeyValueView>) -> Seq<KeyValueView> {
    attrs.filter(|kv: KeyValueView| visible(kv))
}

/// Attributes that all show on the wire are all shown.
pub proof fn law_all_shown(attrs: Seq<KeyValueView>)
    requires
        all_visible(attrs),
    ensures
        shown(attrs) == attrs,
    decreases attrs.len(),
{
    reveal(Seq::filter);
    if attrs.len() > 0 {
        let rest = attrs.drop_last();
        assert forall|i: int| 0 <= i < rest.len() implies visible(#[trigger] rest[i]) by {
            assert(rest[i] == attrs[i]);
        }
        law_all_shown(rest);
        assert(visible(attrs[attrs.len() - 1]));
        assert(shown(attrs) =~= attrs);
    }
}

/// An attribute that has a key shows on the wire.
pub proof fn law_named_attribute_visible(kv: KeyValueView)
    requires
        kv.key.len() > 0,
    ensures
        visible(kv),
{
    let bytes = vstd::utf8::encode_utf8(kv.key);
    if bytes.len() == 0 {
        lemma_text(kv.key);
    }
}

/// An attribute value reads back as it was sent.
pub proof fn law_any_value_round_trip(value: ValueView)
    ensures
        read_any_value(any_value_fields(value)) == value,
{
    match value {
        ValueView::String(s) => {
            lemma_picked_delimited(1, vstd::utf8::encode_utf8(s));
            lemma_text(s);
            if vstd::utf8::encode_utf8(s).len() == 0 {
                assert(read_bytes(any_value_fields(value), 1) =~= vstd::utf8::encode_utf8(s));
            }
        },
        ValueView::Bool(b) => {
            lemma_picked_varint(
                2,
                if b {
                    1
                } else {
                    0
                },
            );
        },
        ValueView::Int(i) => {
            lemma_picked_varint(3, unsigned(i));
        },
        ValueView::Double(bits) => {
            lemma_picked_fixed64(4, bits);
        },
    }
}

/// A text field reads back as it was sent.
pub(crate) proof fn lemma_read_string(fields: Seq<WireField>, number: u32, text: Seq<char>)
    requires
        picked(fields, number) == picked(string_opt(number, text), number),
    ensures
        read_string(fields, number) == text,
{
    let bytes = vstd::utf8::encode_utf8(text);
    lemma_picked_delimited(number, bytes);
    lemma_text(text);
    assert(read_bytes(fields, number) =~= bytes);
}

/// A bytes field reads back as it was sent.
pub(crate) proof fn lemma_read_bytes(fields: Seq<WireField>, number: u32, data: Seq<u8>)
    requires
        picked(fields, number) == picked(delimited_opt(number, data), number),
    ensures
        read_bytes(fields, number) == data,
{
    lemma_picked_delimited(number, data);
    assert(read_bytes(fields, number) =~= data);
}

/// A nested message reads back as it was sent.
pub(crate) proof fn lemma_read_message(fields: Seq<WireField>, number: u32, message: Seq<WireField>)
    requires
        picked(fields, number) == picked(message_opt(number, message), number),
    ensures
        read_message(fields, number) == message,
{
    lemma_read_bytes(fields, number, message_bytes(message));
    lemma_fields_of(message);
}

/// An attribute reads back as it was sent.
pub proof fn law_key_value_round_trip(kv: KeyValueView)
    ensures
        read_key_value(key_value_fields(kv)) == kv,
{
    let fields = key_value_fields(kv);
    let key = string_opt(1, kv.key);
    let value = message_opt(2, any_value_fields(kv.value));
    lemma_picked_concat(key, value);
    lemma_picked_delimited(1, vstd::utf8::encode_utf8(kv.key));
    lemma_picked_delimited(2, message_bytes(any_value_fields(kv.value)));
    assert(picked(fields, 1) =~= picked(key, 1));
    assert(picked(fields, 2) =~= picked(value, 2));
    lemma_read_string(fields, 1, kv.key);
    lemma_read_message(fields, 2, any_value_fields(kv.value));
    law_any_value_round_trip(kv.value);
}

/// What is picked from attributes.
proof fn lemma_picked_attributes(number: u32, attrs: Seq<KeyValueView>)
    ensures
        forall|n: u32|
            n != number ==> #[trigger] picked(attribute_fields(number, attrs), n) == Seq::<
                Payload,
            >::empty(),
{
    lemma_picked_shown(number, attrs, |kv: KeyValueView| key_value_fields(kv));
}

/// Attributes read back as they were sent, those that show on the wire.
proof fn lemma_read_attributes(fields: Seq<WireField>, number: u32, attrs: Seq<KeyValueView>)
    requires
        picked(fields, number) == picked(attribute_fields(number, attrs), number),
    ensures
        read_repeated(fields, number, |m: Seq<WireField>| read_key_value(m)) == shown(attrs),
{
    let f = |kv: KeyValueView| key_value_fields(kv);
    let read = |m: Seq<WireField>| read_key_value(m);
    lemma_picked_shown(number, attrs, f);
    assert((|kv: KeyValueView| f(kv).len() > 0) =~= (|kv: KeyValueView| visible(kv)));
    let sent = shown(attrs);
    assert forall|i: int| 0 <= i < sent.len() implies read(f(#[trigger] sent[i])) == sent[i] by {
        law_key_value_round_trip(sent[i]);
    }
    lemma_read_repeated(fields, number, sent, f, read, sent);
}

// --- Frame ---

/// The resource attributes of a group.
pub open spec fn read_resource(group: Seq<WireField>) -> Seq<KeyValueView> {
    read_repeated(read_message(group, 1), 1, |m: Seq<WireField>| read_key_value(m))
}

/// The scope of a group, with its items.
pub open spec fn read_scope(group: Seq<WireField>) -> Seq<WireField> {
    read_message(group, 2)
}

/// A group reads back as it was sent.
pub(crate) proof fn lemma_read_group(resource: Seq<KeyValueView>, items: Seq<WireField>)
    ensures
        read_resource(group_fields(resource, items)) == shown(resource),
        all_visible(resource) ==> read_resource(group_fields(resource, items)) == resource,
        read_scope(group_fields(resource, items)) == items,
{
    let attrs = resource_fields(resource);
    let group = group_fields(resource, items);
    lemma_picked_concat(message_opt(1, attrs), message_opt(2, items));
    lemma_picked_delimited(1, message_bytes(attrs));
    lemma_picked_delimited(2, message_bytes(items));
    assert(picked(group, 1) =~= picked(message_opt(1, attrs), 1));
    assert(picked(group, 2) =~= picked(message_opt(2, items), 2));
    lemma_read_message(group, 1, attrs);
    lemma_read_message(group, 2, items);
    lemma_read_attributes(attrs, 1, resource);
    if all_visible(resource) {
        law_all_shown(resource);
    }
}

/// The group of a request.
pub open spec fn read_group(bytes: Seq<u8>) -> Seq<WireField> {
    read_message(fields_of(bytes), 1)
}

/// The group of a request reads back as it was sent.
pub(crate) proof fn lemma_read_request(resource: Seq<KeyValueView>, items: Seq<WireField>)
    ensures
        read_group(message_bytes(request_fields(resource, items))) == group_fields(resource, items),
{
    let request = request_fields(resource, items);
    lemma_fields_of(request);
    lemma_read_message(request, 1, group_fields(resource, items));
}

/// The scope of a request reads back as it was sent, with its items behind it.
pub(crate) proof fn lemma_read_scope<T>(
    name: Seq<char>,
    version: Seq<char>,
    items: Seq<T>,
    fields: spec_fn(T) -> Seq<WireField>,
)
    requires
        forall|i: int| 0 <= i < items.len() ==> (#[trigger] fields(items[i])).len() > 0,
    ensures
        ({
            let scope = message_opt(1, scope_fields(name, version)) + repeated(2, items, fields);
            &&& read_string(read_message(scope, 1), 1) == name
            &&& read_string(read_message(scope, 1), 2) == version
            &&& picked(scope, 2) == items.map_values(
                |item: T| Payload::Delimited(message_bytes(fields(item))),
            )
        }),
{
    let inner = scope_fields(name, version);
    let scope = message_opt(1, inner) + repeated(2, items, fields);
    lemma_picked_concat(message_opt(1, inner), repeated(2, items, fields));
    lemma_picked_delimited(1, message_bytes(inner));
    lemma_picked_repeated(2, items, fields);
    assert(picked(scope, 1) =~= picked(message_opt(1, inner), 1));
    assert(picked(scope, 2) =~= picked(repeated(2, items, fields), 2));
    lemma_read_message(scope, 1, inner);
    lemma_picked_concat(string_opt(1, name), string_opt(2, version));
    lemma_picked_delimited(1, vstd::utf8::encode_utf8(name));
    lemma_picked_delimited(2, vstd::utf8::encode_utf8(version));
    assert(picked(inner, 1) =~= picked(string_opt(1, name), 1));
    assert(picked(inner, 2) =~= picked(string_opt(2, version), 2));
    lemma_read_string(inner, 1, name);
    lemma_read_string(inner, 2, version);
}

// --- Traces ---

/// The span kind with the number.
pub open spec fn kind_of(number: u64) -> SpanKind {
    if number == 2 {
        SpanKind::Server
    } else if number == 3 {
        SpanKind::Client
    } else if number == 4 {
        SpanKind::Producer
    } else if number == 5 {
        SpanKind::Consumer
    } else {
        SpanKind::Internal
    }
}

/// The status code with the number.
pub open spec fn status_of(number: u64) -> StatusCode {
    if number == 1 {
        StatusCode::Okay
    } else if number == 2 {
        StatusCode::Error
    } else {
        StatusCode::Unset
    }
}

/// Read an identifier of `len` bytes; one that is absent reads as zeros.
pub open spec fn read_id(fields: Seq<WireField>, number: u32, len: nat) -> Seq<u8> {
    if has_field(fields, number) {
        read_bytes(fields, number)
    } else {
        Seq::new(len, |i: int| 0u8)
    }
}

/// Read a span's status.
pub open spec fn read_status(fields: Seq<WireField>, number: u32) -> Option<StatusView> {
    if has_field(fields, number) {
        let status = read_message(fields, number);
        Some(
            StatusView {
                message: read_string(status, 2),
                code: status_of(read_varint(status, 3)),
            },
        )
    } else {
        None
    }
}

/// Read `Span`.
pub open spec fn read_span(fields: Seq<WireField>) -> SpanView {
    SpanView {
        trace_id: read_bytes(fields, 1),
        span_id: read_bytes(fields, 2),
        parent_span_id: read_id(fields, 4, 8),
        name: read_string(fields, 5),
        kind: kind_of(read_varint(fields, 6)),
        start_time_unix_nano: read_fixed64(fields, 7),
        end_time_unix_nano: read_fixed64(fields, 8),
        attributes: read_repeated(fields, 9, |m: Seq<WireField>| read_key_value(m)),
        status: read_status(fields, 15),
    }
}

/// A span whose identifiers have their lengths, whose attributes show on the wire, and whose status
/// says something if it has one.
pub open spec fn sendable_span(span: SpanView) -> bool {
    &&& span.trace_id.len() == 16
    &&& span.span_id.len() == 8
    &&& span.parent_span_id.len() == 8
    &&& all_visible(span.attributes)
    &&& span.status matches Some(status) ==> status_fields(status).len() > 0
}

/// What is picked from an identifier.
proof fn lemma_picked_id(number: u32, id: Seq<u8>)
    ensures
        forall|n: u32|
            n != number ==> #[trigger] picked(id_opt(number, id), n) == Seq::<
                Payload,
            >::empty(),
{
    lemma_picked_delimited(number, id);
}

/// An identifier reads back as it was sent.
proof fn lemma_read_id(fields: Seq<WireField>, number: u32, id: Seq<u8>)
    requires
        id.len() > 0,
        picked(fields, number) == picked(id_opt(number, id), number),
    ensures
        read_id(fields, number, id.len()) == id,
{
    lemma_picked_delimited(number, id);
    if all_zero(id) {
        assert(read_id(fields, number, id.len()) =~= id);
    }
}

/// A span's status reads back as it was sent.
proof fn lemma_read_status(fields: Seq<WireField>, number: u32, status: Option<StatusView>)
    requires
        picked(fields, number) == picked(status_opt(number, status), number),
        status matches Some(s) ==> status_fields(s).len() > 0,
    ensures
        read_status(fields, number) == status,
{
    match status {
        Some(s) => {
            let inner = status_fields(s);
            let message = string_opt(2, s.message);
            let code = varint_opt(3, status_number(s.code));
            lemma_message_not_empty(inner);
            lemma_picked_delimited(number, message_bytes(inner));
            lemma_read_message(fields, number, inner);
            lemma_picked_concat(message, code);
            lemma_picked_delimited(2, vstd::utf8::encode_utf8(s.message));
            lemma_picked_varint(3, status_number(s.code));
            assert(picked(inner, 2) =~= picked(message, 2));
            assert(picked(inner, 3) =~= picked(code, 3));
            lemma_read_string(inner, 2, s.message);
        },
        None => {},
    }
}

/// What is picked from a status.
proof fn lemma_picked_status(number: u32, status: Option<StatusView>)
    ensures
        forall|n: u32|
            n != number ==> #[trigger] picked(status_opt(number, status), n) == Seq::<
                Payload,
            >::empty(),
{
    match status {
        Some(s) => {
            lemma_picked_delimited(number, message_bytes(status_fields(s)));
        },
        None => {},
    }
}

/// A span reads back as it was sent.
pub proof fn law_span_round_trip(span: SpanView)
    requires
        sendable_span(span),
    ensures
        read_span(span_fields(span)) == span,
{
    law_span_is_read(span);
    law_all_shown(span.attributes);
}

/// A span reads back as it was sent, with the attributes that show on the wire.
pub proof fn law_span_is_read(span: SpanView)
    requires
        span.trace_id.len() == 16,
        span.span_id.len() == 8,
        span.parent_span_id.len() == 8,
        span.status matches Some(status) ==> status_fields(status).len() > 0,
    ensures
        read_span(span_fields(span)) == (SpanView { attributes: shown(span.attributes), ..span }),
{
    let fields = span_fields(span);
    let p1 = delimited_opt(1, span.trace_id);
    let p2 = delimited_opt(2, span.span_id);
    let p4 = id_opt(4, span.parent_span_id);
    let p5 = string_opt(5, span.name);
    let p6 = varint_opt(6, kind_number(span.kind));
    let p7 = fixed64_opt(7, span.start_time_unix_nano);
    let p8 = fixed64_opt(8, span.end_time_unix_nano);
    let p9 = attribute_fields(9, span.attributes);
    let p15 = status_opt(15, span.status);
    lemma_picked_concat(p1, p2);
    lemma_picked_concat(p1 + p2, p4);
    lemma_picked_concat(p1 + p2 + p4, p5);
    lemma_picked_concat(p1 + p2 + p4 + p5, p6);
    lemma_picked_concat(p1 + p2 + p4 + p5 + p6, p7);
    lemma_picked_concat(p1 + p2 + p4 + p5 + p6 + p7, p8);
    lemma_picked_concat(p1 + p2 + p4 + p5 + p6 + p7 + p8, p9);
    lemma_picked_concat(p1 + p2 + p4 + p5 + p6 + p7 + p8 + p9, p15);
    lemma_picked_delimited(1, span.trace_id);
    lemma_picked_delimited(2, span.span_id);
    lemma_picked_id(4, span.parent_span_id);
    lemma_picked_delimited(5, vstd::utf8::encode_utf8(span.name));
    lemma_picked_varint(6, kind_number(span.kind));
    lemma_picked_fixed64(7, span.start_time_unix_nano);
    lemma_picked_fixed64(8, span.end_time_unix_nano);
    lemma_picked_attributes(9, span.attributes);
    lemma_picked_status(15, span.status);
    assert(picked(fields, 1) =~= picked(p1, 1));
    assert(picked(fields, 2) =~= picked(p2, 2));
    assert(picked(fields, 4) =~= picked(p4, 4));
    assert(picked(fields, 5) =~= picked(p5, 5));
    assert(picked(fields, 6) =~= picked(p6, 6));
    assert(picked(fields, 7) =~= picked(p7, 7));
    assert(picked(fields, 8) =~= picked(p8, 8));
    assert(picked(fields, 9) =~= picked(p9, 9));
    assert(picked(fields, 15) =~= picked(p15, 15));
    lemma_read_bytes(fields, 1, span.trace_id);
    lemma_read_bytes(fields, 2, span.span_id);
    lemma_read_id(fields, 4, span.parent_span_id);
    lemma_read_string(fields, 5, span.name);
    lemma_read_attributes(fields, 9, span.attributes);
    lemma_read_status(fields, 15, span.status);
    assert(read_span(fields) =~= (SpanView { attributes: shown(span.attributes), ..span }));
}

/// What a collector reads from an `ExportTraceServiceRequest`.
#[verifier::ext_equal]
pub struct TraceRequest {
    pub resource: Seq<KeyValueView>,
    pub scope_name: Seq<char>,
    pub scope_version: Seq<char>,
    pub spans: Seq<SpanView>,
}

/// Read `ResourceSpans`.
pub open spec fn read_resource_spans(group: Seq<WireField>) -> TraceRequest {
    let scope = read_scope(group);
    TraceRequest {
        resource: read_resource(group),
        scope_name: read_string(read_message(scope, 1), 1),
        scope_version: read_string(read_message(scope, 1), 2),
        spans: read_repeated(scope, 2, |m: Seq<WireField>| read_span(m)),
    }
}

/// Read an `ExportTraceServiceRequest`.
pub open spec fn read_trace_request(bytes: Seq<u8>) -> TraceRequest {
    read_resource_spans(read_group(bytes))
}

/// Spans with their resource and scope read back as they were sent.
pub proof fn law_resource_spans_round_trip(request: TraceRequest)
    requires
        all_visible(request.resource),
        forall|i: int|
            0 <= i < request.spans.len() ==> sendable_span(#[trigger] request.spans[i]),
    ensures
        read_resource_spans(
            group_fields(
                request.resource,
                scope_spans_fields(request.scope_name, request.scope_version, request.spans),
            ),
        ) == request,
{
    let spans = request.spans;
    let f = |span: SpanView| span_fields(span);
    let read = |m: Seq<WireField>| read_span(m);
    let scope = scope_spans_fields(request.scope_name, request.scope_version, spans);
    lemma_read_group(request.resource, scope);
    assert forall|i: int| 0 <= i < spans.len() implies (#[trigger] f(spans[i])).len() > 0 by {
        assert(sendable_span(spans[i]));
        assert(delimited_opt(1, spans[i].trace_id).len() == 1);
    }
    lemma_read_scope(request.scope_name, request.scope_version, spans, f);
    assert forall|i: int| 0 <= i < spans.len() implies read(f(#[trigger] spans[i])) == spans[i] by {
        law_span_round_trip(spans[i]);
    }
    lemma_read_repeated(scope, 2, spans, f, read, spans);
}

/// A collector reads from a trace request the resource, the scope and the spans that were sent.
pub proof fn law_trace_request_round_trip(
    resource: Seq<KeyValueView>,
    scope_name: Seq<char>,
    scope_version: Seq<char>,
    spans: Seq<SpanView>,
)
    requires
        all_visible(resource),
        forall|i: int| 0 <= i < spans.len() ==> sendable_span(#[trigger] spans[i]),
    ensures
        read_trace_request(
            message_bytes(trace_request_fields(resource, scope_name, scope_version, spans)),
        ) == (TraceRequest { resource, scope_name, scope_version, spans }),
{
    lemma_read_request(resource, scope_spans_fields(scope_name, scope_version, spans));
    law_resource_spans_round_trip(TraceRequest { resource, scope_name, scope_version, spans });
}

/// A collector reads from a trace request every span that was sent, whatever its attributes, and of
/// those that show on the wire every one.
pub proof fn law_trace_request_is_read(
    resource: Seq<KeyValueView>,
    scope_name: Seq<char>,
    scope_version: Seq<char>,
    spans: Seq<SpanView>,
)
    requires
        forall|i: int|
            0 <= i < spans.len() ==> (#[trigger] spans[i]).trace_id.len() == 16
                && spans[i].span_id.len() == 8 && spans[i].parent_span_id.len() == 8
                && spans[i].status is None,
    ensures
        read_trace_request(
            message_bytes(trace_request_fields(resource, scope_name, scope_version, spans)),
        ) == (TraceRequest {
            resource: shown(resource),
            scope_name,
            scope_version,
            spans: spans.map_values(
                |span: SpanView| SpanView { attributes: shown(span.attributes), ..span },
            ),
        }),
{
    let f = |span: SpanView| span_fields(span);
    let read = |m: Seq<WireField>| read_span(m);
    let sent = spans.map_values(
        |span: SpanView| SpanView { attributes: shown(span.attributes), ..span },
    );
    let scope = scope_spans_fields(scope_name, scope_version, spans);
    lemma_read_request(resource, scope);
    lemma_read_group(resource, scope);
    assert forall|i: int| 0 <= i < spans.len() implies (#[trigger] f(spans[i])).len() > 0 by {
        assert(spans[i].trace_id.len() == 16);
        assert(delimited_opt(1, spans[i].trace_id).len() == 1);
    }
    lemma_read_scope(scope_name, scope_version, spans, f);
    assert forall|i: int| 0 <= i < spans.len() implies read(f(#[trigger] spans[i])) == sent[i] by {
        law_span_is_read(spans[i]);
    }
    lemma_read_repeated(scope, 2, spans, f, read, sent);
}

// --- Logs ---

/// The severity with the number.
pub open spec fn severity_of(number: u64) -> SeverityNumber {
    if number == 1 {
        SeverityNumber::Trace
    } else if number == 5 {
        SeverityNumber::Debug
    } else if number == 13 {
        SeverityNumber::Warn
    } else if number == 17 {
        SeverityNumber::Error
    } else {
        SeverityNumber::Info
    }
}

/// Read `LogRecord`.
pub open spec fn read_log(fields: Seq<WireField>) -> LogView {
    LogView {
        time_unix_nano: read_fixed64(fields, 1),
        severity_number: severity_of(read_varint(fields, 2)),
        severity_text: read_string(fields, 3),
        body: read_any_value(read_message(fields, 5)),
        attributes: read_repeated(fields, 6, |m: Seq<WireField>| read_key_value(m)),
        trace_id: read_id(fields, 9, 16),
        span_id: read_id(fields, 10, 8),
    }
}

/// A log record whose identifiers have their lengths and whose attributes show on the wire.
pub open spec fn sendable_log(log: LogView) -> bool {
    &&& log.trace_id.len() == 16
    &&& log.span_id.len() == 8
    &&& all_visible(log.attributes)
}

/// A log record reads back as it was sent.
pub proof fn law_log_round_trip(log: LogView)
    requires
        sendable_log(log),
    ensures
        read_log(log_fields(log)) == log,
{
    law_log_is_read(log);
    law_all_shown(log.attributes);
}

/// A log record reads back as it was sent, with the attributes that show on the wire.
pub proof fn law_log_is_read(log: LogView)
    requires
        log.trace_id.len() == 16,
        log.span_id.len() == 8,
    ensures
        read_log(log_fields(log)) == (LogView { attributes: shown(log.attributes), ..log }),
{
    let fields = log_fields(log);
    let p1 = fixed64_opt(1, log.time_unix_nano);
    let p2 = varint_opt(2, severity_value(log.severity_number));
    let p3 = string_opt(3, log.severity_text);
    let p5 = message_opt(5, any_value_fields(log.body));
    let p6 = attribute_fields(6, log.attributes);
    let p9 = id_opt(9, log.trace_id);
    let p10 = id_opt(10, log.span_id);
    lemma_picked_concat(p1, p2);
    lemma_picked_concat(p1 + p2, p3);
    lemma_picked_concat(p1 + p2 + p3, p5);
    lemma_picked_concat(p1 + p2 + p3 + p5, p6);
    lemma_picked_concat(p1 + p2 + p3 + p5 + p6, p9);
    lemma_picked_concat(p1 + p2 + p3 + p5 + p6 + p9, p10);
    lemma_picked_fixed64(1, log.time_unix_nano);
    lemma_picked_varint(2, severity_value(log.severity_number));
    lemma_picked_delimited(3, vstd::utf8::encode_utf8(log.severity_text));
    lemma_picked_delimited(5, message_bytes(any_value_fields(log.body)));
    lemma_picked_attributes(6, log.attributes);
    lemma_picked_id(9, log.trace_id);
    lemma_picked_id(10, log.span_id);
    assert(picked(fields, 1) =~= picked(p1, 1));
    assert(picked(fields, 2) =~= picked(p2, 2));
    assert(picked(fields, 3) =~= picked(p3, 3));
    assert(picked(fields, 5) =~= picked(p5, 5));
    assert(picked(fields, 6) =~= picked(p6, 6));
    assert(picked(fields, 9) =~= picked(p9, 9));
    assert(picked(fields, 10) =~= picked(p10, 10));
    lemma_read_string(fields, 3, log.severity_text);
    lemma_read_message(fields, 5, any_value_fields(log.body));
    law_any_value_round_trip(log.body);
    lemma_read_attributes(fields, 6, log.attributes);
    lemma_read_id(fields, 9, log.trace_id);
    lemma_read_id(fields, 10, log.span_id);
    assert(read_log(fields) =~= (LogView { attributes: shown(log.attributes), ..log }));
}

/// What a collector reads from an `ExportLogsServiceRequest`.
#[verifier::ext_equal]
pub struct LogsRequest {
    pub resource: Seq<KeyValueView>,
    pub scope_name: Seq<char>,
    pub scope_version: Seq<char>,
    pub logs: Seq<LogView>,
}

/// Read `ResourceLogs`.
pub open spec fn read_resource_logs(group: Seq<WireField>) -> LogsRequest {
    let scope = read_scope(group);
    LogsRequest {
        resource: read_resource(group),
        scope_name: read_string(read_message(scope, 1), 1),
        scope_version: read_string(read_message(scope, 1), 2),
        logs: read_repeated(scope, 2, |m: Seq<WireField>| read_log(m)),
    }
}

/// Read an `ExportLogsServiceRequest`.
pub open spec fn read_logs_request(bytes: Seq<u8>) -> LogsRequest {
    read_resource_logs(read_group(bytes))
}

/// Log records with their resource and scope read back as they were sent.
pub proof fn law_resource_logs_round_trip(request: LogsRequest)
    requires
        all_visible(request.resource),
        forall|i: int| 0 <= i < request.logs.len() ==> sendable_log(#[trigger] request.logs[i]),
    ensures
        read_resource_logs(
            group_fields(
                request.resource,
                scope_logs_fields(request.scope_name, request.scope_version, request.logs),
            ),
        ) == request,
{
    let logs = request.logs;
    let f = |log: LogView| log_fields(log);
    let read = |m: Seq<WireField>| read_log(m);
    let scope = scope_logs_fields(request.scope_name, request.scope_version, logs);
    lemma_read_group(request.resource, scope);
    assert forall|i: int| 0 <= i < logs.len() implies (#[trigger] f(logs[i])).len() > 0 by {
        assert(varint_opt(2, severity_value(logs[i].severity_number)).len() == 1);
    }
    lemma_read_scope(request.scope_name, request.scope_version, logs, f);
    assert forall|i: int| 0 <= i < logs.len() implies read(f(#[trigger] logs[i])) == logs[i] by {
        law_log_round_trip(logs[i]);
    }
    lemma_read_repeated(scope, 2, logs, f, read, logs);
}

/// A collector reads from a logs request the resource, the scope and the records that were sent.
pub proof fn law_logs_request_round_trip(
    resource: Seq<KeyValueView>,
    scope_name: Seq<char>,
    scope_version: Seq<char>,
    logs: Seq<LogView>,
)
    requires
        all_visible(resource),
        forall|i: int| 0 <= i < logs.len() ==> sendable_log(#[trigger] logs[i]),
    ensures
        read_logs_request(
            message_bytes(logs_request_fields(resource, scope_name, scope_version, logs)),
        ) == (LogsRequest { resource, scope_name, scope_version, logs }),
{
    lemma_read_request(resource, scope_logs_fields(scope_name, scope_version, logs));
    law_resource_logs_round_trip(LogsRequest { resource, scope_name, scope_version, logs });
}

/// A collector reads from a logs request every record that was sent, whatever its attributes, and
/// of those that show on the wire every one.
pub proof fn law_logs_request_is_read(
    resource: Seq<KeyValueView>,
    scope_name: Seq<char>,
    scope_version: Seq<char>,
    logs: Seq<LogView>,
)
    requires
        forall|i: int|
            0 <= i < logs.len() ==> (#[trigger] logs[i]).trace_id.len() == 16
                && logs[i].span_id.len() == 8,
    ensures
        read_logs_request(
            message_bytes(logs_request_fields(resource, scope_name, scope_version, logs)),
        ) == (LogsRequest {
            resource: shown(resource),
            scope_name,
            scope_version,
            logs: logs.map_values(
                |log: LogView| LogView { attributes: shown(log.attributes), ..log },
            ),
        }),
{
    let f = |log: LogView| log_fields(log);
    let read = |m: Seq<WireField>| read_log(m);
    let sent = logs.map_values(|log: LogView| LogView { attributes: shown(log.attributes), ..log });
    let scope = scope_logs_fields(scope_name, scope_version, logs);
    lemma_read_request(resource, scope);
    lemma_read_group(resource, scope);
    assert forall|i: int| 0 <= i < logs.len() implies (#[trigger] f(logs[i])).len() > 0 by {
        assert(varint_opt(2, severity_value(logs[i].severity_number)).len() == 1);
    }
    lemma_read_scope(scope_name, scope_version, logs, f);
    assert forall|i: int| 0 <= i < logs.len() implies read(f(#[trigger] logs[i])) == sent[i] by {
        law_log_is_read(logs[i]);
    }
    lemma_read_repeated(scope, 2, logs, f, read, sent);
}

} // verus!
