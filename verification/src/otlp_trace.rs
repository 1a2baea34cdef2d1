//! OTLP traces: attribute values, spans, and their `ExportTraceServiceRequest`.

use vstd::prelude::*;

use crate::exemplar::{all_zero, is_zero_id};
use crate::proto::{
    delimited_opt, encode_bytes_field, encode_fixed64_field, encode_fixed64_field_always,
    encode_message_field, encode_string_field, encode_varint_field, encode_varint_field_always,
    fixed64_always, fixed64_opt, message_bytes, message_opt, repeated, string_opt, varint_always,
    varint_opt, WireField,
};
use crate::wire::{law_message_concat, lemma_append_message};

verus! {

// --- Data ---

/// The value of an attribute. A double is carried by its bits.
#[derive(Debug, PartialEq, Eq)]
pub enum AnyValue {
    String(String),
    Int(i64),
    Bool(bool),
    Double(u64),
}

/// An attribute of a resource, a span or a log record.
#[derive(Debug, PartialEq, Eq)]
pub struct KeyValue {
    pub key: String,
    pub value: AnyValue,
}

/// The role of a span.
#[derive(Clone, Copy, Debug, PartialEq, Eq)]
pub enum SpanKind {
    Internal,
    Server,
    Client,
    Producer,
    Consumer,
}

/// Whether the operation of a span succeeded.
#[derive(Clone, Copy, Debug, PartialEq, Eq)]
pub enum StatusCode {
    Unset,
    Okay,
    Error,
}

/// The outcome of a span.
#[derive(Debug, PartialEq, Eq)]
pub struct SpanStatus {
    pub message: String,
    pub code: StatusCode,
}

/// A finished span.
#[derive(Debug, PartialEq, Eq)]
pub struct SpanData {
    pub trace_id: [u8; 16],
    pub span_id: [u8; 8],
    pub parent_span_id: [u8; 8],
    pub name: String,
    pub kind: SpanKind,
    pub start_time_unix_nano: u64,
    pub end_time_unix_nano: u64,
    pub attributes: Vec<KeyValue>,
    pub status: Option<SpanStatus>,
}

// --- Model ---

/// Model of an attribute's value.
#[verifier::ext_equal]
pub enum ValueView {
    String(Seq<char>),
    Int(i64),
    Bool(bool),
    Double(u64),
}

/// Model of an attribute.
#[verifier::ext_equal]
pub struct KeyValueView {
    pub key: Seq<char>,
    pub value: ValueView,
}

/// Model of a span's outcome.
#[verifier::ext_equal]
pub struct StatusView {
    pub message: Seq<char>,
    pub code: StatusCode,
}

/// Model of a span.
#[verifier::ext_equal]
pub struct SpanView {
    pub trace_id: Seq<u8>,
    pub span_id: Seq<u8>,
    pub parent_span_id: Seq<u8>,
    pub name: Seq<char>,
    pub kind: SpanKind,
    pub start_time_unix_nano: u64,
    pub end_time_unix_nano: u64,
    pub attributes: Seq<KeyValueView>,
    pub status: Option<StatusView>,
}

impl View for AnyValue {
    type V = ValueView;

    open spec fn view(&self) -> ValueView {
        match *self {
            AnyValue::String(s) => ValueView::String(s@),
            AnyValue::Int(i) => ValueView::Int(i),
            AnyValue::Bool(b) => ValueView::Bool(b),
            AnyValue::Double(bits) => ValueView::Double(bits),
        }
    }
}

impl View for KeyValue {
    type V = KeyValueView;

    open spec fn view(&self) -> KeyValueView {
        KeyValueView { key: self.key@, value: self.value@ }
    }
}

impl View for SpanStatus {
    type V = StatusView;

    open spec fn view(&self) -> StatusView {
        StatusView { message: self.message@, code: self.code }
    }
}

impl View for SpanData {
    type V = SpanView;

    open spec fn view(&self) -> SpanView {
        SpanView {
            trace_id: self.trace_id@,
            span_id: self.span_id@,
            parent_span_id: self.parent_span_id@,
            name: self.name@,
            kind: self.kind,
            start_time_unix_nano: self.start_time_unix_nano,
            end_time_unix_nano: self.end_time_unix_nano,
            attributes: key_values(self.attributes@),
            status: match self.status {
                Some(status) => Some(status@),
                None => None,
            },
        }
    }
}

/// The attributes that a list stands for.
pub open spec fn key_values(attrs: Seq<KeyValue>) -> Seq<KeyValueView> {
    attrs.map_values(|kv: KeyValue| kv@)
}

/// The spans that a list stands for.
pub open spec fn spans_view(spans: Seq<SpanData>) -> Seq<SpanView> {
    spans.map_values(|span: SpanData| span@)
}

/// The two's complement reading of a signed integer.
pub open spec fn unsigned(value: i64) -> u64 {
    if value >= 0 {
        value as u64
    } else {
        (value + 0x1_0000_0000_0000_0000) as u64
    }
}

/// The signed integer whose two's complement reading is `value`.
pub open spec fn signed(value: u64) -> int {
    if value <= i64::MAX {
        value as int
    } else {
        value - 0x1_0000_0000_0000_0000
    }
}

/// The number of a span kind.
pub open spec fn kind_number(kind: SpanKind) -> u64 {
    match kind {
        SpanKind::Internal => 1,
        SpanKind::Server => 2,
        SpanKind::Client => 3,
        SpanKind::Producer => 4,
        SpanKind::Consumer => 5,
    }
}

/// The number of a status code.
pub open spec fn status_number(code: StatusCode) -> u64 {
    match code {
        StatusCode::Unset => 0,
        StatusCode::Okay => 1,
        StatusCode::Error => 2,
    }
}

/// `AnyValue` on the wire. Zero and `false` are values and are written out.
pub open spec fn any_value_fields(value: ValueView) -> Seq<WireField> {
    match value {
        ValueView::String(s) => string_opt(1, s),
        ValueView::Bool(b) => varint_always(
            2,
            if b {
                1
            } else {
                0
            },
        ),
        ValueView::Int(i) => varint_always(3, unsigned(i)),
        ValueView::Double(bits) => fixed64_always(4, bits),
    }
}

/// `KeyValue` on the wire.
pub open spec fn key_value_fields(kv: KeyValueView) -> Seq<WireField> {
    string_opt(1, kv.key) + message_opt(2, any_value_fields(kv.value))
}

/// Attributes on the wire, as a repeated field.
pub open spec fn attribute_fields(number: u32, attrs: Seq<KeyValueView>) -> Seq<WireField> {
    repeated(number, attrs, |kv: KeyValueView| key_value_fields(kv))
}

/// `Resource` on the wire.
pub open spec fn resource_fields(attrs: Seq<KeyValueView>) -> Seq<WireField> {
    attribute_fields(1, attrs)
}

/// `InstrumentationScope` on the wire.
pub open spec fn scope_fields(name: Seq<char>, version: Seq<char>) -> Seq<WireField> {
    string_opt(1, name) + string_opt(2, version)
}

/// `Status` on the wire.
pub open spec fn status_fields(status: StatusView) -> Seq<WireField> {
    string_opt(2, status.message) + varint_opt(3, status_number(status.code))
}

/// An identifier on the wire, absent when it is all zero.
pub open spec fn id_opt(number: u32, id: Seq<u8>) -> Seq<WireField> {
    if all_zero(id) {
        Seq::empty()
    } else {
        delimited_opt(number, id)
    }
}

/// A span's status on the wire, absent when there is none.
pub open spec fn status_opt(number: u32, status: Option<StatusView>) -> Seq<WireField> {
    match status {
        Some(status) => message_opt(number, status_fields(status)),
        None => Seq::empty(),
    }
}

/// `Span` on the wire. A root span has no parent.
pub open spec fn span_fields(span: SpanView) -> Seq<WireField> {
    delimited_opt(1, span.trace_id) + delimited_opt(2, span.span_id) + id_opt(
        4,
        span.parent_span_id,
    ) + string_opt(5, span.name) + varint_opt(6, kind_number(span.kind)) + fixed64_opt(
        7,
        span.start_time_unix_nano,
    ) + fixed64_opt(8, span.end_time_unix_nano) + attribute_fields(9, span.attributes)
        + status_opt(15, span.status)
}

/// `ScopeSpans` on the wire.
pub open spec fn scope_spans_fields(
    scope_name: Seq<char>,
    scope_version: Seq<char>,
    spans: Seq<SpanView>,
) -> Seq<WireField> {
    message_opt(1, scope_fields(scope_name, scope_version)) + repeated(
        2,
        spans,
        |span: SpanView| span_fields(span),
    )
}

/// One resource with one scope on the wire: `ResourceSpans` and its like for logs and metrics.
pub open spec fn group_fields(
    resource: Seq<KeyValueView>,
    scope_items: Seq<WireField>,
) -> Seq<WireField> {
    message_opt(1, resource_fields(resource)) + message_opt(2, scope_items)
}

/// A request on the wire: one resource with one scope. Traces, logs and metrics share this frame.
pub open spec fn request_fields(
    resource: Seq<KeyValueView>,
    scope_items: Seq<WireField>,
) -> Seq<WireField> {
    message_opt(1, group_fields(resource, scope_items))
}

/// `ExportTraceServiceRequest` on the wire.
pub open spec fn trace_request_fields(
    resource: Seq<KeyValueView>,
    scope_name: Seq<char>,
    scope_version: Seq<char>,
    spans: Seq<SpanView>,
) -> Seq<WireField> {
    request_fields(resource, scope_spans_fields(scope_name, scope_version, spans))
}

// --- Encoders ---

/// `value as u64`.
pub(crate) fn as_unsigned(value: i64) -> (result: u64)
    ensures
        result == unsigned(value),
{
    if value >= 0 {
        value as u64
    } else {
        (value - i64::MIN) as u64 + 0x8000_0000_0000_0000
    }
}

/// `value as i64`.
pub(crate) fn as_signed(value: u64) -> (result: i64)
    ensures
        result == signed(value),
{
    if value <= 0x7fff_ffff_ffff_ffff {
        value as i64
    } else {
        (value - 0x8000_0000_0000_0000) as i64 + i64::MIN
    }
}

/// Append `AnyValue`.
pub(crate) fn encode_any_value(buf: &mut Vec<u8>, value: &AnyValue)
    ensures
        final(buf)@ == old(buf)@ + message_bytes(any_value_fields(value@)),
{
    match value {
        AnyValue::String(s) => encode_string_field(buf, 1, s.as_str()),
        AnyValue::Bool(b) => encode_varint_field_always(
            buf,
            2,
            if *b {
                1
            } else {
                0
            },
        ),
        AnyValue::Int(i) => encode_varint_field_always(buf, 3, as_unsigned(*i)),
        AnyValue::Double(bits) => encode_fixed64_field_always(buf, 4, *bits),
    }
}

/// Append `KeyValue`.
pub fn encode_key_value(buf: &mut Vec<u8>, kv: &KeyValue)
    ensures
        final(buf)@ == old(buf)@ + message_bytes(key_value_fields(kv@)),
{
    encode_string_field(buf, 1, kv.key.as_str());
    let mut value: Vec<u8> = Vec::new();
    encode_any_value(&mut value, &kv.value);
    encode_message_field(buf, 2, value.as_slice());
    proof {
        law_message_concat(string_opt(1, kv.key@), message_opt(2, any_value_fields(kv.value@)));
    }
}

/// Append attributes as a repeated field.
pub(crate) fn encode_attributes(buf: &mut Vec<u8>, field: u32, attrs: &[KeyValue])
    ensures
        final(buf)@ == old(buf)@ + message_bytes(attribute_fields(field, key_values(attrs@))),
{
    let ghost all = key_values(attrs@);
    let mut i: usize = 0;
    while i < attrs.len()
        invariant
            i <= attrs@.len(),
            all == key_values(attrs@),
            buf@ == old(buf)@ + message_bytes(attribute_fields(field, all.take(i as int))),
        decreases attrs@.len() - i,
    {
        let mut kv: Vec<u8> = Vec::new();
        encode_key_value(&mut kv, &attrs[i]);
        encode_message_field(buf, field, kv.as_slice());
        proof {
            let upto = all.take(i + 1);
            assert(upto.drop_last() == all.take(i as int));
            assert(upto.last() == attrs@[i as int]@);
            law_message_concat(
                attribute_fields(field, all.take(i as int)),
                message_opt(field, key_value_fields(upto.last())),
            );
        }
        i = i + 1;
    }
    assert(all.take(i as int) == all);
}

/// Append `Resource`.
pub fn encode_resource(buf: &mut Vec<u8>, attrs: &[KeyValue])
    ensures
        final(buf)@ == old(buf)@ + message_bytes(resource_fields(key_values(attrs@))),
{
    encode_attributes(buf, 1, attrs);
}

/// Append `InstrumentationScope`.
pub(crate) fn encode_scope(buf: &mut Vec<u8>, name: &str, version: &str)
    ensures
        final(buf)@ == old(buf)@ + message_bytes(scope_fields(name@, version@)),
{
    encode_string_field(buf, 1, name);
    encode_string_field(buf, 2, version);
    proof {
        law_message_concat(string_opt(1, name@), string_opt(2, version@));
    }
}

/// Append an identifier unless it is all zero.
pub(crate) fn encode_id(buf: &mut Vec<u8>, field: u32, id: &[u8])
    ensures
        final(buf)@ == old(buf)@ + message_bytes(id_opt(field, id@)),
{
    if !is_zero_id(id) {
        encode_bytes_field(buf, field, id);
    }
}

/// Append `Status`.
fn encode_status(buf: &mut Vec<u8>, status: &SpanStatus)
    ensures
        final(buf)@ == old(buf)@ + message_bytes(status_fields(status@)),
{
    encode_string_field(buf, 2, status.message.as_str());
    let code: u64 = match status.code {
        StatusCode::Unset => 0,
        StatusCode::Okay => 1,
        StatusCode::Error => 2,
    };
    encode_varint_field(buf, 3, code);
    proof {
        law_message_concat(
            string_opt(2, status.message@),
            varint_opt(3, status_number(status.code)),
        );
    }
}

/// Append `Span`.
pub(crate) fn encode_span(buf: &mut Vec<u8>, span: &SpanData)
    ensures
        final(buf)@ == old(buf)@ + message_bytes(span_fields(span@)),
{
    let ghost start = buf@;
    let ghost trace = delimited_opt(1, span.trace_id@);
    let ghost ids = trace + delimited_opt(2, span.span_id@);
    let ghost parent = ids + id_opt(4, span.parent_span_id@);
    let ghost named = parent + string_opt(5, span.name@);
    let ghost kinded = named + varint_opt(6, kind_number(span.kind));
    let ghost started = kinded + fixed64_opt(7, span.start_time_unix_nano);
    let ghost ended = started + fixed64_opt(8, span.end_time_unix_nano);
    let ghost described = ended + attribute_fields(9, key_values(span.attributes@));
    encode_bytes_field(buf, 1, &span.trace_id);
    encode_bytes_field(buf, 2, &span.span_id);
    proof {
        lemma_append_message(start, trace, delimited_opt(2, span.span_id@));
    }
    encode_id(buf, 4, &span.parent_span_id);
    proof {
        lemma_append_message(start, ids, id_opt(4, span.parent_span_id@));
    }
    encode_string_field(buf, 5, span.name.as_str());
    proof {
        lemma_append_message(start, parent, string_opt(5, span.name@));
    }
    let kind: u64 = match span.kind {
        SpanKind::Internal => 1,
        SpanKind::Server => 2,
        SpanKind::Client => 3,
        SpanKind::Producer => 4,
        SpanKind::Consumer => 5,
    };
    encode_varint_field(buf, 6, kind);
    proof {
        lemma_append_message(start, named, varint_opt(6, kind));
    }
    encode_fixed64_field(buf, 7, span.start_time_unix_nano);
    proof {
        lemma_append_message(start, kinded, fixed64_opt(7, span.start_time_unix_nano));
    }
    encode_fixed64_field(buf, 8, span.end_time_unix_nano);
    proof {
        lemma_append_message(start, started, fixed64_opt(8, span.end_time_unix_nano));
    }
    encode_attributes(buf, 9, span.attributes.as_slice());
    proof {
        lemma_append_message(start, ended, attribute_fields(9, key_values(span.attributes@)));
    }
    match &span.status {
        Some(status) => {
            let mut msg: Vec<u8> = Vec::new();
            encode_status(&mut msg, status);
            encode_message_field(buf, 15, msg.as_slice());
            proof {
                lemma_append_message(start, described, message_opt(15, status_fields(status@)));
            }
        },
        None => {
            assert(described + Seq::<WireField>::empty() == described);
        },
    }
}

/// Frame the encoded items of one scope as a request.
pub(crate) fn encode_request(resource_attrs: &[KeyValue], scope_items: &[u8]) -> (data: Vec<u8>)
    ensures
        forall|items: Seq<WireField>|
            scope_items@ == #[trigger] message_bytes(items) ==> data@ == message_bytes(
                request_fields(key_values(resource_attrs@), items),
            ),
{
    let mut resource: Vec<u8> = Vec::new();
    encode_resource(&mut resource, resource_attrs);
    let mut group: Vec<u8> = Vec::new();
    encode_message_field(&mut group, 1, resource.as_slice());
    encode_message_field(&mut group, 2, scope_items);
    let mut data: Vec<u8> = Vec::new();
    encode_message_field(&mut data, 1, group.as_slice());
    proof {
        let attrs = resource_fields(key_values(resource_attrs@));
        assert forall|items: Seq<WireField>|
            scope_items@ == #[trigger] message_bytes(items) implies data@ == message_bytes(
            request_fields(key_values(resource_attrs@), items),
        ) by {
            law_message_concat(message_opt(1, attrs), message_opt(2, items));
        }
    }
    data
}

/// Encode spans as an `ExportTraceServiceRequest`.
pub fn encode_export_trace_request(
    resource_attrs: &[KeyValue],
    scope_name: &str,
    scope_version: &str,
    spans: &[SpanData],
) -> (data: Vec<u8>)
    ensures
        data@ == message_bytes(
            trace_request_fields(
                key_values(resource_attrs@),
                scope_name@,
                scope_version@,
                spans_view(spans@),
            ),
        ),
{
    let ghost all = spans_view(spans@);
    let ghost f = |span: SpanView| span_fields(span);
    let ghost scope_field = message_opt(1, scope_fields(scope_name@, scope_version@));
    let mut scope: Vec<u8> = Vec::new();
    encode_scope(&mut scope, scope_name, scope_version);
    let mut items: Vec<u8> = Vec::new();
    encode_message_field(&mut items, 1, scope.as_slice());
    assert(scope_field + repeated(2, all.take(0), f) == scope_field);
    let mut i: usize = 0;
    while i < spans.len()
        invariant
            i <= spans@.len(),
            all == spans_view(spans@),
            f == |span: SpanView| span_fields(span),
            items@ == message_bytes(scope_field + repeated(2, all.take(i as int), f)),
        decreases spans@.len() - i,
    {
        let mut span: Vec<u8> = Vec::new();
        encode_span(&mut span, &spans[i]);
        encode_message_field(&mut items, 2, span.as_slice());
        proof {
            let upto = all.take(i + 1);
            assert(upto.drop_last() == all.take(i as int));
            assert(upto.last() == spans@[i as int]@);
            let before = scope_field + repeated(2, all.take(i as int), f);
            let new = message_opt(2, span_fields(upto.last()));
            law_message_concat(before, new);
            assert(before + new == scope_field + repeated(2, upto, f));
        }
        i = i + 1;
    }
    assert(all.take(i as int) == all);
    encode_request(resource_attrs, items.as_slice())
}

/// An integer and its two's complement reading differ by a multiple of two to the sixty-fourth.
pub proof fn law_twos_complement(value: i64, bits: u64)
    ensures
        (unsigned(value) - value) % 0x1_0000_0000_0000_0000 == 0,
        (bits - signed(bits)) % 0x1_0000_0000_0000_0000 == 0,
        i64::MIN <= signed(bits) <= i64::MAX,
{
}

} // verus!
