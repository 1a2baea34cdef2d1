//! OTLP logs: log records and their `ExportLogsServiceRequest`.

use vstd::prelude::*;

use crate::otlp_trace::{
    any_value_fields, attribute_fields, encode_any_value, encode_attributes, encode_id,
    encode_request, encode_scope, id_opt, key_values, request_fields, scope_fields, AnyValue,
    KeyValue, KeyValueView, ValueView,
};
use crate::proto::{
    encode_fixed64_field, encode_message_field, encode_string_field, encode_varint_field,
    fixed64_opt, message_bytes, message_opt, repeated, string_opt, varint_opt, WireField,
};
use crate::wire::{law_message_concat, lemma_append_message};

verus! {

/// How severe a log record is.
#[derive(Clone, Copy, Debug, PartialEq, Eq)]
pub enum SeverityNumber {
    Trace,
    Debug,
    Info,
    Warn,
    Error,
}

/// A log record.
#[derive(Debug, PartialEq, Eq)]
pub struct LogData {
    pub time_unix_nano: u64,
    pub severity_number: SeverityNumber,
    pub severity_text: String,
    pub body: AnyValue,
    pub attributes: Vec<KeyValue>,
    pub trace_id: [u8; 16],
    pub span_id: [u8; 8],
}

// --- Model ---

/// Model of a log record.
#[verifier::ext_equal]
pub struct LogView {
    pub time_unix_nano: u64,
    pub severity_number: SeverityNumber,
    pub severity_text: Seq<char>,
    pub body: ValueView,
    pub attributes: Seq<KeyValueView>,
    pub trace_id: Seq<u8>,
    pub span_id: Seq<u8>,
}

impl View for LogData {
    type V = LogView;

    open spec fn view(&self) -> LogView {
        LogView {
            time_unix_nano: self.time_unix_nano,
            severity_number: self.severity_number,
            severity_text: self.severity_text@,
            body: self.body@,
            attributes: key_values(self.attributes@),
            trace_id: self.trace_id@,
            span_id: self.span_id@,
        }
    }
}

/// The log records that a list stands for.
pub open spec fn logs_view(logs: Seq<LogData>) -> Seq<LogView> {
    logs.map_values(|log: LogData| log@)
}

/// The number of a severity: the first of its range of four.
pub open spec fn severity_value(severity: SeverityNumber) -> u64 {
    match severity {
        SeverityNumber::Trace => 1,
        SeverityNumber::Debug => 5,
        SeverityNumber::Info => 9,
        SeverityNumber::Warn => 13,
        SeverityNumber::Error => 17,
    }
}

/// `LogRecord` on the wire. Outside a span there is no context.
pub open spec fn log_fields(log: LogView) -> Seq<WireField> {
    fixed64_opt(1, log.time_unix_nano) + varint_opt(2, severity_value(log.severity_number))
        + string_opt(3, log.severity_text) + message_opt(5, any_value_fields(log.body))
        + attribute_fields(6, log.attributes) + id_opt(9, log.trace_id) + id_opt(10, log.span_id)
}

/// `ScopeLogs` on the wire.
pub open spec fn scope_logs_fields(
    scope_name: Seq<char>,
    scope_version: Seq<char>,
    logs: Seq<LogView>,
) -> Seq<WireField> {
    message_opt(1, scope_fields(scope_name, scope_version)) + repeated(
        2,
        logs,
        |log: LogView| log_fields(log),
    )
}

/// `ExportLogsServiceRequest` on the wire.
pub open spec fn logs_request_fields(
    resource: Seq<KeyValueView>,
    scope_name: Seq<char>,
    scope_version: Seq<char>,
    logs: Seq<LogView>,
) -> Seq<WireField> {
    request_fields(resource, scope_logs_fields(scope_name, scope_version, logs))
}

// --- Encoders ---

/// Append `LogRecord`.
pub(crate) fn encode_log(buf: &mut Vec<u8>, log: &LogData)
    ensures
        final(buf)@ == old(buf)@ + message_bytes(log_fields(log@)),
{
    let ghost start = buf@;
    let ghost timed = fixed64_opt(1, log.time_unix_nano);
    let ghost ranked = timed + varint_opt(2, severity_value(log.severity_number));
    let ghost worded = ranked + string_opt(3, log.severity_text@);
    let ghost bodied = worded + message_opt(5, any_value_fields(log.body@));
    let ghost described = bodied + attribute_fields(6, key_values(log.attributes@));
    let ghost traced = described + id_opt(9, log.trace_id@);
    encode_fixed64_field(buf, 1, log.time_unix_nano);
    let severity: u64 = match log.severity_number {
        SeverityNumber::Trace => 1,
        SeverityNumber::Debug => 5,
        SeverityNumber::Info => 9,
        SeverityNumber::Warn => 13,
        SeverityNumber::Error => 17,
    };
    encode_varint_field(buf, 2, severity);
    proof {
        lemma_append_message(start, timed, varint_opt(2, severity));
    }
    encode_string_field(buf, 3, log.severity_text.as_str());
    proof {
        lemma_append_message(start, ranked, string_opt(3, log.severity_text@));
    }
    let mut body: Vec<u8> = Vec::new();
    encode_any_value(&mut body, &log.body);
    encode_message_field(buf, 5, body.as_slice());
    proof {
        lemma_append_message(start, worded, message_opt(5, any_value_fields(log.body@)));
    }
    encode_attributes(buf, 6, log.attributes.as_slice());
    proof {
        lemma_append_message(start, bodied, attribute_fields(6, key_values(log.attributes@)));
    }
    encode_id(buf, 9, &log.trace_id);
    proof {
        lemma_append_message(start, described, id_opt(9, log.trace_id@));
    }
    encode_id(buf, 10, &log.span_id);
    proof {
        lemma_append_message(start, traced, id_opt(10, log.span_id@));
    }
}

/// Encode log records as an `ExportLogsServiceRequest`.
pub fn encode_export_logs_request(
    resource_attrs: &[KeyValue],
    scope_name: &str,
    scope_version: &str,
    logs: &[LogData],
) -> (data: Vec<u8>)
    ensures
        data@ == message_bytes(
            logs_request_fields(
                key_values(resource_attrs@),
                scope_name@,
                scope_version@,
                logs_view(logs@),
            ),
        ),
{
    let ghost all = logs_view(logs@);
    let ghost f = |log: LogView| log_fields(log);
    let ghost scope_field = message_opt(1, scope_fields(scope_name@, scope_version@));
    let mut scope: Vec<u8> = Vec::new();
    encode_scope(&mut scope, scope_name, scope_version);
    let mut items: Vec<u8> = Vec::new();
    encode_message_field(&mut items, 1, scope.as_slice());
    assert(scope_field + repeated(2, all.take(0), f) == scope_field);
    let mut i: usize = 0;
    while i < logs.len()
        invariant
            i <= logs@.len(),
            all == logs_view(logs@),
            f == |log: LogView| log_fields(log),
            items@ == message_bytes(scope_field + repeated(2, all.take(i as int), f)),
        decreases logs@.len() - i,
    {
        let mut log: Vec<u8> = Vec::new();
        encode_log(&mut log, &logs[i]);
        encode_message_field(&mut items, 2, log.as_slice());
        proof {
            let upto = all.take(i + 1);
            assert(upto.drop_last() == all.take(i as int));
            assert(upto.last() == logs@[i as int]@);
            let before = scope_field + repeated(2, all.take(i as int), f);
            let new = message_opt(2, log_fields(upto.last()));
            law_message_concat(before, new);
            assert(before + new == scope_field + repeated(2, upto, f));
        }
        i = i + 1;
    }
    assert(all.take(i as int) == all);
    encode_request(resource_attrs, items.as_slice())
}

} // verus!
