//! Propagation of the trace context to outgoing requests.

use http::header::{InvalidHeaderValue, MaxSizeReached};
use http::{HeaderMap, HeaderValue};
use vstd::prelude::*;
use vstd::utf8::encode_utf8;

use crate::exemplar::{
    can_surround, current_scope, first_context, law_first_context, nearest_context, TraceContext,
};
use crate::trace_id::{hex_digit, hex_encode, hex_text, law_hex_text_injective};

verus! {

/// Layer that injects the W3C `traceparent` header into outgoing requests.
///
/// Reads the trace and span identifiers from the current span's extensions and formats them as
/// `traceparent: 00-{trace_id}-{span_id}-01`.
#[derive(Clone, Copy, Debug)]
pub struct PropagationLayer;

/// A service whose requests carry the `traceparent` header.
#[derive(Clone, Debug)]
pub struct PropagationService<S> {
    inner: S,
}

// --- Headers ---

/// `http::HeaderMap`, the headers of a request.
#[verifier::external_type_specification]
#[verifier::external_body]
#[verifier::reject_recursive_types(T)]
pub struct ExHeaderMap<T>(http::HeaderMap<T>);

/// `http::HeaderValue`, the bytes of a header.
#[verifier::external_type_specification]
#[verifier::external_body]
pub struct ExHeaderValue(http::HeaderValue);

/// `http::header::InvalidHeaderValue`, carried through unread.
#[verifier::external_type_specification]
#[verifier::external_body]
pub struct ExInvalidHeaderValue(http::header::InvalidHeaderValue);

/// `http::header::MaxSizeReached`, carried through unread.
#[verifier::external_type_specification]
#[verifier::external_body]
pub struct ExMaxSizeReached(http::header::MaxSizeReached);

/// The values under each header name, names in lower case.
pub uninterp spec fn header_values(headers: HeaderMap<HeaderValue>) -> Map<Seq<char>, Seq<Seq<u8>>>;

/// The bytes that a header value holds.
pub uninterp spec fn value_bytes(value: HeaderValue) -> Seq<u8>;

/// Whether a byte can stand in a header value: a tab, or anything but a control character.
pub open spec fn header_byte(b: u8) -> bool {
    b == 9 || (b >= 32 && b != 127)
}

/// Whether bytes can be a header value.
pub open spec fn header_bytes(bytes: Seq<u8>) -> bool {
    forall|i: int| 0 <= i < bytes.len() ==> header_byte(#[trigger] bytes[i])
}

/// Whether a text is a header name in lower case: one to sixty-four letters and hyphens.
pub open spec fn plain_name(name: Seq<char>) -> bool {
    &&& 1 <= name.len() <= 64
    &&& forall|i: int|
        0 <= i < name.len() ==> 'a' <= #[trigger] name[i] <= 'z' || name[i] == '-'
}

/// Whether there is room for one more header, whatever the names: the table has at most 32,768
/// slots, and is enlarged only when it is full or, after many collisions, a fifth of it is used.
pub open spec fn has_room(headers: HeaderMap<HeaderValue>) -> bool {
    header_values(headers).dom().len() * 5 < 32768
}

/// `HeaderValue::from_str`: a value with the bytes of the text, an error if and only if one of them
/// cannot stand in a header value.
#[verifier::external_body]
fn header_value(text: &str) -> (value: Result<HeaderValue, InvalidHeaderValue>)
    ensures
        value is Ok <==> header_bytes(encode_utf8(text@)),
        value matches Ok(v) ==> value_bytes(v) == encode_utf8(text@),
{
    HeaderValue::from_str(text)
}

/// `HeaderMap::try_insert` under a static name: the value replaces all that the name had before and
/// nothing else changes; an error changes nothing. There is none while there is room.
#[verifier::external_body]
fn insert_header(
    headers: &mut HeaderMap<HeaderValue>,
    name: &'static str,
    value: HeaderValue,
) -> (result: Result<Option<HeaderValue>, MaxSizeReached>)
    requires
        plain_name(name@),
    ensures
        result is Ok ==> header_values(*final(headers)) == header_values(*old(headers)).insert(
            name@,
            seq![value_bytes(value)],
        ),
        result is Err ==> header_values(*final(headers)) == header_values(*old(headers)),
        has_room(*old(headers)) ==> result is Ok,
{
    headers.try_insert(name, value)
}

// --- Trace context ---

/// The value of the `traceparent` header.
pub open spec fn traceparent_text(trace_id: Seq<u8>, span_id: Seq<u8>) -> Seq<char> {
    "00-"@ + hex_text(trace_id) + "-"@ + hex_text(span_id) + "-01"@
}

/// The value of the `traceparent` header for a context; none outside of any.
pub fn traceparent(context: Option<TraceContext>) -> (text: Option<String>)
    ensures
        text is Some <==> context is Some,
        text matches Some(t) ==> t@ == traceparent_text((context->0).0@, (context->0).1@),
{
    match context {
        Some((trace_id, span_id)) => {
            let mut text = "00-".to_string();
            text.append(hex_encode(&trace_id).as_str());
            text.append("-");
            text.append(hex_encode(&span_id).as_str());
            text.append("-01");
            Some(text)
        },
        None => None,
    }
}

/// The headers after a context was injected: the `traceparent` header replaced, or nothing changed
/// outside of any context.
pub open spec fn injected(
    headers: Map<Seq<char>, Seq<Seq<u8>>>,
    context: Option<TraceContext>,
) -> Map<Seq<char>, Seq<Seq<u8>>> {
    match context {
        Some((trace_id, span_id)) => headers.insert(
            "traceparent"@,
            seq![encode_utf8(traceparent_text(trace_id@, span_id@))],
        ),
        None => headers,
    }
}

/// There is no room for the header.
#[derive(Clone, Copy, Debug, PartialEq, Eq)]
pub struct TooManyHeaders;

/// Set the `traceparent` header for a context. Headers that have no room for it stay as they are.
pub fn inject(
    headers: &mut HeaderMap<HeaderValue>,
    context: Option<TraceContext>,
) -> (result: Result<(), TooManyHeaders>)
    ensures
        result is Ok ==> header_values(*final(headers)) == injected(
            header_values(*old(headers)),
            context,
        ),
        result is Err ==> header_values(*final(headers)) == header_values(*old(headers)),
        context is None || has_room(*old(headers)) ==> result is Ok,
{
    match traceparent(context) {
        Some(text) => {
            proof {
                law_traceparent_valid((context->0).0@, (context->0).1@);
                lemma_traceparent_name();
            }
            match header_value(text.as_str()) {
                Ok(value) => match insert_header(headers, "traceparent", value) {
                    Ok(_) => Ok(()),
                    Err(_) => Err(TooManyHeaders),
                },
                Err(_) => Ok(()),
            }
        },
        None => Ok(()),
    }
}

/// Set the `traceparent` header for the nearest of the given spans that has a context. `scope`
/// lists the current span and its ancestors, innermost first.
pub fn inject_nearest(
    headers: &mut HeaderMap<HeaderValue>,
    scope: &[Option<TraceContext>],
) -> (result: Result<(), TooManyHeaders>)
    ensures
        result is Ok ==> header_values(*final(headers)) == injected(
            header_values(*old(headers)),
            first_context(scope@),
        ),
        result is Err ==> header_values(*final(headers)) == header_values(*old(headers)),
        first_context(scope@) is None || has_room(*old(headers)) ==> result is Ok,
{
    inject(headers, nearest_context(scope))
}

proof fn lemma_traceparent_name()
    ensures
        plain_name("traceparent"@),
{
    reveal_strlit("traceparent");
}

impl<S> PropagationService<S> {
    /// The service that requests are handed on to.
    pub closed spec fn service(&self) -> S {
        self.inner
    }

    /// The service that requests are handed on to.
    pub fn inner(&mut self) -> (inner: &mut S)
        ensures
            *inner == old(self).service(),
            final(self).service() == *final(inner),
    {
        &mut self.inner
    }

    /// Set the `traceparent` header of an outgoing request for the nearest span that has
    /// identifiers, if there is one.
    ///
    /// Which spans there are depends on the subscriber; [`inject_nearest`] says what is set in any.
    pub fn prepare(&self, headers: &mut HeaderMap<HeaderValue>) -> (result: Result<
        (),
        TooManyHeaders,
    >)
        ensures
            result is Ok ==> exists|scope: Seq<Option<TraceContext>>| #[trigger]
                can_surround(scope) && header_values(*final(headers)) == injected(
                    header_values(*old(headers)),
                    first_context(scope),
                ),
            result is Ok ==> exists|context: Option<TraceContext>|
                header_values(*final(headers)) == #[trigger] injected(
                    header_values(*old(headers)),
                    context,
                ),
            result is Err ==> header_values(*final(headers)) == header_values(*old(headers)),
            has_room(*old(headers)) ==> result is Ok,
    {
        let scope = current_scope();
        let ghost before = header_values(*headers);
        let result = inject_nearest(headers, scope.as_slice());
        assert(result is Ok ==> header_values(*headers) == injected(before, first_context(scope@)));
        result
    }
}

impl PropagationLayer {
    /// Wrap a service.
    pub fn layer<S>(&self, inner: S) -> (service: PropagationService<S>)
        ensures
            service.service() == inner,
    {
        PropagationService { inner }
    }
}

/// Convenience: create a `PropagationLayer` for outgoing requests.
pub fn propagation_layer() -> (layer: PropagationLayer)
    ensures
        layer == PropagationLayer,
{
    PropagationLayer
}

// --- Laws ---

proof fn lemma_hex_text_visible(bytes: Seq<u8>)
    ensures
        forall|i: int|
            0 <= i < hex_text(bytes).len() ==> 32 <= (#[trigger] hex_text(bytes)[i]) as u32
                && (hex_text(bytes)[i] as u32) < 127,
{
    assert forall|i: int| 0 <= i < hex_text(bytes).len() implies 32 <= (
    #[trigger] hex_text(bytes)[i]) as u32 && (hex_text(bytes)[i] as u32) < 127 by {
        let b = bytes[i / 2] as int;
        assert(hex_text(bytes)[i] == if i % 2 == 0 {
            hex_digit(b / 16)
        } else {
            hex_digit(b % 16)
        });
    }
}

/// The `traceparent` value of any context can stand in a header.
pub proof fn law_traceparent_valid(trace_id: Seq<u8>, span_id: Seq<u8>)
    ensures
        header_bytes(encode_utf8(traceparent_text(trace_id, span_id))),
{
    let text = traceparent_text(trace_id, span_id);
    reveal_strlit("00-");
    reveal_strlit("-");
    reveal_strlit("-01");
    lemma_hex_text_visible(trace_id);
    lemma_hex_text_visible(span_id);
    assert forall|i: int| 0 <= i < text.len() implies 32 <= (#[trigger] text[i]) as u32 && (
    text[i] as u32) < 127 by {
        let a = hex_text(trace_id).len();
        let b = hex_text(span_id).len();
        if 3 <= i < 3 + a {
            assert(text[i] == hex_text(trace_id)[i - 3]);
        } else if 4 + a <= i < 4 + a + b {
            assert(text[i] == hex_text(span_id)[i - 4 - a]);
        }
    }
    assert(vstd::utf8::is_ascii_chars(text));
    vstd::utf8::is_ascii_chars_encode_utf8(text);
}

/// A `traceparent` value is fifty-five characters long, and from it both identifiers can be told:
/// distinct contexts have distinct values.
pub proof fn law_traceparent_identifies(
    trace_a: Seq<u8>,
    span_a: Seq<u8>,
    trace_b: Seq<u8>,
    span_b: Seq<u8>,
)
    requires
        trace_a.len() == 16 && trace_b.len() == 16,
        span_a.len() == 8 && span_b.len() == 8,
    ensures
        traceparent_text(trace_a, span_a).len() == 55,
        traceparent_text(trace_a, span_a) == traceparent_text(trace_b, span_b) ==> trace_a
            == trace_b && span_a == span_b,
{
    reveal_strlit("00-");
    reveal_strlit("-");
    reveal_strlit("-01");
    let a = traceparent_text(trace_a, span_a);
    let b = traceparent_text(trace_b, span_b);
    assert(hex_text(trace_a).len() == 32 && hex_text(trace_b).len() == 32);
    assert(hex_text(span_a).len() == 16 && hex_text(span_b).len() == 16);
    assert(a.subrange(3, 35) =~= hex_text(trace_a));
    assert(b.subrange(3, 35) =~= hex_text(trace_b));
    assert(a.subrange(36, 52) =~= hex_text(span_a));
    assert(b.subrange(36, 52) =~= hex_text(span_b));
    if a == b {
        law_hex_text_injective(trace_a, trace_b);
        law_hex_text_injective(span_a, span_b);
    }
}

/// The `traceparent` value, character by character: version `00`, the digits of the trace, the
/// digits of the span, and the flag `01`, with hyphens between.
pub proof fn law_traceparent_layout(trace_id: Seq<u8>, span_id: Seq<u8>, i: int)
    requires
        trace_id.len() == 16,
        span_id.len() == 8,
    ensures
        ({
            let text = traceparent_text(trace_id, span_id);
            &&& text.len() == 55
            &&& text[0] == '0' && text[1] == '0' && text[2] == '-'
            &&& 0 <= i < 32 ==> text[3 + i] == hex_text(trace_id)[i]
            &&& text[35] == '-'
            &&& 0 <= i < 16 ==> text[36 + i] == hex_text(span_id)[i]
            &&& text[52] == '-' && text[53] == '0' && text[54] == '1'
        }),
{
    reveal_strlit("00-");
    reveal_strlit("-");
    reveal_strlit("-01");
    assert(hex_text(trace_id).len() == 32 && hex_text(span_id).len() == 16);
}

/// Injecting a context sets the one header `traceparent` to one value, and leaves every other
/// header as it was. Without a context nothing changes.
pub proof fn law_injected(headers: Map<Seq<char>, Seq<Seq<u8>>>, context: Option<TraceContext>)
    ensures
        context is None ==> injected(headers, context) == headers,
        context matches Some(ids) ==> {
            let after = injected(headers, context);
            &&& after.dom() == headers.dom().insert("traceparent"@)
            &&& after["traceparent"@].len() == 1
            &&& after["traceparent"@][0] == encode_utf8(traceparent_text(ids.0@, ids.1@))
            &&& forall|name: Seq<char>|
                name != "traceparent"@ && headers.dom().contains(name) ==> #[trigger] after[name]
                    == headers[name]
        },
{
}

/// A request that was prepared carries the context of the innermost surrounding span that has one,
/// both identifiers digit by digit as the span keeps them; where no surrounding span has one it is
/// left as it was.
pub proof fn law_prepared(
    before: Map<Seq<char>, Seq<Seq<u8>>>,
    after: Map<Seq<char>, Seq<Seq<u8>>>,
    scope: Seq<Option<TraceContext>>,
    i: int,
)
    requires
        after == injected(before, first_context(scope)),
    ensures
        (forall|j: int| 0 <= j < scope.len() ==> #[trigger] scope[j] is None) ==> after == before,
        0 <= i < scope.len() && scope[i] is Some && (forall|j: int|
            0 <= j < i ==> #[trigger] scope[j] is None) ==> after["traceparent"@] == seq![
            encode_utf8("00-"@ + hex_text((scope[i]->0).0@) + "-"@ + hex_text((scope[i]->0).1@)
                + "-01"@),
        ],
{
    law_first_context(scope);
    if first_context(scope) is Some {
        let n = choose|n: int|
            0 <= n < scope.len() && #[trigger] scope[n] == first_context(scope) && forall|j: int|
                0 <= j < n ==> #[trigger] scope[j] is None;
        assert(scope[n] is Some);
        if 0 <= i < scope.len() && scope[i] is Some && (forall|j: int|
            0 <= j < i ==> #[trigger] scope[j] is None) {
            assert(i == n);
        }
    }
}

} // verus!
