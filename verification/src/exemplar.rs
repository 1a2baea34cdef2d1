//! Exemplars: links from a metric data point to the trace that was active when it was measured.

use tracing_subscriber::registry::LookupSpan;
use vstd::prelude::*;

use crate::clock::{can_be_now, now_nanos};
use crate::otlp_layer::SpanFields;

verus! {

/// The measured value attached to an exemplar. A double is carried by its bits.
#[derive(Clone, Copy, Debug, PartialEq, Eq)]
pub enum ExemplarValue {
    Int(i64),
    Double(u64),
}

/// An exemplar linking a metric data point to a trace.
#[derive(Clone, Copy, Debug, PartialEq, Eq)]
pub struct Exemplar {
    pub trace_id: [u8; 16],
    pub span_id: [u8; 8],
    pub time_unix_nano: u64,
    pub value: ExemplarValue,
}

/// The identifiers of a trace and of a span in it.
pub type TraceContext = ([u8; 16], [u8; 8]);

/// Whether every byte is zero.
pub open spec fn all_zero(bytes: Seq<u8>) -> bool {
    forall|i: int| 0 <= i < bytes.len() ==> #[trigger] bytes[i] == 0
}

/// The first context there is, from the innermost span outwards.
pub open spec fn first_context(scope: Seq<Option<TraceContext>>) -> Option<TraceContext>
    decreases scope.len(),
{
    if scope.len() == 0 {
        None
    } else if scope[0] is Some {
        scope[0]
    } else {
        first_context(scope.skip(1))
    }
}

/// The exemplar of a measurement: none outside a span or where the trace id is all zero.
pub open spec fn exemplar_of(
    context: Option<TraceContext>,
    time_unix_nano: u64,
    value: ExemplarValue,
) -> Option<Exemplar> {
    match context {
        Some((trace_id, span_id)) => if all_zero(trace_id@) {
            None
        } else {
            Some(Exemplar { trace_id, span_id, time_unix_nano, value })
        },
        None => None,
    }
}

/// Whether every byte of an identifier is zero.
pub fn is_zero_id(bytes: &[u8]) -> (result: bool)
    ensures
        result == all_zero(bytes@),
{
    let mut i: usize = 0;
    while i < bytes.len()
        invariant
            i <= bytes@.len(),
            forall|j: int| 0 <= j < i ==> #[trigger] bytes@[j] == 0,
        decreases bytes@.len() - i,
    {
        if bytes[i] != 0 {
            return false;
        }
        i = i + 1;
    }
    true
}

/// The context of the nearest span that has one. `scope` lists the current span and its ancestors,
/// innermost first.
pub fn nearest_context(scope: &[Option<TraceContext>]) -> (context: Option<TraceContext>)
    ensures
        context == first_context(scope@),
{
    let mut i: usize = 0;
    assert(scope@.skip(0) == scope@);
    while i < scope.len()
        invariant
            i <= scope@.len(),
            first_context(scope@) == first_context(scope@.skip(i as int)),
        decreases scope@.len() - i,
    {
        if scope[i].is_some() {
            return scope[i];
        }
        assert(scope@.skip(i as int).skip(1) == scope@.skip(i + 1));
        i = i + 1;
    }
    None
}

/// The exemplar of a measurement taken in the given context at the given time.
pub fn exemplar_from(
    context: Option<TraceContext>,
    time_unix_nano: u64,
    value: ExemplarValue,
) -> (exemplar: Option<Exemplar>)
    ensures
        exemplar == exemplar_of(context, time_unix_nano, value),
{
    match context {
        Some((trace_id, span_id)) => {
            if is_zero_id(&trace_id) {
                None
            } else {
                Some(Exemplar { trace_id, span_id, time_unix_nano, value })
            }
        },
        None => None,
    }
}

// --- Capture ---

/// Whether a reading of the span at a depth can give `context`: none where there is no such span,
/// else the context that the span keeps, if it keeps one. The current span is at depth zero, each
/// of its ancestors one further out.
pub closed spec fn span_keeps(depth: usize, context: Option<Option<TraceContext>>) -> bool {
    call_ensures(context_at, (depth,), context)
}

/// Whether a look at the dispatcher can find no subscriber.
pub closed spec fn can_be_unobserved() -> bool {
    call_ensures(subscriber_installed, (), false)
}

/// Whether the spans around the caller can have the contexts in `scope`: each is the one read at
/// its depth, and the reading ends at the first that is there, or where there is no span any more.
pub open spec fn can_surround(scope: Seq<Option<TraceContext>>) -> bool {
    &&& scope.len() <= usize::MAX
    &&& forall|i: int|
        0 <= i < scope.len() ==> span_keeps(i as usize, Some(#[trigger] scope[i]))
    &&& forall|i: int| 0 <= i < scope.len() - 1 ==> #[trigger] scope[i] is None
    &&& (scope.len() > 0 && scope.last() is Some) || span_keeps(scope.len() as usize, None)
}

/// Whether `exemplar` can be what is captured with a measurement of `value`: the exemplar of the
/// spans that surround it and of the time. Without a subscriber there is none.
pub open spec fn can_capture(exemplar: Option<Exemplar>, value: ExemplarValue) -> bool {
    &&& exemplar matches Some(e) ==> e.value == value && !all_zero(e.trace_id@)
    &&& {
        ||| exemplar is None && can_be_unobserved()
        ||| exists|scope: Seq<Option<TraceContext>>, now: u64| #[trigger]
            can_surround(scope) && #[trigger] can_be_now(now) && exemplar == exemplar_of(
                first_context(scope),
                now,
                value,
            )
    }
}

/// `tracing::dispatcher::has_been_set`. Nothing is claimed of when a subscriber is installed.
#[verifier::external_body]
fn subscriber_installed() -> (installed: bool) {
    tracing::dispatcher::has_been_set()
}

/// `tracing::Span::current`, its `with_subscriber`, and `SpanRef::scope` of the registry: the
/// context that a span keeps in its extensions, if it keeps one. `depth` says which span: the
/// current one at zero, else its ancestor so many steps out; there is none further out than the
/// outermost. No other span's extensions are read. Nothing is claimed of which spans there are.
#[verifier::external_body]
fn context_at(depth: usize) -> (context: Option<Option<TraceContext>>) {
    let context = tracing::Span::current().with_subscriber(|(id, dispatch)| {
        let registry = dispatch.downcast_ref::<tracing_subscriber::Registry>()?;
        let span = registry.span(id)?.scope().nth(depth)?;
        let extensions = span.extensions();
        Some(extensions.get::<SpanFields>().map(|fields| (fields.trace_id, fields.span_id)))
    });
    context.flatten()
}

/// Read the contexts of the current span and its ancestors, innermost first, up to the first there
/// is; none when no span is active.
///
/// Which spans there are depends on the subscriber, so nothing is promised of the contexts but that
/// none is read behind one that is there.
pub(crate) fn current_scope() -> (scope: Vec<Option<TraceContext>>)
    ensures
        can_surround(scope@),
        forall|i: int| 0 <= i < scope@.len() - 1 ==> #[trigger] scope@[i] is None,
{
    let mut scope: Vec<Option<TraceContext>> = Vec::new();
    loop
        invariant
            forall|i: int| 0 <= i < scope@.len() ==> #[trigger] scope@[i] is None,
            forall|i: int|
                0 <= i < scope@.len() ==> span_keeps(i as usize, Some(#[trigger] scope@[i])),
        decreases usize::MAX - scope.len(),
    {
        let found = context_at(scope.len());
        assert(span_keeps(scope.len(), found));
        match found {
            Some(context) => {
                scope.push(context);
                assert(scope.len() == scope@.len());
                if context.is_some() {
                    assert(scope@.last() is Some);
                    return scope;
                }
            },
            None => {
                return scope;
            },
        }
    }
}

/// The exemplar of a measurement taken in the given spans at the given time: a link to the trace of
/// the nearest one that has a context. `scope` lists the current span and its ancestors, innermost
/// first.
pub fn exemplar_in(
    scope: &[Option<TraceContext>],
    time_unix_nano: u64,
    value: ExemplarValue,
) -> (exemplar: Option<Exemplar>)
    ensures
        exemplar == exemplar_of(first_context(scope@), time_unix_nano, value),
{
    exemplar_from(nearest_context(scope), time_unix_nano, value)
}

/// Capture an exemplar from the current trace context if available.
/// Skips all-zero trace ids (no active trace).
///
/// Whether there is a trace depends on the subscriber, so no exemplar is promised; [`exemplar_in`]
/// says what is captured in any spans.
pub fn capture_exemplar(value: ExemplarValue) -> (exemplar: Option<Exemplar>)
    ensures
        can_capture(exemplar, value),
        exemplar matches Some(e) ==> e.value == value && !all_zero(e.trace_id@),
{
    if !subscriber_installed() {
        assert(can_be_unobserved());
        return None;
    }
    let scope = current_scope();
    let now: u64 = now_nanos();
    assert(can_surround(scope@) && can_be_now(now));
    exemplar_in(scope.as_slice(), now, value)
}

// --- Laws ---

/// The first context of a scope is that of its innermost span that has one: those further in have
/// none, and there is none only where no span has one.
pub proof fn law_first_context(scope: Seq<Option<TraceContext>>)
    ensures
        first_context(scope) is None <==> forall|i: int|
            0 <= i < scope.len() ==> #[trigger] scope[i] is None,
        first_context(scope) is Some ==> exists|i: int|
            0 <= i < scope.len() && #[trigger] scope[i] == first_context(scope) && forall|j: int|
                0 <= j < i ==> #[trigger] scope[j] is None,
    decreases scope.len(),
{
    if scope.len() > 0 && scope[0] is None {
        let outer = scope.skip(1);
        law_first_context(outer);
        if first_context(outer) is Some {
            let i = choose|i: int|
                0 <= i < outer.len() && #[trigger] outer[i] == first_context(outer) && forall|j: int|
                    0 <= j < i ==> #[trigger] outer[j] is None;
            assert(scope[i + 1] == first_context(scope));
            assert forall|j: int| 0 <= j < i + 1 implies #[trigger] scope[j] is None by {
                if j > 0 {
                    assert(outer[j - 1] is None);
                }
            }
        } else {
            assert forall|i: int| 0 <= i < scope.len() implies #[trigger] scope[i] is None by {
                if i > 0 {
                    assert(outer[i - 1] is None);
                }
            }
        }
    } else if scope.len() > 0 {
        assert(scope[0] is Some);
    }
}

/// What is captured with a measurement links it to the innermost of the surrounding spans that has
/// a context: its trace, its span, the time that was read and the value that was measured. Nothing
/// is captured only without a subscriber, outside of any such span, or where its trace id is all
/// zero.
pub proof fn law_captured_exemplar(exemplar: Option<Exemplar>, value: ExemplarValue)
    requires
        can_capture(exemplar, value),
    ensures
        exemplar matches Some(e) ==> e.value == value && can_be_now(e.time_unix_nano) && !(forall|
            k: int,
        |
            0 <= k < 16 ==> #[trigger] e.trace_id[k] == 0) && exists|
            scope: Seq<Option<TraceContext>>,
            i: int,
        |
            can_surround(scope) && 0 <= i < scope.len() && #[trigger] scope[i] == Some(
                (e.trace_id, e.span_id),
            ) && forall|j: int| 0 <= j < i ==> #[trigger] scope[j] is None,
        exemplar is None ==> can_be_unobserved() || exists|scope: Seq<Option<TraceContext>>|
            #[trigger] can_surround(scope) && forall|i: int|
                0 <= i < scope.len() ==> (#[trigger] scope[i] matches Some(context) ==> forall|
                    k: int,
                |
                    0 <= k < 16 ==> #[trigger] context.0[k] == 0),
{
    if !(exemplar is None && can_be_unobserved()) {
        let (scope, now) = choose|scope: Seq<Option<TraceContext>>, now: u64| #[trigger]
            can_surround(scope) && #[trigger] can_be_now(now) && exemplar == exemplar_of(
                first_context(scope),
                now,
                value,
            );
        law_first_context(scope);
        match exemplar {
            Some(e) => {
                let i = choose|i: int|
                    0 <= i < scope.len() && #[trigger] scope[i] == first_context(scope) && forall|
                        j: int,
                    |
                        0 <= j < i ==> #[trigger] scope[j] is None;
                assert(scope[i] == Some((e.trace_id, e.span_id)));
                if forall|k: int| 0 <= k < 16 ==> #[trigger] e.trace_id[k] == 0 {
                    assert(all_zero(e.trace_id@));
                }
            },
            None => {
                assert forall|i: int| 0 <= i < scope.len() implies (#[trigger] scope[i] matches Some(
                    context,
                ) ==> forall|k: int| 0 <= k < 16 ==> #[trigger] context.0[k] == 0) by {
                    if scope[i] is Some {
                        assert(i == scope.len() - 1);
                        let n = choose|n: int|
                            0 <= n < scope.len() && #[trigger] scope[n] == first_context(scope)
                                && forall|j: int| 0 <= j < n ==> #[trigger] scope[j] is None;
                        assert(scope[n] is Some && n == i);
                        let context = scope[i]->0;
                        assert(all_zero(context.0@));
                        assert forall|k: int| 0 <= k < 16 implies #[trigger] context.0[k] == 0 by {
                            assert(context.0@[k] == 0);
                        }
                    }
                }
                assert(can_surround(scope));
            },
        }
    }
}

/// With a trace around it a measurement has an exemplar: the one link there can be, to that trace
/// and span, with the given time and value. With an all-zero trace id, or none, it has none.
pub proof fn law_exemplar_links(
    context: Option<TraceContext>,
    time_unix_nano: u64,
    value: ExemplarValue,
)
    ensures
        context is None ==> exemplar_of(context, time_unix_nano, value) is None,
        context matches Some(ids) ==> {
            &&& exemplar_of(context, time_unix_nano, value) is None <==> forall|k: int|
                0 <= k < 16 ==> #[trigger] ids.0[k] == 0
            &&& exemplar_of(context, time_unix_nano, value) matches Some(e) ==> e.trace_id == ids.0
                && e.span_id == ids.1 && e.time_unix_nano == time_unix_nano && e.value == value
        },
{
    if let Some(ids) = context {
        if all_zero(ids.0@) {
            assert forall|k: int| 0 <= k < 16 implies #[trigger] ids.0[k] == 0 by {
                assert(ids.0@[k] == 0);
            }
        } else if forall|k: int| 0 <= k < 16 ==> #[trigger] ids.0[k] == 0 {
            assert(all_zero(ids.0@));
        }
    }
}

/// What a span keeps is what a reading at its depth gives, that no subscriber is there is what the
/// dispatcher says, and nothing else.
proof fn law_spans_are_read(depth: usize, context: Option<Option<TraceContext>>)
    ensures
        span_keeps(depth, context) <==> call_ensures(context_at, (depth,), context),
        can_be_unobserved() <==> call_ensures(subscriber_installed, (), false),
{
}

/// A scope is read from the current span outwards, every span at its own depth, as far as the first
/// that has a context and no further.
proof fn law_scope_is_read(scope: Seq<Option<TraceContext>>, i: int)
    requires
        can_surround(scope),
        0 <= i < scope.len(),
    ensures
        call_ensures(context_at, (i as usize,), Some(scope[i])),
        i < scope.len() - 1 ==> scope[i] is None,
        scope.last() is None ==> call_ensures(context_at, (scope.len() as usize,), None),
{
}

} // verus!
