use std::sync::OnceLock;

use http::{HeaderMap, HeaderValue};
use ro11y::exemplar::{capture_exemplar, ExemplarValue};
use ro11y::metrics::MetricsRegistry;
use ro11y::otlp_layer::{FieldCollector, OtlpLayer};
use ro11y::snapshot::MetricSnapshot;
use ro11y::tower::propagation::PropagationLayer;
use tracing::callsite::{Callsite, Identifier};
use tracing::field::FieldSet;
use tracing::metadata::Kind;
use tracing::subscriber::Interest;
use tracing::{Level, Metadata, Span};
use tracing_subscriber::layer::{Context, SubscriberExt};
use tracing_subscriber::registry::LookupSpan;
use tracing_subscriber::Layer;

/// Where a span of these tests is declared.
struct Site {
    metadata: OnceLock<Metadata<'static>>,
}

impl Callsite for Site {
    fn set_interest(&self, _: Interest) {}

    fn metadata(&self) -> &Metadata<'_> {
        self.metadata.get().unwrap()
    }
}

fn new_span(name: &'static str) -> Span {
    let site: &'static Site = Box::leak(Box::new(Site {
        metadata: OnceLock::new(),
    }));
    let fields = FieldSet::new(&[], Identifier(site));
    let metadata = Metadata::new(name, "tests", Level::INFO, None, None, None, fields, Kind::SPAN);
    site.metadata.set(metadata).unwrap();
    let metadata = site.metadata.get().unwrap();
    Span::new(metadata, &metadata.fields().value_set(&[]))
}

/// Keeps a trace for the spans called "traced".
struct Keeper;

impl<S> Layer<S> for Keeper
where
    S: tracing::Subscriber + for<'a> LookupSpan<'a>,
{
    fn on_new_span(
        &self,
        attrs: &tracing::span::Attributes<'_>,
        id: &tracing::span::Id,
        ctx: Context<'_, S>,
    ) {
        let mut fields = FieldCollector::new();
        match attrs.metadata().name() {
            "traced" => fields.record_str("trace_id", "0102030405060708090a0b0c0d0e0f10"),
            "untraced" => {}
            _ => return,
        }
        let layer = OtlpLayer::new("svc", "1", "test", true, true);
        let (_, kept) = layer.on_new_span(fields, None, [7; 8], 1);
        ctx.span(id).unwrap().extensions_mut().insert(kept);
    }
}

fn with_subscriber<T>(f: impl FnOnce() -> T) -> T {
    tracing::subscriber::with_default(tracing_subscriber::registry().with(Keeper), f)
}

#[test]
fn no_subscriber_no_exemplar() {
    assert_eq!(capture_exemplar(ExemplarValue::Int(1)), None);
}

#[test]
fn exemplars_link_to_the_current_trace() {
    let captured = with_subscriber(|| {
        let traced = new_span("traced");
        let _guard = traced.enter();
        capture_exemplar(ExemplarValue::Int(5))
    });
    let exemplar = captured.unwrap();
    assert_eq!(exemplar.trace_id[0], 1);
    assert_eq!(exemplar.trace_id[15], 16);
    assert_eq!(exemplar.span_id, [7; 8]);
    assert_eq!(exemplar.value, ExemplarValue::Int(5));
    // After 2020 and before 2200.
    assert!(exemplar.time_unix_nano > 1_577_836_800_000_000_000);
    assert!(exemplar.time_unix_nano < 7_258_118_400_000_000_000);
}

#[test]
fn exemplars_look_at_ancestors() {
    let (inner, outside, zero) = with_subscriber(|| {
        let outside = capture_exemplar(ExemplarValue::Int(1));
        let traced = new_span("traced");
        let _outer = traced.enter();
        let plain = new_span("plain");
        let _inner = plain.enter();
        let inner = capture_exemplar(ExemplarValue::Int(2));
        // A span that knows no trace hides those around it.
        let untraced = new_span("untraced");
        let _innermost = untraced.enter();
        (inner, outside, capture_exemplar(ExemplarValue::Int(3)))
    });
    assert_eq!(inner.unwrap().span_id, [7; 8]);
    assert_eq!(outside, None);
    assert_eq!(zero, None);
}

#[test]
fn measurements_in_a_span_have_exemplars() {
    let mut registry = MetricsRegistry::new();
    let c = registry.counter("c", "");
    with_subscriber(|| {
        let traced = new_span("traced");
        let _guard = traced.enter();
        c.add(&mut registry, 3, &[]);
    });
    match &registry.collect()[0] {
        MetricSnapshot::Counter { data_points, .. } => {
            assert_eq!(data_points[0].2.unwrap().value, ExemplarValue::Int(3));
        }
        _ => panic!("expected Counter"),
    }
}

#[test]
fn requests_in_a_span_carry_the_context() {
    let mut headers: HeaderMap<HeaderValue> = HeaderMap::new();
    with_subscriber(|| {
        let traced = new_span("traced");
        let _guard = traced.enter();
        PropagationLayer.layer(()).prepare(&mut headers).unwrap();
    });
    assert_eq!(
        headers.get("traceparent").unwrap(),
        "00-0102030405060708090a0b0c0d0e0f10-0707070707070707-01"
    );
}

#[test]
fn spans_further_out_are_not_read() {
    let (captured, prepared) = with_subscriber(|| {
        let outer = new_span("plain");
        let _outer = outer.enter();
        let traced = new_span("traced");
        let _traced = traced.enter();
        let inner = new_span("plain");
        let _inner = inner.enter();
        outer
            .with_subscriber(|(id, dispatch)| {
                let registry = dispatch
                    .downcast_ref::<tracing_subscriber::Registry>()
                    .unwrap();
                let span = registry.span(id).unwrap();
                // Nobody else can read the outer span's extensions while this is held.
                let _held = span.extensions_mut();
                let mut headers: HeaderMap<HeaderValue> = HeaderMap::new();
                let prepared = PropagationLayer.layer(()).prepare(&mut headers);
                (capture_exemplar(ExemplarValue::Int(1)), prepared)
            })
            .unwrap()
    });
    assert_eq!(captured.unwrap().span_id, [7; 8]);
    assert_eq!(prepared, Ok(()));
}
