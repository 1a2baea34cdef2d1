use http::{HeaderMap, HeaderValue};
use ro11y::tower::propagation::{inject, inject_nearest, traceparent, PropagationLayer};
use ro11y::trace_id::hex_encode;

#[test]
fn propagation_propagation_layer_constructs() {
    let _layer = PropagationLayer;
}

#[test]
fn traceparent_format() {
    let trace_id = [1u8; 16];
    let span_id = [2u8; 8];
    let tp = traceparent(Some((trace_id, span_id))).unwrap();
    assert_eq!(
        tp,
        "00-01010101010101010101010101010101-0202020202020202-01"
    );
    assert_eq!(tp, format!("00-{}-{}-01", hex_encode(&trace_id), hex_encode(&span_id)));
}

#[test]
fn no_context_no_traceparent() {
    assert_eq!(traceparent(None), None);
    let mut headers: HeaderMap<HeaderValue> = HeaderMap::new();
    assert_eq!(inject(&mut headers, None), Ok(()));
    assert!(headers.is_empty());
}

#[test]
fn inject_sets_the_header() {
    let mut headers: HeaderMap<HeaderValue> = HeaderMap::new();
    headers.insert("accept", HeaderValue::from_static("text/plain"));
    assert_eq!(inject(&mut headers, Some(([0xab; 16], [0xcd; 8]))), Ok(()));
    assert_eq!(headers.len(), 2);
    assert_eq!(
        headers.get("traceparent").unwrap(),
        "00-abababababababababababababababab-cdcdcdcdcdcdcdcd-01"
    );
    assert_eq!(headers.get("accept").unwrap(), "text/plain");
}

#[test]
fn inject_replaces_all_earlier_values() {
    let mut headers: HeaderMap<HeaderValue> = HeaderMap::new();
    headers.append("traceparent", HeaderValue::from_static("one"));
    headers.append("traceparent", HeaderValue::from_static("two"));
    assert_eq!(inject(&mut headers, Some(([0; 16], [9; 8]))), Ok(()));
    assert_eq!(headers.len(), 1);
    assert_eq!(
        headers.get("TraceParent").unwrap(),
        "00-00000000000000000000000000000000-0909090909090909-01"
    );
}

#[test]
fn inject_nearest_takes_the_innermost() {
    let scope = [None, Some(([1; 16], [2; 8])), Some(([3; 16], [4; 8]))];
    let mut headers: HeaderMap<HeaderValue> = HeaderMap::new();
    assert_eq!(inject_nearest(&mut headers, &scope[..1]), Ok(()));
    assert!(headers.is_empty());
    assert_eq!(inject_nearest(&mut headers, &scope), Ok(()));
    assert_eq!(
        headers.get("traceparent").unwrap(),
        "00-01010101010101010101010101010101-0202020202020202-01"
    );
    assert_eq!(inject_nearest(&mut headers, &scope[2..]), Ok(()));
    assert_eq!(
        headers.get("traceparent").unwrap(),
        "00-03030303030303030303030303030303-0404040404040404-01"
    );
}

#[test]
fn prepare_outside_a_span_changes_nothing() {
    let mut service = PropagationLayer.layer(7u8);
    let mut headers: HeaderMap<HeaderValue> = HeaderMap::new();
    assert_eq!(service.prepare(&mut headers), Ok(()));
    assert!(headers.is_empty());
    assert_eq!(*service.inner(), 7);
}

#[test]
fn traceparent_tells_contexts_apart() {
    let mut seen = Vec::new();
    for trace in 0..4u8 {
        for span in 0..4u8 {
            let mut trace_id = [0u8; 16];
            trace_id[trace as usize * 5] = 16;
            let mut span_id = [0u8; 8];
            span_id[span as usize * 2] = 1;
            let text = traceparent(Some((trace_id, span_id))).unwrap();
            assert_eq!(text.len(), 55);
            assert!(HeaderValue::from_str(&text).is_ok());
            assert!(!seen.contains(&text));
            seen.push(text);
        }
    }
}
