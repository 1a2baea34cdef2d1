use ro11y::attrs::attrs_hash_unordered;
use ro11y::exemplar::{exemplar_from, exemplar_in, is_zero_id, nearest_context, Exemplar, ExemplarValue};
use ro11y::histogram::{is_sortable, normalize_boundaries};
use ro11y::metrics::MetricsRegistry;
use ro11y::snapshot::MetricSnapshot;

fn plus(a: u64, b: u64) -> u64 {
    (f64::from_bits(a) + f64::from_bits(b)).to_bits()
}

fn bits(values: &[f64]) -> Vec<u64> {
    values.iter().map(|v| v.to_bits()).collect()
}

#[test]
fn counter_add_accumulates() {
    let mut registry = MetricsRegistry::new();
    let c = registry.counter("req_total", "Total requests");
    c.add(&mut registry, 1, &[("method", "GET")]);
    c.add(&mut registry, 3, &[("method", "GET")]);
    c.add(&mut registry, 1, &[("method", "POST")]);

    let snapshots = registry.collect();
    assert_eq!(snapshots.len(), 1);
    match &snapshots[0] {
        MetricSnapshot::Counter {
            name, data_points, ..
        } => {
            assert_eq!(name, "req_total");
            assert_eq!(data_points.len(), 2);
            let get_val = data_points
                .iter()
                .find(|(a, _, _)| a[0].1 == "GET")
                .unwrap()
                .1;
            assert_eq!(get_val, 4);
            let post_val = data_points
                .iter()
                .find(|(a, _, _)| a[0].1 == "POST")
                .unwrap()
                .1;
            assert_eq!(post_val, 1);
        }
        _ => panic!("expected Counter snapshot"),
    }
}

#[test]
fn gauge_set_overwrites() {
    let mut registry = MetricsRegistry::new();
    let g = registry.gauge("cpu_usage", "CPU usage");
    g.set(&mut registry, 50.0f64.to_bits(), &[("core", "0")]);
    g.set(&mut registry, 75.5f64.to_bits(), &[("core", "0")]);

    let snapshots = registry.collect();
    assert_eq!(snapshots.len(), 1);
    match &snapshots[0] {
        MetricSnapshot::Gauge {
            name, data_points, ..
        } => {
            assert_eq!(name, "cpu_usage");
            assert_eq!(data_points.len(), 1);
            assert!((f64::from_bits(data_points[0].1) - 75.5).abs() < f64::EPSILON);
        }
        _ => panic!("expected Gauge snapshot"),
    }
}

#[test]
fn counter_no_attrs() {
    let mut registry = MetricsRegistry::new();
    let c = registry.counter("simple", "simple counter");
    c.add(&mut registry, 10, &[]);

    let snapshots = registry.collect();
    assert_eq!(snapshots.len(), 1);
    match &snapshots[0] {
        MetricSnapshot::Counter { data_points, .. } => {
            assert_eq!(data_points.len(), 1);
            assert_eq!(data_points[0].1, 10);
            assert!(data_points[0].0.is_empty());
        }
        _ => panic!("expected Counter"),
    }
}

#[test]
fn empty_registry_collects_nothing() {
    let mut registry = MetricsRegistry::new();
    let _ = registry.counter("unused", "never incremented");
    assert!(registry.collect().is_empty());
}

#[test]
fn counter_clone_shares_state() {
    let mut registry = MetricsRegistry::new();
    let c1 = registry.counter("shared", "shared counter");
    let c2 = c1.clone();
    c1.add(&mut registry, 5, &[]);
    c2.add(&mut registry, 3, &[]);

    let snapshots = registry.collect();
    match &snapshots[0] {
        MetricSnapshot::Counter { data_points, .. } => {
            assert_eq!(data_points[0].1, 8);
        }
        _ => panic!("expected Counter"),
    }
}

#[test]
fn attrs_order_does_not_matter() {
    let mut registry = MetricsRegistry::new();
    let c = registry.counter("order_test", "test");
    c.add(&mut registry, 1, &[("a", "1"), ("b", "2")]);
    c.add(&mut registry, 1, &[("b", "2"), ("a", "1")]);

    let snapshots = registry.collect();
    match &snapshots[0] {
        MetricSnapshot::Counter { data_points, .. } => {
            assert_eq!(data_points.len(), 1);
            assert_eq!(data_points[0].1, 2);
        }
        _ => panic!("expected Counter"),
    }
}

#[test]
fn histogram_observe_accumulates() {
    let mut registry = MetricsRegistry::new();
    let h = registry.histogram("latency", "request latency", &bits(&[10.0, 50.0, 100.0]));
    h.observe(&mut registry, 5.0f64.to_bits(), &[("method", "GET")], plus);
    h.observe(&mut registry, 25.0f64.to_bits(), &[("method", "GET")], plus);
    h.observe(&mut registry, 75.0f64.to_bits(), &[("method", "GET")], plus);
    h.observe(&mut registry, 200.0f64.to_bits(), &[("method", "GET")], plus);

    let snapshots = registry.collect();
    assert_eq!(snapshots.len(), 1);
    match &snapshots[0] {
        MetricSnapshot::Histogram {
            name,
            boundaries,
            data_points,
            ..
        } => {
            assert_eq!(name, "latency");
            assert_eq!(boundaries, &bits(&[10.0, 50.0, 100.0]));
            assert_eq!(data_points.len(), 1);
            let dp = &data_points[0];
            // 4 buckets: [0,10), [10,50), [50,100), [100,+inf)
            assert_eq!(dp.bucket_counts, vec![1, 1, 1, 1]);
            assert_eq!(dp.count, 4);
            assert!((f64::from_bits(dp.sum) - 305.0).abs() < f64::EPSILON);
            assert!((f64::from_bits(dp.min) - 5.0).abs() < f64::EPSILON);
            assert!((f64::from_bits(dp.max) - 200.0).abs() < f64::EPSILON);
        }
        _ => panic!("expected Histogram snapshot"),
    }
}

#[test]
fn histogram_boundary_placement() {
    let mut registry = MetricsRegistry::new();
    let h = registry.histogram("bp", "test", &bits(&[10.0, 20.0]));
    // Exactly on boundary goes to the next bucket
    h.observe(&mut registry, 10.0f64.to_bits(), &[], plus);
    h.observe(&mut registry, 20.0f64.to_bits(), &[], plus);
    h.observe(&mut registry, 0.0f64.to_bits(), &[], plus);

    let snapshots = registry.collect();
    match &snapshots[0] {
        MetricSnapshot::Histogram { data_points, .. } => {
            let dp = &data_points[0];
            // [0,10) = 1 (0.0), [10,20) = 1 (10.0), [20,+inf) = 1 (20.0)
            assert_eq!(dp.bucket_counts, vec![1, 1, 1]);
        }
        _ => panic!("expected Histogram"),
    }
}

#[test]
fn histogram_multiple_attr_sets() {
    let mut registry = MetricsRegistry::new();
    let h = registry.histogram("multi", "test", &bits(&[50.0]));
    h.observe(&mut registry, 10.0f64.to_bits(), &[("method", "GET")], plus);
    h.observe(&mut registry, 60.0f64.to_bits(), &[("method", "POST")], plus);

    let snapshots = registry.collect();
    match &snapshots[0] {
        MetricSnapshot::Histogram { data_points, .. } => {
            assert_eq!(data_points.len(), 2);
        }
        _ => panic!("expected Histogram"),
    }
}

#[test]
fn histogram_clone_shares_state() {
    let mut registry = MetricsRegistry::new();
    let h1 = registry.histogram("shared_h", "test", &bits(&[10.0]));
    let h2 = h1.clone();
    h1.observe(&mut registry, 5.0f64.to_bits(), &[], plus);
    h2.observe(&mut registry, 15.0f64.to_bits(), &[], plus);

    let snapshots = registry.collect();
    match &snapshots[0] {
        MetricSnapshot::Histogram { data_points, .. } => {
            let dp = &data_points[0];
            assert_eq!(dp.count, 2);
        }
        _ => panic!("expected Histogram"),
    }
}

#[test]
fn histogram_empty_not_collected() {
    let mut registry = MetricsRegistry::new();
    let _ = registry.histogram("unused_h", "test", &bits(&[10.0]));
    assert!(registry.collect().is_empty());
}

#[test]
fn histogram_no_attrs() {
    let mut registry = MetricsRegistry::new();
    let h = registry.histogram("no_attrs_h", "test", &bits(&[5.0]));
    h.observe(&mut registry, 1.0f64.to_bits(), &[], plus);

    let snapshots = registry.collect();
    match &snapshots[0] {
        MetricSnapshot::Histogram { data_points, .. } => {
            assert_eq!(data_points.len(), 1);
            assert!(data_points[0].attrs.is_empty());
        }
        _ => panic!("expected Histogram"),
    }
}

#[test]
fn counter_no_exemplar_without_span() {
    // Without an active tracing span, exemplar should be None.
    let mut registry = MetricsRegistry::new();
    let c = registry.counter("no_span", "test");
    c.add(&mut registry, 1, &[]);

    let snapshots = registry.collect();
    match &snapshots[0] {
        MetricSnapshot::Counter { data_points, .. } => {
            assert!(data_points[0].2.is_none());
        }
        _ => panic!("expected Counter"),
    }
}

#[test]
fn exemplar_resets_on_collect() {
    let mut registry = MetricsRegistry::new();
    let c = registry.counter("reset_test", "test");
    c.add(&mut registry, 1, &[]);

    // Bring in an exemplar.
    c.add_with_exemplar(
        &mut registry,
        0,
        &[],
        Some(Exemplar {
            trace_id: [0xAA; 16],
            span_id: [0xBB; 8],
            time_unix_nano: 123_456,
            value: ExemplarValue::Int(1),
        }),
    );

    // First collect should yield the exemplar.
    let snap1 = registry.collect();
    match &snap1[0] {
        MetricSnapshot::Counter { data_points, .. } => {
            assert!(data_points[0].2.is_some());
        }
        _ => panic!("expected Counter"),
    }

    // Second collect should have None.
    let snap2 = registry.collect();
    match &snap2[0] {
        MetricSnapshot::Counter { data_points, .. } => {
            assert!(data_points[0].2.is_none());
        }
        _ => panic!("expected Counter"),
    }
}

fn counter_points(snapshot: &MetricSnapshot) -> Vec<(Vec<(String, String)>, i64)> {
    match snapshot {
        MetricSnapshot::Counter { data_points, .. } => data_points
            .iter()
            .map(|(attrs, value, _)| (attrs.to_vec(), *value))
            .collect(),
        _ => panic!("expected Counter"),
    }
}

#[test]
fn collection_is_cumulative() {
    let mut registry = MetricsRegistry::new();
    let c = registry.counter("total", "test");
    c.add(&mut registry, 2, &[]);
    assert_eq!(counter_points(&registry.collect()[0]), vec![(vec![], 2)]);
    c.add(&mut registry, 5, &[]);
    assert_eq!(counter_points(&registry.collect()[0]), vec![(vec![], 7)]);
    assert_eq!(counter_points(&registry.collect()[0]), vec![(vec![], 7)]);
}

#[test]
fn attributes_are_kept_sorted() {
    let mut registry = MetricsRegistry::new();
    let c = registry.counter("sorted", "test");
    c.add(&mut registry, 1, &[("b", "1"), ("a", "2"), ("a", "1"), ("", "x")]);
    let kept = counter_points(&registry.collect()[0]).remove(0).0;
    let mut expected = kept.clone();
    expected.sort();
    assert_eq!(kept, expected);
    assert_eq!(kept[0], (String::new(), "x".to_string()));
    assert_eq!(kept[3], ("b".to_string(), "1".to_string()));
}

#[test]
fn separator_keeps_pairs_apart() {
    let mut registry = MetricsRegistry::new();
    let c = registry.counter("apart", "test");
    c.add(&mut registry, 1, &[("ab", "c")]);
    c.add(&mut registry, 1, &[("a", "bc")]);
    assert_eq!(counter_points(&registry.collect()[0]).len(), 2);
}

#[test]
fn first_description_stays() {
    let mut registry = MetricsRegistry::new();
    let a = registry.counter("same", "first");
    let b = registry.counter("same", "second");
    a.add(&mut registry, 1, &[]);
    b.add(&mut registry, 1, &[]);
    let snapshots = registry.collect();
    assert_eq!(snapshots.len(), 1);
    match &snapshots[0] {
        MetricSnapshot::Counter {
            description,
            data_points,
            ..
        } => {
            assert_eq!(description, "first");
            assert_eq!(data_points[0].1, 2);
        }
        _ => panic!("expected Counter"),
    }
}

#[test]
fn kinds_are_collected_in_turn() {
    let mut registry = MetricsRegistry::new();
    let h = registry.histogram("x", "", &bits(&[1.0]));
    let g = registry.gauge("x", "");
    let c = registry.counter("x", "");
    h.observe(&mut registry, 0, &[], plus);
    g.set(&mut registry, 0, &[]);
    c.add(&mut registry, 0, &[]);
    let snapshots = registry.collect();
    assert_eq!(snapshots.len(), 3);
    assert!(matches!(snapshots[0], MetricSnapshot::Counter { .. }));
    assert!(matches!(snapshots[1], MetricSnapshot::Gauge { .. }));
    assert!(matches!(snapshots[2], MetricSnapshot::Histogram { .. }));
}

#[test]
fn counter_never_goes_down() {
    let mut registry = MetricsRegistry::new();
    let c = registry.counter("up", "test");
    c.add(&mut registry, 5, &[]);
    assert!(!c.add_fits(&registry, u64::MAX, &[]));
    assert!(!c.add_fits(&registry, 1 << 63, &[]));
    assert!(!c.add_fits(&registry, i64::MAX as u64 - 4, &[]));
    assert!(c.add_fits(&registry, i64::MAX as u64 - 5, &[]));
    assert!(c.add_fits(&registry, i64::MAX as u64, &[("other", "set")]));
    assert!(!c.add_fits(&registry, i64::MAX as u64 + 1, &[("other", "set")]));
    let mut last = 5;
    for value in [0, 1, 1_000_000, 1 << 40, 0, 1 << 62] {
        assert!(c.add_fits(&registry, value, &[]));
        c.add(&mut registry, value, &[]);
        let now = counter_points(&registry.collect()[0])[0].1;
        assert_eq!(now, last + value as i64);
        assert!(now >= last);
        last = now;
    }
}

#[test]
fn attribute_sets_with_one_key_stay_apart() {
    let first = [("a", "1"), ("e", "2")];
    let second = [("a", "2"), ("e", "1")];
    assert_eq!(attrs_hash_unordered(&first), attrs_hash_unordered(&second));

    let mut registry = MetricsRegistry::new();
    let c = registry.counter("c", "");
    let g = registry.gauge("g", "");
    let h = registry.histogram("h", "", &bits(&[10.0]));
    for (attrs, value) in [(&first, 3u64), (&second, 40), (&first, 500)] {
        c.add(&mut registry, value, attrs);
        g.set(&mut registry, (value as f64).to_bits(), attrs);
        h.observe(&mut registry, (value as f64).to_bits(), attrs, plus);
    }

    let owned = |attrs: &[(&str, &str)]| -> Vec<(String, String)> {
        attrs
            .iter()
            .map(|(k, v)| (k.to_string(), v.to_string()))
            .collect()
    };
    let snapshots = registry.collect();
    assert_eq!(
        counter_points(&snapshots[0]),
        vec![(owned(&first), 503), (owned(&second), 40)]
    );
    match &snapshots[1] {
        MetricSnapshot::Gauge { data_points, .. } => {
            assert_eq!(data_points.len(), 2);
            assert_eq!(*data_points[0].0, owned(&first));
            assert_eq!(f64::from_bits(data_points[0].1), 500.0);
            assert_eq!(*data_points[1].0, owned(&second));
            assert_eq!(f64::from_bits(data_points[1].1), 40.0);
        }
        _ => panic!("expected Gauge"),
    }
    match &snapshots[2] {
        MetricSnapshot::Histogram { data_points, .. } => {
            assert_eq!(data_points.len(), 2);
            assert_eq!(*data_points[0].attrs, owned(&first));
            assert_eq!(data_points[0].bucket_counts, vec![1, 1]);
            assert_eq!(f64::from_bits(data_points[0].sum), 503.0);
            assert_eq!(*data_points[1].attrs, owned(&second));
            assert_eq!(data_points[1].bucket_counts, vec![0, 1]);
            assert_eq!(f64::from_bits(data_points[1].sum), 40.0);
        }
        _ => panic!("expected Histogram"),
    }
}

#[test]
fn histogram_counts_what_was_observed() {
    let boundaries: [f64; 4] = [-1.0, 0.0, 2.5, 100.0];
    let values: [f64; 10] = [2.5, -7.0, 0.0, 99.9, 100.0, -1.0, 2.4, 1e9, -0.5, 2.5];
    let mut registry = MetricsRegistry::new();
    let h = registry.histogram("h", "", &bits(&boundaries));
    for (n, value) in values.iter().enumerate() {
        h.observe(&mut registry, value.to_bits(), &[("k", "v")], plus);
        h.observe(&mut registry, 5.0f64.to_bits(), &[("k", "other")], plus);
        let seen = &values[..n + 1];
        match &registry.collect()[0] {
            MetricSnapshot::Histogram { data_points, .. } => {
                assert_eq!(data_points.len(), 2);
                let point = &data_points[0];
                assert_eq!(point.bucket_counts.len(), boundaries.len() + 1);
                for (i, count) in point.bucket_counts.iter().enumerate() {
                    let expected = seen
                        .iter()
                        .filter(|v| i == 0 || boundaries[i - 1] <= **v)
                        .filter(|v| i == boundaries.len() || **v < boundaries[i])
                        .count();
                    assert_eq!(*count, expected as u64);
                }
                assert_eq!(point.count, n as u64 + 1);
                assert_eq!(point.bucket_counts.iter().sum::<u64>(), point.count);
                let least = seen.iter().copied().fold(f64::INFINITY, f64::min);
                let greatest = seen.iter().copied().fold(f64::NEG_INFINITY, f64::max);
                assert_eq!(f64::from_bits(point.min), least);
                assert_eq!(f64::from_bits(point.max), greatest);
                assert_eq!(data_points[1].bucket_counts, vec![0, 0, 0, n as u64 + 1, 0]);
            }
            _ => panic!("expected Histogram"),
        }
    }
}

#[test]
fn boundaries_are_sorted_and_deduplicated() {
    let mut registry = MetricsRegistry::new();
    let h = registry.histogram("b", "", &bits(&[5.0, -1.0, 5.0, 0.0, -0.0, 2.5]));
    h.observe(&mut registry, 3.0f64.to_bits(), &[], plus);
    match &registry.collect()[0] {
        MetricSnapshot::Histogram {
            boundaries,
            data_points,
            ..
        } => {
            let values: Vec<f64> = boundaries.iter().map(|b| f64::from_bits(*b)).collect();
            assert_eq!(values, vec![-1.0, 0.0, 2.5, 5.0]);
            assert_eq!(data_points[0].bucket_counts, vec![0, 0, 0, 1, 0]);
        }
        _ => panic!("expected Histogram"),
    }
}

#[test]
fn observations_agree_with_partition_point() {
    let boundaries = [-5.0, -0.0, 1.0, 2.0, 1e300];
    let values = [
        f64::NEG_INFINITY,
        -5.0,
        -4.9,
        -0.0,
        0.0,
        0.5,
        1.0,
        1.5,
        2.0,
        1e300,
        f64::INFINITY,
        f64::NAN,
        f64::MIN_POSITIVE,
    ];
    for value in values {
        let mut registry = MetricsRegistry::new();
        let h = registry.histogram("p", "", &bits(&boundaries));
        h.observe(&mut registry, value.to_bits(), &[], plus);
        let expected = boundaries.partition_point(|&b| b <= value);
        match &registry.collect()[0] {
            MetricSnapshot::Histogram { data_points, .. } => {
                let dp = &data_points[0];
                assert_eq!(dp.bucket_counts[expected], 1, "{}", value);
                assert_eq!(dp.bucket_counts.iter().sum::<u64>(), 1);
                assert_eq!(dp.count, 1);
                if value.is_nan() {
                    assert_eq!(f64::from_bits(dp.min), f64::INFINITY);
                    assert_eq!(f64::from_bits(dp.max), f64::NEG_INFINITY);
                } else {
                    let lowest = if value < f64::INFINITY { value } else { f64::INFINITY };
                    assert_eq!(f64::from_bits(dp.min), lowest);
                }
            }
            _ => panic!("expected Histogram"),
        }
        assert_eq!(h.count(&registry, &[]), 1);
        assert_eq!(h.count(&registry, &[("a", "b")]), 0);
    }
}

#[test]
fn latest_exemplar_wins() {
    let exemplar = |n: u8| {
        Some(Exemplar {
            trace_id: [n; 16],
            span_id: [n; 8],
            time_unix_nano: n as u64,
            value: ExemplarValue::Double(n as u64),
        })
    };
    let mut registry = MetricsRegistry::new();
    let g = registry.gauge("g", "");
    g.set_with_exemplar(&mut registry, 1, &[], exemplar(1));
    g.set_with_exemplar(&mut registry, 2, &[], exemplar(2));
    g.set_with_exemplar(&mut registry, 3, &[], None);
    match &registry.collect()[0] {
        MetricSnapshot::Gauge { data_points, .. } => {
            assert_eq!(data_points[0].1, 3);
            assert_eq!(data_points[0].2, exemplar(2));
        }
        _ => panic!("expected Gauge"),
    }
}

#[test]
fn exemplars_need_a_trace() {
    let value = ExemplarValue::Int(7);
    assert_eq!(exemplar_from(None, 5, value), None);
    assert_eq!(exemplar_from(Some(([0; 16], [1; 8])), 5, value), None);
    let mut trace_id = [0; 16];
    trace_id[15] = 1;
    assert_eq!(
        exemplar_from(Some((trace_id, [0; 8])), 5, value),
        Some(Exemplar {
            trace_id,
            span_id: [0; 8],
            time_unix_nano: 5,
            value
        })
    );
    assert!(is_zero_id(&[]));
    assert!(is_zero_id(&[0, 0]));
    assert!(!is_zero_id(&[0, 1]));
}

#[test]
fn nearest_context_is_the_innermost() {
    let near = Some(([1; 16], [1; 8]));
    let far = Some(([2; 16], [2; 8]));
    assert_eq!(nearest_context(&[]), None);
    assert_eq!(nearest_context(&[None, None]), None);
    assert_eq!(nearest_context(&[None, near, far]), near);
    assert_eq!(nearest_context(&[far, near]), far);
}

#[test]
fn handles_stay_good() {
    let mut registry = MetricsRegistry::default();
    let first = registry.counter("first", "");
    first.add(&mut registry, 1, &[]);
    for n in 0..20 {
        let other = registry.counter(&format!("other{}", n), "");
        other.add(&mut registry, 100, &[]);
        registry.collect();
    }
    first.add(&mut registry, 1, &[]);
    let snapshots = registry.collect();
    assert_eq!(snapshots.len(), 21);
    assert_eq!(counter_points(&snapshots[0]), vec![(vec![], 2)]);
    assert_eq!(counter_points(&snapshots[20]), vec![(vec![], 100)]);
}

#[test]
fn increments_commute() {
    let orders = [[3u64, 10, 1 << 40], [1 << 40, 3, 10], [10, 1 << 40, 3]];
    for order in orders {
        let mut registry = MetricsRegistry::new();
        let c = registry.counter("c", "");
        for value in order {
            c.add(&mut registry, value, &[("k", "v")]);
        }
        assert_eq!(counter_points(&registry.collect()[0])[0].1, (1 << 40) + 13);
    }
}

#[test]
fn known_histograms_are_found() {
    let mut registry = MetricsRegistry::new();
    assert!(!registry.has_histogram("h"));
    let h = registry.histogram("h", "first", &bits(&[1.0]));
    assert!(registry.has_histogram("h"));
    // The boundaries of the first call stay.
    let again = registry.histogram("h", "second", &bits(&[9.0, 99.0]));
    h.observe(&mut registry, 5.0f64.to_bits(), &[], plus);
    again.observe(&mut registry, 0.5f64.to_bits(), &[], plus);
    match &registry.collect()[0] {
        MetricSnapshot::Histogram {
            description,
            boundaries,
            data_points,
            ..
        } => {
            assert_eq!(description, "first");
            assert_eq!(boundaries, &bits(&[1.0]));
            assert_eq!(data_points[0].bucket_counts, vec![1, 1]);
        }
        _ => panic!("expected Histogram"),
    }
}

#[test]
fn increments_that_do_not_fit_change_nothing() {
    let exemplar = exemplar_from(Some(([1; 16], [2; 8])), 7, ExemplarValue::Int(-1));
    let mut registry = MetricsRegistry::new();
    let c = registry.counter("c", "");
    assert!(!c.add_if_fits(&mut registry, u64::MAX, &[("k", "v")], exemplar));
    assert!(registry.collect().is_empty());
    assert!(c.add_if_fits(&mut registry, 5, &[("k", "v")], None));
    for value in [u64::MAX, 1 << 63, i64::MAX as u64, i64::MAX as u64 - 4] {
        assert!(!c.add_if_fits(&mut registry, value, &[("k", "v")], exemplar));
        assert_eq!(counter_points(&registry.collect()[0])[0].1, 5);
    }
    assert!(c.add_if_fits(&mut registry, i64::MAX as u64 - 5, &[("k", "v")], None));
    match &registry.collect()[0] {
        MetricSnapshot::Counter { data_points, .. } => {
            assert_eq!(data_points[0].1, i64::MAX);
            assert_eq!(data_points[0].2, None);
        }
        _ => panic!("expected Counter"),
    }
}

#[test]
fn boundaries_with_nan() {
    let nan = f64::NAN;
    let other = f64::from_bits(f64::NAN.to_bits() + 1);
    let sorted = |given: &[f64]| normalize_boundaries(&bits(given));
    for given in [
        &[nan][..],
        &[other, nan, other],
        &[2.0, nan],
        &[0.0, nan, other],
    ] {
        assert!(is_sortable(&bits(given)));
        assert_eq!(sorted(given), bits(given));
    }
    assert_eq!(sorted(&[-0.0, 0.0, -0.0, nan]), bits(&[-0.0, nan]));
    assert!(is_sortable(&bits(&[])));
    assert!(is_sortable(&bits(&[3.0, 1.0, 2.0])));
    assert!(!is_sortable(&bits(&[nan, 1.0])));
    assert!(!is_sortable(&bits(&[1.0, 2.0, nan])));
    assert!(!is_sortable(&bits(&[1.0, nan, 1.0])));

    let mut registry = MetricsRegistry::new();
    let h = registry.histogram("h", "", &bits(&[2.0, nan]));
    for value in [1.0, 2.0, 1e300, nan] {
        h.observe(&mut registry, f64::to_bits(value), &[], plus);
    }
    match &registry.collect()[0] {
        MetricSnapshot::Histogram { data_points, .. } => {
            assert_eq!(data_points[0].bucket_counts, vec![2, 2, 0]);
        }
        _ => panic!("expected Histogram"),
    }
}

#[test]
fn sums_add_up_in_order() {
    // In this order the small values are lost one by one; the other way round they would not be.
    let values: [f64; 4] = [1e16, 1.0, 1.0, -3.0];
    let mut registry = MetricsRegistry::new();
    let h = registry.histogram("h", "", &bits(&[0.0]));
    let mut sum = 0.0;
    for value in values {
        h.observe(&mut registry, value.to_bits(), &[("k", "v")], plus);
        h.observe(&mut registry, 0.5f64.to_bits(), &[("k", "other")], plus);
        sum += value;
        match &registry.collect()[0] {
            MetricSnapshot::Histogram { data_points, .. } => {
                assert_eq!(f64::from_bits(data_points[0].sum), sum);
            }
            _ => panic!("expected Histogram"),
        }
    }
    assert_ne!(sum, -3.0 + 1.0 + 1.0 + 1e16);
}

#[test]
fn exemplars_of_the_nearest_span() {
    let near = ([1; 16], [2; 8]);
    let far = ([3; 16], [4; 8]);
    let value = ExemplarValue::Int(9);
    let linked = |scope: &[Option<_>]| exemplar_in(scope, 5, value).map(|e| e.span_id);
    assert_eq!(linked(&[]), None);
    assert_eq!(linked(&[None, None]), None);
    assert_eq!(linked(&[None, Some(near), Some(far)]), Some([2; 8]));
    assert_eq!(linked(&[Some(far), Some(near)]), Some([4; 8]));
    assert_eq!(linked(&[Some(([0; 16], [2; 8])), Some(far)]), None);
    let exemplar = exemplar_in(&[Some(near)], 5, value).unwrap();
    assert_eq!(exemplar.trace_id, [1; 16]);
    assert_eq!(exemplar.time_unix_nano, 5);
    assert_eq!(exemplar.value, value);
}
