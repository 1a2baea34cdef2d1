//! What a measurement does to the data points, and what a collection says of them, point by point.

use vstd::prelude::*;

use crate::attrs::{attrs_view, owned_view, sorted_attrs, AttrView};
use crate::exemplar::Exemplar;
use crate::histogram::{bucket_of, observed, HistogramState};
use crate::metrics::{
    after_collect, cleared, collected, counter_added, counter_fits, counter_snapshot, counter_value,
    gauge_set, gauge_snapshot, histogram_observed, histogram_snapshot, histogram_value, in_use,
    opened, sound_counter, valid, Metric, RegistryView,
};
use crate::series::{distinct_attrs, has_point, lemma_position, position, recorded, Series};
use crate::snapshot::{snapshots_view, MetricSnapshot, SnapshotView};

verus! {

// --- Views ---

/// Attributes stand for their keys and values in order, borrowed or owned.
pub proof fn law_attrs_view(borrowed: Seq<(&str, &str)>, owned: Seq<(String, String)>)
    ensures
        attrs_view(borrowed).len() == borrowed.len(),
        forall|i: int|
            0 <= i < borrowed.len() ==> (#[trigger] attrs_view(borrowed)[i]).0 == borrowed[i].0@
                && attrs_view(borrowed)[i].1 == borrowed[i].1@,
        owned_view(owned).len() == owned.len(),
        forall|i: int|
            0 <= i < owned.len() ==> (#[trigger] owned_view(owned)[i]).0 == owned[i].0@
                && owned_view(owned)[i].1 == owned[i].1@,
{
}

/// A snapshot stands for its name, its description and its data points in order, each with its
/// attributes, its value and its exemplar.
pub proof fn law_snapshot_view(snapshots: Seq<MetricSnapshot>, i: int, j: int)
    requires
        0 <= i < snapshots.len(),
    ensures
        snapshots_view(snapshots).len() == snapshots.len(),
        snapshots[i] matches MetricSnapshot::Counter { name, description, data_points } ==> {
            &&& snapshots_view(snapshots)[i] matches SnapshotView::Counter {
                name: n,
                description: d,
                points,
            }
            &&& n == name@ && d == description@ && points.len() == data_points@.len()
            &&& 0 <= j < points.len() ==> points[j].attrs == owned_view(data_points@[j].0@)
                && points[j].value == data_points@[j].1 && points[j].exemplar == data_points@[j].2
        },
        snapshots[i] matches MetricSnapshot::Gauge { name, description, data_points } ==> {
            &&& snapshots_view(snapshots)[i] matches SnapshotView::Gauge {
                name: n,
                description: d,
                points,
            }
            &&& n == name@ && d == description@ && points.len() == data_points@.len()
            &&& 0 <= j < points.len() ==> points[j].attrs == owned_view(data_points@[j].0@)
                && points[j].value == data_points@[j].1 && points[j].exemplar == data_points@[j].2
        },
        snapshots[i] matches MetricSnapshot::Histogram {
            name,
            description,
            boundaries,
            data_points,
        } ==> {
            &&& snapshots_view(snapshots)[i] matches SnapshotView::Histogram {
                name: n,
                description: d,
                boundaries: b,
                points,
            }
            &&& n == name@ && d == description@ && b == boundaries@ && points.len()
                == data_points@.len()
            &&& 0 <= j < points.len() ==> {
                let point = data_points@[j];
                &&& points[j].attrs == owned_view(point.attrs@)
                &&& points[j].value.bucket_counts == point.bucket_counts@
                &&& points[j].value.sum == point.sum
                &&& points[j].value.count == point.count
                &&& points[j].value.min == point.min
                &&& points[j].value.max == point.max
                &&& points[j].exemplar == point.exemplar
            }
        },
{
}

/// The state of a histogram data point stands for all that it holds.
pub proof fn law_state_view(state: HistogramState)
    ensures
        state@.bucket_counts == state.bucket_counts@,
        state@.sum == state.sum,
        state@.count == state.count,
        state@.min == state.min,
        state@.max == state.max,
{
}

// --- Instruments ---

/// An instrument that is asked for the first time is added behind the others, under the name, with
/// the description and the boundaries that were given, and without data. The others stay.
pub proof fn law_opened<V>(
    metrics: Seq<Metric<V>>,
    name: Seq<char>,
    description: Seq<char>,
    boundaries: Seq<u64>,
)
    ensures
        ({
            let after = opened(metrics, name, description, boundaries);
            let known = exists|i: int| 0 <= i < metrics.len() && (#[trigger] metrics[i]).name == name;
            &&& known ==> after == metrics
            &&& !known ==> after.len() == metrics.len() + 1 && after.last().name == name
                && after.last().description == description && after.last().boundaries == boundaries
                && after.last().series.len() == 0
            &&& forall|i: int| 0 <= i < metrics.len() ==> #[trigger] after[i] == metrics[i]
        }),
{
}

// --- Measurements ---

/// A measurement brings one data point to the new value: the one with exactly its attributes, or a
/// new one behind the others where none has them. A captured exemplar is the data point's from then
/// on; without one it keeps the exemplar it had. Every other data point stays as it was.
pub proof fn law_recorded_points<V>(
    series: Seq<Series<V>>,
    attrs: Seq<AttrView>,
    value: V,
    exemplar: Option<Exemplar>,
) -> (at: int)
    requires
        distinct_attrs(series),
    ensures
        ({
            let after = recorded(series, attrs, value, exemplar);
            &&& 0 <= at < after.len()
            &&& after[at].attrs == sorted_attrs(attrs)
            &&& after[at].value == value
            &&& exemplar is Some ==> after[at].exemplar == exemplar
            &&& exemplar is None && at < series.len() ==> after[at].exemplar == series[at].exemplar
            &&& exemplar is None && at == series.len() ==> after[at].exemplar is None
            &&& at < series.len() ==> series[at].attrs == sorted_attrs(attrs) && after.len()
                == series.len()
            &&& at >= series.len() ==> at == series.len() && after.len() == series.len() + 1
                && forall|i: int|
                0 <= i < series.len() ==> (#[trigger] series[i]).attrs != sorted_attrs(attrs)
            &&& forall|i: int| 0 <= i < series.len() && i != at ==> #[trigger] after[i] == series[i]
        }),
{
    if has_point(series, sorted_attrs(attrs)) {
        position(series, sorted_attrs(attrs))
    } else {
        series.len() as int
    }
}

/// An increment adds its value to the data point of the counter with its attributes, which starts
/// at zero, and sets its exemplar. It touches no other data point, no other counter, no gauge and
/// no histogram.
pub proof fn law_counter_point(
    registry: RegistryView,
    id: nat,
    value: u64,
    attrs: Seq<AttrView>,
    exemplar: Option<Exemplar>,
) -> (at: int)
    requires
        valid(registry),
        id < registry.counters.len(),
        counter_fits(registry, id, value, attrs),
    ensures
        ({
            let after = counter_added(registry, id, value, attrs, exemplar);
            let old_series = registry.counters[id as int].series;
            let new_series = after.counters[id as int].series;
            &&& after.gauges == registry.gauges && after.histograms == registry.histograms
            &&& after.counters.len() == registry.counters.len()
            &&& forall|i: int|
                0 <= i < registry.counters.len() && i != id ==> #[trigger] after.counters[i]
                    == registry.counters[i]
            &&& after.counters[id as int].name == registry.counters[id as int].name
            &&& after.counters[id as int].description == registry.counters[id as int].description
            &&& 0 <= at < new_series.len()
            &&& new_series[at].attrs == sorted_attrs(attrs)
            &&& at < old_series.len() ==> old_series[at].attrs == sorted_attrs(attrs)
                && new_series[at].value == old_series[at].value + value
            &&& at >= old_series.len() ==> at == old_series.len() && new_series[at].value == value
                && forall|i: int|
                0 <= i < old_series.len() ==> (#[trigger] old_series[i]).attrs != sorted_attrs(attrs)
            &&& exemplar is Some ==> new_series[at].exemplar == exemplar
            &&& exemplar is None && at < old_series.len() ==> new_series[at].exemplar
                == old_series[at].exemplar
            &&& forall|i: int|
                0 <= i < old_series.len() && i != at ==> #[trigger] new_series[i] == old_series[i]
        }),
{
    let old_series = registry.counters[id as int].series;
    assert(distinct_attrs(old_series));
    let new = (counter_value(registry, id, attrs) + value) as i64;
    let at = law_recorded_points(old_series, attrs, new, exemplar);
    assert(sound_counter(registry.counters[id as int]));
    if at < old_series.len() {
        lemma_position(old_series, at);
    }
    at
}

/// Setting a gauge brings its data point with the attributes to the value, and sets its exemplar.
/// It touches no other data point, no other gauge, no counter and no histogram.
pub proof fn law_gauge_point(
    registry: RegistryView,
    id: nat,
    value: u64,
    attrs: Seq<AttrView>,
    exemplar: Option<Exemplar>,
) -> (at: int)
    requires
        valid(registry),
        id < registry.gauges.len(),
    ensures
        ({
            let after = gauge_set(registry, id, value, attrs, exemplar);
            let old_series = registry.gauges[id as int].series;
            let new_series = after.gauges[id as int].series;
            &&& after.counters == registry.counters && after.histograms == registry.histograms
            &&& after.gauges.len() == registry.gauges.len()
            &&& forall|i: int|
                0 <= i < registry.gauges.len() && i != id ==> #[trigger] after.gauges[i]
                    == registry.gauges[i]
            &&& after.gauges[id as int].name == registry.gauges[id as int].name
            &&& after.gauges[id as int].description == registry.gauges[id as int].description
            &&& 0 <= at < new_series.len()
            &&& new_series[at].attrs == sorted_attrs(attrs)
            &&& new_series[at].value == value
            &&& at < old_series.len() ==> old_series[at].attrs == sorted_attrs(attrs)
            &&& at >= old_series.len() ==> at == old_series.len() && forall|i: int|
                0 <= i < old_series.len() ==> (#[trigger] old_series[i]).attrs != sorted_attrs(attrs)
            &&& exemplar is Some ==> new_series[at].exemplar == exemplar
            &&& exemplar is None && at < old_series.len() ==> new_series[at].exemplar
                == old_series[at].exemplar
            &&& forall|i: int|
                0 <= i < old_series.len() && i != at ==> #[trigger] new_series[i] == old_series[i]
        }),
{
    let old_series = registry.gauges[id as int].series;
    assert(distinct_attrs(old_series));
    law_recorded_points(old_series, attrs, value, exemplar)
}

/// An observation counts in the data point of the histogram with its attributes: one more in all,
/// the new sum, the bounds no narrower, and its exemplar. It touches no other data point, no other
/// histogram, no counter and no gauge.
pub proof fn law_histogram_point(
    registry: RegistryView,
    id: nat,
    value: u64,
    attrs: Seq<AttrView>,
    sum: u64,
    exemplar: Option<Exemplar>,
) -> (at: int)
    requires
        valid(registry),
        id < registry.histograms.len(),
        histogram_value(registry, id, attrs).count < u64::MAX,
    ensures
        ({
            let after = histogram_observed(registry, id, value, attrs, sum, exemplar);
            let old_series = registry.histograms[id as int].series;
            let new_series = after.histograms[id as int].series;
            &&& after.counters == registry.counters && after.gauges == registry.gauges
            &&& after.histograms.len() == registry.histograms.len()
            &&& forall|i: int|
                0 <= i < registry.histograms.len() && i != id ==> #[trigger] after.histograms[i]
                    == registry.histograms[i]
            &&& after.histograms[id as int].name == registry.histograms[id as int].name
            &&& after.histograms[id as int].description
                == registry.histograms[id as int].description
            &&& after.histograms[id as int].boundaries == registry.histograms[id as int].boundaries
            &&& 0 <= at < new_series.len()
            &&& new_series[at].attrs == sorted_attrs(attrs)
            &&& new_series[at].value.sum == sum
            &&& at < old_series.len() ==> old_series[at].attrs == sorted_attrs(attrs)
                && new_series[at].value.count == old_series[at].value.count + 1
            &&& at >= old_series.len() ==> at == old_series.len() && new_series[at].value.count == 1
                && forall|i: int|
                0 <= i < old_series.len() ==> (#[trigger] old_series[i]).attrs != sorted_attrs(attrs)
            &&& exemplar is Some ==> new_series[at].exemplar == exemplar
            &&& exemplar is None && at < old_series.len() ==> new_series[at].exemplar
                == old_series[at].exemplar
            &&& forall|i: int|
                0 <= i < old_series.len() && i != at ==> #[trigger] new_series[i] == old_series[i]
        }),
{
    let old_series = registry.histograms[id as int].series;
    assert(distinct_attrs(old_series));
    let new = observed(
        histogram_value(registry, id, attrs),
        bucket_of(registry.histograms[id as int].boundaries, value),
        value,
        sum,
    );
    let at = law_recorded_points(old_series, attrs, new, exemplar);
    if at < old_series.len() {
        lemma_position(old_series, at);
    }
    at
}

// --- Collection ---

/// Every instrument with data is in the list of those in use, and nothing else is.
proof fn lemma_in_use<V>(metrics: Seq<Metric<V>>)
    ensures
        forall|i: int|
            0 <= i < metrics.len() && (#[trigger] metrics[i]).series.len() > 0 ==> in_use(
                metrics,
            ).contains(metrics[i]),
        forall|k: int|
            0 <= k < in_use(metrics).len() ==> metrics.contains(#[trigger] in_use(metrics)[k])
                && in_use(metrics)[k].series.len() > 0,
    decreases metrics.len(),
{
    reveal(Seq::filter);
    if metrics.len() > 0 {
        let rest = metrics.drop_last();
        let last = metrics.last();
        lemma_in_use(rest);
        assert forall|i: int|
            0 <= i < metrics.len() && (#[trigger] metrics[i]).series.len() > 0 implies in_use(
            metrics,
        ).contains(metrics[i]) by {
            if i < rest.len() {
                assert(rest[i].series.len() > 0);
                let k = choose|k: int|
                    0 <= k < in_use(rest).len() && in_use(rest)[k] == metrics[i];
                assert(in_use(metrics)[k] == metrics[i]);
            } else {
                assert(in_use(metrics).last() == last);
                assert(in_use(metrics)[in_use(metrics).len() - 1] == last);
            }
        }
        assert forall|k: int| 0 <= k < in_use(metrics).len() implies metrics.contains(
            #[trigger] in_use(metrics)[k],
        ) && in_use(metrics)[k].series.len() > 0 by {
            if k < in_use(rest).len() {
                assert(in_use(rest)[k] == in_use(metrics)[k]);
                let i = choose|i: int| 0 <= i < rest.len() && rest[i] == in_use(rest)[k];
                assert(metrics[i] == in_use(metrics)[k]);
            } else {
                assert(metrics[metrics.len() - 1] == last);
            }
        }
    }
}

/// A collection reports every counter that has data: its name, its description, and each of its
/// data points in order, with its attributes, the value that the counter holds and its exemplar.
pub proof fn law_counter_collected(registry: RegistryView, i: int) -> (k: int)
    requires
        0 <= i < registry.counters.len(),
        registry.counters[i].series.len() > 0,
    ensures
        0 <= k < collected(registry).len(),
        collected(registry)[k] matches SnapshotView::Counter { name, description, points } && {
            let held = registry.counters[i];
            &&& name == held.name
            &&& description == held.description
            &&& points.len() == held.series.len()
            &&& forall|j: int|
                0 <= j < held.series.len() ==> (#[trigger] points[j]).attrs == held.series[j].attrs
                    && points[j].value == held.series[j].value && points[j].exemplar
                    == held.series[j].exemplar
        },
{
    lemma_in_use(registry.counters);
    let used = in_use(registry.counters);
    let k = choose|k: int| 0 <= k < used.len() && used[k] == registry.counters[i];
    assert(collected(registry)[k] == counter_snapshot(used[k]));
    k
}

/// A collection reports every gauge that has data: its name, its description, and each of its data
/// points in order, with its attributes, its last value and its exemplar.
pub proof fn law_gauge_collected(registry: RegistryView, i: int) -> (k: int)
    requires
        0 <= i < registry.gauges.len(),
        registry.gauges[i].series.len() > 0,
    ensures
        0 <= k < collected(registry).len(),
        collected(registry)[k] matches SnapshotView::Gauge { name, description, points } && {
            let held = registry.gauges[i];
            &&& name == held.name
            &&& description == held.description
            &&& points.len() == held.series.len()
            &&& forall|j: int|
                0 <= j < held.series.len() ==> (#[trigger] points[j]).attrs == held.series[j].attrs
                    && points[j].value == held.series[j].value && points[j].exemplar
                    == held.series[j].exemplar
        },
{
    lemma_in_use(registry.gauges);
    let used = in_use(registry.gauges);
    let n = choose|n: int| 0 <= n < used.len() && used[n] == registry.gauges[i];
    let k = in_use(registry.counters).len() + n;
    assert(collected(registry)[k] == gauge_snapshot(used[n]));
    k
}

/// A collection reports every histogram that has data: its name, its description, its boundaries,
/// and each of its data points in order, with its attributes, its buckets, sum, count and bounds,
/// and its exemplar.
pub proof fn law_histogram_collected(registry: RegistryView, i: int) -> (k: int)
    requires
        0 <= i < registry.histograms.len(),
        registry.histograms[i].series.len() > 0,
    ensures
        0 <= k < collected(registry).len(),
        collected(registry)[k] matches SnapshotView::Histogram {
            name,
            description,
            boundaries,
            points,
        } && {
            let held = registry.histograms[i];
            &&& name == held.name
            &&& description == held.description
            &&& boundaries == held.boundaries
            &&& points.len() == held.series.len()
            &&& forall|j: int|
                0 <= j < held.series.len() ==> (#[trigger] points[j]).attrs == held.series[j].attrs
                    && points[j].value == held.series[j].value && points[j].exemplar
                    == held.series[j].exemplar
        },
{
    lemma_in_use(registry.histograms);
    let used = in_use(registry.histograms);
    let n = choose|n: int| 0 <= n < used.len() && used[n] == registry.histograms[i];
    let k = in_use(registry.counters).len() + in_use(registry.gauges).len() + n;
    assert(collected(registry)[k] == histogram_snapshot(used[n]));
    k
}

/// A collection reports nothing but instruments that have data, counters before gauges before
/// histograms.
pub proof fn law_only_data_collected(registry: RegistryView, k: int)
    requires
        0 <= k < collected(registry).len(),
    ensures
        collected(registry)[k] matches SnapshotView::Counter { name, points, .. } ==> points.len()
            > 0 && exists|i: int|
            0 <= i < registry.counters.len() && (#[trigger] registry.counters[i]).name == name,
        collected(registry)[k] matches SnapshotView::Gauge { name, points, .. } ==> points.len() > 0
            && exists|i: int|
            0 <= i < registry.gauges.len() && (#[trigger] registry.gauges[i]).name == name,
        collected(registry)[k] matches SnapshotView::Histogram { name, points, .. } ==> points.len()
            > 0 && exists|i: int|
            0 <= i < registry.histograms.len() && (#[trigger] registry.histograms[i]).name == name,
        forall|j: int|
            k <= j < collected(registry).len() && collected(registry)[k] is Histogram ==> (
            #[trigger] collected(registry)[j]) is Histogram,
        forall|j: int|
            0 <= j <= k && collected(registry)[k] is Counter ==> (#[trigger] collected(
                registry,
            )[j]) is Counter,
{
    lemma_in_use(registry.counters);
    lemma_in_use(registry.gauges);
    lemma_in_use(registry.histograms);
    let counters = in_use(registry.counters);
    let gauges = in_use(registry.gauges);
    let histograms = in_use(registry.histograms);
    let all = collected(registry);
    assert forall|j: int| 0 <= j < counters.len() implies #[trigger] all[j]
        == counter_snapshot(counters[j]) by {}
    assert forall|j: int|
        counters.len() <= j < counters.len() + gauges.len() implies #[trigger] all[j]
        == gauge_snapshot(gauges[j - counters.len()]) by {}
    assert forall|j: int|
        counters.len() + gauges.len() <= j < all.len() implies #[trigger] all[j]
        == histogram_snapshot(
        histograms[j - counters.len() - gauges.len()],
    ) by {}
    if k < counters.len() {
        assert(registry.counters.contains(counters[k]));
    } else if k < counters.len() + gauges.len() {
        assert(registry.gauges.contains(gauges[k - counters.len()]));
    } else {
        assert(registry.histograms.contains(histograms[k - counters.len() - gauges.len()]));
    }
}

proof fn lemma_in_use_distinct<V>(metrics: Seq<Metric<V>>)
    requires
        forall|i: int, j: int|
            0 <= i < j < metrics.len() ==> (#[trigger] metrics[i]).name != (
            #[trigger] metrics[j]).name,
    ensures
        in_use(metrics).len() <= metrics.len(),
        forall|i: int, j: int|
            0 <= i < j < in_use(metrics).len() ==> (#[trigger] in_use(metrics)[i]).name != (
            #[trigger] in_use(metrics)[j]).name,
    decreases metrics.len(),
{
    reveal(Seq::filter);
    if metrics.len() > 0 {
        let rest = metrics.drop_last();
        assert forall|i: int, j: int| 0 <= i < j < rest.len() implies (#[trigger] rest[i]).name != (
        #[trigger] rest[j]).name by {
            assert(metrics[i].name != metrics[j].name);
        }
        lemma_in_use_distinct(rest);
        lemma_in_use(rest);
        assert forall|i: int, j: int| 0 <= i < j < in_use(metrics).len() implies (#[trigger] in_use(
            metrics,
        )[i]).name != (#[trigger] in_use(metrics)[j]).name by {
            assert(in_use(metrics)[i] == in_use(rest)[i]);
            if j < in_use(rest).len() {
                assert(in_use(metrics)[j] == in_use(rest)[j]);
            } else {
                assert(rest.contains(in_use(rest)[i]));
                let n = choose|n: int| 0 <= n < rest.len() && rest[n] == in_use(rest)[i];
                assert(metrics[n].name != metrics[metrics.len() - 1].name);
            }
        }
    }
}

/// A collection reports every instrument once: no two snapshots of one kind have the same name.
pub proof fn law_collected_once(registry: RegistryView, k: int, l: int)
    requires
        valid(registry),
        0 <= k < l < collected(registry).len(),
    ensures
        collected(registry)[k] matches SnapshotView::Counter { name: a, .. } ==> (collected(
            registry,
        )[l] matches SnapshotView::Counter { name: b, .. } ==> a != b),
        collected(registry)[k] matches SnapshotView::Gauge { name: a, .. } ==> (collected(
            registry,
        )[l] matches SnapshotView::Gauge { name: b, .. } ==> a != b),
        collected(registry)[k] matches SnapshotView::Histogram { name: a, .. } ==> (collected(
            registry,
        )[l] matches SnapshotView::Histogram { name: b, .. } ==> a != b),
{
    lemma_in_use_distinct(registry.counters);
    lemma_in_use_distinct(registry.gauges);
    lemma_in_use_distinct(registry.histograms);
    let counters = in_use(registry.counters);
    let gauges = in_use(registry.gauges);
    let histograms = in_use(registry.histograms);
    let all = collected(registry);
    assert forall|j: int| 0 <= j < counters.len() implies #[trigger] all[j] == counter_snapshot(
        counters[j],
    ) by {}
    assert forall|j: int|
        counters.len() <= j < counters.len() + gauges.len() implies #[trigger] all[j]
        == gauge_snapshot(gauges[j - counters.len()]) by {}
    assert forall|j: int|
        counters.len() + gauges.len() <= j < all.len() implies #[trigger] all[j]
        == histogram_snapshot(histograms[j - counters.len() - gauges.len()]) by {}
    if l < counters.len() {
        assert(counters[k].name != counters[l].name);
    } else if k >= counters.len() && l < counters.len() + gauges.len() {
        assert(gauges[k - counters.len()].name != gauges[l - counters.len()].name);
    } else if k >= counters.len() + gauges.len() {
        assert(histograms[k - counters.len() - gauges.len()].name != histograms[l - counters.len()
            - gauges.len()].name);
    }
}

/// A collection changes nothing of an instrument but the exemplars, which it takes: its name, its
/// description, its boundaries, and the attributes and value of each data point stay.
pub proof fn law_collect_leaves<V>(metrics: Seq<Metric<V>>, i: int)
    requires
        0 <= i < metrics.len(),
    ensures
        cleared(metrics).len() == metrics.len(),
        cleared(metrics)[i].name == metrics[i].name,
        cleared(metrics)[i].description == metrics[i].description,
        cleared(metrics)[i].boundaries == metrics[i].boundaries,
        cleared(metrics)[i].series.len() == metrics[i].series.len(),
        forall|j: int|
            0 <= j < metrics[i].series.len() ==> (#[trigger] cleared(metrics)[i].series[j]).attrs
                == metrics[i].series[j].attrs && cleared(metrics)[i].series[j].value
                == metrics[i].series[j].value && cleared(metrics)[i].series[j].exemplar is None,
{
}

/// A collection leaves the instruments of every kind, and only takes their exemplars.
pub proof fn law_collect_leaves_all(registry: RegistryView)
    ensures
        after_collect(registry).counters == cleared(registry.counters),
        after_collect(registry).gauges == cleared(registry.gauges),
        after_collect(registry).histograms == cleared(registry.histograms),
{
}

// --- What is held ---

/// What a counter, or a histogram, holds under attributes is the value of the data point that has
/// exactly them; zero, or nothing seen, where none has.
pub proof fn law_held_values(registry: RegistryView, id: nat, attrs: Seq<AttrView>, j: int)
    requires
        valid(registry),
    ensures
        id < registry.counters.len() && 0 <= j < registry.counters[id as int].series.len()
            && registry.counters[id as int].series[j].attrs == sorted_attrs(attrs) ==> counter_value(
            registry,
            id,
            attrs,
        ) == registry.counters[id as int].series[j].value,
        id < registry.counters.len() && (forall|k: int|
            0 <= k < registry.counters[id as int].series.len() ==> (
            #[trigger] registry.counters[id as int].series[k]).attrs != sorted_attrs(attrs))
            ==> counter_value(registry, id, attrs) == 0,
        id < registry.histograms.len() && 0 <= j < registry.histograms[id as int].series.len()
            && registry.histograms[id as int].series[j].attrs == sorted_attrs(attrs)
            ==> histogram_value(registry, id, attrs)
            == registry.histograms[id as int].series[j].value,
        id < registry.histograms.len() && (forall|k: int|
            0 <= k < registry.histograms[id as int].series.len() ==> (
            #[trigger] registry.histograms[id as int].series[k]).attrs != sorted_attrs(attrs))
            ==> histogram_value(registry, id, attrs).count == 0,
{
    if id < registry.counters.len() && 0 <= j < registry.counters[id as int].series.len() {
        assert(distinct_attrs(registry.counters[id as int].series));
        lemma_position(registry.counters[id as int].series, j);
    }
    if id < registry.histograms.len() && 0 <= j < registry.histograms[id as int].series.len() {
        assert(distinct_attrs(registry.histograms[id as int].series));
        lemma_position(registry.histograms[id as int].series, j);
    }
}

/// An increment fits exactly if what the counter holds and the increment together do.
pub proof fn law_counter_fits(registry: RegistryView, id: nat, value: u64, attrs: Seq<AttrView>)
    ensures
        counter_fits(registry, id, value, attrs) <==> counter_value(registry, id, attrs) + value
            <= 0x7fff_ffff_ffff_ffff,
{
}

} // verus!
