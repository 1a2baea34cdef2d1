//! What holds of the metrics as a whole, whatever is measured and in whatever order.

use vstd::prelude::*;

use crate::attrs::{sorted_attrs, AttrView};
use crate::exemplar::Exemplar;
use crate::histogram::{bucket_of, observed, total, unobserved, HistogramValue};
use crate::metrics::{
    after_collect, cleared, cleared_metric, collected, counter_added, counter_fits, counter_offered,
    counter_snapshot, counter_value, distinct, gauge_set, gauge_snapshot, has_name,
    histogram_observed, histogram_snapshot, histogram_value, in_use, lemma_measured_distinct,
    measured, opened, sound_histogram, valid, Metric, RegistryView,
};
use crate::series::{
    distinct_attrs, has_point, law_recorded_order, law_recorded_value, lemma_position, position,
    recorded, value_or, Series,
};
use crate::snapshot::{points_of, without_exemplars, PointView, SnapshotView};

verus! {

// --- Instruments ---

/// Asking again for an instrument by its name changes nothing: the description and the boundaries
/// of the first call stay.
pub proof fn law_first_call_creates<V>(
    metrics: Seq<Metric<V>>,
    name: Seq<char>,
    description: Seq<char>,
    boundaries: Seq<u64>,
    description_again: Seq<char>,
    boundaries_again: Seq<u64>,
)
    ensures
        ({
            let once = opened(metrics, name, description, boundaries);
            opened(once, name, description_again, boundaries_again) == once
        }),
{
    let once = opened(metrics, name, description, boundaries);
    if !has_name(metrics, name) {
        assert(once[metrics.len() as int].name == name);
    }
}

/// A name stands for one instrument: two handles of one kind with the same name are one.
pub proof fn law_name_identifies(registry: RegistryView, i: int, j: int)
    requires
        valid(registry),
    ensures
        0 <= i < registry.counters.len() && 0 <= j < registry.counters.len()
            && registry.counters[i].name == registry.counters[j].name ==> i == j,
        0 <= i < registry.gauges.len() && 0 <= j < registry.gauges.len()
            && registry.gauges[i].name == registry.gauges[j].name ==> i == j,
        0 <= i < registry.histograms.len() && 0 <= j < registry.histograms.len()
            && registry.histograms[i].name == registry.histograms[j].name ==> i == j,
{
}

/// Nothing that is done to a registry moves an instrument: a handle stays good.
pub proof fn law_instruments_stay<V>(
    metrics: Seq<Metric<V>>,
    i: int,
    name: Seq<char>,
    description: Seq<char>,
    boundaries: Seq<u64>,
    slot: int,
    attrs: Seq<AttrView>,
    value: V,
    exemplar: Option<Exemplar>,
)
    requires
        0 <= i < metrics.len(),
        0 <= slot < metrics.len(),
    ensures
        i < opened(metrics, name, description, boundaries).len(),
        opened(metrics, name, description, boundaries)[i] == metrics[i],
        i < measured(metrics, slot, attrs, value, exemplar).len(),
        measured(metrics, slot, attrs, value, exemplar)[i].name == metrics[i].name,
        measured(metrics, slot, attrs, value, exemplar)[i].description == metrics[i].description,
        measured(metrics, slot, attrs, value, exemplar)[i].boundaries == metrics[i].boundaries,
        i != slot ==> measured(metrics, slot, attrs, value, exemplar)[i] == metrics[i],
        i < cleared(metrics).len(),
        cleared(metrics)[i].name == metrics[i].name,
        cleared(metrics)[i].description == metrics[i].description,
        cleared(metrics)[i].boundaries == metrics[i].boundaries,
{
}

// --- Attribute order ---

/// Attribute order does not matter: the same pairs in another order aggregate to the same data
/// point, whichever instrument measures.
pub proof fn law_attribute_order(
    registry: RegistryView,
    id: nat,
    value: u64,
    a: Seq<AttrView>,
    b: Seq<AttrView>,
    sum: u64,
    exemplar: Option<Exemplar>,
)
    requires
        a.to_multiset() == b.to_multiset(),
    ensures
        counter_value(registry, id, a) == counter_value(registry, id, b),
        counter_added(registry, id, value, a, exemplar) == counter_added(
            registry,
            id,
            value,
            b,
            exemplar,
        ),
        gauge_set(registry, id, value, a, exemplar) == gauge_set(registry, id, value, b, exemplar),
        histogram_value(registry, id, a) == histogram_value(registry, id, b),
        histogram_observed(registry, id, value, a, sum, exemplar) == histogram_observed(
            registry,
            id,
            value,
            b,
            sum,
            exemplar,
        ),
{
    let slot = id as int;
    let counters = registry.counters[slot].series;
    let gauges = registry.gauges[slot].series;
    let histograms = registry.histograms[slot].series;
    let unseen = unobserved(registry.histograms[slot].boundaries.len() + 1);
    law_recorded_order(counters, a, b, 0i64, exemplar, 0i64);
    law_recorded_order(
        counters,
        a,
        b,
        (counter_value(registry, id, a) + value) as i64,
        exemplar,
        0i64,
    );
    law_recorded_order(gauges, a, b, value, exemplar, 0u64);
    law_recorded_order(histograms, a, b, unseen, exemplar, unseen);
    law_recorded_order(
        histograms,
        a,
        b,
        observed(
            histogram_value(registry, id, a),
            bucket_of(registry.histograms[slot].boundaries, value),
            value,
            sum,
        ),
        exemplar,
        unseen,
    );
}

// --- Counters ---

/// Counters accumulate: an increment adds to what the counter holds under the attributes, and
/// leaves what it holds under any other attributes.
pub proof fn law_counter_accumulates(
    registry: RegistryView,
    id: nat,
    value: u64,
    attrs: Seq<AttrView>,
    exemplar: Option<Exemplar>,
    other: Seq<AttrView>,
)
    requires
        distinct(registry.counters),
        id < registry.counters.len(),
        counter_fits(registry, id, value, attrs),
    ensures
        ({
            let after = counter_added(registry, id, value, attrs, exemplar);
            &&& counter_value(after, id, attrs) == counter_value(registry, id, attrs) + value
            &&& sorted_attrs(other) != sorted_attrs(attrs) ==> counter_value(after, id, other)
                == counter_value(registry, id, other)
        }),
{
    let series = registry.counters[id as int].series;
    let new = (counter_value(registry, id, attrs) + value) as i64;
    assert(distinct_attrs(series));
    law_recorded_value(series, attrs, new, exemplar, attrs, 0i64);
    law_recorded_value(series, attrs, new, exemplar, other, 0i64);
}

/// Counters are monotonic: no increment whatever lowers what a counter holds. One that the counter
/// cannot hold leaves it as it is.
pub proof fn law_counter_monotonic(
    registry: RegistryView,
    id: nat,
    value: u64,
    attrs: Seq<AttrView>,
    exemplar: Option<Exemplar>,
    other: Seq<AttrView>,
)
    requires
        valid(registry),
        id < registry.counters.len(),
    ensures
        counter_value(registry, id, other) <= counter_value(
            counter_offered(registry, id, value, attrs, exemplar),
            id,
            other,
        ),
        counter_fits(registry, id, value, attrs) ==> counter_value(registry, id, other)
            <= counter_value(
            counter_added(registry, id, value, attrs, exemplar),
            id,
            other,
        ),
{
    if counter_fits(registry, id, value, attrs) {
        law_counter_accumulates(registry, id, value, attrs, exemplar, other);
    }
    if sorted_attrs(other) == sorted_attrs(attrs) {
        assert(counter_value(registry, id, other) == counter_value(registry, id, attrs));
        assert(counter_value(counter_added(registry, id, value, attrs, exemplar), id, other)
            == counter_value(counter_added(registry, id, value, attrs, exemplar), id, attrs));
    }
}

/// The order of two increments does not matter to what a counter holds.
pub proof fn law_increments_commute(
    registry: RegistryView,
    id: nat,
    first: u64,
    second: u64,
    attrs: Seq<AttrView>,
    exemplar: Option<Exemplar>,
)
    requires
        valid(registry),
        id < registry.counters.len(),
        counter_fits(registry, id, first, attrs),
        counter_fits(registry, id, second, attrs),
        counter_value(registry, id, attrs) + first + second <= i64::MAX,
    ensures
        counter_value(
            counter_added(
                counter_added(registry, id, first, attrs, exemplar),
                id,
                second,
                attrs,
                exemplar,
            ),
            id,
            attrs,
        ) == counter_value(
            counter_added(
                counter_added(registry, id, second, attrs, exemplar),
                id,
                first,
                attrs,
                exemplar,
            ),
            id,
            attrs,
        ),
{
    let slot = id as int;
    let held = counter_value(registry, id, attrs);
    lemma_measured_distinct(
        registry.counters,
        slot,
        attrs,
        (held + first) as i64,
        exemplar,
    );
    lemma_measured_distinct(
        registry.counters,
        slot,
        attrs,
        (held + second) as i64,
        exemplar,
    );
    law_counter_accumulates(registry, id, first, attrs, exemplar, attrs);
    law_counter_accumulates(registry, id, second, attrs, exemplar, attrs);
    law_counter_accumulates(
        counter_added(registry, id, first, attrs, exemplar),
        id,
        second,
        attrs,
        exemplar,
        attrs,
    );
    law_counter_accumulates(
        counter_added(registry, id, second, attrs, exemplar),
        id,
        first,
        attrs,
        exemplar,
        attrs,
    );
}

// --- Gauges ---

/// Gauges record the last value: what was set before does not show.
pub proof fn law_gauge_last_value(
    registry: RegistryView,
    id: nat,
    value: u64,
    attrs: Seq<AttrView>,
    exemplar: Option<Exemplar>,
    other: Seq<AttrView>,
    initial: u64,
)
    requires
        distinct(registry.gauges),
        id < registry.gauges.len(),
    ensures
        ({
            let after = gauge_set(registry, id, value, attrs, exemplar).gauges[id as int].series;
            &&& value_or(after, attrs, initial) == value
            &&& sorted_attrs(other) != sorted_attrs(attrs) ==> value_or(after, other, initial)
                == value_or(registry.gauges[id as int].series, other, initial)
        }),
{
    let series = registry.gauges[id as int].series;
    assert(distinct_attrs(series));
    law_recorded_value(series, attrs, value, exemplar, attrs, initial);
    law_recorded_value(series, attrs, value, exemplar, other, initial);
}

// --- Histograms ---

/// Every value that a histogram was given lies in exactly one bucket: in each of its data points
/// the buckets add up to the count, and there is one bucket more than there are boundaries.
pub proof fn law_histogram_buckets_add_up(registry: RegistryView, i: int, j: int)
    requires
        valid(registry),
        0 <= i < registry.histograms.len(),
        0 <= j < registry.histograms[i].series.len(),
    ensures
        registry.histograms[i].series[j].value.bucket_counts.len()
            == registry.histograms[i].boundaries.len() + 1,
        total(registry.histograms[i].series[j].value.bucket_counts)
            == registry.histograms[i].series[j].value.count,
{
    assert(sound_histogram(registry.histograms[i]));
}

/// An observation is one more in its bucket and in the count, and leaves what the histogram has
/// seen under any other attributes.
pub proof fn law_histogram_accumulates(
    registry: RegistryView,
    id: nat,
    value: u64,
    attrs: Seq<AttrView>,
    sum: u64,
    exemplar: Option<Exemplar>,
    other: Seq<AttrView>,
)
    requires
        distinct(registry.histograms),
        id < registry.histograms.len(),
    ensures
        ({
            let after = histogram_observed(registry, id, value, attrs, sum, exemplar);
            &&& histogram_value(after, id, attrs) == observed(
                histogram_value(registry, id, attrs),
                bucket_of(registry.histograms[id as int].boundaries, value),
                value,
                sum,
            )
            &&& sorted_attrs(other) != sorted_attrs(attrs) ==> histogram_value(after, id, other)
                == histogram_value(registry, id, other)
        }),
{
    let slot = id as int;
    let series = registry.histograms[slot].series;
    let unseen = unobserved(registry.histograms[slot].boundaries.len() + 1);
    let new = observed(
        histogram_value(registry, id, attrs),
        bucket_of(registry.histograms[slot].boundaries, value),
        value,
        sum,
    );
    assert(distinct_attrs(series));
    law_recorded_value(series, attrs, new, exemplar, attrs, unseen);
    law_recorded_value(series, attrs, new, exemplar, other, unseen);
}

// --- Collection ---

/// A data point of a snapshot without its exemplar.
pub open spec fn spent_point<V>(point: PointView<V>) -> PointView<V> {
    PointView { exemplar: None, ..point }
}

/// A snapshot without its exemplars.
pub open spec fn spent(snapshot: SnapshotView) -> SnapshotView {
    match snapshot {
        SnapshotView::Counter { name, description, points } => SnapshotView::Counter {
            name,
            description,
            points: points.map_values(|p: PointView<i64>| spent_point(p)),
        },
        SnapshotView::Gauge { name, description, points } => SnapshotView::Gauge {
            name,
            description,
            points: points.map_values(|p: PointView<u64>| spent_point(p)),
        },
        SnapshotView::Histogram { name, description, boundaries, points } =>
            SnapshotView::Histogram {
            name,
            description,
            boundaries,
            points: points.map_values(|p: PointView<HistogramValue>| spent_point(p)),
        },
    }
}

proof fn lemma_in_use_cleared<V>(metrics: Seq<Metric<V>>)
    ensures
        in_use(cleared(metrics)) == cleared(in_use(metrics)),
    decreases metrics.len(),
{
    reveal(Seq::filter);
    if metrics.len() > 0 {
        lemma_in_use_cleared(metrics.drop_last());
        assert(cleared(metrics).drop_last() =~= cleared(metrics.drop_last()));
        assert(cleared(metrics).last() == cleared_metric(metrics.last()));
        assert(in_use(cleared(metrics)) =~= cleared(in_use(metrics)));
    } else {
        assert(in_use(cleared(metrics)) =~= cleared(in_use(metrics)));
    }
}

/// A collection resets nothing but the exemplars, which it consumes: the next one, with no
/// measurement between, hands over the same instruments, data points and values, and no exemplar.
pub proof fn law_collect_is_cumulative(registry: RegistryView)
    ensures
        collected(after_collect(registry)) == collected(registry).map_values(
            |s: SnapshotView| spent(s),
        ),
{
    lemma_in_use_cleared(registry.counters);
    lemma_in_use_cleared(registry.gauges);
    lemma_in_use_cleared(registry.histograms);
    assert forall|m: Metric<i64>| #[trigger]
        counter_snapshot(cleared_metric(m)) == spent(counter_snapshot(m)) by {
        assert(points_of(without_exemplars(m.series)) =~= points_of(m.series).map_values(
            |p: PointView<i64>| spent_point(p),
        ));
    }
    assert forall|m: Metric<u64>| #[trigger]
        gauge_snapshot(cleared_metric(m)) == spent(gauge_snapshot(m)) by {
        assert(points_of(without_exemplars(m.series)) =~= points_of(m.series).map_values(
            |p: PointView<u64>| spent_point(p),
        ));
    }
    assert forall|m: Metric<HistogramValue>| #[trigger]
        histogram_snapshot(cleared_metric(m)) == spent(histogram_snapshot(m)) by {
        assert(points_of(without_exemplars(m.series)) =~= points_of(m.series).map_values(
            |p: PointView<HistogramValue>| spent_point(p),
        ));
    }
    assert(collected(after_collect(registry)) =~= collected(registry).map_values(
        |s: SnapshotView| spent(s),
    ));
}

/// A collection leaves every counter and every histogram with what it holds.
pub proof fn law_collect_keeps_values(registry: RegistryView, id: nat, attrs: Seq<AttrView>)
    requires
        valid(registry),
    ensures
        id < registry.counters.len() ==> counter_value(after_collect(registry), id, attrs)
            == counter_value(registry, id, attrs),
        id < registry.histograms.len() ==> histogram_value(after_collect(registry), id, attrs)
            == histogram_value(registry, id, attrs),
{
    let slot = id as int;
    if id < registry.counters.len() {
        lemma_cleared_value(registry.counters[slot].series, attrs, 0i64);
    }
    if id < registry.histograms.len() {
        lemma_cleared_value(
            registry.histograms[slot].series,
            attrs,
            unobserved(registry.histograms[slot].boundaries.len() + 1),
        );
    }
}

pub(crate) proof fn lemma_cleared_value<V>(series: Seq<Series<V>>, attrs: Seq<AttrView>, initial: V)
    requires
        distinct_attrs(series),
    ensures
        value_or(without_exemplars(series), attrs, initial) == value_or(series, attrs, initial),
{
    let after = without_exemplars(series);
    let sorted = sorted_attrs(attrs);
    if has_point(series, sorted) {
        let at = position(series, sorted);
        assert(after[at].attrs == sorted);
        assert(after[position(after, sorted)].attrs == sorted);
        assert(series[position(after, sorted)].attrs == sorted);
        lemma_position(series, at);
        lemma_position(series, position(after, sorted));
    } else if has_point(after, sorted) {
        assert(series[position(after, sorted)].attrs == sorted);
    }
}

/// An instrument that has measured nothing is not collected.
pub proof fn law_unused_not_collected(
    registry: RegistryView,
    name: Seq<char>,
    description: Seq<char>,
    boundaries: Seq<u64>,
)
    ensures
        collected(
            RegistryView {
                counters: opened(registry.counters, name, description, boundaries),
                ..registry
            },
        ) == collected(registry),
        collected(
            RegistryView {
                gauges: opened(registry.gauges, name, description, boundaries),
                ..registry
            },
        ) == collected(registry),
        collected(
            RegistryView {
                histograms: opened(registry.histograms, name, description, boundaries),
                ..registry
            },
        ) == collected(registry),
{
    lemma_in_use_opened(registry.counters, name, description, boundaries);
    lemma_in_use_opened(registry.gauges, name, description, boundaries);
    lemma_in_use_opened(registry.histograms, name, description, boundaries);
}

proof fn lemma_in_use_opened<V>(
    metrics: Seq<Metric<V>>,
    name: Seq<char>,
    description: Seq<char>,
    boundaries: Seq<u64>,
)
    ensures
        in_use(opened(metrics, name, description, boundaries)) == in_use(metrics),
{
    reveal(Seq::filter);
    if !has_name(metrics, name) {
        assert(opened(metrics, name, description, boundaries).drop_last() =~= metrics);
    }
}

// --- Exemplars ---

/// A captured exemplar replaces the one before; a measurement without one leaves it, and so does
/// one under other attributes.
pub proof fn law_latest_exemplar<V>(
    series: Seq<Series<V>>,
    attrs: Seq<AttrView>,
    value: V,
    exemplar: Option<Exemplar>,
    other: Seq<AttrView>,
)
    requires
        distinct_attrs(series),
    ensures
        ({
            let sorted = sorted_attrs(attrs);
            let sought = sorted_attrs(other);
            let after = recorded(series, attrs, value, exemplar);
            &&& after[position(after, sorted)].exemplar == if exemplar is Some || !has_point(
                series,
                sorted,
            ) {
                exemplar
            } else {
                series[position(series, sorted)].exemplar
            }
            &&& sought != sorted && has_point(series, sought) ==> after[position(after, sought)]
                == series[position(series, sought)]
        }),
{
    let sorted = sorted_attrs(attrs);
    let sought = sorted_attrs(other);
    let after = recorded(series, attrs, value, exemplar);
    law_recorded_value(series, attrs, value, exemplar, attrs, value);
    if has_point(series, sorted) {
        let at = position(series, sorted);
        assert(after[at].attrs == sorted);
        lemma_position(after, at);
    } else {
        lemma_position(after, series.len() as int);
    }
    if sought != sorted && has_point(series, sought) {
        let there = position(series, sought);
        assert(after[there] == series[there]);
        lemma_position(after, there);
    }
}

} // verus!
