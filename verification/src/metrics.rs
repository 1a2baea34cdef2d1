//! Metric instruments: counters, gauges and histograms with client-side aggregation.
//!
//! A [`MetricsRegistry`] owns the data. [`Counter`], [`Gauge`] and [`Histogram`] are handles into
//! it: cheap to copy, and every copy speaks of the same data.

use vstd::prelude::*;

use crate::attrs::{attrs_hash_unordered, attrs_view, owned_attrs, same_text, AttrView};
use crate::exemplar::{can_capture, capture_exemplar, Exemplar, ExemplarValue};
use crate::histogram::{
    bucket_index, bucket_of, consistent, law_observed_consistent, law_unobserved_consistent,
    nans_last, normal_boundaries, normalize_boundaries, observed, sortable, unobserved,
    HistogramState, HistogramValue,
};
use crate::series::{
    distinct_attrs, law_recorded_value, law_sorted_key, recorded, value_or, Points, Series,
};
use crate::snapshot::{
    drain_histogram, drain_points, points_of, snapshots_view, without_exemplars, MetricSnapshot,
    SnapshotView,
};

verus! {

// --- Model ---

/// Model of an instrument. Only histograms have boundaries.
#[verifier::ext_equal]
pub struct Metric<V> {
    pub name: Seq<char>,
    pub description: Seq<char>,
    pub boundaries: Seq<u64>,
    pub series: Seq<Series<V>>,
}

/// Model of a registry: its instruments in the order of their creation.
#[verifier::ext_equal]
pub struct RegistryView {
    pub counters: Seq<Metric<i64>>,
    pub gauges: Seq<Metric<u64>>,
    pub histograms: Seq<Metric<HistogramValue>>,
}

/// Whether some instrument has the name.
pub open spec fn has_name<V>(metrics: Seq<Metric<V>>, name: Seq<char>) -> bool {
    exists|i: int| 0 <= i < metrics.len() && (#[trigger] metrics[i]).name == name
}

/// No two instruments have the same name, no two data points of one the same attributes.
pub open spec fn distinct<V>(metrics: Seq<Metric<V>>) -> bool {
    &&& forall|i: int, j: int|
        0 <= i < j < metrics.len() ==> (#[trigger] metrics[i]).name != (#[trigger] metrics[j]).name
    &&& forall|i: int| 0 <= i < metrics.len() ==> distinct_attrs((#[trigger] metrics[i]).series)
}

/// The boundaries of a histogram ascend, what is not a number at their end, and each of its data
/// points is consistent with them.
pub open spec fn sound_histogram(metric: Metric<HistogramValue>) -> bool {
    &&& nans_last(metric.boundaries)
    &&& forall|i: int|
        0 <= i < metric.series.len() ==> consistent(
            (#[trigger] metric.series[i]).value,
            metric.boundaries.len(),
        )
}

/// A counter holds no negative value.
pub open spec fn sound_counter(metric: Metric<i64>) -> bool {
    forall|i: int| 0 <= i < metric.series.len() ==> (#[trigger] metric.series[i]).value >= 0
}

/// What holds of every registry.
pub open spec fn valid(registry: RegistryView) -> bool {
    &&& distinct(registry.counters)
    &&& distinct(registry.gauges)
    &&& distinct(registry.histograms)
    &&& forall|i: int|
        0 <= i < registry.counters.len() ==> sound_counter(#[trigger] registry.counters[i])
    &&& forall|i: int|
        0 <= i < registry.histograms.len() ==> sound_histogram(#[trigger] registry.histograms[i])
}

/// The instruments after one was asked for by name: those before, and a new one if there was none.
pub open spec fn opened<V>(
    metrics: Seq<Metric<V>>,
    name: Seq<char>,
    description: Seq<char>,
    boundaries: Seq<u64>,
) -> Seq<Metric<V>> {
    if has_name(metrics, name) {
        metrics
    } else {
        metrics.push(Metric { name, description, boundaries, series: Seq::empty() })
    }
}

/// The instruments after a measurement with the one at `slot`.
pub open spec fn measured<V>(
    metrics: Seq<Metric<V>>,
    slot: int,
    attrs: Seq<AttrView>,
    value: V,
    exemplar: Option<Exemplar>,
) -> Seq<Metric<V>> {
    metrics.update(
        slot,
        Metric {
            series: recorded(metrics[slot].series, attrs, value, exemplar),
            ..metrics[slot]
        },
    )
}

// --- Instruments ---

/// An instrument as it is kept.
pub struct Instrument<V> {
    name: String,
    description: String,
    boundaries: Vec<u64>,
    data: Points<V>,
}

impl<V: View> View for Instrument<V> {
    type V = Metric<V::V>;

    closed spec fn view(&self) -> Metric<V::V> {
        Metric {
            name: self.name@,
            description: self.description@,
            boundaries: self.boundaries@,
            series: self.data@,
        }
    }
}

spec fn metrics_view<V: View>(list: Seq<Instrument<V>>) -> Seq<Metric<V::V>> {
    list.map_values(|m: Instrument<V>| m@)
}

spec fn indexed<V: View>(list: Seq<Instrument<V>>) -> bool {
    forall|i: int| 0 <= i < list.len() ==> (#[trigger] list[i]).data.wf()
}

/// Find an instrument by name.
fn find_instrument<V: View>(list: &Vec<Instrument<V>>, name: &str) -> (slot: Option<usize>)
    ensures
        slot is Some <==> has_name(metrics_view(list@), name@),
        slot matches Some(i) ==> i < list@.len() && metrics_view(list@)[i as int].name == name@,
{
    let mut i: usize = 0;
    while i < list.len()
        invariant
            i <= list@.len(),
            forall|j: int| 0 <= j < i ==> (#[trigger] metrics_view(list@)[j]).name != name@,
        decreases list@.len() - i,
    {
        if same_text(list[i].name.as_str(), name) {
            assert(metrics_view(list@)[i as int].name == name@);
            return Some(i);
        }
        i = i + 1;
    }
    None
}

/// Add an instrument with no data points.
fn create_instrument<V: View>(
    list: &mut Vec<Instrument<V>>,
    name: &str,
    description: &str,
    boundaries: Vec<u64>,
) -> (slot: usize)
    requires
        indexed(old(list)@),
        distinct(metrics_view(old(list)@)),
        !has_name(metrics_view(old(list)@), name@),
    ensures
        indexed(final(list)@),
        distinct(metrics_view(final(list)@)),
        slot == old(list)@.len(),
        metrics_view(final(list)@) == opened(
            metrics_view(old(list)@),
            name@,
            description@,
            boundaries@,
        ),
{
    let slot: usize = list.len();
    list.push(
        Instrument {
            name: name.to_string(),
            description: description.to_string(),
            boundaries,
            data: Points::new(),
        },
    );
    proof {
        let before = metrics_view(old(list)@);
        let after = metrics_view(list@);
        assert(after =~= opened(before, name@, description@, boundaries@));
        assert forall|i: int, j: int| 0 <= i < j < after.len() implies (#[trigger] after[i]).name
            != (#[trigger] after[j]).name by {
            assert(after[i] == before[i]);
            if j < slot {
                assert(after[j] == before[j]);
            }
        }
        assert forall|i: int| 0 <= i < after.len() implies distinct_attrs(
            (#[trigger] after[i]).series,
        ) by {
            if i < slot {
                assert(after[i] == before[i]);
            }
        }
    }
    slot
}

// --- Registry ---

/// Central registry holding all counters, gauges, and histograms.
pub struct MetricsRegistry {
    counters: Vec<Instrument<i64>>,
    gauges: Vec<Instrument<u64>>,
    histograms: Vec<Instrument<HistogramState>>,
}

impl View for MetricsRegistry {
    type V = RegistryView;

    closed spec fn view(&self) -> RegistryView {
        RegistryView {
            counters: metrics_view(self.counters@),
            gauges: metrics_view(self.gauges@),
            histograms: metrics_view(self.histograms@),
        }
    }
}

/// A monotonic counter.
#[derive(Clone, Copy, Debug)]
pub struct Counter {
    slot: usize,
}

/// A last-value gauge.
#[derive(Clone, Copy, Debug)]
pub struct Gauge {
    slot: usize,
}

/// A histogram with client-side bucketing.
#[derive(Clone, Copy, Debug)]
pub struct Histogram {
    slot: usize,
}

impl Default for MetricsRegistry {
    fn default() -> (registry: MetricsRegistry)
        ensures
            registry.wf(),
            registry@ == (RegistryView {
                counters: Seq::empty(),
                gauges: Seq::empty(),
                histograms: Seq::empty(),
            }),
    {
        MetricsRegistry::new()
    }
}

impl MetricsRegistry {
    /// The data points of every instrument can be found.
    pub closed spec fn indexed(&self) -> bool {
        &&& indexed(self.counters@)
        &&& indexed(self.gauges@)
        &&& indexed(self.histograms@)
    }

    /// A registry in good order.
    pub open spec fn wf(&self) -> bool {
        self.indexed() && valid(self@)
    }

    /// An empty registry.
    pub fn new() -> (registry: MetricsRegistry)
        ensures
            registry.wf(),
            registry@ == (RegistryView {
                counters: Seq::empty(),
                gauges: Seq::empty(),
                histograms: Seq::empty(),
            }),
    {
        let registry = MetricsRegistry {
            counters: Vec::new(),
            gauges: Vec::new(),
            histograms: Vec::new(),
        };
        assert(registry@.counters =~= Seq::empty());
        assert(registry@.gauges =~= Seq::empty());
        assert(registry@.histograms =~= Seq::empty());
        registry
    }

    /// Get or create a counter by name. The description of the first call stays.
    pub fn counter(&mut self, name: &str, description: &str) -> (counter: Counter)
        requires
            old(self).wf(),
        ensures
            final(self).wf(),
            final(self)@ == (RegistryView {
                counters: opened(old(self)@.counters, name@, description@, Seq::empty()),
                ..old(self)@
            }),
            counter.id() < final(self)@.counters.len(),
            final(self)@.counters[counter.id() as int].name == name@,
    {
        match find_instrument(&self.counters, name) {
            Some(slot) => Counter { slot },
            None => {
                let slot = create_instrument(&mut self.counters, name, description, Vec::new());
                Counter { slot }
            },
        }
    }

    /// Get or create a gauge by name. The description of the first call stays.
    pub fn gauge(&mut self, name: &str, description: &str) -> (gauge: Gauge)
        requires
            old(self).wf(),
        ensures
            final(self).wf(),
            final(self)@ == (RegistryView {
                gauges: opened(old(self)@.gauges, name@, description@, Seq::empty()),
                ..old(self)@
            }),
            gauge.id() < final(self)@.gauges.len(),
            final(self)@.gauges[gauge.id() as int].name == name@,
    {
        match find_instrument(&self.gauges, name) {
            Some(slot) => Gauge { slot },
            None => {
                let slot = create_instrument(&mut self.gauges, name, description, Vec::new());
                Gauge { slot }
            },
        }
    }

    /// Whether there is a histogram with the name.
    pub fn has_histogram(&self, name: &str) -> (found: bool)
        ensures
            found == has_name(self@.histograms, name@),
    {
        find_instrument(&self.histograms, name).is_some()
    }

    /// Get or create a histogram by name.
    /// Boundaries are sorted and deduplicated at creation time. Those of the first call stay.
    pub fn histogram(
        &mut self,
        name: &str,
        description: &str,
        boundaries: &[u64],
    ) -> (histogram: Histogram)
        requires
            old(self).wf(),
            has_name(old(self)@.histograms, name@) || sortable(boundaries@),
        ensures
            final(self).wf(),
            final(self)@ == (RegistryView {
                histograms: opened(
                    old(self)@.histograms,
                    name@,
                    description@,
                    normal_boundaries(boundaries@),
                ),
                ..old(self)@
            }),
            histogram.id() < final(self)@.histograms.len(),
            final(self)@.histograms[histogram.id() as int].name == name@,
    {
        match find_instrument(&self.histograms, name) {
            Some(slot) => Histogram { slot },
            None => {
                let sorted = normalize_boundaries(boundaries);
                let slot = create_instrument(&mut self.histograms, name, description, sorted);
                proof {
                    assert forall|i: int| 0 <= i < self@.histograms.len() implies sound_histogram(
                        #[trigger] self@.histograms[i],
                    ) by {
                        if i < slot {
                            assert(self@.histograms[i] == old(self)@.histograms[i]);
                        }
                    }
                }
                Histogram { slot }
            },
        }
    }
}

// --- Counter ---

/// What a counter holds under the attributes; zero before the first increment.
pub open spec fn counter_value(registry: RegistryView, id: nat, attrs: Seq<AttrView>) -> i64 {
    value_or(registry.counters[id as int].series, attrs, 0i64)
}

/// Whether an increment stays within the range of a counter.
pub open spec fn counter_fits(
    registry: RegistryView,
    id: nat,
    value: u64,
    attrs: Seq<AttrView>,
) -> bool {
    counter_value(registry, id, attrs) + value <= i64::MAX
}

/// The registry after an increment.
pub open spec fn counter_added(
    registry: RegistryView,
    id: nat,
    value: u64,
    attrs: Seq<AttrView>,
    exemplar: Option<Exemplar>,
) -> RegistryView {
    RegistryView {
        counters: measured(
            registry.counters,
            id as int,
            attrs,
            (counter_value(registry, id, attrs) + value) as i64,
            exemplar,
        ),
        ..registry
    }
}

/// The registry after an increment was offered: one that would leave the range changes nothing.
pub open spec fn counter_offered(
    registry: RegistryView,
    id: nat,
    value: u64,
    attrs: Seq<AttrView>,
    exemplar: Option<Exemplar>,
) -> RegistryView {
    if counter_fits(registry, id, value, attrs) {
        counter_added(registry, id, value, attrs, exemplar)
    } else {
        registry
    }
}

impl Counter {
    /// Which counter of its registry this is.
    pub closed spec fn id(&self) -> nat {
        self.slot as nat
    }

    /// Whether adding `value` for the attribute set stays within the range of the counter.
    pub fn add_fits(
        &self,
        registry: &MetricsRegistry,
        value: u64,
        attrs: &[(&str, &str)],
    ) -> (fits: bool)
        requires
            registry.wf(),
            self.id() < registry@.counters.len(),
        ensures
            fits == counter_fits(registry@, self.id(), value, attrs_view(attrs@)),
    {
        let data = &registry.counters[self.slot].data;
        let sorted = owned_attrs(attrs);
        let key: u64 = attrs_hash_unordered(attrs);
        proof {
            law_sorted_key(attrs_view(attrs@));
            assert(sound_counter(registry@.counters[self.id() as int]));
        }
        let held: i64 = match data.find(key, &sorted) {
            Some(at) => *data.value(at),
            None => 0,
        };
        value <= (i64::MAX - held) as u64
    }

    /// Add a value to the counter for the given attribute set, with the exemplar that was captured.
    pub fn add_with_exemplar(
        &self,
        registry: &mut MetricsRegistry,
        value: u64,
        attrs: &[(&str, &str)],
        exemplar: Option<Exemplar>,
    )
        requires
            old(registry).wf(),
            self.id() < old(registry)@.counters.len(),
            counter_fits(old(registry)@, self.id(), value, attrs_view(attrs@)),
        ensures
            final(registry).wf(),
            final(registry)@ == counter_added(
                old(registry)@,
                self.id(),
                value,
                attrs_view(attrs@),
                exemplar,
            ),
    {
        let sorted = owned_attrs(attrs);
        let key: u64 = attrs_hash_unordered(attrs);
        proof {
            law_sorted_key(attrs_view(attrs@));
            assert(sound_counter(old(registry)@.counters[self.id() as int]));
        }
        let at = registry.counters[self.slot].data.find(key, &sorted);
        let held: i64 = match at {
            Some(i) => *registry.counters[self.slot].data.value(i),
            None => 0,
        };
        let total: i64 = held + value as i64;
        registry.counters[self.slot].data.record(at, key, sorted, total, exemplar);
        proof {
            lemma_measured_distinct(
                old(registry)@.counters,
                self.id() as int,
                attrs_view(attrs@),
                total,
                exemplar,
            );
            assert(registry@.counters =~= measured(
                old(registry)@.counters,
                self.id() as int,
                attrs_view(attrs@),
                total,
                exemplar,
            ));
            lemma_added_sound(old(registry)@, self.id(), value, attrs_view(attrs@), exemplar);
        }
    }

    /// Add a value to the counter for the given attribute set, with the exemplar that was captured,
    /// if the sum stays within the range of the counter. Says whether it did.
    pub fn add_if_fits(
        &self,
        registry: &mut MetricsRegistry,
        value: u64,
        attrs: &[(&str, &str)],
        exemplar: Option<Exemplar>,
    ) -> (added: bool)
        requires
            old(registry).wf(),
            self.id() < old(registry)@.counters.len(),
        ensures
            final(registry).wf(),
            added == counter_fits(old(registry)@, self.id(), value, attrs_view(attrs@)),
            final(registry)@ == counter_offered(
                old(registry)@,
                self.id(),
                value,
                attrs_view(attrs@),
                exemplar,
            ),
    {
        let fits = self.add_fits(registry, value, attrs);
        if fits {
            self.add_with_exemplar(registry, value, attrs, exemplar);
        }
        fits
    }

    /// Add a value to the counter for the given attribute set. A captured exemplar links it to the
    /// current trace.
    pub fn add(&self, registry: &mut MetricsRegistry, value: u64, attrs: &[(&str, &str)])
        requires
            old(registry).wf(),
            self.id() < old(registry)@.counters.len(),
            counter_fits(old(registry)@, self.id(), value, attrs_view(attrs@)),
        ensures
            final(registry).wf(),
            exists|exemplar: Option<Exemplar>| #[trigger]
                can_capture(exemplar, ExemplarValue::Int(value as i64))
                    && final(registry)@ == counter_added(
                    old(registry)@,
                    self.id(),
                    value,
                    attrs_view(attrs@),
                    exemplar,
                ),
    {
        let exemplar = capture_exemplar(ExemplarValue::Int(value as i64));
        self.add_with_exemplar(registry, value, attrs, exemplar);
    }
}

/// An increment leaves every counter without a negative value.
pub proof fn lemma_added_sound(
    registry: RegistryView,
    id: nat,
    value: u64,
    attrs: Seq<AttrView>,
    exemplar: Option<Exemplar>,
)
    requires
        id < registry.counters.len(),
        counter_fits(registry, id, value, attrs),
        forall|i: int|
            0 <= i < registry.counters.len() ==> sound_counter(#[trigger] registry.counters[i]),
    ensures
        counter_value(registry, id, attrs) >= 0,
        ({
            let after = counter_added(registry, id, value, attrs, exemplar).counters;
            forall|i: int| 0 <= i < after.len() ==> sound_counter(#[trigger] after[i])
        }),
{
    let after = counter_added(registry, id, value, attrs, exemplar).counters;
    let slot = id as int;
    assert(sound_counter(registry.counters[slot]));
    assert forall|i: int| 0 <= i < after.len() implies sound_counter(#[trigger] after[i]) by {
        assert(sound_counter(registry.counters[i]));
        assert forall|j: int| 0 <= j < after[i].series.len() implies (
        #[trigger] after[i].series[j]).value >= 0 by {
            if j < registry.counters[i].series.len() {
                assert(registry.counters[i].series[j].value >= 0);
            }
        }
    }
}

/// A measurement leaves names and attributes distinct.
pub proof fn lemma_measured_distinct<V>(
    metrics: Seq<Metric<V>>,
    slot: int,
    attrs: Seq<AttrView>,
    value: V,
    exemplar: Option<Exemplar>,
)
    requires
        distinct(metrics),
        0 <= slot < metrics.len(),
    ensures
        distinct(measured(metrics, slot, attrs, value, exemplar)),
{
    let after = measured(metrics, slot, attrs, value, exemplar);
    let series = metrics[slot].series;
    law_recorded_value(series, attrs, value, exemplar, attrs, value);
    assert forall|i: int| 0 <= i < after.len() implies distinct_attrs((#[trigger] after[i]).series) by {
        if i != slot {
            assert(after[i] == metrics[i]);
        }
    }
    assert forall|i: int, j: int| 0 <= i < j < after.len() implies (#[trigger] after[i]).name != (
    #[trigger] after[j]).name by {
        assert(after[i].name == metrics[i].name);
        assert(after[j].name == metrics[j].name);
    }
}

// --- Gauge ---

/// The registry after a gauge was set.
pub open spec fn gauge_set(
    registry: RegistryView,
    id: nat,
    value: u64,
    attrs: Seq<AttrView>,
    exemplar: Option<Exemplar>,
) -> RegistryView {
    RegistryView {
        gauges: measured(registry.gauges, id as int, attrs, value, exemplar),
        ..registry
    }
}

impl Gauge {
    /// Which gauge of its registry this is.
    pub closed spec fn id(&self) -> nat {
        self.slot as nat
    }

    /// Set the gauge to a value for the given attribute set, with the exemplar that was captured.
    pub fn set_with_exemplar(
        &self,
        registry: &mut MetricsRegistry,
        value: u64,
        attrs: &[(&str, &str)],
        exemplar: Option<Exemplar>,
    )
        requires
            old(registry).wf(),
            self.id() < old(registry)@.gauges.len(),
        ensures
            final(registry).wf(),
            final(registry)@ == gauge_set(
                old(registry)@,
                self.id(),
                value,
                attrs_view(attrs@),
                exemplar,
            ),
    {
        let sorted = owned_attrs(attrs);
        let key: u64 = attrs_hash_unordered(attrs);
        proof {
            law_sorted_key(attrs_view(attrs@));
        }
        let at = registry.gauges[self.slot].data.find(key, &sorted);
        registry.gauges[self.slot].data.record(at, key, sorted, value, exemplar);
        proof {
            lemma_measured_distinct(
                old(registry)@.gauges,
                self.id() as int,
                attrs_view(attrs@),
                value,
                exemplar,
            );
            assert(registry@.gauges =~= measured(
                old(registry)@.gauges,
                self.id() as int,
                attrs_view(attrs@),
                value,
                exemplar,
            ));
        }
    }

    /// Set the gauge to a value for the given attribute set. A captured exemplar links it to the
    /// current trace.
    pub fn set(&self, registry: &mut MetricsRegistry, value: u64, attrs: &[(&str, &str)])
        requires
            old(registry).wf(),
            self.id() < old(registry)@.gauges.len(),
        ensures
            final(registry).wf(),
            exists|exemplar: Option<Exemplar>| #[trigger]
                can_capture(exemplar, ExemplarValue::Double(value)) && final(registry)@
                    == gauge_set(
                    old(registry)@,
                    self.id(),
                    value,
                    attrs_view(attrs@),
                    exemplar,
                ),
    {
        let exemplar = capture_exemplar(ExemplarValue::Double(value));
        self.set_with_exemplar(registry, value, attrs, exemplar);
    }
}

// --- Histogram ---

/// What a histogram has seen under the attributes; nothing before the first value.
pub open spec fn histogram_value(
    registry: RegistryView,
    id: nat,
    attrs: Seq<AttrView>,
) -> HistogramValue {
    value_or(
        registry.histograms[id as int].series,
        attrs,
        unobserved(registry.histograms[id as int].boundaries.len() + 1),
    )
}

/// The registry after a value was observed that brought the sum to `sum`.
pub open spec fn histogram_observed(
    registry: RegistryView,
    id: nat,
    value: u64,
    attrs: Seq<AttrView>,
    sum: u64,
    exemplar: Option<Exemplar>,
) -> RegistryView {
    RegistryView {
        histograms: measured(
            registry.histograms,
            id as int,
            attrs,
            observed(
                histogram_value(registry, id, attrs),
                bucket_of(registry.histograms[id as int].boundaries, value),
                value,
                sum,
            ),
            exemplar,
        ),
        ..registry
    }
}

impl Histogram {
    /// Which histogram of its registry this is.
    pub closed spec fn id(&self) -> nat {
        self.slot as nat
    }

    /// How many values were observed for the attribute set.
    pub fn count(&self, registry: &MetricsRegistry, attrs: &[(&str, &str)]) -> (count: u64)
        requires
            registry.wf(),
            self.id() < registry@.histograms.len(),
        ensures
            count == histogram_value(registry@, self.id(), attrs_view(attrs@)).count,
    {
        let data = &registry.histograms[self.slot].data;
        let sorted = owned_attrs(attrs);
        let key: u64 = attrs_hash_unordered(attrs);
        proof {
            law_sorted_key(attrs_view(attrs@));
        }
        match data.find(key, &sorted) {
            Some(at) => data.value(at).count,
            None => 0,
        }
    }

    /// Record an observed value for the given attribute set, with the exemplar that was captured.
    /// `plus` adds two doubles.
    pub fn observe_with_exemplar<F: Fn(u64, u64) -> u64>(
        &self,
        registry: &mut MetricsRegistry,
        value: u64,
        attrs: &[(&str, &str)],
        exemplar: Option<Exemplar>,
        plus: F,
    )
        requires
            old(registry).wf(),
            self.id() < old(registry)@.histograms.len(),
            histogram_value(old(registry)@, self.id(), attrs_view(attrs@)).count < u64::MAX,
            call_requires(
                plus,
                (
                    histogram_value(old(registry)@, self.id(), attrs_view(attrs@)).sum,
                    value,
                ),
            ),
        ensures
            final(registry).wf(),
            exists|sum: u64| #[trigger]
                call_ensures(
                    plus,
                    (
                        histogram_value(old(registry)@, self.id(), attrs_view(attrs@)).sum,
                        value,
                    ),
                    sum,
                ) && final(registry)@ == histogram_observed(
                    old(registry)@,
                    self.id(),
                    value,
                    attrs_view(attrs@),
                    sum,
                    exemplar,
                ),
    {
        let ghost attrs_seen = attrs_view(attrs@);
        let ghost before = old(registry)@.histograms;
        let ghost slot = self.id() as int;
        let ghost held = histogram_value(old(registry)@, self.id(), attrs_seen);
        let bucket: usize = bucket_index(
            registry.histograms[self.slot].boundaries.as_slice(),
            value,
        );
        let boundaries: usize = registry.histograms[self.slot].boundaries.len();
        let sorted = owned_attrs(attrs);
        let key: u64 = attrs_hash_unordered(attrs);
        proof {
            law_sorted_key(attrs_seen);
            assert(sound_histogram(before[slot]));
            law_unobserved_consistent(boundaries as nat);
            assert(consistent(held, boundaries as nat));
            law_observed_consistent(
                held,
                boundaries as nat,
                bucket as nat,
                value,
                0,
            );
        }
        let sum: u64;
        match registry.histograms[self.slot].data.find(key, &sorted) {
            Some(at) => {
                sum = plus(registry.histograms[self.slot].data.value(at).sum, value);
                registry.histograms[self.slot].data.value_mut(at).observe(bucket, value, sum);
                registry.histograms[self.slot].data.set_exemplar(at, exemplar);
            },
            None => {
                let mut state = HistogramState::new(boundaries);
                sum = plus(state.sum, value);
                state.observe(bucket, value, sum);
                registry.histograms[self.slot].data.insert(key, sorted, state, exemplar);
            },
        }
        proof {
            let new = observed(held, bucket as nat, value, sum);
            let after = measured(before, slot, attrs_seen, new, exemplar);
            law_observed_consistent(
                held,
                boundaries as nat,
                bucket as nat,
                value,
                sum,
            );
            lemma_measured_distinct(before, slot, attrs_seen, new, exemplar);
            assert(registry@.histograms[slot].series =~= after[slot].series);
            assert(registry@.histograms =~= after);
            assert forall|i: int| 0 <= i < after.len() implies sound_histogram(
                #[trigger] after[i],
            ) by {
                assert(sound_histogram(before[i]));
                assert forall|j: int| 0 <= j < after[i].series.len() implies consistent(
                    (#[trigger] after[i].series[j]).value,
                    after[i].boundaries.len(),
                ) by {
                    if i == slot && j < before[i].series.len() {
                        assert(consistent(before[i].series[j].value, boundaries as nat));
                    }
                }
            }
        }
    }

    /// Record an observed value for the given attribute set. A captured exemplar links it to the
    /// current trace. `plus` adds two doubles.
    pub fn observe<F: Fn(u64, u64) -> u64>(
        &self,
        registry: &mut MetricsRegistry,
        value: u64,
        attrs: &[(&str, &str)],
        plus: F,
    )
        requires
            old(registry).wf(),
            self.id() < old(registry)@.histograms.len(),
            histogram_value(old(registry)@, self.id(), attrs_view(attrs@)).count < u64::MAX,
            call_requires(
                plus,
                (
                    histogram_value(old(registry)@, self.id(), attrs_view(attrs@)).sum,
                    value,
                ),
            ),
        ensures
            final(registry).wf(),
            exists|sum: u64, exemplar: Option<Exemplar>| #[trigger]
                call_ensures(
                    plus,
                    (
                        histogram_value(old(registry)@, self.id(), attrs_view(attrs@)).sum,
                        value,
                    ),
                    sum,
                ) && #[trigger] can_capture(exemplar, ExemplarValue::Double(value))
                    && final(registry)@ == histogram_observed(
                    old(registry)@,
                    self.id(),
                    value,
                    attrs_view(attrs@),
                    sum,
                    exemplar,
                ),
    {
        let exemplar = capture_exemplar(ExemplarValue::Double(value));
        self.observe_with_exemplar(registry, value, attrs, exemplar, plus);
    }
}

// --- Collection ---

/// The instruments that have data points.
pub open spec fn in_use<V>(metrics: Seq<Metric<V>>) -> Seq<Metric<V>> {
    metrics.filter(|m: Metric<V>| m.series.len() > 0)
}

/// The snapshot of a counter.
pub open spec fn counter_snapshot(metric: Metric<i64>) -> SnapshotView {
    SnapshotView::Counter {
        name: metric.name,
        description: metric.description,
        points: points_of(metric.series),
    }
}

/// The snapshot of a gauge.
pub open spec fn gauge_snapshot(metric: Metric<u64>) -> SnapshotView {
    SnapshotView::Gauge {
        name: metric.name,
        description: metric.description,
        points: points_of(metric.series),
    }
}

/// The snapshot of a histogram.
pub open spec fn histogram_snapshot(metric: Metric<HistogramValue>) -> SnapshotView {
    SnapshotView::Histogram {
        name: metric.name,
        description: metric.description,
        boundaries: metric.boundaries,
        points: points_of(metric.series),
    }
}

/// What a collection hands over: every instrument in use, counters first, then gauges, then
/// histograms, with its cumulative values and its exemplars.
pub open spec fn collected(registry: RegistryView) -> Seq<SnapshotView> {
    in_use(registry.counters).map_values(|m: Metric<i64>| counter_snapshot(m)) + in_use(
        registry.gauges,
    ).map_values(|m: Metric<u64>| gauge_snapshot(m)) + in_use(registry.histograms).map_values(
        |m: Metric<HistogramValue>| histogram_snapshot(m),
    )
}

/// An instrument whose exemplars were handed over.
pub open spec fn cleared_metric<V>(metric: Metric<V>) -> Metric<V> {
    Metric { series: without_exemplars(metric.series), ..metric }
}

/// The instruments after their exemplars were handed over.
pub open spec fn cleared<V>(metrics: Seq<Metric<V>>) -> Seq<Metric<V>> {
    metrics.map_values(|m: Metric<V>| cleared_metric(m))
}

/// What a collection leaves behind: the same values, and no exemplars.
pub open spec fn after_collect(registry: RegistryView) -> RegistryView {
    RegistryView {
        counters: cleared(registry.counters),
        gauges: cleared(registry.gauges),
        histograms: cleared(registry.histograms),
    }
}

proof fn lemma_in_use_push<V>(metrics: Seq<Metric<V>>, i: int)
    requires
        0 <= i < metrics.len(),
    ensures
        in_use(metrics.take(i + 1)) == if metrics[i].series.len() > 0 {
            in_use(metrics.take(i)).push(metrics[i])
        } else {
            in_use(metrics.take(i))
        },
{
    assert(metrics.take(i + 1).drop_last() == metrics.take(i));
    reveal(Seq::filter);
}

pub(crate) proof fn lemma_cleared_distinct<V>(metrics: Seq<Metric<V>>)
    requires
        distinct(metrics),
    ensures
        distinct(cleared(metrics)),
{
    let after = cleared(metrics);
    assert forall|i: int, j: int| 0 <= i < j < after.len() implies (#[trigger] after[i]).name != (
    #[trigger] after[j]).name by {
        assert(after[i].name == metrics[i].name);
        assert(after[j].name == metrics[j].name);
    }
    assert forall|i: int| 0 <= i < after.len() implies distinct_attrs((#[trigger] after[i]).series) by {
        let series = metrics[i].series;
        assert(distinct_attrs(series));
        assert forall|a: int, b: int| 0 <= a < b < after[i].series.len() implies (
        #[trigger] after[i].series[a]).attrs != (#[trigger] after[i].series[b]).attrs by {
            assert(after[i].series[a].attrs == series[a].attrs);
            assert(after[i].series[b].attrs == series[b].attrs);
        }
    }
}

/// A kind of instrument, by the values of its data points.
trait Kind: View + Sized {
    /// The snapshot of an instrument.
    spec fn snapshot_of(metric: Metric<Self::V>) -> SnapshotView;

    /// Take the snapshot of an instrument. The exemplars go with it.
    fn take_snapshot(instrument: &mut Instrument<Self>) -> (snapshot: MetricSnapshot)
        requires
            old(instrument).data.wf(),
        ensures
            final(instrument).data.wf(),
            final(instrument)@ == cleared_metric(old(instrument)@),
            snapshot@ == Self::snapshot_of(old(instrument)@),
    ;
}

impl Kind for i64 {
    spec fn snapshot_of(metric: Metric<i64>) -> SnapshotView {
        counter_snapshot(metric)
    }

    fn take_snapshot(instrument: &mut Instrument<i64>) -> (snapshot: MetricSnapshot) {
        let data_points = drain_points(&mut instrument.data);
        MetricSnapshot::Counter {
            name: instrument.name.clone(),
            description: instrument.description.clone(),
            data_points,
        }
    }
}

impl Kind for u64 {
    spec fn snapshot_of(metric: Metric<u64>) -> SnapshotView {
        gauge_snapshot(metric)
    }

    fn take_snapshot(instrument: &mut Instrument<u64>) -> (snapshot: MetricSnapshot) {
        let data_points = drain_points(&mut instrument.data);
        MetricSnapshot::Gauge {
            name: instrument.name.clone(),
            description: instrument.description.clone(),
            data_points,
        }
    }
}

impl Kind for HistogramState {
    spec fn snapshot_of(metric: Metric<HistogramValue>) -> SnapshotView {
        histogram_snapshot(metric)
    }

    fn take_snapshot(instrument: &mut Instrument<HistogramState>) -> (snapshot: MetricSnapshot) {
        let data_points = drain_histogram(&mut instrument.data);
        let boundaries = instrument.boundaries.clone();
        assert(boundaries@ =~= instrument.boundaries@);
        MetricSnapshot::Histogram {
            name: instrument.name.clone(),
            description: instrument.description.clone(),
            boundaries,
            data_points,
        }
    }
}

/// Append the snapshots of the instruments in use.
fn collect_instruments<K: Kind>(list: &mut Vec<Instrument<K>>, out: &mut Vec<MetricSnapshot>)
    requires
        indexed(old(list)@),
    ensures
        indexed(final(list)@),
        metrics_view(final(list)@) == cleared(metrics_view(old(list)@)),
        snapshots_view(final(out)@) == snapshots_view(old(out)@) + in_use(
            metrics_view(old(list)@),
        ).map_values(|m: Metric<K::V>| K::snapshot_of(m)),
{
    let ghost before = metrics_view(list@);
    let ghost given = snapshots_view(out@);
    let ghost snap = |m: Metric<K::V>| K::snapshot_of(m);
    let mut i: usize = 0;
    proof {
        reveal(Seq::filter);
        assert(snapshots_view(out@) =~= given + in_use(before.take(0)).map_values(snap));
    }
    while i < list.len()
        invariant
            i <= before.len(),
            list@.len() == before.len(),
            indexed(list@),
            snap == |m: Metric<K::V>| K::snapshot_of(m),
            snapshots_view(out@) == given + in_use(before.take(i as int)).map_values(snap),
            forall|j: int|
                0 <= j < i ==> metrics_view(list@)[j] == cleared_metric(#[trigger] before[j]),
            forall|j: int|
                i <= j < before.len() ==> metrics_view(list@)[j] == #[trigger] before[j],
        decreases before.len() - i,
    {
        let ghost held = metrics_view(list@)[i as int];
        let ghost seen = snapshots_view(out@);
        proof {
            lemma_in_use_push(before, i as int);
            assert(held == before[i as int]);
        }
        if list[i].data.len() > 0 {
            let snapshot = K::take_snapshot(&mut list[i]);
            out.push(snapshot);
            assert(snapshots_view(out@) =~= seen.push(K::snapshot_of(held)));
            assert(snapshots_view(out@) =~= given + in_use(before.take(i + 1)).map_values(snap));
            assert(metrics_view(list@)[i as int] == cleared_metric(held));
        } else {
            assert(without_exemplars(held.series) =~= held.series);
        }
        i = i + 1;
    }
    proof {
        assert(before.take(i as int) == before);
        assert(metrics_view(list@) =~= cleared(before));
    }
}

impl MetricsRegistry {
    /// Snapshot all metrics for encoding. Does not reset counters (cumulative).
    /// Exemplars are consumed (reset to `None`) on each collect: a fresh sample each interval.
    pub fn collect(&mut self) -> (snapshots: Vec<MetricSnapshot>)
        requires
            old(self).wf(),
        ensures
            final(self).wf(),
            snapshots_view(snapshots@) == collected(old(self)@),
            final(self)@ == after_collect(old(self)@),
    {
        let mut snapshots: Vec<MetricSnapshot> = Vec::new();
        collect_instruments(&mut self.counters, &mut snapshots);
        collect_instruments(&mut self.gauges, &mut snapshots);
        collect_instruments(&mut self.histograms, &mut snapshots);
        proof {
            assert(snapshots_view(snapshots@) =~= collected(old(self)@));
            lemma_cleared_distinct(old(self)@.counters);
            lemma_cleared_distinct(old(self)@.gauges);
            lemma_cleared_distinct(old(self)@.histograms);
            assert forall|i: int| 0 <= i < self@.histograms.len() implies sound_histogram(
                #[trigger] self@.histograms[i],
            ) by {
                let held = old(self)@.histograms[i];
                let now = self@.histograms[i];
                assert(sound_histogram(held));
                assert forall|j: int| 0 <= j < now.series.len() implies consistent(
                    (#[trigger] now.series[j]).value,
                    now.boundaries.len(),
                ) by {
                    assert(now.series[j].value == held.series[j].value);
                }
            }
        }
        snapshots
    }
}

} // verus!
