//! What instruments hold after any run of events, from the creation of an instrument on.

use vstd::prelude::*;

use crate::attrs::{sorted_attrs, AttrView};
use crate::double::ZERO;
use crate::exemplar::Exemplar;
use crate::histogram::{
    all_numbers, ascending, bucket_of, law_data_point_summarises, observed, observed_all, sighted,
    summarises, unobserved,
};
use crate::metric_laws::{law_counter_accumulates, law_histogram_accumulates, lemma_cleared_value};
use crate::metrics::{
    after_collect, counter_added, counter_fits, counter_value, distinct, gauge_set, has_name,
    histogram_observed, histogram_value, lemma_cleared_distinct, lemma_measured_distinct, opened,
    Metric, RegistryView,
};
use crate::series::{distinct_attrs, has_point, law_recorded_value, position, value_or, Series};
use crate::snapshot::without_exemplars;

verus! {

/// What can happen to a registry. A histogram's value comes with the sum that it led to.
pub enum Event {
    OpenCounter { name: Seq<char>, description: Seq<char> },
    OpenGauge { name: Seq<char>, description: Seq<char> },
    OpenHistogram { name: Seq<char>, description: Seq<char>, boundaries: Seq<u64> },
    Add { id: nat, value: u64, attrs: Seq<AttrView>, exemplar: Option<Exemplar> },
    Assign { id: nat, value: u64, attrs: Seq<AttrView>, exemplar: Option<Exemplar> },
    Observe {
        id: nat,
        value: u64,
        attrs: Seq<AttrView>,
        sum: u64,
        exemplar: Option<Exemplar>,
    },
    Collect,
}

/// Whether an event can happen: its instrument is there, and an increment stays within range.
pub open spec fn can_happen(registry: RegistryView, event: Event) -> bool {
    match event {
        Event::Add { id, value, attrs, .. } => id < registry.counters.len() && counter_fits(
            registry,
            id,
            value,
            attrs,
        ),
        Event::Assign { id, .. } => id < registry.gauges.len(),
        Event::Observe { id, .. } => id < registry.histograms.len(),
        _ => true,
    }
}

/// The registry after an event.
pub open spec fn happened(registry: RegistryView, event: Event) -> RegistryView {
    match event {
        Event::OpenCounter { name, description } => RegistryView {
            counters: opened(registry.counters, name, description, Seq::empty()),
            ..registry
        },
        Event::OpenGauge { name, description } => RegistryView {
            gauges: opened(registry.gauges, name, description, Seq::empty()),
            ..registry
        },
        Event::OpenHistogram { name, description, boundaries } => RegistryView {
            histograms: opened(registry.histograms, name, description, boundaries),
            ..registry
        },
        Event::Add { id, value, attrs, exemplar } => counter_added(
            registry,
            id,
            value,
            attrs,
            exemplar,
        ),
        Event::Assign { id, value, attrs, exemplar } => gauge_set(
            registry,
            id,
            value,
            attrs,
            exemplar,
        ),
        Event::Observe { id, value, attrs, sum, exemplar } => histogram_observed(
            registry,
            id,
            value,
            attrs,
            sum,
            exemplar,
        ),
        Event::Collect => after_collect(registry),
    }
}

/// The registry after a run of events.
pub open spec fn ran(registry: RegistryView, events: Seq<Event>) -> RegistryView
    decreases events.len(),
{
    if events.len() == 0 {
        registry
    } else {
        happened(ran(registry, events.drop_last()), events.last())
    }
}

/// Whether every event of a run can happen when its turn comes.
pub open spec fn can_run(registry: RegistryView, events: Seq<Event>) -> bool
    decreases events.len(),
{
    events.len() == 0 || can_run(registry, events.drop_last()) && can_happen(
        ran(registry, events.drop_last()),
        events.last(),
    )
}

/// What was added to a counter under the attributes, in all.
pub open spec fn added(events: Seq<Event>, id: nat, attrs: Seq<AttrView>) -> nat
    decreases events.len(),
{
    if events.len() == 0 {
        0
    } else {
        added(events.drop_last(), id, attrs) + match events.last() {
            Event::Add { id: i, value, attrs: a, .. } => if i == id && sorted_attrs(a)
                == sorted_attrs(attrs) {
                value as nat
            } else {
                0
            },
            _ => 0,
        }
    }
}

/// What a gauge was set to under the attributes, one after the other.
pub open spec fn settings(events: Seq<Event>, id: nat, attrs: Seq<AttrView>) -> Seq<u64>
    decreases events.len(),
{
    if events.len() == 0 {
        Seq::empty()
    } else {
        let before = settings(events.drop_last(), id, attrs);
        match events.last() {
            Event::Assign { id: i, value, attrs: a, .. } => if i == id && sorted_attrs(a)
                == sorted_attrs(attrs) {
                before.push(value)
            } else {
                before
            },
            _ => before,
        }
    }
}

/// What a histogram was given under the attributes, one after the other.
pub open spec fn sightings(events: Seq<Event>, id: nat, attrs: Seq<AttrView>) -> Seq<(u64, u64)>
    decreases events.len(),
{
    if events.len() == 0 {
        Seq::empty()
    } else {
        let before = sightings(events.drop_last(), id, attrs);
        match events.last() {
            Event::Observe { id: i, value, attrs: a, sum, .. } => if i == id && sorted_attrs(a)
                == sorted_attrs(attrs) {
                before.push((value, sum))
            } else {
                before
            },
            _ => before,
        }
    }
}

/// No two instruments of a kind have the same name, no two data points of one the same attributes.
pub open spec fn all_distinct(registry: RegistryView) -> bool {
    distinct(registry.counters) && distinct(registry.gauges) && distinct(registry.histograms)
}

proof fn lemma_opened_distinct<V>(
    metrics: Seq<Metric<V>>,
    name: Seq<char>,
    description: Seq<char>,
    boundaries: Seq<u64>,
)
    requires
        distinct(metrics),
    ensures
        distinct(opened(metrics, name, description, boundaries)),
{
    let after = opened(metrics, name, description, boundaries);
    if !has_name(metrics, name) {
        assert forall|i: int, j: int| 0 <= i < j < after.len() implies (#[trigger] after[i]).name
            != (#[trigger] after[j]).name by {
            assert(after[i] == metrics[i]);
            if j < metrics.len() {
                assert(after[j] == metrics[j]);
            }
        }
        assert forall|i: int| 0 <= i < after.len() implies distinct_attrs(
            (#[trigger] after[i]).series,
        ) by {
            if i < metrics.len() {
                assert(after[i] == metrics[i]);
            }
        }
    }
}

proof fn lemma_happened_distinct(registry: RegistryView, event: Event)
    requires
        all_distinct(registry),
        can_happen(registry, event),
    ensures
        all_distinct(happened(registry, event)),
{
    match event {
        Event::OpenCounter { name, description } => {
            lemma_opened_distinct(registry.counters, name, description, Seq::empty());
        },
        Event::OpenGauge { name, description } => {
            lemma_opened_distinct(registry.gauges, name, description, Seq::empty());
        },
        Event::OpenHistogram { name, description, boundaries } => {
            lemma_opened_distinct(registry.histograms, name, description, boundaries);
        },
        Event::Add { id, value, attrs, exemplar } => {
            lemma_measured_distinct(
                registry.counters,
                id as int,
                attrs,
                (counter_value(registry, id, attrs) + value) as i64,
                exemplar,
            );
        },
        Event::Assign { id, value, attrs, exemplar } => {
            lemma_measured_distinct(registry.gauges, id as int, attrs, value, exemplar);
        },
        Event::Observe { id, value, attrs, sum, exemplar } => {
            lemma_measured_distinct(
                registry.histograms,
                id as int,
                attrs,
                observed(
                    histogram_value(registry, id, attrs),
                    bucket_of(registry.histograms[id as int].boundaries, value),
                    value,
                    sum,
                ),
                exemplar,
            );
        },
        Event::Collect => {
            lemma_cleared_distinct(registry.counters);
            lemma_cleared_distinct(registry.gauges);
            lemma_cleared_distinct(registry.histograms);
        },
    }
}

proof fn lemma_cleared_point<V>(series: Seq<Series<V>>, sorted: Seq<AttrView>)
    ensures
        has_point(without_exemplars(series), sorted) <==> has_point(series, sorted),
{
    let after = without_exemplars(series);
    if has_point(series, sorted) {
        let at = position(series, sorted);
        assert(after[at].attrs == sorted);
    }
    if has_point(after, sorted) {
        let at = position(after, sorted);
        assert(series[at].attrs == sorted);
    }
}

// --- Counters ---

/// A counter holds the sum of all increments under the attributes, from its creation on, however
/// the attributes were ordered and whatever else was measured or collected between.
pub proof fn law_counter_holds_the_sum(
    registry: RegistryView,
    events: Seq<Event>,
    id: nat,
    attrs: Seq<AttrView>,
)
    requires
        all_distinct(registry),
        can_run(registry, events),
        id < registry.counters.len(),
        registry.counters[id as int].series.len() == 0,
    ensures
        all_distinct(ran(registry, events)),
        id < ran(registry, events).counters.len(),
        counter_value(ran(registry, events), id, attrs) == added(events, id, attrs),
    decreases events.len(),
{
    if events.len() > 0 {
        let rest = events.drop_last();
        let before = ran(registry, rest);
        law_counter_holds_the_sum(registry, rest, id, attrs);
        lemma_happened_distinct(before, events.last());
        match events.last() {
            Event::Add { id: i, value, attrs: a, exemplar } => {
                if i == id {
                    law_counter_accumulates(before, id, value, a, exemplar, attrs);
                    if sorted_attrs(a) == sorted_attrs(attrs) {
                        let after = happened(before, events.last());
                        assert(counter_value(after, id, attrs) == counter_value(after, id, a));
                        assert(counter_value(before, id, attrs) == counter_value(before, id, a));
                    }
                }
            },
            Event::Collect => {
                lemma_cleared_value(before.counters[id as int].series, attrs, 0i64);
            },
            _ => {},
        }
    }
}

proof fn lemma_shorter_run(
    registry: RegistryView,
    events: Seq<Event>,
    n: int,
    id: nat,
    attrs: Seq<AttrView>,
)
    requires
        can_run(registry, events),
        0 <= n <= events.len(),
    ensures
        can_run(registry, events.take(n)),
        added(events.take(n), id, attrs) <= added(events, id, attrs),
    decreases events.len(),
{
    if n == events.len() {
        assert(events.take(n) =~= events);
    } else {
        assert(events.drop_last().take(n) =~= events.take(n));
        lemma_shorter_run(registry, events.drop_last(), n, id, attrs);
    }
}

/// What a counter holds at the end of a run is never less than what it held at any point of it.
pub proof fn law_counter_run_monotonic(
    registry: RegistryView,
    events: Seq<Event>,
    n: int,
    id: nat,
    attrs: Seq<AttrView>,
)
    requires
        all_distinct(registry),
        can_run(registry, events),
        0 <= n <= events.len(),
        id < registry.counters.len(),
        registry.counters[id as int].series.len() == 0,
    ensures
        counter_value(ran(registry, events.take(n)), id, attrs) <= counter_value(
            ran(registry, events),
            id,
            attrs,
        ),
{
    lemma_shorter_run(registry, events, n, id, attrs);
    law_counter_holds_the_sum(registry, events.take(n), id, attrs);
    law_counter_holds_the_sum(registry, events, id, attrs);
}

// --- Gauges ---

/// A gauge holds the last value that it was set to under the attributes, and none before it was.
pub proof fn law_gauge_holds_the_last(
    registry: RegistryView,
    events: Seq<Event>,
    id: nat,
    attrs: Seq<AttrView>,
    initial: u64,
)
    requires
        all_distinct(registry),
        can_run(registry, events),
        id < registry.gauges.len(),
        registry.gauges[id as int].series.len() == 0,
    ensures
        all_distinct(ran(registry, events)),
        id < ran(registry, events).gauges.len(),
        value_or(ran(registry, events).gauges[id as int].series, attrs, initial) == if settings(
            events,
            id,
            attrs,
        ).len() > 0 {
            settings(events, id, attrs).last()
        } else {
            initial
        },
    decreases events.len(),
{
    if events.len() > 0 {
        let rest = events.drop_last();
        let before = ran(registry, rest);
        law_gauge_holds_the_last(registry, rest, id, attrs, initial);
        lemma_happened_distinct(before, events.last());
        match events.last() {
            Event::Assign { id: i, value, attrs: a, exemplar } => {
                if i == id {
                    law_recorded_value(
                        before.gauges[id as int].series,
                        a,
                        value,
                        exemplar,
                        attrs,
                        initial,
                    );
                }
            },
            Event::Collect => {
                lemma_cleared_value(before.gauges[id as int].series, attrs, initial);
            },
            _ => {},
        }
    }
}

// --- Histograms ---

/// What a histogram holds is what it was given, one value after the other.
proof fn lemma_histogram_run(
    registry: RegistryView,
    events: Seq<Event>,
    id: nat,
    attrs: Seq<AttrView>,
)
    requires
        all_distinct(registry),
        can_run(registry, events),
        id < registry.histograms.len(),
        registry.histograms[id as int].series.len() == 0,
    ensures
        all_distinct(ran(registry, events)),
        id < ran(registry, events).histograms.len(),
        ran(registry, events).histograms[id as int].boundaries
            == registry.histograms[id as int].boundaries,
        has_point(ran(registry, events).histograms[id as int].series, sorted_attrs(attrs))
            <==> sightings(events, id, attrs).len() > 0,
        histogram_value(ran(registry, events), id, attrs) == observed_all(
            unobserved(registry.histograms[id as int].boundaries.len() + 1),
            registry.histograms[id as int].boundaries,
            sightings(events, id, attrs),
        ),
    decreases events.len(),
{
    let slot = id as int;
    if events.len() > 0 {
        let rest = events.drop_last();
        let before = ran(registry, rest);
        let after = happened(before, events.last());
        lemma_histogram_run(registry, rest, id, attrs);
        lemma_happened_distinct(before, events.last());
        let unseen = unobserved(before.histograms[slot].boundaries.len() + 1);
        match events.last() {
            Event::Observe { id: i, value, attrs: a, sum, exemplar } => {
                if i == id {
                    law_histogram_accumulates(before, id, value, a, sum, exemplar, attrs);
                    law_recorded_value(
                        before.histograms[slot].series,
                        a,
                        histogram_value(after, id, a),
                        exemplar,
                        attrs,
                        unseen,
                    );
                    if sorted_attrs(a) == sorted_attrs(attrs) {
                        assert(histogram_value(after, id, attrs) == histogram_value(after, id, a));
                        assert(histogram_value(before, id, attrs) == histogram_value(
                            before,
                            id,
                            a,
                        ));
                        assert(sightings(events, id, attrs).drop_last() =~= sightings(
                            rest,
                            id,
                            attrs,
                        ));
                    }
                }
            },
            Event::Collect => {
                lemma_cleared_value(before.histograms[slot].series, attrs, unseen);
                lemma_cleared_point(before.histograms[slot].series, sorted_attrs(attrs));
            },
            _ => {},
        }
    }
}

/// The sum that the sightings led to: zero before the first.
pub open spec fn last_sum(sightings: Seq<(u64, u64)>) -> u64 {
    if sightings.len() == 0 {
        ZERO
    } else {
        sightings.last().1
    }
}

/// Whether every sum of a run is made by `plus` from the one before it under the same attributes
/// and the new value.
pub open spec fn sums_by(
    registry: RegistryView,
    events: Seq<Event>,
    plus: spec_fn(u64, u64) -> u64,
) -> bool
    decreases events.len(),
{
    events.len() == 0 || sums_by(registry, events.drop_last(), plus) && match events.last() {
        Event::Observe { id, value, attrs, sum, .. } => sum == plus(
            histogram_value(ran(registry, events.drop_last()), id, attrs).sum,
            value,
        ),
        _ => true,
    }
}

/// The values added up by `plus`, one after the other, from zero.
pub open spec fn added_up(values: Seq<u64>, plus: spec_fn(u64, u64) -> u64) -> u64
    decreases values.len(),
{
    if values.len() == 0 {
        ZERO
    } else {
        plus(added_up(values.drop_last(), plus), values.last())
    }
}

proof fn lemma_last_sum(boundaries: Seq<u64>, sightings: Seq<(u64, u64)>)
    ensures
        observed_all(unobserved(boundaries.len() + 1), boundaries, sightings).sum == last_sum(
            sightings,
        ),
{
}

/// The sum of a data point is all that was observed under its attributes, numbers or not, added up
/// from zero in the order of the observations, by whatever addition they were made with.
pub proof fn law_histogram_adds_up(
    registry: RegistryView,
    events: Seq<Event>,
    id: nat,
    attrs: Seq<AttrView>,
    plus: spec_fn(u64, u64) -> u64,
)
    requires
        all_distinct(registry),
        can_run(registry, events),
        id < registry.histograms.len(),
        registry.histograms[id as int].series.len() == 0,
        sums_by(registry, events, plus),
    ensures
        histogram_value(ran(registry, events), id, attrs).sum == added_up(
            sighted(sightings(events, id, attrs)),
            plus,
        ),
    decreases events.len(),
{
    let boundaries = registry.histograms[id as int].boundaries;
    let all = sightings(events, id, attrs);
    lemma_histogram_run(registry, events, id, attrs);
    lemma_last_sum(boundaries, all);
    if events.len() > 0 {
        let rest = events.drop_last();
        let before = sightings(rest, id, attrs);
        lemma_histogram_run(registry, rest, id, attrs);
        lemma_last_sum(boundaries, before);
        law_histogram_adds_up(registry, rest, id, attrs, plus);
        match events.last() {
            Event::Observe { id: i, value, attrs: a, sum, .. } => {
                if i == id && sorted_attrs(a) == sorted_attrs(attrs) {
                    assert(sighted(all).drop_last() =~= sighted(before));
                    assert(sighted(all).last() == value);
                    assert(histogram_value(ran(registry, rest), id, a) == histogram_value(
                        ran(registry, rest),
                        id,
                        attrs,
                    ));
                }
            },
            _ => {},
        }
    }
}

/// In every state each data point of a histogram says of the numbers that were observed under its
/// attributes, and of no others, how many lie in the range of each bucket, how many there are,
/// which are the least and the greatest, and the sum that the last one led to; there is one as soon
/// as something was observed.
pub proof fn law_histogram_counts_what_was_observed(
    registry: RegistryView,
    events: Seq<Event>,
    id: nat,
    attrs: Seq<AttrView>,
)
    requires
        all_distinct(registry),
        can_run(registry, events),
        id < registry.histograms.len(),
        registry.histograms[id as int].series.len() == 0,
        ascending(registry.histograms[id as int].boundaries),
        all_numbers(registry.histograms[id as int].boundaries),
        all_numbers(sighted(sightings(events, id, attrs))),
        sightings(events, id, attrs).len() <= u64::MAX,
    ensures
        ({
            let after = ran(registry, events);
            let seen = sighted(sightings(events, id, attrs));
            &&& id < after.histograms.len()
            &&& after.histograms[id as int].boundaries == registry.histograms[id as int].boundaries
            &&& has_point(after.histograms[id as int].series, sorted_attrs(attrs)) <==> seen.len()
                > 0
            &&& summarises(
                histogram_value(after, id, attrs),
                registry.histograms[id as int].boundaries,
                seen,
            )
            &&& histogram_value(after, id, attrs).sum == last_sum(sightings(events, id, attrs))
        }),
{
    lemma_histogram_run(registry, events, id, attrs);
    lemma_last_sum(
        registry.histograms[id as int].boundaries,
        sightings(events, id, attrs),
    );
    law_data_point_summarises(
        registry.histograms[id as int].boundaries,
        sightings(events, id, attrs),
    );
}

} // verus!
