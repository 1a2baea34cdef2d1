//! Snapshots: what a collection of the metrics hands over for encoding.

use std::sync::Arc;

use vstd::prelude::*;

use crate::attrs::{owned_view, AttrView, Attrs};
use crate::exemplar::Exemplar;
use crate::histogram::{HistogramState, HistogramValue};
use crate::series::{Points, Series};

verus! {

// --- Data ---

/// A counter data point: (attrs, cumulative value, optional exemplar).
pub type CounterDataPoint = (Attrs, i64, Option<Exemplar>);

/// A gauge data point: (attrs, bits of the last value, optional exemplar).
pub type GaugeDataPoint = (Attrs, u64, Option<Exemplar>);

/// Snapshot of a single histogram data point. Doubles are carried by their bits.
pub struct HistogramDataPoint {
    pub attrs: Attrs,
    pub bucket_counts: Vec<u64>,
    pub sum: u64,
    pub count: u64,
    pub min: u64,
    pub max: u64,
    pub exemplar: Option<Exemplar>,
}

/// A snapshot of a single metric for encoding.
#[allow(inconsistent_fields)]
pub enum MetricSnapshot {
    Counter { name: String, description: String, data_points: Vec<CounterDataPoint> },
    Gauge { name: String, description: String, data_points: Vec<GaugeDataPoint> },
    Histogram {
        name: String,
        description: String,
        boundaries: Vec<u64>,
        data_points: Vec<HistogramDataPoint>,
    },
}

// --- Model ---

/// Model of a data point in a snapshot.
#[verifier::ext_equal]
pub struct PointView<V> {
    pub attrs: Seq<AttrView>,
    pub value: V,
    pub exemplar: Option<Exemplar>,
}

/// Model of a snapshot.
#[verifier::ext_equal]
#[allow(inconsistent_fields)]
pub enum SnapshotView {
    Counter { name: Seq<char>, description: Seq<char>, points: Seq<PointView<i64>> },
    Gauge { name: Seq<char>, description: Seq<char>, points: Seq<PointView<u64>> },
    Histogram {
        name: Seq<char>,
        description: Seq<char>,
        boundaries: Seq<u64>,
        points: Seq<PointView<HistogramValue>>,
    },
}

/// The data point that a triple stands for.
pub open spec fn triple_view<V>(point: (Attrs, V, Option<Exemplar>)) -> PointView<V> {
    PointView { attrs: owned_view(point.0@), value: point.1, exemplar: point.2 }
}

impl View for HistogramDataPoint {
    type V = PointView<HistogramValue>;

    open spec fn view(&self) -> PointView<HistogramValue> {
        PointView {
            attrs: owned_view(self.attrs@),
            value: HistogramValue {
                bucket_counts: self.bucket_counts@,
                sum: self.sum,
                count: self.count,
                min: self.min,
                max: self.max,
            },
            exemplar: self.exemplar,
        }
    }
}

impl View for MetricSnapshot {
    type V = SnapshotView;

    open spec fn view(&self) -> SnapshotView {
        match *self {
            MetricSnapshot::Counter { name, description, data_points } => SnapshotView::Counter {
                name: name@,
                description: description@,
                points: data_points@.map_values(|p: CounterDataPoint| triple_view(p)),
            },
            MetricSnapshot::Gauge { name, description, data_points } => SnapshotView::Gauge {
                name: name@,
                description: description@,
                points: data_points@.map_values(|p: GaugeDataPoint| triple_view(p)),
            },
            MetricSnapshot::Histogram { name, description, boundaries, data_points } =>
                SnapshotView::Histogram {
                name: name@,
                description: description@,
                boundaries: boundaries@,
                points: data_points@.map_values(|p: HistogramDataPoint| p@),
            },
        }
    }
}

/// The snapshots that a list of them stands for.
pub open spec fn snapshots_view(snapshots: Seq<MetricSnapshot>) -> Seq<SnapshotView> {
    snapshots.map_values(|s: MetricSnapshot| s@)
}

/// The snapshot of a data point.
pub open spec fn point_of<V>(series: Series<V>) -> PointView<V> {
    PointView { attrs: series.attrs, value: series.value, exemplar: series.exemplar }
}

/// The snapshots of all data points.
pub open spec fn points_of<V>(series: Seq<Series<V>>) -> Seq<PointView<V>> {
    series.map_values(|s: Series<V>| point_of(s))
}

/// A data point whose exemplar was handed over.
pub open spec fn without_exemplar<V>(series: Series<V>) -> Series<V> {
    Series { exemplar: None, ..series }
}

/// The data points after their exemplars were handed over.
pub open spec fn without_exemplars<V>(series: Seq<Series<V>>) -> Seq<Series<V>> {
    series.map_values(|s: Series<V>| without_exemplar(s))
}

// --- Collection ---

/// `Arc::clone`: another handle to the same attributes.
///
/// Trusted of the standard library: the clone points to the very value that its source does.
#[verifier::external_body]
fn share(attrs: &Attrs) -> (shared: Attrs)
    ensures
        shared == *attrs,
{
    Arc::clone(attrs)
}

/// Hand over the data points of a counter or a gauge. The exemplars go with them.
pub(crate) fn drain_points<V: View<V = V> + Copy>(
    data: &mut Points<V>,
) -> (points: Vec<(Attrs, V, Option<Exemplar>)>)
    requires
        old(data).wf(),
        forall|v: V| #[trigger] v@ == v,
    ensures
        final(data).wf(),
        points@.map_values(|p: (Attrs, V, Option<Exemplar>)| triple_view(p)) == points_of(
            old(data)@,
        ),
        final(data)@ == without_exemplars(old(data)@),
{
    let ghost before = data@;
    let mut points: Vec<(Attrs, V, Option<Exemplar>)> = Vec::new();
    let mut i: usize = 0;
    while i < data.len()
        invariant
            data.wf(),
            i <= before.len(),
            data@.len() == before.len(),
            points@.len() == i,
            forall|v: V| #[trigger] v@ == v,
            forall|j: int| 0 <= j < i ==> data@[j] == without_exemplar(#[trigger] before[j]),
            forall|j: int| i <= j < before.len() ==> data@[j] == #[trigger] before[j],
            forall|j: int|
                0 <= j < i ==> triple_view(#[trigger] points@[j]) == point_of(before[j]),
        decreases before.len() - i,
    {
        let attrs = share(data.attrs(i));
        let value: V = *data.value(i);
        let exemplar = data.take_exemplar(i);
        points.push((attrs, value, exemplar));
        i = i + 1;
    }
    assert(data@ =~= without_exemplars(before));
    assert(points@.map_values(|p: (Attrs, V, Option<Exemplar>)| triple_view(p)) =~= points_of(
        before,
    ));
    points
}

/// Hand over the data points of a histogram. The exemplars go with them.
pub(crate) fn drain_histogram(data: &mut Points<HistogramState>) -> (points: Vec<
    HistogramDataPoint,
>)
    requires
        old(data).wf(),
    ensures
        final(data).wf(),
        points@.map_values(|p: HistogramDataPoint| p@) == points_of(old(data)@),
        final(data)@ == without_exemplars(old(data)@),
{
    let ghost before = data@;
    let mut points: Vec<HistogramDataPoint> = Vec::new();
    let mut i: usize = 0;
    while i < data.len()
        invariant
            data.wf(),
            i <= before.len(),
            data@.len() == before.len(),
            points@.len() == i,
            forall|j: int| 0 <= j < i ==> data@[j] == without_exemplar(#[trigger] before[j]),
            forall|j: int| i <= j < before.len() ==> data@[j] == #[trigger] before[j],
            forall|j: int| 0 <= j < i ==> (#[trigger] points@[j])@ == point_of(before[j]),
        decreases before.len() - i,
    {
        let attrs = share(data.attrs(i));
        let state = data.value(i).duplicate();
        let exemplar = data.take_exemplar(i);
        points.push(
            HistogramDataPoint {
                attrs,
                bucket_counts: state.bucket_counts,
                sum: state.sum,
                count: state.count,
                min: state.min,
                max: state.max,
                exemplar,
            },
        );
        i = i + 1;
    }
    assert(data@ =~= without_exemplars(before));
    assert(points@.map_values(|p: HistogramDataPoint| p@) =~= points_of(before));
    points
}

} // verus!
