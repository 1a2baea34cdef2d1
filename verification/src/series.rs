//! The data points of one instrument.

use std::collections::HashMap;

use vstd::prelude::*;

use crate::attrs::{
    attrs_key, law_attrs_key_order, law_sorted_attrs, law_sorted_attrs_order, owned_view,
    sorted_attrs, AttrView, Attrs,
};
use crate::exemplar::Exemplar;

verus! {

broadcast use vstd::std_specs::hash::group_hash_axioms;

/// Model of a data point: its sorted attributes, its value, its exemplar.
#[verifier::ext_equal]
pub struct Series<V> {
    pub attrs: Seq<AttrView>,
    pub value: V,
    pub exemplar: Option<Exemplar>,
}

/// Whether some data point has the sorted attributes.
pub open spec fn has_point<V>(series: Seq<Series<V>>, sorted: Seq<AttrView>) -> bool {
    exists|i: int| 0 <= i < series.len() && (#[trigger] series[i]).attrs == sorted
}

/// Where the data point with the sorted attributes stands.
pub open spec fn position<V>(series: Seq<Series<V>>, sorted: Seq<AttrView>) -> int {
    choose|i: int| 0 <= i < series.len() && (#[trigger] series[i]).attrs == sorted
}

/// No two data points have the same attributes.
pub open spec fn distinct_attrs<V>(series: Seq<Series<V>>) -> bool {
    forall|i: int, j: int|
        0 <= i < j < series.len() ==> (#[trigger] series[i]).attrs != (#[trigger] series[j]).attrs
}

/// The value under the attributes, or `initial` where there is none yet.
pub open spec fn value_or<V>(series: Seq<Series<V>>, attrs: Seq<AttrView>, initial: V) -> V {
    if has_point(series, sorted_attrs(attrs)) {
        series[position(series, sorted_attrs(attrs))].value
    } else {
        initial
    }
}

/// The data points after a measurement brought the one under `attrs` to `value`. A first
/// measurement adds a data point; an exemplar that was captured replaces the one before.
pub open spec fn recorded<V>(
    series: Seq<Series<V>>,
    attrs: Seq<AttrView>,
    value: V,
    exemplar: Option<Exemplar>,
) -> Seq<Series<V>> {
    let sorted = sorted_attrs(attrs);
    if has_point(series, sorted) {
        let at = position(series, sorted);
        series.update(
            at,
            Series {
                value,
                exemplar: if exemplar is Some {
                    exemplar
                } else {
                    series[at].exemplar
                },
                ..series[at]
            },
        )
    } else {
        series.push(Series { attrs: sorted, value, exemplar })
    }
}

/// A data point is found where it stands.
pub proof fn lemma_position<V>(series: Seq<Series<V>>, at: int)
    requires
        distinct_attrs(series),
        0 <= at < series.len(),
    ensures
        has_point(series, series[at].attrs),
        position(series, series[at].attrs) == at,
{
    let found = position(series, series[at].attrs);
    assert(0 <= found < series.len() && series[found].attrs == series[at].attrs);
}

/// A measurement brings the data point under its attributes to the new value and leaves every
/// other one as it was.
pub proof fn law_recorded_value<V>(
    series: Seq<Series<V>>,
    attrs: Seq<AttrView>,
    value: V,
    exemplar: Option<Exemplar>,
    other: Seq<AttrView>,
    initial: V,
)
    requires
        distinct_attrs(series),
    ensures
        distinct_attrs(recorded(series, attrs, value, exemplar)),
        has_point(recorded(series, attrs, value, exemplar), sorted_attrs(other)) <==> sorted_attrs(
            other,
        ) == sorted_attrs(attrs) || has_point(series, sorted_attrs(other)),
        value_or(recorded(series, attrs, value, exemplar), other, initial) == if sorted_attrs(other)
            == sorted_attrs(attrs) {
            value
        } else {
            value_or(series, other, initial)
        },
{
    let after = recorded(series, attrs, value, exemplar);
    let sorted = sorted_attrs(attrs);
    let sought = sorted_attrs(other);
    assert forall|i: int, j: int| 0 <= i < j < after.len() implies (#[trigger] after[i]).attrs != (
    #[trigger] after[j]).attrs by {
        assert(after[i].attrs == series[i].attrs);
        if j < series.len() {
            assert(after[j].attrs == series[j].attrs);
        }
    }
    if has_point(series, sorted) {
        let at = position(series, sorted);
        assert(after[at].attrs == sorted);
        lemma_position(after, at);
        if has_point(series, sought) {
            let there = position(series, sought);
            assert(after[there].attrs == sought);
            lemma_position(after, there);
        } else if has_point(after, sought) {
            assert(series[position(after, sought)].attrs == sought);
        }
    } else {
        lemma_position(after, series.len() as int);
        if has_point(series, sought) {
            let there = position(series, sought);
            assert(after[there] == series[there]);
            lemma_position(after, there);
        } else if has_point(after, sought) && sought != sorted {
            assert(series[position(after, sought)].attrs == sought);
        }
    }
}

/// Attribute order does not matter: the same measurement under the same attributes in another order
/// leaves the same data points.
pub proof fn law_recorded_order<V>(
    series: Seq<Series<V>>,
    a: Seq<AttrView>,
    b: Seq<AttrView>,
    value: V,
    exemplar: Option<Exemplar>,
    initial: V,
)
    requires
        a.to_multiset() == b.to_multiset(),
    ensures
        recorded(series, a, value, exemplar) == recorded(series, b, value, exemplar),
        value_or(series, a, initial) == value_or(series, b, initial),
{
    law_sorted_attrs_order(a, b);
}

/// A data point as it is kept: the key of its attributes, and the one before it that has the same
/// key.
pub struct Point<V> {
    key: u64,
    earlier: Option<usize>,
    attrs: Attrs,
    value: V,
    exemplar: Option<Exemplar>,
}

impl<V: View> View for Point<V> {
    type V = Series<V::V>;

    closed spec fn view(&self) -> Series<V::V> {
        Series { attrs: owned_view(self.attrs@), value: self.value@, exemplar: self.exemplar }
    }
}

/// Whether two lists hold the same pairs.
fn same_attrs(a: &Attrs, b: &Attrs) -> (same: bool)
    ensures
        same == (owned_view(a@) == owned_view(b@)),
{
    let x: &Vec<(String, String)> = &**a;
    let y: &Vec<(String, String)> = &**b;
    if x.len() != y.len() {
        assert(owned_view(a@).len() != owned_view(b@).len());
        return false;
    }
    let mut i: usize = 0;
    while i < x.len()
        invariant
            i <= x@.len(),
            x@.len() == y@.len(),
            x@ == a@,
            y@ == b@,
            forall|j: int| 0 <= j < i ==> #[trigger] owned_view(x@)[j] == owned_view(y@)[j],
        decreases x@.len() - i,
    {
        if x[i].0 != y[i].0 || x[i].1 != y[i].1 {
            assert(owned_view(a@)[i as int] != owned_view(b@)[i as int]);
            return false;
        }
        i = i + 1;
    }
    assert(owned_view(a@) =~= owned_view(b@));
    true
}

/// The data points of an instrument. The index holds the last one with each key; from there the
/// earlier ones with that key can be followed.
pub struct Points<V> {
    index: HashMap<u64, usize>,
    points: Vec<Point<V>>,
}

impl<V: View> View for Points<V> {
    type V = Seq<Series<V::V>>;

    closed spec fn view(&self) -> Seq<Series<V::V>> {
        series_of(self.points@)
    }
}

/// Whether `link` leads from behind `end` to the last point before it that has the key.
spec fn links<V>(points: Seq<Point<V>>, end: int, key: u64, link: Option<usize>) -> bool {
    match link {
        Some(at) => at < end && points[at as int].key == key && forall|k: int|
            at < k < end ==> (#[trigger] points[k]).key != key,
        None => forall|k: int| 0 <= k < end ==> (#[trigger] points[k]).key != key,
    }
}

/// Where an index says that the last point with the key is.
spec fn entry(index: Map<u64, usize>, key: u64) -> Option<usize> {
    if index.contains_key(key) {
        Some(index[key])
    } else {
        None
    }
}

/// The data points that a list stands for.
spec fn series_of<V: View>(points: Seq<Point<V>>) -> Seq<Series<V::V>> {
    points.map_values(|p: Point<V>| p@)
}

/// Every point has the key of its attributes and leads to the one before it with that key, the
/// index leads to the last, and no two points have the same attributes.
spec fn in_order<V: View>(index: Map<u64, usize>, points: Seq<Point<V>>) -> bool {
    &&& forall|i: int|
        0 <= i < points.len() ==> (#[trigger] points[i]).key == attrs_key(
            owned_view(points[i].attrs@),
        )
    &&& forall|i: int|
        0 <= i < points.len() ==> links(points, i, (#[trigger] points[i]).key, points[i].earlier)
    &&& forall|key: u64| #[trigger] links(points, points.len() as int, key, entry(index, key))
    &&& distinct_attrs(series_of(points))
}

/// A change of value or exemplar alone leaves the points in order.
proof fn lemma_changed<V: View>(
    index: Map<u64, usize>,
    before: Seq<Point<V>>,
    after: Seq<Point<V>>,
)
    requires
        in_order(index, before),
        after.len() == before.len(),
        forall|i: int|
            0 <= i < before.len() ==> {
                &&& (#[trigger] after[i]).key == before[i].key
                &&& after[i].earlier == before[i].earlier
                &&& after[i].attrs == before[i].attrs
            },
    ensures
        in_order(index, after),
{
    assert forall|end: int, key: u64, link: Option<usize>|
        0 <= end <= before.len() && links(before, end, key, link) implies #[trigger] links(
        after,
        end,
        key,
        link,
    ) by {
        assert forall|k: int| 0 <= k < end implies (#[trigger] after[k]).key == before[k].key by {}
    }
    assert forall|i: int| 0 <= i < after.len() implies links(
        after,
        i,
        (#[trigger] after[i]).key,
        after[i].earlier,
    ) by {
        assert(links(before, i, before[i].key, before[i].earlier));
    }
    assert forall|key: u64| #[trigger] links(
        after,
        after.len() as int,
        key,
        entry(index, key),
    ) by {
        assert(links(before, before.len() as int, key, entry(index, key)));
    }
    let old_series = series_of(before);
    let series = series_of(after);
    assert forall|i: int, j: int| 0 <= i < j < series.len() implies (#[trigger] series[i]).attrs
        != (#[trigger] series[j]).attrs by {
        assert(series[i].attrs == old_series[i].attrs);
        assert(series[j].attrs == old_series[j].attrs);
    }
}

impl<V: View> Points<V> {
    /// The data points can be found by their attributes.
    pub closed spec fn wf(&self) -> bool {
        in_order(self.index@, self.points@)
    }

    pub(crate) fn new() -> (points: Points<V>)
        ensures
            points.wf(),
            points@ == Seq::<Series<V::V>>::empty(),
    {
        let points = Points { index: HashMap::new(), points: Vec::new() };
        assert(points@ =~= Seq::<Series<V::V>>::empty());
        points
    }

    /// Where the data point with the sorted attributes stands. `key` is their key.
    pub(crate) fn find(&self, key: u64, sorted: &Attrs) -> (at: Option<usize>)
        requires
            self.wf(),
            key == attrs_key(owned_view(sorted@)),
        ensures
            at is Some <==> has_point(self@, owned_view(sorted@)),
            at matches Some(i) ==> i < self@.len() && i == position(self@, owned_view(sorted@))
                && self@[i as int].attrs == owned_view(sorted@),
    {
        let mut end: usize = self.points.len();
        let mut link: Option<usize> = match self.index.get(&key) {
            Some(at) => Some(*at),
            None => None,
        };
        assert(links(self.points@, self.points@.len() as int, key, entry(self.index@, key)));
        loop
            invariant
                self.wf(),
                key == attrs_key(owned_view(sorted@)),
                end <= self.points@.len(),
                links(self.points@, end as int, key, link),
                forall|k: int|
                    end <= k < self.points@.len() ==> (#[trigger] self.points@[k])@.attrs
                        != owned_view(sorted@),
            decreases end,
        {
            let at: usize = match link {
                Some(at) => at,
                None => {
                    proof {
                        if has_point(self@, owned_view(sorted@)) {
                            let i = position(self@, owned_view(sorted@));
                            assert(self.points@[i]@ == self@[i]);
                            if i < end {
                                assert(self.points@[i].key != key);
                            }
                        }
                    }
                    return None;
                },
            };
            if same_attrs(&self.points[at].attrs, sorted) {
                proof {
                    assert(self@[at as int].attrs == owned_view(sorted@));
                    lemma_position(self@, at as int);
                }
                return Some(at);
            }
            proof {
                assert forall|k: int| at <= k < self.points@.len() implies (
                #[trigger] self.points@[k])@.attrs != owned_view(sorted@) by {
                    if at < k < end {
                        assert(self.points@[k].key != key);
                    }
                }
            }
            link = self.points[at].earlier;
            end = at;
        }
    }

    /// Add a data point under sorted attributes that have none yet. `key` is their key.
    pub(crate) fn insert(
        &mut self,
        key: u64,
        sorted: Attrs,
        value: V,
        exemplar: Option<Exemplar>,
    )
        requires
            old(self).wf(),
            key == attrs_key(owned_view(sorted@)),
            !has_point(old(self)@, owned_view(sorted@)),
        ensures
            final(self).wf(),
            final(self)@ == old(self)@.push(
                Series { attrs: owned_view(sorted@), value: value@, exemplar },
            ),
    {
        let at: usize = self.points.len();
        let ghost before = *self;
        let earlier: Option<usize> = match self.index.get(&key) {
            Some(last) => Some(*last),
            None => None,
        };
        self.index.insert(key, at);
        self.points.push(Point { key, earlier, attrs: sorted, value, exemplar });
        proof {
            let old_points = before.points@;
            let points = self.points@;
            assert(links(old_points, at as int, key, entry(before.index@, key)));
            assert forall|end: int, k: u64, link: Option<usize>|
                0 <= end <= at && links(old_points, end, k, link) implies #[trigger] links(
                points,
                end,
                k,
                link,
            ) by {
                assert forall|j: int| 0 <= j < end implies #[trigger] points[j]
                    == old_points[j] by {}
            }
            assert forall|i: int| 0 <= i < points.len() implies links(
                points,
                i,
                (#[trigger] points[i]).key,
                points[i].earlier,
            ) by {
                if i < at {
                    assert(points[i] == old_points[i]);
                    assert(links(old_points, i, old_points[i].key, old_points[i].earlier));
                }
            }
            assert forall|k: u64| #[trigger]
                links(points, points.len() as int, k, entry(self.index@, k)) by {
                if k != key {
                    assert(links(old_points, at as int, k, entry(before.index@, k)));
                    assert(links(points, at as int, k, entry(before.index@, k)));
                    assert(entry(self.index@, k) == entry(before.index@, k));
                    assert(points[at as int].key != k);
                }
            }
            assert(self@ =~= before@.push(
                Series { attrs: owned_view(sorted@), value: value@, exemplar },
            ));
            assert forall|i: int, j: int| 0 <= i < j < self@.len() implies (
            #[trigger] self@[i]).attrs != (#[trigger] self@[j]).attrs by {
                assert(self@[i] == before@[i]);
                if j < at {
                    assert(self@[j] == before@[j]);
                }
            }
        }
    }

    /// How many data points there are.
    pub(crate) fn len(&self) -> (len: usize)
        ensures
            len == self@.len(),
    {
        self.points.len()
    }

    /// The value of a data point.
    pub(crate) fn value(&self, at: usize) -> (value: &V)
        requires
            at < self@.len(),
        ensures
            value@ == self@[at as int].value,
    {
        &self.points[at].value
    }

    /// The attributes of a data point.
    pub(crate) fn attrs(&self, at: usize) -> (attrs: &Attrs)
        requires
            at < self@.len(),
        ensures
            owned_view(attrs@) == self@[at as int].attrs,
    {
        &self.points[at].attrs
    }

    /// The value of a data point, to be changed in place.
    pub(crate) fn value_mut(&mut self, at: usize) -> (value: &mut V)
        requires
            old(self).wf(),
            at < old(self)@.len(),
        ensures
            value@ == old(self)@[at as int].value,
            final(self).wf(),
            final(self)@ == old(self)@.update(
                at as int,
                Series { value: final(value)@, ..old(self)@[at as int] },
            ),
    {
        proof {
            let points = self.points@;
            let held = points[at as int];
            assert forall|p: Point<V>|
                p.key == held.key && p.earlier == held.earlier && p.attrs == held.attrs
                    && p.exemplar == held.exemplar implies in_order(
                self.index@,
                #[trigger] points.update(at as int, p),
            ) && series_of(points.update(at as int, p)) == self@.update(
                at as int,
                Series { value: p.value@, ..self@[at as int] },
            ) by {
                lemma_changed(self.index@, points, points.update(at as int, p));
                assert(series_of(points.update(at as int, p)) =~= self@.update(
                    at as int,
                    Series { value: p.value@, ..self@[at as int] },
                ));
            }
        }
        &mut self.points[at].value
    }

    /// Keep the exemplar that was captured, if one was.
    pub(crate) fn set_exemplar(&mut self, at: usize, exemplar: Option<Exemplar>)
        requires
            old(self).wf(),
            at < old(self)@.len(),
        ensures
            final(self).wf(),
            final(self)@ == old(self)@.update(
                at as int,
                Series {
                    exemplar: if exemplar is Some {
                        exemplar
                    } else {
                        old(self)@[at as int].exemplar
                    },
                    ..old(self)@[at as int]
                },
            ),
    {
        let ghost before = *self;
        if exemplar.is_some() {
            self.points[at].exemplar = exemplar;
        }
        proof {
            lemma_changed(self.index@, before.points@, self.points@);
            assert(self@ =~= before@.update(
                at as int,
                Series {
                    exemplar: if exemplar is Some {
                        exemplar
                    } else {
                        before@[at as int].exemplar
                    },
                    ..before@[at as int]
                },
            ));
        }
    }

    /// Bring a data point to `value`, and keep the exemplar that was captured, if one was.
    pub(crate) fn set(&mut self, at: usize, value: V, exemplar: Option<Exemplar>)
        requires
            old(self).wf(),
            at < old(self)@.len(),
        ensures
            final(self).wf(),
            final(self)@ == old(self)@.update(
                at as int,
                Series {
                    value: value@,
                    exemplar: if exemplar is Some {
                        exemplar
                    } else {
                        old(self)@[at as int].exemplar
                    },
                    ..old(self)@[at as int]
                },
            ),
    {
        let ghost before = *self;
        *self.value_mut(at) = value;
        self.set_exemplar(at, exemplar);
        proof {
            assert(self@ =~= before@.update(
                at as int,
                Series {
                    value: value@,
                    exemplar: if exemplar is Some {
                        exemplar
                    } else {
                        before@[at as int].exemplar
                    },
                    ..before@[at as int]
                },
            ));
        }
    }

    /// Bring the data point under the attributes to `value`; `at` is where it was found, if it was,
    /// `sorted` are its attributes and `key` is their key.
    pub(crate) fn record(
        &mut self,
        at: Option<usize>,
        key: u64,
        sorted: Attrs,
        value: V,
        exemplar: Option<Exemplar>,
    )
        requires
            old(self).wf(),
            key == attrs_key(owned_view(sorted@)),
            at is Some <==> has_point(old(self)@, owned_view(sorted@)),
            at matches Some(i) ==> i < old(self)@.len() && i == position(
                old(self)@,
                owned_view(sorted@),
            ),
        ensures
            final(self).wf(),
            forall|attrs: Seq<AttrView>|
                owned_view(sorted@) == #[trigger] sorted_attrs(attrs) ==> final(self)@ == recorded(
                    old(self)@,
                    attrs,
                    value@,
                    exemplar,
                ),
    {
        match at {
            Some(i) => self.set(i, value, exemplar),
            None => self.insert(key, sorted, value, exemplar),
        }
    }

    /// Give up the exemplar of a data point.
    pub(crate) fn take_exemplar(&mut self, at: usize) -> (exemplar: Option<Exemplar>)
        requires
            old(self).wf(),
            at < old(self)@.len(),
        ensures
            final(self).wf(),
            exemplar == old(self)@[at as int].exemplar,
            final(self)@ == old(self)@.update(
                at as int,
                Series { exemplar: None, ..old(self)@[at as int] },
            ),
    {
        let ghost before = *self;
        let exemplar = self.points[at].exemplar.take();
        proof {
            lemma_changed(self.index@, before.points@, self.points@);
            assert(self@ =~= before@.update(
                at as int,
                Series { exemplar: None, ..before@[at as int] },
            ));
        }
        exemplar
    }
}

/// Attributes in another order have the same key as when they are sorted.
pub proof fn law_sorted_key(attrs: Seq<AttrView>)
    ensures
        attrs_key(sorted_attrs(attrs)) == attrs_key(attrs),
{
    law_sorted_attrs(attrs);
    law_attrs_key_order(sorted_attrs(attrs), attrs);
}

} // verus!
