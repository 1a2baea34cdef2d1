//! Histogram buckets: the list of boundaries, the bucket of a value, and the running state of one
//! data point.

use vstd::prelude::*;

use crate::double::{
    double_is_nan, double_le, double_lt, is_nan, law_infinities_bound, le, lt, place, INFINITY,
    NEG_INFINITY, ZERO,
};

verus! {

// --- Boundaries ---

/// How many of `boundaries` are at or below `value`: the bucket that `value` falls into.
/// A value on a boundary belongs to the bucket above it.
pub open spec fn bucket_of(boundaries: Seq<u64>, value: u64) -> nat
    decreases boundaries.len(),
{
    if boundaries.len() == 0 {
        0
    } else {
        bucket_of(boundaries.drop_last(), value) + if le(boundaries.last(), value) {
            1nat
        } else {
            0
        }
    }
}

/// Boundaries from low to high, without repetition and without NaN.
pub open spec fn ascending(boundaries: Seq<u64>) -> bool {
    forall|i: int, j: int|
        0 <= i < j < boundaries.len() ==> lt(#[trigger] boundaries[i], #[trigger] boundaries[j])
}

/// No boundary is NaN.
pub open spec fn all_numbers(boundaries: Seq<u64>) -> bool {
    forall|i: int| 0 <= i < boundaries.len() ==> !is_nan(#[trigger] boundaries[i])
}

/// Boundaries from low to high, without repetition; what is not a number stands at the end.
pub open spec fn nans_last(boundaries: Seq<u64>) -> bool {
    forall|i: int, j: int|
        0 <= i < j < boundaries.len() ==> is_nan(#[trigger] boundaries[j]) || lt(
            #[trigger] boundaries[i],
            boundaries[j],
        )
}

/// Whether boundaries can be put in order: all are numbers, or what is not stands behind numbers of
/// one value. Nothing else that holds a NaN has an order, or a bucket for every value.
pub open spec fn sortable(given: Seq<u64>) -> bool {
    ||| all_numbers(given)
    ||| forall|i: int, j: int|
        0 <= i < j < given.len() ==> is_nan(#[trigger] given[j]) || !is_nan(#[trigger] given[i])
            && place(given[i]) == place(given[j])
}

/// `boundaries` with `new` put in its place, unless an equal boundary is there already. What is not
/// a number goes to the end.
pub open spec fn with_boundary(boundaries: Seq<u64>, new: u64) -> Seq<u64> {
    let at = bucket_of(boundaries, new) as int;
    if is_nan(new) {
        boundaries.push(new)
    } else if at > 0 && le(new, boundaries[at - 1]) {
        boundaries
    } else {
        boundaries.insert(at, new)
    }
}

/// The given boundaries in ascending order, the first of equal ones kept.
pub open spec fn normal_boundaries(given: Seq<u64>) -> Seq<u64>
    decreases given.len(),
{
    if given.len() == 0 {
        Seq::empty()
    } else {
        with_boundary(normal_boundaries(given.drop_last()), given.last())
    }
}

proof fn lemma_bucket_of(boundaries: Seq<u64>, value: u64, at: int)
    requires
        0 <= at <= boundaries.len(),
        forall|i: int| 0 <= i < at ==> le(#[trigger] boundaries[i], value),
        forall|i: int| at <= i < boundaries.len() ==> !le(#[trigger] boundaries[i], value),
    ensures
        bucket_of(boundaries, value) == at,
    decreases boundaries.len(),
{
    if boundaries.len() > 0 {
        let shorter = boundaries.drop_last();
        assert(le(boundaries.last(), value) <==> at == boundaries.len());
        lemma_bucket_of(
            shorter,
            value,
            if at == boundaries.len() {
                at - 1
            } else {
                at
            },
        );
    }
}

/// Where a value falls: at or above every boundary before its bucket, below every other.
pub proof fn law_bucket_placement(boundaries: Seq<u64>, value: u64)
    requires
        ascending(boundaries),
        all_numbers(boundaries),
        !is_nan(value),
    ensures
        bucket_of(boundaries, value) <= boundaries.len(),
        forall|i: int|
            0 <= i < bucket_of(boundaries, value) ==> le(#[trigger] boundaries[i], value),
        forall|i: int|
            bucket_of(boundaries, value) <= i < boundaries.len() ==> lt(
                value,
                #[trigger] boundaries[i],
            ),
    decreases boundaries.len(),
{
    if boundaries.len() > 0 {
        let shorter = boundaries.drop_last();
        law_bucket_placement(shorter, value);
        if le(boundaries.last(), value) {
            assert forall|i: int| 0 <= i < shorter.len() implies le(
                #[trigger] boundaries[i],
                value,
            ) by {
                assert(lt(boundaries[i], boundaries[boundaries.len() - 1]));
            }
            lemma_bucket_of(boundaries, value, boundaries.len() as int);
        } else {
            assert forall|i: int| 0 <= i < bucket_of(boundaries, value) implies le(
                #[trigger] boundaries[i],
                value,
            ) by {
                assert(boundaries[i] == shorter[i]);
            }
            assert forall|i: int| bucket_of(boundaries, value) <= i < boundaries.len() implies lt(
                value,
                #[trigger] boundaries[i],
            ) by {
                if i < shorter.len() {
                    assert(boundaries[i] == shorter[i]);
                }
            }
        }
    }
}

/// What is not a number falls into the first bucket.
pub proof fn law_bucket_of_nan(boundaries: Seq<u64>, value: u64)
    requires
        is_nan(value),
    ensures
        bucket_of(boundaries, value) == 0,
    decreases boundaries.len(),
{
    if boundaries.len() > 0 {
        law_bucket_of_nan(boundaries.drop_last(), value);
    }
}

proof fn lemma_with_boundary(boundaries: Seq<u64>, new: u64)
    requires
        ascending(boundaries),
        all_numbers(boundaries),
        !is_nan(new),
    ensures
        ascending(with_boundary(boundaries, new)),
        all_numbers(with_boundary(boundaries, new)),
        forall|b: u64| #[trigger] with_boundary(boundaries, new).contains(b) ==> boundaries.contains(b)
            || b == new,
        forall|b: u64| #[trigger] boundaries.contains(b) ==> with_boundary(boundaries, new).contains(b),
        exists|i: int|
            0 <= i < with_boundary(boundaries, new).len() && place(
                #[trigger] with_boundary(boundaries, new)[i],
            ) == place(new),
        with_boundary(boundaries, new).len() <= boundaries.len() + 1,
        with_boundary(boundaries, new) == boundaries || forall|i: int|
            0 <= i < boundaries.len() ==> place(#[trigger] boundaries[i]) != place(new),
{
    law_bucket_placement(boundaries, new);
    let at = bucket_of(boundaries, new) as int;
    let result = with_boundary(boundaries, new);
    if at > 0 && le(new, boundaries[at - 1]) {
        assert(place(result[at - 1]) == place(new));
    } else {
        assert(result[at] == new);
        assert forall|i: int| 0 <= i < boundaries.len() implies place(#[trigger] boundaries[i])
            != place(new) by {
            if i < at - 1 {
                assert(lt(boundaries[i], boundaries[at - 1]));
                assert(le(boundaries[at - 1], new));
            } else if i == at - 1 {
                assert(!le(new, boundaries[at - 1]));
            } else {
                assert(lt(new, boundaries[i]));
            }
        }
        assert forall|i: int, j: int| 0 <= i < j < result.len() implies lt(
            #[trigger] result[i],
            #[trigger] result[j],
        ) by {
            if j < at {
                assert(lt(boundaries[i], boundaries[j]));
            } else if i < at && j == at {
                if i < at - 1 {
                    assert(lt(boundaries[i], boundaries[at - 1]));
                }
                assert(le(boundaries[at - 1], new));
            } else if i < at {
                assert(lt(boundaries[i], boundaries[j - 1]));
            } else if i == at {
                assert(lt(new, boundaries[j - 1]));
            } else {
                assert(lt(boundaries[i - 1], boundaries[j - 1]));
            }
        }
        assert forall|i: int| 0 <= i < result.len() implies !is_nan(#[trigger] result[i]) by {
            if i < at {
                assert(result[i] == boundaries[i]);
            } else if i > at {
                assert(result[i] == boundaries[i - 1]);
            }
        }
        assert forall|b: u64| #[trigger] result.contains(b) implies boundaries.contains(b) || b
            == new by {
            let i = choose|i: int| 0 <= i < result.len() && result[i] == b;
            if i < at {
                assert(boundaries[i] == b);
            } else if i > at {
                assert(boundaries[i - 1] == b);
            }
        }
        assert forall|b: u64| #[trigger] boundaries.contains(b) implies result.contains(b) by {
            let i = choose|i: int| 0 <= i < boundaries.len() && boundaries[i] == b;
            if i < at {
                assert(result[i] == b);
            } else {
                assert(result[i + 1] == b);
            }
        }
    }
}

/// Whether `given[j]` is the first of its value.
pub open spec fn first_of_value(given: Seq<u64>, j: int) -> bool {
    0 <= j < given.len() && forall|k: int| 0 <= k < j ==> place(#[trigger] given[k]) != place(given[j])
}

/// Boundaries are sorted and deduplicated: strictly ascending, each the first given one of its
/// value, and every given one is there by value.
pub proof fn law_normal_boundaries(given: Seq<u64>)
    requires
        all_numbers(given),
    ensures
        ascending(normal_boundaries(given)),
        all_numbers(normal_boundaries(given)),
        normal_boundaries(given).len() <= given.len(),
        forall|b: u64| #[trigger]
            normal_boundaries(given).contains(b) ==> exists|j: int| #[trigger]
                first_of_value(given, j) && given[j] == b,
        forall|j: int|
            0 <= j < given.len() ==> exists|i: int|
                0 <= i < normal_boundaries(given).len() && place(
                    #[trigger] normal_boundaries(given)[i],
                ) == place(#[trigger] given[j]),
    decreases given.len(),
{
    if given.len() > 0 {
        let shorter = given.drop_last();
        let before = normal_boundaries(shorter);
        let after = normal_boundaries(given);
        assert forall|i: int| 0 <= i < shorter.len() implies !is_nan(#[trigger] shorter[i]) by {
            assert(shorter[i] == given[i]);
        }
        law_normal_boundaries(shorter);
        lemma_with_boundary(before, given.last());
        let end = given.len() - 1;
        assert forall|b: u64| #[trigger] after.contains(b) implies exists|j: int| #[trigger]
            first_of_value(given, j) && given[j] == b by {
            if before.contains(b) {
                let k = choose|k: int| #[trigger] first_of_value(shorter, k) && shorter[k] == b;
                assert forall|m: int| 0 <= m < k implies place(#[trigger] given[m]) != place(
                    given[k],
                ) by {
                    assert(given[m] == shorter[m]);
                }
                assert(first_of_value(given, k) && given[k] == b);
            } else {
                assert forall|m: int| 0 <= m < end implies place(#[trigger] given[m]) != place(
                    given[end],
                ) by {
                    assert(given[m] == shorter[m]);
                    let k = choose|k: int|
                        0 <= k < before.len() && place(#[trigger] before[k]) == place(shorter[m]);
                    assert(before != after);
                }
                assert(first_of_value(given, end) && given[end] == b);
            }
        }
        assert forall|j: int| 0 <= j < given.len() implies exists|i: int|
            0 <= i < after.len() && place(#[trigger] after[i]) == place(#[trigger] given[j]) by {
            if j < shorter.len() {
                assert(given[j] == shorter[j]);
                let k = choose|k: int|
                    0 <= k < before.len() && place(#[trigger] before[k]) == place(shorter[j]);
                assert(before.contains(before[k]));
                assert(after.contains(before[k]));
                let i = choose|i: int| 0 <= i < after.len() && after[i] == before[k];
                assert(place(after[i]) == place(given[j]));
            }
        }
    }
}

/// What is not a number stays as it was given, behind the first of the numbers of one value that
/// may stand before it.
pub proof fn law_normal_boundaries_nan(given: Seq<u64>, numbers: int)
    requires
        0 <= numbers <= given.len(),
        forall|i: int|
            0 <= i < numbers ==> !is_nan(#[trigger] given[i]) && place(given[i]) == place(given[0]),
        forall|i: int| numbers <= i < given.len() ==> is_nan(#[trigger] given[i]),
    ensures
        normal_boundaries(given) == if numbers == 0 {
            given
        } else {
            seq![given[0]] + given.skip(numbers)
        },
    decreases given.len(),
{
    if given.len() > 0 {
        let shorter = given.drop_last();
        if numbers == given.len() {
            law_normal_boundaries_nan(shorter, numbers - 1);
            if numbers == 1 {
                assert(normal_boundaries(shorter) =~= Seq::<u64>::empty());
            } else {
                let one = seq![given[0]];
                assert(normal_boundaries(shorter) =~= one);
                lemma_bucket_of(one, given.last(), 1);
            }
        } else {
            law_normal_boundaries_nan(shorter, numbers);
            assert(given.skip(numbers).drop_last() =~= shorter.skip(numbers));
        }
        assert(normal_boundaries(given) =~= if numbers == 0 {
            given
        } else {
            seq![given[0]] + given.skip(numbers)
        });
    }
}

/// Whether boundaries can be put in order.
pub fn is_sortable(given: &[u64]) -> (result: bool)
    ensures
        result == sortable(given@),
{
    let mut numbers: bool = true;
    let mut alike: bool = true;
    let mut i: usize = 0;
    while i < given.len()
        invariant
            i <= given@.len(),
            numbers == all_numbers(given@.take(i as int)),
            alike == forall|a: int, b: int|
                0 <= a < b < i ==> is_nan(#[trigger] given@[b]) || !is_nan(#[trigger] given@[a])
                    && place(given@[a]) == place(given@[b]),
        decreases given@.len() - i,
    {
        let new: u64 = given[i];
        if double_is_nan(new) {
            numbers = false;
            assert(is_nan(given@.take(i + 1)[i as int]));
        } else {
            if i > 0 && !(double_le(given[i - 1], new) && double_le(new, given[i - 1])) {
                alike = false;
                assert(!is_nan(given@[i as int]) && !(!is_nan(given@[i - 1]) && place(given@[i - 1])
                    == place(given@[i as int])));
            }
            assert(numbers == all_numbers(given@.take(i + 1))) by {
                if all_numbers(given@.take(i as int)) {
                    assert forall|k: int| 0 <= k < i + 1 implies !is_nan(
                        #[trigger] given@.take(i + 1)[k],
                    ) by {
                        if k < i {
                            assert(!is_nan(given@.take(i as int)[k]));
                        }
                    }
                } else {
                    let k = choose|k: int|
                        0 <= k < i && is_nan(#[trigger] given@.take(i as int)[k]);
                    assert(is_nan(given@.take(i + 1)[k]));
                }
            }
        }
        i = i + 1;
    }
    assert(given@.take(i as int) == given@);
    numbers || alike
}

/// The bucket that `value` falls into, by binary search.
pub fn bucket_index(boundaries: &[u64], value: u64) -> (bucket: usize)
    requires
        nans_last(boundaries@),
    ensures
        bucket == bucket_of(boundaries@, value),
        bucket <= boundaries@.len(),
{
    let mut low: usize = 0;
    let mut high: usize = boundaries.len();
    while low < high
        invariant
            low <= high <= boundaries@.len(),
            nans_last(boundaries@),
            forall|i: int| 0 <= i < low ==> le(#[trigger] boundaries@[i], value),
            forall|i: int| high <= i < boundaries@.len() ==> !le(#[trigger] boundaries@[i], value),
        decreases high - low,
    {
        let mid: usize = low + (high - low) / 2;
        if double_le(boundaries[mid], value) {
            assert forall|i: int| 0 <= i < mid + 1 implies le(#[trigger] boundaries@[i], value) by {
                if i < mid {
                    assert(lt(boundaries@[i], boundaries@[mid as int]));
                }
            }
            low = mid + 1;
        } else {
            assert forall|i: int| mid <= i < boundaries@.len() implies !le(
                #[trigger] boundaries@[i],
                value,
            ) by {
                if i > mid && !is_nan(boundaries@[i]) {
                    assert(lt(boundaries@[mid as int], boundaries@[i]));
                }
            }
            high = mid;
        }
    }
    proof {
        lemma_bucket_of(boundaries@, value, low as int);
    }
    low
}

/// Sort boundaries and drop repeated ones.
pub fn normalize_boundaries(given: &[u64]) -> (boundaries: Vec<u64>)
    requires
        sortable(given@),
    ensures
        boundaries@ == normal_boundaries(given@),
        nans_last(boundaries@),
{
    let mut boundaries: Vec<u64> = Vec::new();
    let mut i: usize = 0;
    while i < given.len()
        invariant
            i <= given@.len(),
            sortable(given@),
            boundaries@ == normal_boundaries(given@.take(i as int)),
            nans_last(boundaries@),
            all_numbers(given@.take(i as int)) ==> all_numbers(boundaries@),
        decreases given@.len() - i,
    {
        let new: u64 = given[i];
        let at: usize = bucket_index(boundaries.as_slice(), new);
        assert(given@.take(i + 1).drop_last() == given@.take(i as int));
        if double_is_nan(new) {
            assert(is_nan(given@.take(i + 1)[i as int]));
            boundaries.push(new);
        } else {
            proof {
                assert forall|k: int| 0 <= k < i implies !is_nan(
                    #[trigger] given@.take(i as int)[k],
                ) by {
                    assert(!is_nan(given@[i as int]));
                    assert(!is_nan(given@[k]));
                }
                lemma_with_boundary(boundaries@, new);
            }
            if at == 0 || !double_le(new, boundaries[at - 1]) {
                boundaries.insert(at, new);
            }
        }
        i = i + 1;
    }
    assert(given@.take(i as int) == given@);
    boundaries
}

// --- State of a data point ---

/// What a histogram data point has seen.
#[verifier::ext_equal]
pub struct HistogramValue {
    pub bucket_counts: Seq<u64>,
    pub sum: u64,
    pub count: u64,
    pub min: u64,
    pub max: u64,
}

/// The sum of bucket counts.
pub open spec fn total(counts: Seq<u64>) -> nat
    decreases counts.len(),
{
    if counts.len() == 0 {
        0
    } else {
        total(counts.drop_last()) + counts.last() as nat
    }
}

/// A data point that has seen nothing: empty buckets, sum zero, the bounds at the infinities.
pub open spec fn unobserved(buckets: nat) -> HistogramValue {
    HistogramValue {
        bucket_counts: Seq::new(buckets, |i: int| 0u64),
        sum: ZERO,
        count: 0,
        min: INFINITY,
        max: NEG_INFINITY,
    }
}

/// A data point after one more value, which fell into `bucket` and brought the sum to `sum`.
pub open spec fn observed(
    state: HistogramValue,
    bucket: nat,
    value: u64,
    sum: u64,
) -> HistogramValue {
    HistogramValue {
        bucket_counts: state.bucket_counts.update(
            bucket as int,
            (state.bucket_counts[bucket as int] + 1) as u64,
        ),
        sum,
        count: (state.count + 1) as u64,
        min: if lt(value, state.min) {
            value
        } else {
            state.min
        },
        max: if lt(state.max, value) {
            value
        } else {
            state.max
        },
    }
}

/// A data point is consistent: it has one bucket more than there are boundaries, and the buckets
/// hold as many values as were seen.
pub open spec fn consistent(state: HistogramValue, boundaries: nat) -> bool {
    &&& state.bucket_counts.len() == boundaries + 1
    &&& total(state.bucket_counts) == state.count
}

/// The running state of a histogram data point.
pub struct HistogramState {
    pub bucket_counts: Vec<u64>,
    pub sum: u64,
    pub count: u64,
    pub min: u64,
    pub max: u64,
}

impl View for HistogramState {
    type V = HistogramValue;

    open spec fn view(&self) -> HistogramValue {
        HistogramValue {
            bucket_counts: self.bucket_counts@,
            sum: self.sum,
            count: self.count,
            min: self.min,
            max: self.max,
        }
    }
}

proof fn lemma_total_of_zeros(count: nat)
    ensures
        total(Seq::new(count, |i: int| 0u64)) == 0,
    decreases count,
{
    if count > 0 {
        assert(Seq::new(count, |i: int| 0u64).drop_last() == Seq::new(
            (count - 1) as nat,
            |i: int| 0u64,
        ));
        lemma_total_of_zeros((count - 1) as nat);
    }
}

proof fn lemma_total_update(counts: Seq<u64>, at: int, new: u64)
    requires
        0 <= at < counts.len(),
    ensures
        total(counts.update(at, new)) == total(counts) - counts[at] + new,
        counts[at] <= total(counts),
    decreases counts.len(),
{
    let after = counts.update(at, new);
    if at < counts.len() - 1 {
        assert(after.drop_last() == counts.drop_last().update(at, new));
        lemma_total_update(counts.drop_last(), at, new);
    } else {
        assert(after.drop_last() == counts.drop_last());
    }
}

/// A fresh data point is consistent.
pub proof fn law_unobserved_consistent(boundaries: nat)
    ensures
        consistent(unobserved(boundaries + 1), boundaries),
{
    lemma_total_of_zeros(boundaries + 1);
}

/// An observation keeps a data point consistent, and no bucket overflows before the count does.
pub proof fn law_observed_consistent(
    state: HistogramValue,
    boundaries: nat,
    bucket: nat,
    value: u64,
    sum: u64,
)
    requires
        consistent(state, boundaries),
        bucket <= boundaries,
        state.count < u64::MAX,
    ensures
        consistent(observed(state, bucket, value, sum), boundaries),
        state.bucket_counts[bucket as int] < u64::MAX,
{
    lemma_total_update(
        state.bucket_counts,
        bucket as int,
        (state.bucket_counts[bucket as int] + 1) as u64,
    );
}

/// The bounds of a data point hold every number it has seen: a new one lies between them, and they
/// only ever widen.
pub proof fn law_bounds_hold(state: HistogramValue, bucket: nat, value: u64, sum: u64)
    requires
        !is_nan(state.min),
        !is_nan(state.max),
    ensures
        ({
            let after = observed(state, bucket, value, sum);
            &&& !is_nan(after.min) && !is_nan(after.max)
            &&& le(after.min, state.min) && le(state.max, after.max)
            &&& !is_nan(value) ==> le(after.min, value) && le(value, after.max)
            &&& is_nan(value) ==> after.min == state.min && after.max == state.max
        }),
{
}

/// Whether a value lies in the range of a bucket: at or above the boundary before it, where there
/// is one, and below the boundary after it, where there is one.
pub open spec fn in_range(boundaries: Seq<u64>, bucket: int, value: u64) -> bool {
    &&& bucket > 0 ==> le(boundaries[bucket - 1], value)
    &&& bucket < boundaries.len() ==> lt(value, boundaries[bucket])
}

/// How many of the values lie in the range of a bucket.
pub open spec fn number_in_range(boundaries: Seq<u64>, bucket: int, values: Seq<u64>) -> nat
    decreases values.len(),
{
    if values.len() == 0 {
        0
    } else {
        number_in_range(boundaries, bucket, values.drop_last()) + if in_range(
            boundaries,
            bucket,
            values.last(),
        ) {
            1nat
        } else {
            0
        }
    }
}

/// Whether a data point says of the values what there is to say: how many lie in the range of each
/// bucket, how many there are, and which are the least and the greatest.
pub open spec fn summarises(
    state: HistogramValue,
    boundaries: Seq<u64>,
    values: Seq<u64>,
) -> bool {
    &&& state.bucket_counts.len() == boundaries.len() + 1
    &&& forall|i: int|
        0 <= i <= boundaries.len() ==> #[trigger] state.bucket_counts[i] == number_in_range(
            boundaries,
            i,
            values,
        )
    &&& total(state.bucket_counts) == state.count
    &&& state.count == values.len()
    &&& values.len() > 0 ==> values.contains(state.min) && values.contains(state.max)
    &&& forall|i: int|
        0 <= i < values.len() ==> le(state.min, #[trigger] values[i]) && le(values[i], state.max)
}

/// A data point after the values of all sightings; each brought the sum to the second number.
pub open spec fn observed_all(
    state: HistogramValue,
    boundaries: Seq<u64>,
    sightings: Seq<(u64, u64)>,
) -> HistogramValue
    decreases sightings.len(),
{
    if sightings.len() == 0 {
        state
    } else {
        let (value, sum) = sightings.last();
        observed(
            observed_all(state, boundaries, sightings.drop_last()),
            bucket_of(boundaries, value),
            value,
            sum,
        )
    }
}

/// The values of sightings.
pub open spec fn sighted(sightings: Seq<(u64, u64)>) -> Seq<u64> {
    sightings.map_values(|s: (u64, u64)| s.0)
}

proof fn lemma_number_bounded(boundaries: Seq<u64>, bucket: int, values: Seq<u64>)
    ensures
        number_in_range(boundaries, bucket, values) <= values.len(),
    decreases values.len(),
{
    if values.len() > 0 {
        lemma_number_bounded(boundaries, bucket, values.drop_last());
    }
}

/// Whatever numbers a data point has seen, each of its buckets counts those in its range, and its
/// bounds are the least and the greatest of them.
pub proof fn law_data_point_summarises(boundaries: Seq<u64>, sightings: Seq<(u64, u64)>)
    requires
        ascending(boundaries),
        all_numbers(boundaries),
        all_numbers(sighted(sightings)),
        sightings.len() <= u64::MAX,
    ensures
        summarises(
            observed_all(unobserved(boundaries.len() + 1), boundaries, sightings),
            boundaries,
            sighted(sightings),
        ),
        ({
            let state = observed_all(unobserved(boundaries.len() + 1), boundaries, sightings);
            !is_nan(state.min) && !is_nan(state.max)
        }),
    decreases sightings.len(),
{
    let fresh = unobserved(boundaries.len() + 1);
    let after = observed_all(fresh, boundaries, sightings);
    let values = sighted(sightings);
    law_unobserved_consistent(boundaries.len());
    if sightings.len() > 0 {
        let rest = sightings.drop_last();
        let before = observed_all(fresh, boundaries, rest);
        let (value, sum) = sightings.last();
        let bucket = bucket_of(boundaries, value);
        assert(sighted(rest) =~= values.drop_last());
        assert(values.last() == value);
        assert(all_numbers(sighted(rest))) by {
            assert forall|i: int| 0 <= i < rest.len() implies !is_nan(
                #[trigger] sighted(rest)[i],
            ) by {
                assert(sighted(rest)[i] == values[i]);
            }
        }
        assert(!is_nan(values[values.len() - 1]));
        law_data_point_summarises(boundaries, rest);
        law_bucket_placement(boundaries, value);
        law_observed_consistent(before, boundaries.len(), bucket, value, sum);
        assert forall|i: int| 0 <= i <= boundaries.len() implies #[trigger] after.bucket_counts[i]
            == number_in_range(boundaries, i, values) by {
            lemma_number_bounded(boundaries, i, values.drop_last());
            assert(before.bucket_counts[i] == number_in_range(boundaries, i, sighted(rest)));
            if i < bucket {
                assert(le(boundaries[i], value));
            } else if i > bucket {
                assert(lt(value, boundaries[i - 1]));
            }
            assert(in_range(boundaries, i, value) <==> i == bucket);
        }
        law_infinities_bound(value);
        assert(values[values.len() - 1] == value);
        assert forall|i: int| 0 <= i < values.len() implies le(after.min, #[trigger] values[i])
            && le(values[i], after.max) by {
            if i < rest.len() {
                assert(values[i] == sighted(rest)[i]);
            }
        }
        assert(values.contains(after.min) && values.contains(after.max)) by {
            if rest.len() > 0 {
                let low = choose|i: int|
                    0 <= i < sighted(rest).len() && sighted(rest)[i] == before.min;
                let high = choose|i: int|
                    0 <= i < sighted(rest).len() && sighted(rest)[i] == before.max;
                assert(values[low] == before.min);
                assert(values[high] == before.max);
            } else {
                lemma_only_infinity(value);
            }
        }
    }
}

/// What is not below positive infinity is positive infinity, and so for the negative one.
proof fn lemma_only_infinity(value: u64)
    requires
        !is_nan(value),
    ensures
        !lt(value, INFINITY) ==> value == INFINITY,
        !lt(NEG_INFINITY, value) ==> value == NEG_INFINITY,
{
}

impl HistogramState {
    /// The state before the first value, for the given number of boundaries.
    pub fn new(boundaries: usize) -> (state: HistogramState)
        ensures
            state@ == unobserved((boundaries + 1) as nat),
    {
        let mut bucket_counts: Vec<u64> = Vec::new();
        let mut i: usize = 0;
        while i < boundaries
            invariant
                i <= boundaries,
                bucket_counts@ == Seq::new(i as nat, |j: int| 0u64),
            decreases boundaries - i,
        {
            bucket_counts.push(0);
            i = i + 1;
        }
        bucket_counts.push(0);
        let state = HistogramState {
            bucket_counts,
            sum: ZERO,
            count: 0,
            min: INFINITY,
            max: NEG_INFINITY,
        };
        assert(state@ =~= unobserved((boundaries + 1) as nat));
        state
    }

    /// Count a value that falls into `bucket` and brings the sum to `sum`.
    pub fn observe(&mut self, bucket: usize, value: u64, sum: u64)
        requires
            bucket < old(self)@.bucket_counts.len(),
            old(self)@.count < u64::MAX,
            old(self)@.bucket_counts[bucket as int] < u64::MAX,
        ensures
            final(self)@ == observed(old(self)@, bucket as nat, value, sum),
    {
        let counted: u64 = self.bucket_counts[bucket];
        self.bucket_counts[bucket] = counted + 1;
        self.sum = sum;
        self.count = self.count + 1;
        if double_lt(value, self.min) {
            self.min = value;
        }
        if double_lt(self.max, value) {
            self.max = value;
        }
        assert(self@ =~= observed(old(self)@, bucket as nat, value, sum));
    }

    /// A copy of the state.
    pub fn duplicate(&self) -> (copy: HistogramState)
        ensures
            copy@ == self@,
    {
        let copy = HistogramState {
            bucket_counts: self.bucket_counts.clone(),
            sum: self.sum,
            count: self.count,
            min: self.min,
            max: self.max,
        };
        assert(copy.bucket_counts@ =~= self.bucket_counts@);
        copy
    }
}

/// An observation counts once: one more in its bucket and in no other, one more in all, the new
/// sum, and the bounds moved to the value exactly where it lies beyond them.
pub proof fn law_observed_step(state: HistogramValue, bucket: nat, value: u64, sum: u64, i: int)
    requires
        bucket < state.bucket_counts.len(),
        state.bucket_counts[bucket as int] < u64::MAX,
        state.count < u64::MAX,
    ensures
        ({
            let after = observed(state, bucket, value, sum);
            &&& after.bucket_counts.len() == state.bucket_counts.len()
            &&& after.bucket_counts[bucket as int] == state.bucket_counts[bucket as int] + 1
            &&& 0 <= i < state.bucket_counts.len() && i != bucket ==> after.bucket_counts[i]
                == state.bucket_counts[i]
            &&& after.sum == sum
            &&& after.count == state.count + 1
            &&& lt(value, state.min) ==> after.min == value
            &&& !lt(value, state.min) ==> after.min == state.min
            &&& lt(state.max, value) ==> after.max == value
            &&& !lt(state.max, value) ==> after.max == state.max
        }),
{
}

/// A data point that has seen nothing has empty buckets, sum zero, count zero, and bounds that any
/// number moves.
pub proof fn law_unobserved(buckets: nat, i: int)
    ensures
        unobserved(buckets).bucket_counts.len() == buckets,
        0 <= i < buckets ==> unobserved(buckets).bucket_counts[i] == 0,
        unobserved(buckets).sum == 0,
        unobserved(buckets).count == 0,
        unobserved(buckets).min == 0x7ff0_0000_0000_0000,
        unobserved(buckets).max == 0xfff0_0000_0000_0000,
{
}

/// Boundaries can be put in order wherever all are numbers, however many and in whatever order, and
/// wherever none is.
pub proof fn law_sortable(given: Seq<u64>)
    ensures
        (forall|i: int| 0 <= i < given.len() ==> !is_nan(#[trigger] given[i])) ==> sortable(given),
        (forall|i: int| 0 <= i < given.len() ==> is_nan(#[trigger] given[i])) ==> sortable(given),
{
}

} // verus!
