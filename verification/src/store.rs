//! The series store: an insertion-ordered collection of samples with
//! mutation, query and aggregate operations. Every query is a full
//! scan; no index structure accelerates lookup.

use vstd::prelude::*;
use crate::order::{spec_total_order_key, total_order_key};
use crate::point::{
    first_with, has_tag, has_tag_value, has_timestamp, in_window, models_of, range_of, spec_get,
    with_tag, with_tag_value, without_tag, without_timestamp, lemma_first_with_found,
    lemma_first_with_none, DataPoint, PointModel,
};
use crate::tags::Tags;

verus! {

/// The reduction to apply to the values of a time window.
#[derive(Clone, Copy, Debug, PartialEq)]
pub enum AggregateType {
    Sum,
    Average,
    Min,
    Max,
    Count,
    First,
    Last,
}

/// Failure of a store operation.
#[derive(Clone, Copy, Debug, PartialEq, Eq, Structural)]
pub enum TempusError {
    /// No stored sample has the requested timestamp.
    NotFound,
}

/// What an aggregate query yields. The store holds values as IEEE 754
/// bit patterns and performs no floating-point arithmetic itself:
/// where the reduction is a float computation (sum, average), it
/// returns the exact operands instead.
#[derive(Debug)]
pub enum AggregateResult {
    /// The aggregate's value as an IEEE 754 bit pattern (bit pattern 0
    /// encodes `+0.0`, the value of an empty window).
    Value(u64),
    /// The number of samples in the window.
    Count(usize),
    /// The window's values, in order, for a floating-point reduction
    /// by the caller.
    Values(Vec<u64>),
}

/// The values of the samples in the window, in order.
pub open spec fn window_values(s: Seq<PointModel>, start: u64, end: u64) -> Seq<u64> {
    range_of(s, start, end).map_values(|p: PointModel| p.value)
}

/// The first of the values, or the bit pattern of `+0.0` when there
/// are none.
pub open spec fn first_bits(vals: Seq<u64>) -> u64 {
    if vals.len() == 0 {
        0
    } else {
        vals[0]
    }
}

/// The last of the values, or the bit pattern of `+0.0` when there
/// are none.
pub open spec fn last_bits(vals: Seq<u64>) -> u64 {
    if vals.len() == 0 {
        0
    } else {
        vals.last()
    }
}

/// The least of the values under the IEEE 754 total order, or the bit
/// pattern of `+0.0` when there are none.
pub open spec fn min_bits(vals: Seq<u64>) -> u64
    decreases vals.len(),
{
    if vals.len() == 0 {
        0
    } else if vals.len() == 1 {
        vals[0]
    } else {
        let rest = min_bits(vals.drop_last());
        if spec_total_order_key(vals.last()) < spec_total_order_key(rest) {
            vals.last()
        } else {
            rest
        }
    }
}

/// The greatest of the values under the IEEE 754 total order, or the
/// bit pattern of `+0.0` when there are none.
pub open spec fn max_bits(vals: Seq<u64>) -> u64
    decreases vals.len(),
{
    if vals.len() == 0 {
        0
    } else if vals.len() == 1 {
        vals[0]
    } else {
        let rest = max_bits(vals.drop_last());
        if spec_total_order_key(vals.last()) > spec_total_order_key(rest) {
            vals.last()
        } else {
            rest
        }
    }
}

/// The models of a sequence of bulk-insert entries, in order.
pub open spec fn models_of_entries(entries: Seq<(u64, u64, Tags)>) -> Seq<PointModel> {
    entries.map_values(|e: (u64, u64, Tags)| PointModel { timestamp: e.0, value: e.1, tags: e.2@ })
}

/// A time series store: an insertion-ordered sequence of samples.
pub struct Tempus {
    data_series: Vec<DataPoint>,
}

impl View for Tempus {
    type V = Seq<PointModel>;

    closed spec fn view(&self) -> Seq<PointModel> {
        models_of(self.data_series@)
    }
}

impl Tempus {
    /// Creates a new empty store.
    pub fn new() -> (r: Self)
        ensures
            r@ == Seq::<PointModel>::empty(),
    {
        let r = Tempus { data_series: Vec::new() };
        proof {
            assert(r@ =~= Seq::<PointModel>::empty());
        }
        r
    }

    /// Appends a sample to the end of the series. Timestamps are
    /// neither required unique nor ordered; this always succeeds.
    pub fn insert(&mut self, timestamp: u64, value: u64, tags: Tags)
        ensures
            final(self)@ == old(self)@.push(PointModel { timestamp, value, tags: tags@ }),
    {
        self.data_series.push(DataPoint { timestamp, value, tags });
        proof {
            assert(self@ =~= old(self)@.push(PointModel { timestamp, value, tags: tags@ }));
        }
    }

    /// Appends all entries in the given order, as if `insert` were
    /// called for each in sequence.
    #[verifier::loop_isolation(false)]
    pub fn bulk_insert(&mut self, data: Vec<(u64, u64, Tags)>)
        ensures
            final(self)@ == old(self)@ + models_of_entries(data@),
    {
        let n = data.len();
        let mut i: usize = 0;
        while i < n
            invariant
                i <= n,
                self@ == old(self)@ + models_of_entries(data@.subrange(0, i as int)),
            decreases n - i,
        {
            let ghost pre = self@;
            let e = &data[i];
            let tags = e.2.clone();
            self.data_series.push(DataPoint { timestamp: e.0, value: e.1, tags });
            proof {
                let cur = data@.subrange(0, (i + 1) as int);
                assert(cur.drop_last() =~= data@.subrange(0, i as int));
                assert(cur.last() == data@[i as int]);
                assert(self@ =~= pre.push(
                    PointModel { timestamp: e.0, value: e.1, tags: e.2@ },
                ));
                assert(models_of_entries(cur) =~= models_of_entries(data@.subrange(0, i as int))
                    .push(PointModel { timestamp: e.0, value: e.1, tags: e.2@ }));
                assert(self@ =~= old(self)@ + models_of_entries(cur));
            }
            i += 1;
        }
        proof {
            assert(data@.subrange(0, n as int) =~= data@);
        }
    }

    /// Replaces the value and tags of the first sample whose timestamp
    /// equals the given one; the timestamp itself is unchanged. With
    /// no such sample, the store is unchanged and `NotFound` comes
    /// back.
    pub fn update(&mut self, timestamp: u64, value: u64, tags: Tags) -> (r: Result<
        (),
        TempusError,
    >)
        ensures
            has_timestamp(old(self)@, timestamp) ==> {
                &&& r == Ok::<(), TempusError>(())
                &&& final(self)@ == old(self)@.update(
                    first_with(old(self)@, timestamp),
                    PointModel { timestamp, value, tags: tags@ },
                )
            },
            !has_timestamp(old(self)@, timestamp) ==> {
                &&& r == Err::<(), TempusError>(TempusError::NotFound)
                &&& final(self)@ == old(self)@
            },
    {
        match find_timestamp(&self.data_series, timestamp) {
            Some(i) => {
                proof {
                    lemma_first_with_found(self@, timestamp, i as int);
                    assert(has_timestamp(self@, timestamp));
                }
                self.data_series.set(i, DataPoint { timestamp, value, tags });
                proof {
                    assert(self@ =~= old(self)@.update(
                        i as int,
                        PointModel { timestamp, value, tags: tags@ },
                    ));
                }
                Ok(())
            },
            None => {
                proof {
                    lemma_first_with_none(self@, timestamp);
                }
                Err(TempusError::NotFound)
            },
        }
    }

    /// The value of the first sample whose timestamp equals the given
    /// one, as its bit pattern, or `None` when there is none.
    pub fn get(&self, timestamp: u64) -> (r: Option<u64>)
        ensures
            r == spec_get(self@, timestamp),
    {
        match find_timestamp(&self.data_series, timestamp) {
            Some(i) => {
                proof {
                    lemma_first_with_found(self@, timestamp, i as int);
                }
                Some(self.data_series[i].value)
            },
            None => {
                proof {
                    lemma_first_with_none(self@, timestamp);
                }
                None
            },
        }
    }

    /// Copies of all samples with `start <= timestamp <= end`, both
    /// ends inclusive, in original order. An inverted window yields an
    /// empty result, not an error.
    #[verifier::loop_isolation(false)]
    pub fn range_query(&self, start: u64, end: u64) -> (r: Vec<DataPoint>)
        ensures
            models_of(r@) == range_of(self@, start, end),
    {
        let n = self.data_series.len();
        let mut result: Vec<DataPoint> = Vec::new();
        let mut i: usize = 0;
        while i < n
            invariant
                i <= n,
                models_of(result@) == range_of(self@.subrange(0, i as int), start, end),
            decreases n - i,
        {
            let ghost pre = result@;
            let p = &self.data_series[i];
            if start <= p.timestamp && p.timestamp <= end {
                result.push(p.clone());
            }
            proof {
                reveal(Seq::filter);
                let cur = self@.subrange(0, (i + 1) as int);
                assert(cur.drop_last() =~= self@.subrange(0, i as int));
                assert(cur.last() == self@[i as int]);
                if in_window(self@[i as int], start, end) {
                    assert(models_of(result@) =~= models_of(pre).push(self@[i as int]));
                }
                assert(models_of(result@) =~= range_of(cur, start, end));
            }
            i += 1;
        }
        proof {
            assert(self@.subrange(0, n as int) =~= self@);
        }
        result
    }

    /// Copies of all samples carrying the tag key, regardless of its
    /// value, in original order.
    #[verifier::loop_isolation(false)]
    pub fn find_by_tag(&self, tag: &str) -> (r: Vec<DataPoint>)
        ensures
            models_of(r@) == with_tag(self@, tag@),
    {
        let n = self.data_series.len();
        let mut result: Vec<DataPoint> = Vec::new();
        let mut i: usize = 0;
        while i < n
            invariant
                i <= n,
                models_of(result@) == with_tag(self@.subrange(0, i as int), tag@),
            decreases n - i,
        {
            let ghost pre = result@;
            let p = &self.data_series[i];
            if p.tags.contains_key(tag) {
                result.push(p.clone());
            }
            proof {
                reveal(Seq::filter);
                let cur = self@.subrange(0, (i + 1) as int);
                assert(cur.drop_last() =~= self@.subrange(0, i as int));
                assert(cur.last() == self@[i as int]);
                if has_tag(self@[i as int], tag@) {
                    assert(models_of(result@) =~= models_of(pre).push(self@[i as int]));
                }
                assert(models_of(result@) =~= with_tag(cur, tag@));
            }
            i += 1;
        }
        proof {
            assert(self@.subrange(0, n as int) =~= self@);
        }
        result
    }

    /// Copies of all samples carrying the tag key with exactly this
    /// value, in original order. A sample lacking the key is excluded,
    /// not an error.
    #[verifier::loop_isolation(false)]
    pub fn find_by_tag_value(&self, tag: &str, value: &str) -> (r: Vec<DataPoint>)
        ensures
            models_of(r@) == with_tag_value(self@, tag@, value@),
    {
        let owned = value.to_owned();
        let n = self.data_series.len();
        let mut result: Vec<DataPoint> = Vec::new();
        let mut i: usize = 0;
        while i < n
            invariant
                i <= n,
                models_of(result@) == with_tag_value(self@.subrange(0, i as int), tag@, value@),
            decreases n - i,
        {
            let ghost pre = result@;
            let p = &self.data_series[i];
            let matched = match p.tags.get(tag) {
                Some(v) => *v == owned,
                None => false,
            };
            if matched {
                result.push(p.clone());
            }
            proof {
                reveal(Seq::filter);
                let cur = self@.subrange(0, (i + 1) as int);
                assert(cur.drop_last() =~= self@.subrange(0, i as int));
                assert(cur.last() == self@[i as int]);
                assert(matched == has_tag_value(self@[i as int], tag@, value@));
                if has_tag_value(self@[i as int], tag@, value@) {
                    assert(models_of(result@) =~= models_of(pre).push(self@[i as int]));
                }
                assert(models_of(result@) =~= with_tag_value(cur, tag@, value@));
            }
            i += 1;
        }
        proof {
            assert(self@.subrange(0, n as int) =~= self@);
        }
        result
    }

    /// Removes every sample whose timestamp equals the given value,
    /// preserving the order of survivors. A no-op when none matches.
    #[verifier::loop_isolation(false)]
    pub fn delete(&mut self, timestamp: u64)
        ensures
            final(self)@ == without_timestamp(old(self)@, timestamp),
    {
        let n = self.data_series.len();
        let mut kept: Vec<DataPoint> = Vec::new();
        let mut i: usize = 0;
        while i < n
            invariant
                i <= n,
                *self == *old(self),
                models_of(kept@) == without_timestamp(self@.subrange(0, i as int), timestamp),
            decreases n - i,
        {
            let ghost pre = kept@;
            let p = &self.data_series[i];
            if p.timestamp != timestamp {
                kept.push(p.clone());
            }
            proof {
                reveal(Seq::filter);
                let cur = self@.subrange(0, (i + 1) as int);
                assert(cur.drop_last() =~= self@.subrange(0, i as int));
                assert(cur.last() == self@[i as int]);
                if self@[i as int].timestamp != timestamp {
                    assert(models_of(kept@) =~= models_of(pre).push(self@[i as int]));
                }
                assert(models_of(kept@) =~= without_timestamp(cur, timestamp));
            }
            i += 1;
        }
        proof {
            assert(self@.subrange(0, n as int) =~= self@);
        }
        self.data_series = kept;
    }

    /// Removes every sample carrying the tag key, preserving the order
    /// of survivors. A no-op when none matches.
    #[verifier::loop_isolation(false)]
    pub fn delete_by_tag(&mut self, tag: &str)
        ensures
            final(self)@ == without_tag(old(self)@, tag@),
    {
        let n = self.data_series.len();
        let mut kept: Vec<DataPoint> = Vec::new();
        let mut i: usize = 0;
        while i < n
            invariant
                i <= n,
                *self == *old(self),
                models_of(kept@) == without_tag(self@.subrange(0, i as int), tag@),
            decreases n - i,
        {
            let ghost pre = kept@;
            let p = &self.data_series[i];
            if !p.tags.contains_key(tag) {
                kept.push(p.clone());
            }
            proof {
                reveal(Seq::filter);
                let cur = self@.subrange(0, (i + 1) as int);
                assert(cur.drop_last() =~= self@.subrange(0, i as int));
                assert(cur.last() == self@[i as int]);
                if !has_tag(self@[i as int], tag@) {
                    assert(models_of(kept@) =~= models_of(pre).push(self@[i as int]));
                }
                assert(models_of(kept@) =~= without_tag(cur, tag@));
            }
            i += 1;
        }
        proof {
            assert(self@.subrange(0, n as int) =~= self@);
        }
        self.data_series = kept;
    }

    /// Reduces the values of the window `[start, end]`. Count, first,
    /// last, least and greatest (IEEE 754 total order) are computed
    /// here; a sum or average is a floating-point reduction, so those
    /// yield the window's values for the caller to fold. An empty
    /// window is not an error: a count or sum folds to zero, first,
    /// last, least and greatest are `+0.0`, and an average folds to
    /// zero divided by zero, a NaN.
    pub fn aggregate(&self, aggregate_type: AggregateType, start: u64, end: u64) -> (r:
        AggregateResult)
        ensures
            match aggregate_type {
                AggregateType::Sum => r matches AggregateResult::Values(v) && v@ == window_values(
                    self@,
                    start,
                    end,
                ),
                AggregateType::Average => r matches AggregateResult::Values(v) && v@
                    == window_values(self@, start, end),
                AggregateType::Count => r matches AggregateResult::Count(n) && n == range_of(
                    self@,
                    start,
                    end,
                ).len(),
                AggregateType::First => r matches AggregateResult::Value(b) && b == first_bits(
                    window_values(self@, start, end),
                ),
                AggregateType::Last => r matches AggregateResult::Value(b) && b == last_bits(
                    window_values(self@, start, end),
                ),
                AggregateType::Min => r matches AggregateResult::Value(b) && b == min_bits(
                    window_values(self@, start, end),
                ),
                AggregateType::Max => r matches AggregateResult::Value(b) && b == max_bits(
                    window_values(self@, start, end),
                ),
            },
    {
        let points = self.range_query(start, end);
        let values = values_of(&points);
        proof {
            assert(values@ =~= window_values(self@, start, end));
        }
        match aggregate_type {
            AggregateType::Sum => AggregateResult::Values(values),
            AggregateType::Average => AggregateResult::Values(values),
            AggregateType::Count => AggregateResult::Count(values.len()),
            AggregateType::First => {
                if values.len() == 0 {
                    AggregateResult::Value(0)
                } else {
                    AggregateResult::Value(values[0])
                }
            },
            AggregateType::Last => {
                if values.len() == 0 {
                    AggregateResult::Value(0)
                } else {
                    AggregateResult::Value(values[values.len() - 1])
                }
            },
            AggregateType::Min => AggregateResult::Value(min_fold(&values)),
            AggregateType::Max => AggregateResult::Value(max_fold(&values)),
        }
    }
}

/// The index of the first sample with the timestamp.
#[verifier::loop_isolation(false)]
fn find_timestamp(points: &Vec<DataPoint>, timestamp: u64) -> (r: Option<usize>)
    ensures
        match r {
            Some(i) => {
                &&& 0 <= i < points@.len()
                &&& models_of(points@)[i as int].timestamp == timestamp
                &&& forall|j: int|
                    0 <= j < i ==> models_of(points@)[j].timestamp != timestamp
            },
            None => forall|j: int|
                0 <= j < points@.len() ==> models_of(points@)[j].timestamp != timestamp,
        },
{
    let n = points.len();
    let mut i: usize = 0;
    while i < n
        invariant
            i <= n,
            forall|j: int| 0 <= j < i ==> models_of(points@)[j].timestamp != timestamp,
        decreases n - i,
    {
        if points[i].timestamp == timestamp {
            return Some(i);
        }
        i += 1;
    }
    None
}

/// The values of the samples, in order, as bit patterns.
#[verifier::loop_isolation(false)]
fn values_of(points: &Vec<DataPoint>) -> (r: Vec<u64>)
    ensures
        r@.len() == points@.len(),
        forall|i: int| 0 <= i < points@.len() ==> r@[i] == models_of(points@)[i].value,
{
    let n = points.len();
    let mut r: Vec<u64> = Vec::new();
    let mut i: usize = 0;
    while i < n
        invariant
            i <= n,
            r@.len() == i,
            forall|j: int| 0 <= j < i ==> r@[j] == models_of(points@)[j].value,
        decreases n - i,
    {
        r.push(points[i].value);
        i += 1;
    }
    r
}

/// The least value under the IEEE 754 total order, or the bit pattern
/// of `+0.0` when there are none.
#[verifier::loop_isolation(false)]
fn min_fold(values: &Vec<u64>) -> (r: u64)
    ensures
        r == min_bits(values@),
{
    if values.len() == 0 {
        return 0;
    }
    let mut best = values[0];
    let mut i: usize = 1;
    proof {
        assert(values@.subrange(0, 1).len() == 1);
        assert(values@.subrange(0, 1)[0] == values@[0]);
    }
    while i < values.len()
        invariant
            1 <= i <= values@.len(),
            best == min_bits(values@.subrange(0, i as int)),
        decreases values@.len() - i,
    {
        let v = values[i];
        proof {
            let cur = values@.subrange(0, (i + 1) as int);
            assert(cur.drop_last() =~= values@.subrange(0, i as int));
            assert(cur.last() == values@[i as int]);
            assert(cur.len() >= 2);
        }
        if total_order_key(v) < total_order_key(best) {
            best = v;
        }
        proof {
            assert(best == min_bits(values@.subrange(0, (i + 1) as int)));
        }
        i += 1;
    }
    proof {
        assert(values@.subrange(0, values@.len() as int) =~= values@);
    }
    best
}

/// The greatest value under the IEEE 754 total order, or the bit
/// pattern of `+0.0` when there are none.
#[verifier::loop_isolation(false)]
fn max_fold(values: &Vec<u64>) -> (r: u64)
    ensures
        r == max_bits(values@),
{
    if values.len() == 0 {
        return 0;
    }
    let mut best = values[0];
    let mut i: usize = 1;
    proof {
        assert(values@.subrange(0, 1).len() == 1);
        assert(values@.subrange(0, 1)[0] == values@[0]);
    }
    while i < values.len()
        invariant
            1 <= i <= values@.len(),
            best == max_bits(values@.subrange(0, i as int)),
        decreases values@.len() - i,
    {
        let v = values[i];
        proof {
            let cur = values@.subrange(0, (i + 1) as int);
            assert(cur.drop_last() =~= values@.subrange(0, i as int));
            assert(cur.last() == values@[i as int]);
            assert(cur.len() >= 2);
        }
        if total_order_key(v) > total_order_key(best) {
            best = v;
        }
        proof {
            assert(best == max_bits(values@.subrange(0, (i + 1) as int)));
        }
        i += 1;
    }
    proof {
        assert(values@.subrange(0, values@.len() as int) =~= values@);
    }
    best
}

} // verus!
