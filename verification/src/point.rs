//! Samples and the mathematical model of a stored series.
//!
//! A sample is a timestamp, a double-precision value held as its IEEE
//! 754 bit pattern, and a set of string tags. The model of a sample is
//! a `PointModel`; the model of a series is a `Seq<PointModel>`, in
//! insertion order.

use vstd::prelude::*;
use crate::tags::Tags;

verus! {

broadcast use vstd::seq_lib::group_filter_ensures;

/// The mathematical model of one sample.
pub ghost struct PointModel {
    /// Unit-agnostic monotonic tick; neither unique nor ordered.
    pub timestamp: u64,
    /// IEEE 754 bit pattern of the sample's double-precision value.
    pub value: u64,
    /// String key/value tags, keys unique.
    pub tags: Map<Seq<char>, Seq<char>>,
}

/// One timestamped sample with associated tags.
pub struct DataPoint {
    /// Unit-agnostic monotonic tick; neither unique nor ordered.
    pub timestamp: u64,
    /// IEEE 754 bit pattern of the sample's double-precision value.
    pub value: u64,
    /// String key/value tags attached to the sample.
    pub tags: Tags,
}

impl View for DataPoint {
    type V = PointModel;

    open spec fn view(&self) -> PointModel {
        PointModel { timestamp: self.timestamp, value: self.value, tags: self.tags@ }
    }
}

impl Clone for DataPoint {
    /// The copy models the same sample as the original.
    fn clone(&self) -> (r: Self)
        ensures
            r@ == self@,
    {
        DataPoint { timestamp: self.timestamp, value: self.value, tags: self.tags.clone() }
    }
}

/// The models of a sequence of samples, in order.
pub open spec fn models_of(s: Seq<DataPoint>) -> Seq<PointModel> {
    s.map_values(|p: DataPoint| p@)
}

/// Whether the sample's timestamp lies in the inclusive window
/// `[start, end]`.
pub open spec fn in_window(p: PointModel, start: u64, end: u64) -> bool {
    start <= p.timestamp && p.timestamp <= end
}

/// The samples whose timestamps lie in the inclusive window, in order.
pub open spec fn range_of(s: Seq<PointModel>, start: u64, end: u64) -> Seq<PointModel> {
    s.filter(|p: PointModel| in_window(p, start, end))
}

/// Whether the sample carries the tag key, regardless of its value.
pub open spec fn has_tag(p: PointModel, key: Seq<char>) -> bool {
    p.tags.dom().contains(key)
}

/// Whether the sample carries the tag key with exactly this value.
pub open spec fn has_tag_value(p: PointModel, key: Seq<char>, value: Seq<char>) -> bool {
    p.tags.dom().contains(key) && p.tags[key] == value
}

/// The samples carrying the tag key, in order.
pub open spec fn with_tag(s: Seq<PointModel>, key: Seq<char>) -> Seq<PointModel> {
    s.filter(|p: PointModel| has_tag(p, key))
}

/// The samples carrying the tag key with exactly this value, in order.
pub open spec fn with_tag_value(s: Seq<PointModel>, key: Seq<char>, value: Seq<char>) -> Seq<
    PointModel,
> {
    s.filter(|p: PointModel| has_tag_value(p, key, value))
}

/// The samples whose timestamp differs from `timestamp`, in order.
pub open spec fn without_timestamp(s: Seq<PointModel>, timestamp: u64) -> Seq<PointModel> {
    s.filter(|p: PointModel| p.timestamp != timestamp)
}

/// The samples not carrying the tag key, in order.
pub open spec fn without_tag(s: Seq<PointModel>, key: Seq<char>) -> Seq<PointModel> {
    s.filter(|p: PointModel| !has_tag(p, key))
}

/// Whether some sample has exactly this timestamp.
pub open spec fn has_timestamp(s: Seq<PointModel>, timestamp: u64) -> bool {
    exists|i: int| 0 <= i < s.len() && s[i].timestamp == timestamp
}

/// The index of the first sample with the timestamp, or `-1` when
/// there is none.
pub open spec fn first_with(s: Seq<PointModel>, timestamp: u64) -> int
    decreases s.len(),
{
    if s.len() == 0 {
        -1
    } else if s[0].timestamp == timestamp {
        0
    } else {
        let r = first_with(s.drop_first(), timestamp);
        if r < 0 {
            -1
        } else {
            r + 1
        }
    }
}

/// First-match point lookup: the value of the first sample with the
/// timestamp, or `None` when there is none.
pub open spec fn spec_get(s: Seq<PointModel>, timestamp: u64) -> Option<u64> {
    let i = first_with(s, timestamp);
    if i < 0 {
        None
    } else {
        Some(s[i].value)
    }
}

/// `first_with` answers the first matching index: a match at `i` with
/// none before it pins `first_with` to `i`.
pub proof fn lemma_first_with_found(s: Seq<PointModel>, timestamp: u64, i: int)
    requires
        0 <= i < s.len(),
        s[i].timestamp == timestamp,
        forall|j: int| 0 <= j < i ==> s[j].timestamp != timestamp,
    ensures
        first_with(s, timestamp) == i,
    decreases i,
{
    if i == 0 {
    } else {
        assert(s[0].timestamp != timestamp);
        let rest = s.drop_first();
        assert(rest[i - 1] == s[i]);
        assert forall|j: int| 0 <= j < i - 1 implies rest[j].timestamp != timestamp by {
            assert(rest[j] == s[j + 1]);
        }
        lemma_first_with_found(rest, timestamp, i - 1);
    }
}

/// With no matching sample, `first_with` is `-1`.
pub proof fn lemma_first_with_none(s: Seq<PointModel>, timestamp: u64)
    requires
        forall|j: int| 0 <= j < s.len() ==> s[j].timestamp != timestamp,
    ensures
        first_with(s, timestamp) == -1,
    decreases s.len(),
{
    if s.len() == 0 {
    } else {
        let rest = s.drop_first();
        assert forall|j: int| 0 <= j < rest.len() implies rest[j].timestamp != timestamp by {
            assert(rest[j] == s[j + 1]);
        }
        lemma_first_with_none(rest, timestamp);
    }
}

} // verus!
