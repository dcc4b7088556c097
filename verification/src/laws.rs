//! Laws of the store's operations, stated over the mathematical model
//! and proved from the operations' contracts.

use vstd::prelude::*;
use crate::order::spec_total_order_key;
use crate::point::{
    has_tag, has_tag_value, has_timestamp, in_window, range_of, spec_get, with_tag,
    with_tag_value, without_timestamp, lemma_first_with_found, lemma_first_with_none, PointModel,
};
use crate::store::{max_bits, min_bits};

verus! {

broadcast use vstd::seq_lib::group_filter_ensures;

/// Insert/get round-trip: inserting a sample whose timestamp no stored
/// sample has, then looking that timestamp up, yields the sample's
/// value.
pub proof fn lemma_insert_get_round_trip(s: Seq<PointModel>, p: PointModel)
    requires
        !has_timestamp(s, p.timestamp),
    ensures
        spec_get(s.push(p), p.timestamp) == Some(p.value),
{
    let s2 = s.push(p);
    assert forall|j: int| 0 <= j < s.len() implies s2[j].timestamp != p.timestamp by {
        assert(s2[j] == s[j]);
    }
    lemma_first_with_found(s2, p.timestamp, s.len() as int);
}

/// Range inclusivity, lower and upper bound: a sample whose timestamp
/// is exactly the start or exactly the end of a non-empty window is
/// part of the range query's result.
pub proof fn lemma_range_includes_bounds(s: Seq<PointModel>, start: u64, end: u64, i: int)
    requires
        0 <= i < s.len(),
        start <= end,
        s[i].timestamp == start || s[i].timestamp == end,
    ensures
        range_of(s, start, end).contains(s[i]),
{
    assert(in_window(s[i], start, end));
}

/// Range inclusivity, outside: a sample whose timestamp lies below the
/// start (such as start minus one) or above the end (such as end plus
/// one) is not part of the range query's result.
pub proof fn lemma_range_excludes_outside(s: Seq<PointModel>, start: u64, end: u64, p: PointModel)
    requires
        p.timestamp < start || p.timestamp > end,
    ensures
        !range_of(s, start, end).contains(p),
{
    let w = range_of(s, start, end);
    if w.contains(p) {
        let j = choose|j: int| 0 <= j < w.len() && w[j] == p;
        assert(in_window(w[j], start, end));
        assert(false);
    }
}

/// Filter refinement: every sample found by tag key and value is also
/// found by the tag key alone, whatever the value.
pub proof fn lemma_find_by_tag_superset(
    s: Seq<PointModel>,
    key: Seq<char>,
    value: Seq<char>,
    p: PointModel,
)
    requires
        with_tag_value(s, key, value).contains(p),
    ensures
        with_tag(s, key).contains(p),
    decreases s.len(),
{
    reveal(Seq::filter);
    if s.len() == 0 {
    } else {
        let rest = s.drop_last();
        let last = s.last();
        let wtv_s = with_tag_value(s, key, value);
        let wtv_r = with_tag_value(rest, key, value);
        let wt_r = with_tag(rest, key);
        if has_tag_value(last, key, value) && p == last {
            assert(has_tag(last, key));
            assert(with_tag(s, key) == wt_r.push(last));
            assert(with_tag(s, key)[wt_r.len() as int] == p);
            assert(with_tag(s, key).contains(p));
        } else {
            assert(wtv_r.contains(p)) by {
                if has_tag_value(last, key, value) {
                    let j = choose|j: int| 0 <= j < wtv_s.len() && wtv_s[j] == p;
                    assert(wtv_s == wtv_r.push(last));
                    assert(j < wtv_s.len() - 1);
                    assert(wtv_r[j] == p);
                } else {
                    assert(wtv_s == wtv_r);
                }
            }
            lemma_find_by_tag_superset(rest, key, value, p);
            if has_tag(last, key) {
                let k = choose|k: int| 0 <= k < wt_r.len() && wt_r[k] == p;
                assert(with_tag(s, key) == wt_r.push(last));
                assert(with_tag(s, key)[k] == p);
            } else {
                assert(with_tag(s, key) == wt_r);
            }
            assert(with_tag(s, key).contains(p));
        }
    }
}

/// Delete completeness: after removing a timestamp, no surviving
/// sample has it, and a point lookup of it yields nothing.
pub proof fn lemma_delete_completeness(s: Seq<PointModel>, timestamp: u64)
    ensures
        spec_get(without_timestamp(s, timestamp), timestamp) is None,
        forall|i: int|
            0 <= i < without_timestamp(s, timestamp).len()
                ==> without_timestamp(s, timestamp)[i].timestamp != timestamp,
{
    let w = without_timestamp(s, timestamp);
    assert forall|i: int| 0 <= i < w.len() implies w[i].timestamp != timestamp by {
        assert(w[i] == without_timestamp(s, timestamp)[i]);
    }
    lemma_first_with_none(w, timestamp);
}

/// The least aggregate is total-ordering-aware: over a non-empty
/// window it is one of the values, and no value sorts below it under
/// the IEEE 754 total order.
pub proof fn lemma_min_bits_is_least(vals: Seq<u64>)
    requires
        vals.len() > 0,
    ensures
        vals.contains(min_bits(vals)),
        forall|i: int|
            0 <= i < vals.len() ==> spec_total_order_key(min_bits(vals))
                <= spec_total_order_key(#[trigger] vals[i]),
    decreases vals.len(),
{
    if vals.len() == 1 {
        assert(vals[0] == min_bits(vals));
    } else {
        let rest = vals.drop_last();
        lemma_min_bits_is_least(rest);
        if spec_total_order_key(vals.last()) < spec_total_order_key(min_bits(rest)) {
            assert(vals[vals.len() - 1] == min_bits(vals));
        } else {
            let j = choose|j: int| 0 <= j < rest.len() && rest[j] == min_bits(rest);
            assert(vals[j] == min_bits(vals));
        }
        assert forall|i: int|
            0 <= i < vals.len() implies spec_total_order_key(min_bits(vals))
            <= spec_total_order_key(#[trigger] vals[i]) by {
            if i < vals.len() - 1 {
                assert(vals[i] == rest[i]);
            }
        }
    }
}

/// The greatest aggregate is total-ordering-aware: over a non-empty
/// window it is one of the values, and no value sorts above it under
/// the IEEE 754 total order.
pub proof fn lemma_max_bits_is_greatest(vals: Seq<u64>)
    requires
        vals.len() > 0,
    ensures
        vals.contains(max_bits(vals)),
        forall|i: int|
            0 <= i < vals.len() ==> spec_total_order_key(max_bits(vals))
                >= spec_total_order_key(#[trigger] vals[i]),
    decreases vals.len(),
{
    if vals.len() == 1 {
        assert(vals[0] == max_bits(vals));
    } else {
        let rest = vals.drop_last();
        lemma_max_bits_is_greatest(rest);
        if spec_total_order_key(vals.last()) > spec_total_order_key(max_bits(rest)) {
            assert(vals[vals.len() - 1] == max_bits(vals));
        } else {
            let j = choose|j: int| 0 <= j < rest.len() && rest[j] == max_bits(rest);
            assert(vals[j] == max_bits(vals));
        }
        assert forall|i: int|
            0 <= i < vals.len() implies spec_total_order_key(max_bits(vals))
            >= spec_total_order_key(#[trigger] vals[i]) by {
            if i < vals.len() - 1 {
                assert(vals[i] == rest[i]);
            }
        }
    }
}

/// Order preservation under range queries: a window that covers every
/// sample returns the whole series unchanged, in insertion order. In
/// particular, bulk-inserted entries come back in the order given.
pub proof fn lemma_range_of_all_in_window(s: Seq<PointModel>, start: u64, end: u64)
    requires
        forall|i: int| 0 <= i < s.len() ==> in_window(s[i], start, end),
    ensures
        range_of(s, start, end) == s,
    decreases s.len(),
{
    reveal(Seq::filter);
    if s.len() == 0 {
        assert(range_of(s, start, end) =~= s);
    } else {
        let rest = s.drop_last();
        assert forall|i: int| 0 <= i < rest.len() implies in_window(rest[i], start, end) by {
            assert(rest[i] == s[i]);
        }
        lemma_range_of_all_in_window(rest, start, end);
        assert(in_window(s.last(), start, end));
        assert(range_of(s, start, end) == range_of(rest, start, end).push(s.last()));
        assert(rest.push(s.last()) =~= s);
    }
}

} // verus!
