use tempus::{AggregateResult, AggregateType, Tags, Tempus, TempusError};

fn tags_of(pairs: &[(&str, &str)]) -> Tags {
    let mut t = Tags::new();
    for (k, v) in pairs {
        t.insert((*k).to_string(), (*v).to_string());
    }
    t
}

/// Reduces an aggregate result to the double it encodes; sums and
/// averages are folded in floating point here, outside the store.
fn agg(store: &Tempus, kind: AggregateType, start: u64, end: u64) -> f64 {
    let is_avg = matches!(kind, AggregateType::Average);
    match store.aggregate(kind, start, end) {
        AggregateResult::Value(b) => f64::from_bits(b),
        AggregateResult::Count(n) => n as f64,
        AggregateResult::Values(v) => {
            let sum: f64 = v.iter().map(|b| f64::from_bits(*b)).sum();
            if is_avg {
                sum / (v.len() as f64)
            } else {
                sum
            }
        }
    }
}

#[test]
fn test_basic_operations() {
    let mut ts = Tempus::new();

    let tags = tags_of(&[("sensor", "temperature")]);
    ts.insert(1234567890, 23.5f64.to_bits(), tags);

    assert_eq!(ts.get(1234567890), Some(23.5f64.to_bits()));

    let range = ts.range_query(1234567880, 1234567900);
    assert_eq!(range.len(), 1);

    let avg = agg(&ts, AggregateType::Average, 1234567880, 1234567900);
    assert_eq!(avg, 23.5);
}

#[test]
fn test_insert_get_round_trip() {
    let mut ts = Tempus::new();
    ts.insert(42, 7.25f64.to_bits(), Tags::new());
    assert_eq!(ts.get(42).map(f64::from_bits), Some(7.25));
    assert_eq!(ts.get(43), None);
}

#[test]
fn test_range_inclusivity() {
    let mut ts = Tempus::new();
    for t in [9u64, 10, 15, 20, 21] {
        ts.insert(t, 1.0f64.to_bits(), Tags::new());
    }
    let got: Vec<u64> = ts.range_query(10, 20).iter().map(|p| p.timestamp).collect();
    assert_eq!(got, vec![10, 15, 20]);
}

#[test]
fn test_tag_filter_superset() {
    let mut ts = Tempus::new();
    ts.insert(1, 1.0f64.to_bits(), tags_of(&[("host", "a")]));
    ts.insert(2, 2.0f64.to_bits(), tags_of(&[("host", "b")]));
    ts.insert(3, 3.0f64.to_bits(), tags_of(&[("region", "x")]));

    let by_key: Vec<u64> = ts.find_by_tag("host").iter().map(|p| p.timestamp).collect();
    let by_val: Vec<u64> = ts
        .find_by_tag_value("host", "a")
        .iter()
        .map(|p| p.timestamp)
        .collect();
    assert_eq!(by_key, vec![1, 2]);
    assert_eq!(by_val, vec![1]);
    for t in &by_val {
        assert!(by_key.contains(t));
    }
}

#[test]
fn test_delete_completeness() {
    let mut ts = Tempus::new();
    ts.insert(5, 1.0f64.to_bits(), Tags::new());
    ts.insert(6, 2.0f64.to_bits(), Tags::new());
    ts.insert(5, 3.0f64.to_bits(), Tags::new());
    ts.delete(5);
    assert_eq!(ts.get(5), None);
    for p in ts.range_query(0, u64::MAX) {
        assert_ne!(p.timestamp, 5);
    }
    assert_eq!(ts.get(6).map(f64::from_bits), Some(2.0));
}

#[test]
fn test_aggregate_values() {
    let mut ts = Tempus::new();
    ts.insert(10, 1.0f64.to_bits(), Tags::new());
    ts.insert(20, 2.0f64.to_bits(), Tags::new());
    ts.insert(30, 3.0f64.to_bits(), Tags::new());

    assert_eq!(agg(&ts, AggregateType::Sum, 10, 30), 6.0);
    assert_eq!(agg(&ts, AggregateType::Average, 10, 30), 2.0);
    assert_eq!(agg(&ts, AggregateType::Max, 10, 30), 3.0);
    assert_eq!(agg(&ts, AggregateType::Min, 10, 20), 1.0);
    assert_eq!(agg(&ts, AggregateType::Count, 0, 5), 0.0);
    assert_eq!(agg(&ts, AggregateType::First, 10, 30), 1.0);
    assert_eq!(agg(&ts, AggregateType::Last, 10, 30), 3.0);
}

#[test]
fn test_update_then_read() {
    let mut ts = Tempus::new();
    ts.insert(20, 1.0f64.to_bits(), Tags::new());
    let r = ts.update(20, 99.0f64.to_bits(), tags_of(&[("a", "b")]));
    assert_eq!(r, Ok(()));
    assert_eq!(ts.get(20).map(f64::from_bits), Some(99.0));
    let tagged: Vec<u64> = ts.find_by_tag("a").iter().map(|p| p.timestamp).collect();
    assert!(tagged.contains(&20));
}

#[test]
fn test_bulk_insert_order() {
    let mut ts = Tempus::new();
    ts.bulk_insert(vec![
        (1, 1.5f64.to_bits(), Tags::new()),
        (2, 2.5f64.to_bits(), Tags::new()),
    ]);
    let got: Vec<(u64, f64)> = ts
        .range_query(1, 2)
        .iter()
        .map(|p| (p.timestamp, f64::from_bits(p.value)))
        .collect();
    assert_eq!(got, vec![(1, 1.5), (2, 2.5)]);
}

#[test]
fn test_update_missing_not_found() {
    let mut ts = Tempus::new();
    ts.insert(1, 1.0f64.to_bits(), Tags::new());
    let r = ts.update(2, 9.0f64.to_bits(), Tags::new());
    assert_eq!(r, Err(TempusError::NotFound));
    assert_eq!(ts.get(1).map(f64::from_bits), Some(1.0));
    assert_eq!(ts.range_query(0, u64::MAX).len(), 1);
}

#[test]
fn test_average_of_empty_window_is_nan() {
    let ts = Tempus::new();
    let avg = agg(&ts, AggregateType::Average, 0, 100);
    assert!(avg.is_nan());
    assert_eq!(agg(&ts, AggregateType::Sum, 0, 100), 0.0);
    assert_eq!(agg(&ts, AggregateType::Count, 0, 100), 0.0);
}

#[test]
fn test_min_max_total_order_with_nan() {
    let mut ts = Tempus::new();
    ts.insert(1, 1.0f64.to_bits(), Tags::new());
    ts.insert(2, f64::NAN.to_bits(), Tags::new());
    ts.insert(3, (-2.0f64).to_bits(), Tags::new());

    assert!(agg(&ts, AggregateType::Max, 0, 10).is_nan());
    assert_eq!(agg(&ts, AggregateType::Min, 0, 10), -2.0);
}

#[test]
fn test_negative_zero_sorts_below_zero() {
    let mut ts = Tempus::new();
    ts.insert(1, 0.0f64.to_bits(), Tags::new());
    ts.insert(2, (-0.0f64).to_bits(), Tags::new());
    let min = agg(&ts, AggregateType::Min, 0, 10);
    assert_eq!(min.to_bits(), (-0.0f64).to_bits());
    let max = agg(&ts, AggregateType::Max, 0, 10);
    assert_eq!(max.to_bits(), 0.0f64.to_bits());
}

#[test]
fn test_empty_window_first_last_min_max_zero() {
    let mut ts = Tempus::new();
    ts.insert(50, 4.0f64.to_bits(), Tags::new());
    for kind in [
        AggregateType::First,
        AggregateType::Last,
        AggregateType::Min,
        AggregateType::Max,
    ] {
        assert_eq!(agg(&ts, kind, 0, 10), 0.0);
    }
}

#[test]
fn test_inverted_range_is_empty() {
    let mut ts = Tempus::new();
    ts.insert(5, 1.0f64.to_bits(), Tags::new());
    assert_eq!(ts.range_query(10, 1).len(), 0);
    assert_eq!(agg(&ts, AggregateType::Count, 10, 1), 0.0);
}

#[test]
fn test_delete_by_tag() {
    let mut ts = Tempus::new();
    ts.insert(1, 1.0f64.to_bits(), tags_of(&[("drop", "yes")]));
    ts.insert(2, 2.0f64.to_bits(), Tags::new());
    ts.insert(3, 3.0f64.to_bits(), tags_of(&[("drop", "no")]));
    ts.delete_by_tag("drop");
    let got: Vec<u64> = ts.range_query(0, 10).iter().map(|p| p.timestamp).collect();
    assert_eq!(got, vec![2]);
}

#[test]
fn test_find_by_tag_value_missing_key_excluded() {
    let mut ts = Tempus::new();
    ts.insert(1, 1.0f64.to_bits(), Tags::new());
    ts.insert(2, 2.0f64.to_bits(), tags_of(&[("k", "v")]));
    let got: Vec<u64> = ts
        .find_by_tag_value("k", "v")
        .iter()
        .map(|p| p.timestamp)
        .collect();
    assert_eq!(got, vec![2]);
}

#[test]
fn test_tags_replace_value() {
    let mut tags = Tags::new();
    tags.insert("k".to_string(), "v1".to_string());
    tags.insert("k".to_string(), "v2".to_string());
    assert!(tags.contains_key("k"));
    assert_eq!(tags.get("k").map(|s| s.as_str()), Some("v2"));
    assert_eq!(tags.get("absent"), None);

    let mut ts = Tempus::new();
    ts.insert(7, 1.0f64.to_bits(), tags);
    assert_eq!(ts.find_by_tag_value("k", "v1").len(), 0);
    assert_eq!(ts.find_by_tag_value("k", "v2").len(), 1);
}

#[test]
fn test_duplicate_timestamps_first_match() {
    let mut ts = Tempus::new();
    ts.insert(9, 1.0f64.to_bits(), Tags::new());
    ts.insert(9, 2.0f64.to_bits(), Tags::new());
    assert_eq!(ts.get(9).map(f64::from_bits), Some(1.0));

    let r = ts.update(9, 5.0f64.to_bits(), Tags::new());
    assert_eq!(r, Ok(()));
    let vals: Vec<f64> = ts
        .range_query(9, 9)
        .iter()
        .map(|p| f64::from_bits(p.value))
        .collect();
    assert_eq!(vals, vec![5.0, 2.0]);

    ts.delete(9);
    assert_eq!(ts.range_query(0, 100).len(), 0);
}
