use exercises::scores::{aggregate_scores, ScoreRecord};

fn record(name: &str, score: u32) -> ScoreRecord {
    ScoreRecord { name: String::from(name), score }
}

#[test]
fn totals_and_count_over_records() {
    let records = vec![record("alice", 90), record("bob", 70), record("carol", 80)];
    let stats = aggregate_scores(&records);
    assert_eq!(stats.count, 3);
    assert_eq!(stats.total, 240);
    assert_eq!((stats.total as f64) / (stats.count as f64), 80.0);
}

#[test]
fn minimum_and_maximum_tracking_never_fires() {
    // The minimum is seeded at 0 and the maximum at u32::MAX, both
    // compared strictly, so the seeds come back untouched.
    let records = vec![record("alice", 90), record("bob", 70)];
    let stats = aggregate_scores(&records);
    assert_eq!(stats.min_score, 0);
    assert_eq!(stats.min_name, "");
    assert_eq!(stats.max_score, u32::MAX);
    assert_eq!(stats.max_name, "");
}

#[test]
fn no_records_at_all() {
    let stats = aggregate_scores(&Vec::new());
    assert_eq!(stats.count, 0);
    assert_eq!(stats.total, 0);
    assert_eq!(stats.min_score, 0);
    assert_eq!(stats.max_score, u32::MAX);
}

#[test]
fn totals_wrap_like_unsigned_addition() {
    let records = vec![record("a", u32::MAX), record("b", 5)];
    let stats = aggregate_scores(&records);
    assert_eq!(stats.total, 4);
}
