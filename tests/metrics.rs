use concurrency::{AmapMetrics, MetricsError};

#[test]
fn counters_start_at_zero() {
    let m = AmapMetrics::new(&["a", "b"]);
    assert_eq!(m.to_string(), "a: 0\nb: 0\n");
}

#[test]
fn increments_are_counted_per_key() {
    let m = AmapMetrics::new(&["a", "b"]);
    m.inc("a").unwrap();
    m.inc("a").unwrap();
    m.inc("b").unwrap();
    assert_eq!(m.to_string(), "a: 2\nb: 1\n");
}

#[test]
fn unknown_key_is_refused() {
    let m = AmapMetrics::new(&["a"]);
    assert_eq!(m.inc("z"), Err(MetricsError::KeyNotFound));
    assert_eq!(m.to_string(), "a: 0\n");
}

#[test]
fn repeated_names_give_one_counter() {
    let m = AmapMetrics::new(&["a", "b", "a"]);
    m.inc("a").unwrap();
    assert_eq!(m.to_string(), "a: 1\nb: 0\n");
}

#[test]
fn clones_share_their_counters() {
    let m = AmapMetrics::new(&["x"]);
    let other = m.clone();
    other.inc("x").unwrap();
    m.inc("x").unwrap();
    assert_eq!(m.to_string(), "x: 2\n");
}

#[test]
fn no_names_no_counters() {
    let m = AmapMetrics::new(&[]);
    assert_eq!(m.inc("a"), Err(MetricsError::KeyNotFound));
    assert_eq!(m.to_string(), "");
}
