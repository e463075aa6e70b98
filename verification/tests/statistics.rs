use upload_queue::request_stats::LatencyPercentiles;
use upload_queue::request_stats::Stats;
use upload_queue::request_stats::StatsError;

#[test]
fn new_statistics_are_empty() {
    let stats = Stats::try_new().expect("the fixed bounds are valid");
    assert_eq!(stats.len(), 0);
    let output = stats.output(123, [1, 2, 3, 4]);
    assert_eq!(output.request_count, 0);
    assert_eq!(output.latency_mean, 0);
    assert_eq!(output.latency_percentiles.latency_percentiles, [0, 0, 0, 0]);
}

#[test]
fn observed_latencies_are_counted() {
    let mut stats = Stats::try_new().unwrap();
    assert_eq!(stats.observe(1), Ok(()));
    assert_eq!(stats.observe(250), Ok(()));
    assert_eq!(stats.observe(1_000_000_000), Ok(()));
    assert_eq!(stats.observe(0), Ok(()));
    assert_eq!(stats.len(), 4);
    assert_eq!(stats.histogram().inner.len(), 4);
    assert_eq!(stats.histogram().inner.high(), 1_000_000_000);
    assert!(stats.histogram().inner.max() >= 1_000_000_000);
    assert_eq!(stats.histogram().inner.min(), 0);
    let output = stats.output(123, [1, 2, 3, 4]);
    assert_eq!(output.request_count, 4);
    assert_eq!(output.latency_mean, 123);
    assert_eq!(output.latency_percentiles.latency_percentiles, [1, 2, 3, 4]);
}

#[test]
fn latencies_out_of_range_are_refused() {
    let mut stats = Stats::try_new().unwrap();
    assert_eq!(stats.observe(1 << 70), Err(StatsError::LatencyTooLarge));
    assert_eq!(
        stats.observe(1_000_000_000_000_000),
        Err(StatsError::Record { micros: 1_000_000_000_000_000 })
    );
    assert_eq!(stats.len(), 0);
}

#[test]
fn statistics_are_merged() {
    let mut total = Stats::try_new().unwrap();
    let mut other = Stats::try_new().unwrap();
    let empty = Stats::try_new().unwrap();
    assert_eq!(total.observe(10), Ok(()));
    assert_eq!(other.observe(20), Ok(()));
    assert_eq!(other.observe(30), Ok(()));
    assert_eq!(total.add(&empty), Ok(()));
    assert_eq!(total.len(), 1);
    assert_eq!(total.add(&other), Ok(()));
    assert_eq!(total.len(), 3);
    assert_eq!(other.len(), 2);
    assert_eq!(total.histogram().inner.max(), 30);
}

#[test]
fn percentiles_are_reported_under_their_names() {
    let percentiles = LatencyPercentiles { latency_percentiles: [0, 1_500, 2_000_000, 90_000_000] };
    let entries = percentiles.entries();
    assert_eq!(
        entries,
        vec![
            ("p95".to_string(), "0s".to_string()),
            ("p99".to_string(), "1ms 500us".to_string()),
            ("p99.9".to_string(), "2s".to_string()),
            ("p99.99".to_string(), "1m 30s".to_string()),
        ]
    );
}
