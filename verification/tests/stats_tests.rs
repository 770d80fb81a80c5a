use f_boom::collect::Collector;
use f_boom::sample::Sample;
use f_boom::stats::{
    histogram_bars, latency_bucket, latency_histogram, modes_ms, percentile_index, summarize,
    BenchResult,
};
use std::time::Duration;

const MS: u64 = 1_000_000;

fn result_of(times_ns: Vec<u64>, total_sent: u64) -> BenchResult {
    BenchResult {
        label: "label".to_string(),
        url: "http://localhost:8080/".to_string(),
        duration: Duration::from_secs(2),
        times_ns,
        total_sent,
    }
}

#[test]
fn sample_ok_and_fail() {
    let s = Sample::ok(1500);
    assert!(s.is_ok());
    assert_eq!(s.latency_ns(), 1500);
    assert_eq!(s.sent(), 1);
    let f = Sample::fail();
    assert!(!f.is_ok());
    assert_eq!(f.latency_ns(), 0);
    assert_eq!(f.sent(), 1);
}

#[test]
fn sample_ok_at_zero_counts_as_failure() {
    assert!(!Sample::ok(0).is_ok());
}

#[test]
fn success_counts_latencies() {
    let r = result_of(vec![1, 2, 3], 5);
    assert_eq!(r.success(), 3);
}

#[test]
fn collector_counts_every_sample_and_keeps_successes_sorted() {
    let mut c = Collector::new();
    c.record(Sample::ok(30));
    c.record(Sample::fail());
    c.record(Sample::ok(10));
    c.record(Sample::ok(0));
    c.record(Sample::ok(20));
    assert_eq!(c.total_sent(), 5);
    let r = c.finish("ws".to_string(), "ws://h/".to_string(), Duration::from_millis(7));
    assert_eq!(r.times_ns, vec![10, 20, 30]);
    assert_eq!(r.total_sent, 5);
    assert_eq!(r.label, "ws");
    assert_eq!(r.url, "ws://h/");
    assert_eq!(r.duration, Duration::from_millis(7));
    assert!(r.success() as u64 <= r.total_sent);
}

#[test]
fn collector_empty() {
    let c = Collector::new();
    assert_eq!(c.total_sent(), 0);
    let r = c.finish(String::new(), String::new(), Duration::ZERO);
    assert!(r.times_ns.is_empty());
    assert_eq!(r.total_sent, 0);
}

#[test]
fn summarize_none_without_successes() {
    assert!(summarize(&result_of(vec![], 4)).is_none());
}

#[test]
fn summarize_even_count() {
    let t = vec![MS, 2 * MS, 2 * MS + 500, 3 * MS, 40 * MS, 1200 * MS];
    let s = summarize(&result_of(t, 8)).unwrap();
    assert_eq!(s.min_ns, MS);
    assert_eq!(s.max_ns, 1200 * MS);
    assert_eq!(s.avg_ns, (MS + 2 * MS + 2 * MS + 500 + 3 * MS + 40 * MS + 1200 * MS) / 6);
    assert_eq!(s.median_low_ns, 2 * MS + 500);
    assert_eq!(s.median_high_ns, 3 * MS);
    // ranks over 5 gaps: 50% -> 2, 90% -> 4, 95% -> 4, 99% -> 4
    assert_eq!(s.p50_ns, 2 * MS + 500);
    assert_eq!(s.p90_ns, 40 * MS);
    assert_eq!(s.p95_ns, 40 * MS);
    assert_eq!(s.p99_ns, 40 * MS);
    assert_eq!(s.modes_ms, vec![2]);
    assert_eq!(s.buckets, vec![0, 1, 3, 0, 0, 0, 1, 0, 0, 0, 0, 0, 0, 0, 1]);
    assert_eq!(s.bars[2], 40);
    assert_eq!(s.bars[1], 13);
    assert_eq!(s.bars[14], 13);
    assert_eq!(s.bars[0], 1);
}

#[test]
fn summarize_odd_count_median_is_middle() {
    let s = summarize(&result_of(vec![5, 7, 100], 3)).unwrap();
    assert_eq!(s.median_low_ns, 7);
    assert_eq!(s.median_high_ns, 7);
    assert_eq!(s.avg_ns, 37);
    assert_eq!(s.modes_ms, vec![0]);
    assert_eq!(s.buckets[0], 3);
}

#[test]
fn summarize_single_latency() {
    let s = summarize(&result_of(vec![42 * MS], 1)).unwrap();
    assert_eq!(s.min_ns, 42 * MS);
    assert_eq!(s.max_ns, 42 * MS);
    assert_eq!(s.p99_ns, 42 * MS);
    assert_eq!(s.median_low_ns, 42 * MS);
    assert_eq!(s.modes_ms, vec![42]);
}

#[test]
fn summarize_mean_does_not_overflow() {
    let s = summarize(&result_of(vec![u64::MAX, u64::MAX], 2)).unwrap();
    assert_eq!(s.avg_ns, u64::MAX);
}

#[test]
fn summary_is_ordered_for_sorted_latencies() {
    let t: Vec<u64> = (1..=1000u64).map(|i| i * 997).collect();
    let s = summarize(&result_of(t, 1000)).unwrap();
    assert!(s.min_ns <= s.p50_ns && s.p50_ns <= s.p90_ns && s.p90_ns <= s.p95_ns);
    assert!(s.p95_ns <= s.p99_ns && s.p99_ns <= s.max_ns);
    assert!(s.min_ns <= s.avg_ns && s.avg_ns <= s.max_ns);
    assert!(s.median_low_ns <= s.median_high_ns);
}

#[test]
fn modes_with_ties_are_ascending() {
    let t = vec![9 * MS, 3 * MS + 1, 9 * MS + 10, 3 * MS, 5 * MS];
    assert_eq!(modes_ms(&t), vec![3, 9]);
}

#[test]
fn modes_all_distinct() {
    let t = vec![4 * MS, MS, 2 * MS];
    assert_eq!(modes_ms(&t), vec![1, 2, 4]);
}

#[test]
fn modes_of_nothing() {
    assert!(modes_ms(&[]).is_empty());
}

#[test]
fn modes_exist_for_nonempty() {
    for n in 1..20u64 {
        let t: Vec<u64> = (0..n).map(|i| (i % 3) * MS).collect();
        assert!(!modes_ms(&t).is_empty());
    }
}

#[test]
fn bucket_edges() {
    let cases = [
        (0, 0), (1, 1), (2, 2), (4, 2), (5, 3), (10, 4), (20, 5), (30, 6), (50, 7), (75, 8),
        (100, 9), (150, 10), (200, 11), (300, 12), (499, 12), (500, 13), (999, 13),
        (1000, 14), (u64::MAX, 14),
    ];
    for (ms, k) in cases {
        assert_eq!(latency_bucket(ms), k, "ms = {ms}");
    }
}

#[test]
fn histogram_counts_every_latency_once() {
    let t: Vec<u64> = (0..500u64).map(|i| i * 3 * MS + 17).collect();
    let counts = latency_histogram(&t);
    assert_eq!(counts.len(), 15);
    assert_eq!(counts.iter().sum::<u64>(), 500);
}

#[test]
fn bars_scale_to_fullest_bucket() {
    let bars = histogram_bars(&vec![0, 3, 12, 1]);
    assert_eq!(bars, vec![1, 10, 40, 3]);
    let empty = histogram_bars(&vec![0, 0]);
    assert_eq!(empty, vec![1, 1]);
}

#[test]
fn percentile_positions() {
    assert_eq!(percentile_index(1, 99), 0);
    assert_eq!(percentile_index(11, 50), 5);
    assert_eq!(percentile_index(11, 90), 9);
    assert_eq!(percentile_index(101, 95), 95);
    assert_eq!(percentile_index(101, 99), 99);
    assert_eq!(percentile_index(10, 100), 9);
}
