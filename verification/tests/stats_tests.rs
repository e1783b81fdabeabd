use xray_tester::outcome::{classify_error, Completion, FailKind, Outcome, RespMeta};
use xray_tester::stats::{Ratio, Stats};

fn with_latencies(lats: &[u64]) -> Stats {
    let mut s = Stats::new();
    for &l in lats {
        s.record_success(l);
    }
    s
}

#[test]
fn percentile_nearest_rank() {
    let s = with_latencies(&[10, 20, 30, 40, 50]);
    // p = 0.5 -> rank ceil(2.5) = 3 -> third sample
    assert_eq!(s.latency_percentile(5000), Some(30));
    // p = 0.99 on 5 samples -> rank 5 -> the maximum
    assert_eq!(s.latency_percentile(9900), Some(50));
    assert_eq!(s.latency_percentile(7500), Some(40));
    assert_eq!(s.latency_percentile(0), Some(10));
    assert_eq!(s.latency_percentile(10000), Some(50));
}

#[test]
fn percentile_sorts_arrival_order() {
    let s = with_latencies(&[50, 10, 40, 20, 30]);
    assert_eq!(s.latency_percentile(5000), Some(30));
}

#[test]
fn percentile_empty_is_none() {
    let s = Stats::new();
    assert_eq!(s.latency_percentile(5000), None);
}

#[test]
fn mean_is_exact_ratio() {
    let s = with_latencies(&[10, 20, 30, 40, 50]);
    assert_eq!(s.latency_avg(), Some(Ratio { num: 150, den: 5 }));
    assert_eq!(Stats::new().latency_avg(), None);
}

#[test]
fn median_middle_pair() {
    let even = with_latencies(&[40, 10, 30, 20]);
    assert_eq!(even.latency_median(), Some((20, 30)));
    let odd = with_latencies(&[30, 10, 20]);
    assert_eq!(odd.latency_median(), Some((20, 20)));
    assert_eq!(Stats::new().latency_median(), None);
}

#[test]
fn sample_variance_ratio() {
    // n=4, sum=100, sum of squares=3000:
    // variance = (4*3000 - 100^2) / (4*3) = 2000/12
    let s = with_latencies(&[10, 20, 30, 40]);
    assert_eq!(s.latency_stddev(), Some(Ratio { num: 2000, den: 12 }));
    assert_eq!(with_latencies(&[10]).latency_stddev(), None);
    assert_eq!(Stats::new().latency_stddev(), None);
}

#[test]
fn latency_max_value() {
    let s = with_latencies(&[30, 50, 10]);
    assert_eq!(s.latency_max(), Some(50));
    assert_eq!(Stats::new().latency_max(), None);
}

#[test]
fn rps_buckets_and_reads() {
    let mut s = Stats::new();
    s.record_success_bucket(0);
    s.record_success_bucket(0);
    s.record_success_bucket(2);
    assert_eq!(s.rps_secs, vec![2, 0, 1]);
    assert_eq!(s.rps_max(), Some(2));
    // sorted series [0,1,2] -> middle pair (1,1)
    assert_eq!(s.rps_median(), Some((1, 1)));
    // series sum=3, sum of squares=5: (3*5 - 9) / (3*2) = 6/6
    assert_eq!(s.rps_stddev(), Some(Ratio { num: 6, den: 6 }));
}

#[test]
fn rps_avg_ratio() {
    let mut s = Stats::new();
    s.record_success(5);
    s.record_success(6);
    s.total_duration_ms = 4000;
    assert_eq!(s.rps_avg(), Some(Ratio { num: 2000, den: 4000 }));
    s.total_duration_ms = 0;
    assert_eq!(s.rps_avg(), None);
}

#[test]
fn status_histogram_counts() {
    let mut s = Stats::new();
    s.record_status(200);
    s.record_status(404);
    s.record_status(200);
    assert_eq!(s.status_counts, vec![(200, 2), (404, 1)]);
    let classes = s.status_class_counts();
    assert_eq!(classes.c2xx, 2);
    assert_eq!(classes.c4xx, 1);
    assert_eq!(classes.c1xx, 0);
    assert_eq!(classes.c3xx, 0);
    assert_eq!(classes.c5xx, 0);
    assert_eq!(classes.other, 0);
}

#[test]
fn status_class_other() {
    let mut s = Stats::new();
    s.record_status(42);
    s.record_status(999);
    let classes = s.status_class_counts();
    assert_eq!(classes.other, 2);
}

#[test]
fn reads_are_pure() {
    let s = with_latencies(&[7, 3, 9, 1]);
    assert_eq!(s.latency_percentile(9000), s.latency_percentile(9000));
    assert_eq!(s.latency_avg(), s.latency_avg());
    assert_eq!(s.latency_stddev(), s.latency_stddev());
    assert_eq!(s.latency_median(), s.latency_median());
    assert_eq!(s.rps_median(), s.rps_median());
    assert_eq!(s.rps_stddev(), s.rps_stddev());
}

#[test]
fn classify_error_kinds() {
    assert_eq!(classify_error("request timed out"), FailKind::Timeout);
    assert_eq!(classify_error("invalid peer certificate"), FailKind::TlsError);
    assert_eq!(classify_error("TLS connect failed"), FailKind::TlsError);
    assert_eq!(classify_error("connection refused"), FailKind::ConnError);
    // deadline wording wins over TLS wording
    assert_eq!(classify_error("TLS connect timed out"), FailKind::Timeout);
}

fn success_completion(sec: u64) -> Completion {
    Completion {
        outcome: Outcome::Finished(RespMeta {
            success: true,
            dur_us: Some(1200),
            status: Some(200),
            finished_ms: sec * 1000,
        }),
        sec,
    }
}

#[test]
fn all_successes_reconcile() {
    let completions: Vec<Completion> = (0..50).map(|i| success_completion(i % 3)).collect();
    let stats = Stats::collect(&completions, 3000);
    assert_eq!(stats.success, 50);
    assert_eq!(stats.fail, 0);
    assert_eq!(stats.success + stats.fail, 50);
    assert_eq!(stats.latencies_us.len(), 50);
    assert_eq!(stats.status_counts, vec![(200, 50)]);
    assert_eq!(stats.total_duration_ms, 3000);
}

#[test]
fn all_timeouts_reconcile() {
    let completions: Vec<Completion> = (0..10)
        .map(|_| Completion { outcome: Outcome::Errored(FailKind::Timeout), sec: 0 })
        .collect();
    let stats = Stats::collect(&completions, 100);
    assert_eq!(stats.fail, 10);
    assert_eq!(stats.timeout_errors, 10);
    assert_eq!(stats.success, 0);
    assert_eq!(stats.conn_errors, 0);
    assert_eq!(stats.tls_errors, 0);
    assert_eq!(stats.rps_secs, vec![10]);
}

#[test]
fn mixed_outcomes_reconcile() {
    let completions = vec![
        success_completion(0),
        Completion {
            outcome: Outcome::Finished(RespMeta {
                success: false,
                dur_us: Some(900),
                status: Some(500),
                finished_ms: 10,
            }),
            sec: 0,
        },
        Completion { outcome: Outcome::Errored(FailKind::ConnError), sec: 1 },
        Completion { outcome: Outcome::Errored(FailKind::TlsError), sec: 1 },
        Completion { outcome: Outcome::Lost, sec: 2 },
    ];
    let stats = Stats::collect(&completions, 2500);
    assert_eq!(stats.success, 1);
    assert_eq!(stats.fail, 4);
    assert_eq!(stats.success + stats.fail, 5);
    assert_eq!(stats.conn_errors, 1);
    assert_eq!(stats.tls_errors, 1);
    assert_eq!(stats.timeout_errors, 0);
    // the rejected exchange still lands in the status histogram
    assert_eq!(stats.status_counts, vec![(200, 1), (500, 1)]);
    // only the accepted exchange contributes a latency
    assert_eq!(stats.latencies_us, vec![1200]);
    // every completion lands in its second's bucket
    assert_eq!(stats.rps_secs, vec![2, 2, 1]);
}

#[test]
fn success_without_latency_counts_zero() {
    let completions = vec![Completion {
        outcome: Outcome::Finished(RespMeta {
            success: true,
            dur_us: None,
            status: Some(204),
            finished_ms: 0,
        }),
        sec: 0,
    }];
    let stats = Stats::collect(&completions, 1);
    assert_eq!(stats.success, 1);
    assert_eq!(stats.latencies_us, vec![0]);
}
