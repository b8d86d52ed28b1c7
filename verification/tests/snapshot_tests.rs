use rpcperf::metrics::{MetricKind, MetricRecord, Metrics};
use rpcperf::snapshot::{PercentileValues, Snapshot, SnapshotEntry};

fn counter(name: &str, value: u64) -> MetricRecord {
    MetricRecord { name: String::from(name), description: None, kind: MetricKind::Counter(value) }
}

fn gauge(name: &str, description: Option<&str>, value: i64) -> MetricRecord {
    MetricRecord {
        name: String::from(name),
        description: description.map(String::from),
        kind: MetricKind::Gauge(value),
    }
}

fn ladder() -> PercentileValues {
    PercentileValues { p25: 1, p50: 42, p75: 3, p90: 4, p99: 5, p999: 6, p9999: 7 }
}

#[test]
fn delta_is_zero_for_a_counter_absent_from_both() {
    let a = Snapshot::new(&vec![counter("x", 5)], None, None, 0);
    let b = Snapshot::new(&vec![counter("x", 9)], None, None, 1_000_000_000);
    assert_eq!(b.delta_count(&a, &String::from("absent")), 0);
}

#[test]
fn delta_is_the_later_value_when_absent_from_the_earlier() {
    let a = Snapshot::new(&vec![], None, None, 0);
    let b = Snapshot::new(&vec![counter("fresh", 17)], None, None, 1_000_000_000);
    assert_eq!(b.delta_count(&a, &String::from("fresh")), 17);
}

#[test]
fn delta_surfaces_a_counter_reset_as_negative() {
    let a = Snapshot::new(&vec![counter("c", 50)], None, None, 0);
    let b = Snapshot::new(&vec![counter("c", 10)], None, None, 1_000_000_000);
    assert_eq!(b.delta_count(&a, &String::from("c")), -40);
}

#[test]
fn hitrate_is_zero_when_total_rate_is_zero() {
    let a = Snapshot::new(&vec![counter("total", 5), counter("hit", 2)], None, None, 0);
    let b = Snapshot::new(&vec![counter("total", 5), counter("hit", 4)], None, None, 2_000_000_000);
    let r = b.hitrate(&a, &String::from("total"), &String::from("hit"));
    assert_eq!(r.num, 0);
    assert!(r.den > 0);
}

#[test]
fn hitrate_with_equal_timestamps_never_divides() {
    let a = Snapshot::new(&vec![counter("total", 0), counter("hit", 0)], None, None, 7);
    let b = Snapshot::new(&vec![counter("total", 9), counter("hit", 9)], None, None, 7);
    let r = b.hitrate(&a, &String::from("total"), &String::from("hit"));
    assert_eq!(r.num, 0);
    assert!(r.den > 0);
}

#[test]
fn hitrate_is_exact_percentage() {
    let a = Snapshot::new(&vec![counter("total", 0), counter("hit", 0)], None, None, 0);
    let b = Snapshot::new(&vec![counter("total", 8), counter("hit", 2)], None, None, 1_000_000_000);
    let r = b.hitrate(&a, &String::from("total"), &String::from("hit"));
    // 100 * 2 / 8 == 25 percent, as the exact ratio 200/8.
    assert_eq!(r.num, 200);
    assert_eq!(r.den, 8);
}

#[test]
fn success_rate_defaults_to_one_hundred() {
    let a = Snapshot::new(&vec![], None, None, 0);
    let b = Snapshot::new(&vec![], None, None, 1_000_000_000);
    let r = b.success_rate(&a, &String::from("total"), &String::from("err"));
    assert_eq!(r.num, 100);
    assert_eq!(r.den, 1);
}

#[test]
fn rate_is_delta_over_elapsed_seconds() {
    let a = Snapshot::new(&vec![counter("req", 10)], None, None, 0);
    let b = Snapshot::new(&vec![counter("req", 30)], None, None, 2_000_000_000);
    let r = b.rate(&a, &String::from("req"));
    // 20 requests over two seconds: 20e9 / 2e9 == 10 per second.
    assert_eq!(r.num, 20_000_000_000);
    assert_eq!(r.den, 2_000_000_000);
}

#[test]
fn human_rendering_is_sorted_with_trailing_newline() {
    let records = vec![gauge("beta", None, -2), counter("alpha", 3)];
    let s = Snapshot::new(&records, None, None, 0);
    assert_eq!(s.human(), "alpha: 3\nbeta: -2\n");
}

#[test]
fn json_rendering_is_one_flat_sorted_object() {
    let records = vec![gauge("beta", None, -2), counter("alpha", 3)];
    let s = Snapshot::new(&records, None, None, 0);
    assert_eq!(s.json(), "{\"alpha\": 3,\"beta\": -2}");
}

#[test]
fn prometheus_rendering_has_type_lines_and_help() {
    let records = vec![counter("alpha", 3), gauge("beta", Some("a beta gauge"), -2)];
    let s = Snapshot::new(&records, None, None, 0);
    assert_eq!(
        s.prometheus(),
        "# HELP beta a beta gauge\n# TYPE beta gauge\nbeta -2\n# TYPE alpha counter\nalpha 3\n"
    );
}

#[test]
fn prometheus_rewrites_every_slash() {
    let records = vec![counter("request/get", 7)];
    let s = Snapshot::new(&records, None, None, 0);
    assert_eq!(s.prometheus(), "# TYPE request_get counter\nrequest_get 7\n");
}

#[test]
fn json_and_prometheus_carry_the_same_names_and_values() {
    let records = vec![counter("request/get", 7), gauge("open", None, 3)];
    let s = Snapshot::new(&records, None, None, 0);
    let json = s.json();
    let prom = s.prometheus();
    assert!(json.contains("\"request/get\": 7"));
    assert!(prom.contains("request_get 7"));
    assert!(json.contains("\"open\": 3"));
    assert!(prom.contains("open 3"));
}

#[test]
fn percentile_ladders_render_in_all_three_formats() {
    let s = Snapshot::new(&vec![], Some(&ladder()), Some(&ladder()), 0);
    let human = s.human();
    assert!(human.contains("connect_latency/p50: 42"));
    assert!(human.contains("response_latency/p9999: 7"));
    let json = s.json();
    assert!(json.contains("\"connect_latency/p50\": 42"));
    let prom = s.prometheus();
    assert!(prom.contains("connect_latency{percentile=\"p50\"} 42"));
    assert!(!prom.contains('/'));
}

#[test]
fn later_records_of_a_name_replace_earlier_ones() {
    let records = vec![counter("dup", 1), counter("dup", 5)];
    let s = Snapshot::new(&records, None, None, 0);
    assert_eq!(s.human(), "dup: 5\n");
}

#[test]
fn other_kind_records_are_skipped() {
    let records = vec![
        counter("c", 1),
        MetricRecord {
            name: String::from("heat"),
            description: None,
            kind: MetricKind::Other,
        },
    ];
    let s = Snapshot::new(&records, None, None, 0);
    assert_eq!(s.human(), "c: 1\n");
}

#[test]
fn snapshot_entry_holds_description_and_value() {
    let e: SnapshotEntry<u64> = SnapshotEntry { description: Some(String::from("d")), value: 9 };
    assert_eq!(e.value, 9);
    assert_eq!(e.description.as_deref(), Some("d"));
}

#[test]
fn live_metrics_register_under_their_static_names() {
    let mut m = Metrics::new();
    m.incr_request_get();
    m.incr_request_get();
    m.incr_response_hit();
    let records = m.records();
    let s = Snapshot::new(&records, None, None, 0);
    assert!(s.json().contains("\"request/get\": 2"));
    assert!(s.json().contains("\"response/hit\": 1"));
}

#[test]
fn hitrate_after_a_counter_reset_is_zero() {
    let a = Snapshot::new(&vec![counter("total", 50), counter("hit", 50)], None, None, 0);
    let b = Snapshot::new(&vec![counter("total", 10), counter("hit", 10)], None, None, 1_000_000_000);
    let r = b.hitrate(&a, &String::from("total"), &String::from("hit"));
    assert_eq!(r.num, 0);
    assert!(r.den > 0);
}

#[test]
fn success_rate_subtracts_the_error_share() {
    let a = Snapshot::new(&vec![counter("total", 0), counter("err", 0)], None, None, 0);
    let b = Snapshot::new(&vec![counter("total", 10), counter("err", 3)], None, None, 1_000_000_000);
    let r = b.success_rate(&a, &String::from("total"), &String::from("err"));
    // 100 - 100 * 3 / 10 == 70 percent, as the exact ratio 700/10.
    assert_eq!(r.num, 700);
    assert_eq!(r.den, 10);
}

#[test]
fn sorting_is_lexicographic_with_prefixes_first() {
    let lines = vec![
        String::from("abc: 1"),
        String::from("ab: 2"),
        String::from("b: 3"),
        String::from("a: 4"),
    ];
    let sorted = rpcperf::textsort::sort_strings(lines);
    assert_eq!(
        sorted,
        vec![
            String::from("a: 4"),
            String::from("ab: 2"),
            String::from("abc: 1"),
            String::from("b: 3"),
        ]
    );
}
