use rpcperf::admin::{route_request, AdminAction, HttpMethod, TickDecision, WindowLoop};
use rpcperf::codec::Redis;
use rpcperf::keyspace::{Command, Config, Keyspace, Protocol, Verb};
use rpcperf::metrics::Metrics;
use rpcperf::num::{is_valid_i64_dec, parse_u64_dec};
use rpcperf::session::Session;
use rpcperf::snapshot::Snapshot;

#[test]
fn get_routes_select_the_reports() {
    let r = |url: &str| route_request(HttpMethod::Get, url, "", false, false);
    assert_eq!(r("/"), AdminAction::Banner);
    assert_eq!(r("/metrics"), AdminAction::PrometheusStats);
    assert_eq!(r("/metrics.json"), AdminAction::JsonStats);
    assert_eq!(r("/vars.json"), AdminAction::JsonStats);
    assert_eq!(r("/admin/metrics.json"), AdminAction::JsonStats);
    assert_eq!(r("/vars"), AdminAction::HumanStats);
    assert_eq!(r("/anything/else"), AdminAction::JsonStats);
}

#[test]
fn get_routes_strip_the_query_string() {
    let r = |url: &str| route_request(HttpMethod::Get, url, "", false, false);
    assert_eq!(r("/vars?pretty=1"), AdminAction::HumanStats);
    assert_eq!(r("/metrics?scrape=now"), AdminAction::PrometheusStats);
}

#[test]
fn put_sets_a_configured_limiter() {
    let a = route_request(HttpMethod::Put, "/ratelimit/request", "125", false, true);
    assert_eq!(a, AdminAction::SetRequestRate(125));
    let b = route_request(HttpMethod::Put, "/ratelimit/reconnect", "50", true, false);
    assert_eq!(b, AdminAction::SetReconnectRate(50));
}

#[test]
fn put_without_a_limiter_or_with_a_bad_body_is_rejected() {
    let a = route_request(HttpMethod::Put, "/ratelimit/request", "125", true, false);
    assert_eq!(a, AdminAction::BadRequest);
    let b = route_request(HttpMethod::Put, "/ratelimit/request", "fast", true, true);
    assert_eq!(b, AdminAction::BadRequest);
}

#[test]
fn put_on_an_unknown_path_is_not_found() {
    let a = route_request(HttpMethod::Put, "/ratelimit/other", "1", true, true);
    assert_eq!(a, AdminAction::NotFound);
    // PUT routing judges the unstripped URL, so a query string misses.
    let b = route_request(HttpMethod::Put, "/ratelimit/request?x=1", "1", true, true);
    assert_eq!(b, AdminAction::NotFound);
}

#[test]
fn other_methods_are_not_found() {
    let a = route_request(HttpMethod::Other, "/metrics", "", true, true);
    assert_eq!(a, AdminAction::NotFound);
}

#[test]
fn zero_hitrate_ends_the_run_abnormally() {
    let mut w = WindowLoop::new(Some(10));
    let a = Snapshot::new(&vec![], None, None, 0);
    let b = Snapshot::new(&vec![], None, None, 1_000_000_000);
    let hr = b.hitrate(&a, &String::from("request/get"), &String::from("response/hit"));
    assert_eq!(w.tick(&hr, false), TickDecision::Degenerate);
    assert_eq!(w.window, 0);
}

#[test]
fn reaching_the_window_count_ends_the_run_normally() {
    let mut w = WindowLoop::new(Some(1));
    let hr = rpcperf::snapshot::Ratio { num: 500, den: 5 };
    assert_eq!(w.tick(&hr, false), TickDecision::Continue);
    assert_eq!(w.window, 1);
    assert_eq!(w.tick(&hr, false), TickDecision::Finish);
    assert_eq!(w.tick(&hr, true), TickDecision::FinishWithWaterfall);
}

#[test]
fn unbounded_runs_continue_forever() {
    let mut w = WindowLoop::new(None);
    let hr = rpcperf::snapshot::Ratio { num: 1, den: 1 };
    for i in 1..=100u64 {
        assert_eq!(w.tick(&hr, true), TickDecision::Continue);
        assert_eq!(w.window, i);
    }
}

#[test]
fn decimal_parsing_matches_the_standard_library() {
    assert_eq!(parse_u64_dec(b"0"), Some(0));
    assert_eq!(parse_u64_dec(b"+42"), Some(42));
    assert_eq!(parse_u64_dec(b"007"), Some(7));
    assert_eq!(parse_u64_dec(b"18446744073709551615"), Some(u64::MAX));
    assert_eq!(parse_u64_dec(b"18446744073709551616"), None);
    assert_eq!(parse_u64_dec(b""), None);
    assert_eq!(parse_u64_dec(b"+"), None);
    assert_eq!(parse_u64_dec(b"1a"), None);
    assert_eq!(parse_u64_dec(b"-1"), None);
}

#[test]
fn signed_validation_matches_the_standard_library() {
    assert!(is_valid_i64_dec(b"0"));
    assert!(is_valid_i64_dec(b"+5"));
    assert!(is_valid_i64_dec(b"-9223372036854775808"));
    assert!(is_valid_i64_dec(b"9223372036854775807"));
    assert!(!is_valid_i64_dec(b"9223372036854775808"));
    assert!(!is_valid_i64_dec(b"-9223372036854775809"));
    assert!(!is_valid_i64_dec(b""));
    assert!(!is_valid_i64_dec(b"--1"));
}

#[test]
fn session_buffers_append_and_consume() {
    let mut s = Session::new();
    s.write_all(b"get x");
    s.write_all(b"\r\n");
    assert_eq!(s.take_writes(), b"get x\r\n".to_vec());
    assert_eq!(s.take_writes(), Vec::<u8>::new());
    s.receive(b"+OK\r\n+OK\r\n");
    s.consume(5);
    assert_eq!(s.buffer(), b"+OK\r\n");
}

#[test]
fn full_run_with_all_hits_reports_exactly_one_hundred_percent() {
    let config = Config {
        protocol: Protocol::RedisResp,
        interval_ms: 1000,
        windows: Some(1),
        keyspaces: vec![Keyspace {
            weight: 1,
            ttl: 0,
            commands: vec![Command { verb: Verb::Get, weight: 100 }],
            key_count: 16,
            inner_key_count: None,
            value_len: None,
        }],
    };
    let mut codec = Redis::new(config);
    let mut metrics = Metrics::new();
    let mut session = Session::new();
    let before = Snapshot::new(&metrics.records(), None, None, 0);
    for _ in 0..25 {
        codec.encode(&mut metrics, &mut session);
        let _request = session.take_writes();
        session.receive(b"$6\r\nfoobar\r\n");
        assert_eq!(codec.decode(&mut metrics, &mut session), Ok(()));
    }
    let after = Snapshot::new(&metrics.records(), None, None, 1_000_000_000);
    let hr = after.hitrate(&before, &String::from("request/get"), &String::from("response/hit"));
    // Exactly one hundred percent: the ratio equals 100/1.
    assert_eq!(hr.num, 100 * hr.den);
    let mut w = WindowLoop::new(Some(1));
    assert_eq!(w.tick(&hr, false), TickDecision::Continue);
    assert_eq!(w.tick(&hr, false), TickDecision::Finish);
}
