use mirus::error::{MirusError, NetworkError, RequestFailure};
use mirus::float::FloatBits;
use mirus::measure::{simulated_progress, ConnectionConfig, Download, Measure, StreamError, Transfer};
use mirus::mirror::{Mirror, MirrorId, Mirrorlist, Protocol, Rate};
use mirus::run::{cache_enabled, cache_fresh, cached_list_usable, failure_message, fell_short, found_ids};
use mirus::text::{compare_text, eq_ignore_ascii_case};
use mirus::time::{TimeSpan, Timestamp};
use std::cmp::Ordering;
use std::time::Duration;

fn failure() -> RequestFailure {
    RequestFailure { timeout: false, status: None, connect: false, decode: false, message: "boom".to_string() }
}

#[test]
fn request_failures_are_classified_in_priority_order() {
    let mut f = failure();
    f.timeout = true;
    f.connect = true;
    assert!(matches!(NetworkError::classify(f), NetworkError::Timeout));
    let mut f = failure();
    f.status = Some(reqwest::StatusCode::NOT_FOUND);
    f.decode = true;
    match NetworkError::classify(f) {
        NetworkError::Status(s) => assert_eq!(s.as_u16(), 404),
        other => panic!("unexpected {other:?}"),
    }
    let mut f = failure();
    f.connect = true;
    f.decode = true;
    assert!(matches!(NetworkError::classify(f), NetworkError::Connect));
    let mut f = failure();
    f.decode = true;
    assert!(matches!(NetworkError::classify(f), NetworkError::Decode));
    match NetworkError::classify(failure()) {
        NetworkError::Other(m) => assert_eq!(m, "boom"),
        other => panic!("unexpected {other:?}"),
    }
}

#[test]
fn network_errors_describe_themselves() {
    assert_eq!(NetworkError::Connect.describe(), "connection error");
    assert_eq!(NetworkError::Decode.describe(), "error decoding response body");
    assert_eq!(NetworkError::Io.describe(), "network io error");
    assert_eq!(NetworkError::Timeout.describe(), "connection timeout");
    assert_eq!(NetworkError::Other("x".to_string()).describe(), "network error: x");
    assert_eq!(NetworkError::Status(reqwest::StatusCode::NOT_FOUND).describe(), "status 404 Not Found");
    assert_eq!(MirusError::InvalidMirror("bad".to_string()).describe(), "invalid mirror: bad");
    assert_eq!(MirusError::Network(NetworkError::Timeout).describe(), "network error: Timeout");
    assert_eq!(MirusError::from(NetworkError::Io).describe(), "network error: Io");
    let io = std::io::Error::new(std::io::ErrorKind::Other, "disk");
    assert_eq!(MirusError::from(io).describe(), "IO error: disk");
}

#[test]
fn progress_bar_failure_messages() {
    assert_eq!(failure_message(&NetworkError::Other("long text".to_string())), "network error");
    assert_eq!(failure_message(&NetworkError::Timeout), "connection timeout");
    assert_eq!(failure_message(&NetworkError::Status(reqwest::StatusCode::BAD_GATEWAY)), "502 Bad Gateway");
    assert!(fell_short(Some(100), 99));
    assert!(!fell_short(Some(100), 100));
    assert!(!fell_short(None, 0));
}

#[test]
fn cache_decisions() {
    let ttl = TimeSpan { secs: 300, nanos: 0 };
    assert!(cache_enabled(true, ttl));
    assert!(!cache_enabled(false, ttl));
    assert!(!cache_enabled(true, TimeSpan::zero()));
    assert!(cache_fresh(Some(TimeSpan { secs: 299, nanos: 999_999_999 }), ttl));
    assert!(!cache_fresh(Some(ttl), ttl));
    assert!(!cache_fresh(None, ttl));
    let list = Mirrorlist {
        url: Some(Mirrorlist::URL.to_string()),
        check_frequency: 0,
        cutoff: 0,
        last_check: Timestamp { secs: 0, nanos: 0 },
        num_checks: 0,
        mirrors: vec![],
        version: 3,
    };
    assert!(cached_list_usable(&list, "https://archlinux.org/mirrors/status/json/"));
    assert!(!cached_list_usable(&list, "https://example.org/"));
}

fn fb(x: f64) -> FloatBits {
    FloatBits { bits: x.to_bits() }
}

#[test]
fn float_keys_follow_total_order() {
    let values = [f64::NEG_INFINITY, -2.0, -0.0, 0.0, 1e-300, 3.0, f64::INFINITY, f64::NAN];
    for w in values.windows(2) {
        assert!(fb(w[0]).total_key() < fb(w[1]).total_key());
        assert_eq!(w[0].total_cmp(&w[1]), Ordering::Less);
    }
    assert!(fb(f64::NAN).is_nan());
    assert!(fb(-f64::NAN).is_nan());
    assert!(!fb(f64::INFINITY).is_nan());
    assert!(fb(-0.0).is_zero());
    assert!(!fb(1e-300).is_zero());
}

#[test]
fn text_comparisons() {
    assert_eq!(compare_text("abc", "abd"), Ordering::Less);
    assert_eq!(compare_text("abc", "ab"), Ordering::Greater);
    assert_eq!(compare_text("", ""), Ordering::Equal);
    assert_eq!(compare_text("Zebra", "apple"), "Zebra".cmp("apple"));
    assert_eq!(compare_text("é", "z"), "é".cmp("z"));
    assert!(eq_ignore_ascii_case("GerMany", "germany"));
    assert!(!eq_ignore_ascii_case("germany", "germans"));
    assert!(!eq_ignore_ascii_case("É", "é"));
}

#[test]
fn connection_config_builders() {
    let d = ConnectionConfig::default();
    assert_eq!(d.connection_timeout, Duration::from_secs(2));
    assert_eq!(d.timeout, Duration::from_secs(5));
    assert_eq!(d.max_concurrent_measurements, 12);
    assert!(d.keep_timeouted);
    let c = d
        .with_max_concurrent_measurements(3)
        .with_connection_timeout(Duration::from_millis(10))
        .with_timeout(Duration::from_millis(20))
        .keep_timeouted(false);
    assert_eq!(c, ConnectionConfig::new(Duration::from_millis(10), Duration::from_millis(20), 3, false));
    assert_eq!(Measure::new(c).config(), c);
}

#[test]
fn transfers_by_protocol() {
    assert_eq!(Measure::transfer_for(Protocol::Http), Transfer::Http);
    assert_eq!(Measure::transfer_for(Protocol::Https), Transfer::Http);
    assert_eq!(Measure::transfer_for(Protocol::Rsync), Transfer::Simulated);
    let steps = simulated_progress();
    assert_eq!(steps.len(), 100);
    assert_eq!(steps[0], 0);
    assert_eq!(steps[99], 990);
}

#[test]
fn download_tally() {
    let mut d = Download::start(TimeSpan::from_millis(7));
    let r = d.on_chunk(100, TimeSpan::from_millis(3));
    assert_eq!(r.bytes_downloaded, 100);
    let r = d.on_chunk(50, TimeSpan::from_millis(9));
    assert_eq!(r.bytes_downloaded, 150);
    assert_eq!(r.download_time, TimeSpan::from_millis(9));
    assert_eq!(d.on_error(true, true), StreamError::Stop);
    assert_eq!(d.on_error(true, false), StreamError::Fail);
    assert_eq!(d.on_error(false, true), StreamError::Fail);
    let done: Rate = d.finish(TimeSpan::from_millis(12));
    assert_eq!(done, Rate { connection_time: TimeSpan::from_millis(7), download_time: TimeSpan::from_millis(12), bytes_downloaded: 150 });
}

#[test]
fn found_ids_in_rank_order() {
    let mk = |url: &str| Mirror {
        id: MirrorId::default(),
        active: true,
        completion_pct: fb(1.0),
        country: String::new(),
        country_code: String::new(),
        delay: 0,
        details: None,
        duration_avg: fb(0.0),
        duration_stddev: fb(0.0),
        ipv4: true,
        ipv6: true,
        isos: false,
        last_sync: Timestamp { secs: 0, nanos: 0 },
        protocol: Protocol::Http,
        score: fb(0.0),
        url: url.to_string(),
        rate: None,
    };
    let a = mk("http://a/");
    let b = mk("http://b/");
    assert_eq!(found_ids(&vec![&b, &a]), vec![MirrorId::default(), MirrorId::default()]);
}

#[test]
fn debug_texts_of_network_errors() {
    assert_eq!(NetworkError::Connect.debug_text(), "Connect");
    assert_eq!(NetworkError::Status(reqwest::StatusCode::NOT_FOUND).debug_text(), "Status(404)");
    assert_eq!(NetworkError::Other("a \"b\"".to_string()).debug_text(), "Other(\"a \\\"b\\\"\")");
    assert_eq!(
        MirusError::Network(NetworkError::Other("x".to_string())).describe(),
        "network error: Other(\"x\")"
    );
    assert_eq!(
        MirusError::Network(NetworkError::Status(reqwest::StatusCode::BAD_GATEWAY)).describe(),
        "network error: Status(502)"
    );
    for e in [NetworkError::Connect, NetworkError::Timeout, NetworkError::Status(reqwest::StatusCode::OK)] {
        assert_eq!(e.debug_text(), format!("{e:?}"));
    }
}

#[test]
fn request_errors_are_classified() {
    let err = reqwest::Proxy::http("http://[bad").unwrap_err();
    let expected = err.to_string();
    assert!(!expected.is_empty());
    assert_eq!(NetworkError::from_request_error(&err).describe(), format!("network error: {expected}"));
}

#[test]
fn default_connection_timeouts() {
    let c = ConnectionConfig::default();
    assert_eq!(c.connection_timeout, std::time::Duration::from_secs(2));
    assert_eq!(c.timeout, std::time::Duration::from_secs(5));
    assert_eq!(
        ConnectionConfig::default().with_timeout(std::time::Duration::from_secs(1)),
        ConnectionConfig::new(std::time::Duration::from_secs(2), std::time::Duration::from_secs(1), 12, true)
    );
}

#[test]
fn status_debug_text_is_the_decimal_code() {
    for code in [100u16, 101, 200, 204, 307, 404, 500, 599, 999] {
        let status = reqwest::StatusCode::from_u16(code).unwrap();
        let e = NetworkError::Status(status);
        assert_eq!(e.debug_text(), format!("Status({code})"));
        assert_eq!(e.debug_text(), format!("{e:?}"));
    }
}
