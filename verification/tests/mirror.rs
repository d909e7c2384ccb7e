use std::cmp::Ordering;
use mirus::error::MirusError;
use mirus::float::FloatBits;
use mirus::mirror::{stream_mirrors_skip_missing, Mirror, MirrorId, Mirrorlist, Protocol, RawMirror, Rate};
use mirus::time::{TimeSpan, Timestamp};
use mirus::urls::progress_label;

fn fb(x: f64) -> FloatBits {
    FloatBits { bits: x.to_bits() }
}

fn raw(url: &str) -> RawMirror {
    RawMirror {
        active: true,
        completion_pct: Some(fb(1.0)),
        country: "Germany".to_string(),
        country_code: "DE".to_string(),
        delay: Some(120),
        details: None,
        duration_avg: Some(fb(0.5)),
        duration_stddev: Some(fb(0.1)),
        ipv4: true,
        ipv6: false,
        isos: true,
        last_sync: Some(Timestamp { secs: 1_700_000_000, nanos: 0 }),
        protocol: Protocol::Https,
        score: Some(fb(1.5)),
        url: url.to_string(),
    }
}

fn rejection(r: Result<Mirror, MirusError>) -> String {
    match r {
        Err(MirusError::InvalidMirror(msg)) => msg,
        _ => panic!("expected a rejection"),
    }
}

#[test]
fn complete_record_becomes_a_mirror() {
    let m = Mirror::try_from(raw("https://mirror.example.org/archlinux/")).unwrap();
    assert!(m.active);
    assert_eq!(m.delay, 120);
    assert_eq!(m.url, "https://mirror.example.org/archlinux/");
    assert_eq!(m.country, "Germany");
    assert_eq!(m.protocol, Protocol::Https);
    assert!(m.rate.is_none());
    assert_eq!(m.id.index(), 0);
}

#[test]
fn url_is_normalized_by_parsing() {
    let m = Mirror::try_from(raw("HTTPS://Mirror.Example.org")).unwrap();
    assert_eq!(m.url, "https://mirror.example.org/");
}

#[test]
fn missing_measurement_is_rejected() {
    let mut r = raw("https://a.example/");
    r.score = None;
    assert_eq!(rejection(Mirror::try_from(r)), "mirror is not active");
}

#[test]
fn inactive_record_is_rejected() {
    let mut r = raw("https://a.example/");
    r.active = false;
    assert_eq!(rejection(Mirror::try_from(r)), "mirror is not active");
}

#[test]
fn unparsable_url_is_rejected() {
    assert_eq!(rejection(Mirror::try_from(raw("not a url"))), "invalid url");
}

#[test]
fn skipped_records_leave_no_gaps_in_ids() {
    let mut inactive = raw("https://b.example/");
    inactive.active = false;
    let raws = vec![raw("https://a.example/"), inactive, raw("::"), raw("https://c.example/")];
    let mirrors = stream_mirrors_skip_missing(raws);
    assert_eq!(mirrors.len(), 2);
    assert_eq!(mirrors[0].url, "https://a.example/");
    assert_eq!(mirrors[1].url, "https://c.example/");
    assert_eq!(mirrors[0].id.index(), 0);
    assert_eq!(mirrors[1].id.index(), 1);
}

#[test]
fn get_finds_mirror_by_id() {
    let mirrors = stream_mirrors_skip_missing(vec![raw("https://a.example/"), raw("https://b.example/")]);
    let id: MirrorId = mirrors[1].id;
    let list = Mirrorlist {
        url: Some(Mirrorlist::URL.to_string()),
        check_frequency: 300,
        cutoff: 86400,
        last_check: Timestamp { secs: 0, nanos: 0 },
        num_checks: 1,
        mirrors,
        version: 3,
    };
    assert_eq!(list.get(id).url, "https://b.example/");
}

#[test]
fn mirrorlist_entry_names_repo_and_arch() {
    let m = Mirror::try_from(raw("https://mirror.example.org/archlinux/")).unwrap();
    assert_eq!(m.mirrorlist_entry(), "Server = https://mirror.example.org/archlinux//$repo/os/$arch");
}

#[test]
fn formatted_list_has_one_line_per_mirror() {
    let a = Mirror::try_from(raw("https://a.example/")).unwrap();
    let b = Mirror::try_from(raw("https://b.example/x")).unwrap();
    let text = Mirrorlist::formatted(&vec![&a, &b]);
    assert_eq!(text, "Server = https://a.example//$repo/os/$arch\nServer = https://b.example/x/$repo/os/$arch\n");
    assert_eq!(Mirrorlist::formatted(&vec![]), "");
}

#[test]
fn db_url_joins_subpath() {
    let m = Mirror::try_from(raw("https://mirror.example.org/archlinux/")).unwrap();
    assert_eq!(m.db_url(), "https://mirror.example.org/archlinux/extra/os/x86_64/extra.db");
    // a base without a trailing slash loses its last segment, as URL resolution does
    let n = Mirror::try_from(raw("https://mirror.example.org/archlinux")).unwrap();
    assert_eq!(n.checked_db_url().unwrap(), "https://mirror.example.org/extra/os/x86_64/extra.db");
}

#[test]
fn db_url_of_non_base_url_is_none() {
    let m = Mirror::try_from(raw("mailto:someone@example.org")).unwrap();
    assert_eq!(m.checked_db_url(), None);
}

fn rate(bytes: u64, millis: u64) -> Rate {
    Rate {
        connection_time: TimeSpan::from_millis(5),
        download_time: TimeSpan::from_millis(millis),
        bytes_downloaded: bytes,
    }
}

#[test]
fn rates_compare_by_bytes_per_millisecond() {
    assert_eq!(rate(100, 10).cmp(&rate(50, 10)), Ordering::Greater);
    assert_eq!(rate(100, 20).cmp(&rate(50, 10)), Ordering::Equal);
    assert_eq!(rate(10, 20).cmp(&rate(50, 10)), Ordering::Less);
    assert_eq!(rate(10, 20).partial_cmp(&rate(50, 10)), Some(Ordering::Less));
}

#[test]
fn total_time_adds_connection_and_download() {
    let r = Rate {
        connection_time: TimeSpan { secs: 1, nanos: 600_000_000 },
        download_time: TimeSpan { secs: 2, nanos: 500_000_000 },
        bytes_downloaded: 0,
    };
    assert_eq!(r.total_time(), TimeSpan { secs: 4, nanos: 100_000_000 });
}

#[test]
fn time_span_millis_round_trip() {
    let t = TimeSpan::from_millis(12_345);
    assert_eq!(t, TimeSpan { secs: 12, nanos: 345_000_000 });
    assert_eq!(t.as_millis(), 12_345);
}


#[test]
fn progress_labels_show_scheme_and_host() {
    assert_eq!(progress_label("https://mirror.example.org/arch/$repo"), Some("https://mirror.example.org".to_string()));
    assert_eq!(progress_label("rsync://host.net:873/x/"), Some("rsync://host.net".to_string()));
    assert_eq!(progress_label("data:text/plain,hi"), Some("data://??".to_string()));
    assert_eq!(progress_label("not a url"), None);
}
