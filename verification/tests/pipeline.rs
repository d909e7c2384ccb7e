use std::cmp::Ordering;
use std::time::Duration;

use mirus::float::FloatBits;
use mirus::measure::ConnectionConfig;
use mirus::mirror::{Mirror, MirrorId, Protocol, Rate};
use mirus::pipeline::{rates_fit, Cmp, FilterCriteria, Op, Pipeline, SortCriteria, SortDir, SortKey, Step};
use mirus::time::{TimeSpan, Timestamp};

fn fb(x: f64) -> FloatBits {
    FloatBits { bits: x.to_bits() }
}

fn mirror(url: &str, country: &str, delay: u32, score: f64) -> Mirror {
    Mirror {
        id: MirrorId::default(),
        active: true,
        completion_pct: fb(1.0),
        country: country.to_string(),
        country_code: country[..2].to_uppercase(),
        delay,
        details: None,
        duration_avg: fb(0.25),
        duration_stddev: fb(0.1),
        ipv4: true,
        ipv6: false,
        isos: true,
        last_sync: Timestamp { secs: 1_700_000_000, nanos: 0 },
        protocol: Protocol::Https,
        score: fb(score),
        url: url.to_string(),
        rate: None,
    }
}

fn config() -> ConnectionConfig {
    ConnectionConfig::new(Duration::from_millis(3000), Duration::from_millis(5000), 8, true)
}

fn run_all(p: &Pipeline, ms: &[Mirror]) -> Vec<usize> {
    let mut run = p.start(ms.len());
    loop {
        match p.advance(ms, &mut run) {
            Step::Applied => {}
            Step::Measure(_) => {}
            Step::Done => break,
        }
    }
    run.selected().clone()
}

#[test]
fn sort_by_delay_ascending_and_descending() {
    let ms = vec![
        mirror("https://a/", "Germany", 30, 1.0),
        mirror("https://b/", "France", 10, 2.0),
        mirror("https://c/", "Sweden", 20, 3.0),
    ];
    let asc = Pipeline::new().sort(SortKey::Delay, SortDir::Asc);
    assert_eq!(run_all(&asc, &ms), vec![1, 2, 0]);
    let desc = Pipeline::new().sort(SortKey::Delay, SortDir::Desc);
    assert_eq!(run_all(&desc, &ms), vec![0, 2, 1]);
}

#[test]
fn sort_is_stable_for_equal_keys() {
    let ms = vec![
        mirror("https://a/", "Germany", 10, 1.0),
        mirror("https://b/", "France", 5, 2.0),
        mirror("https://c/", "Germany", 10, 3.0),
        mirror("https://d/", "Austria", 10, 4.0),
    ];
    let p = Pipeline::new().sort(SortKey::Delay, SortDir::Asc);
    assert_eq!(run_all(&p, &ms), vec![1, 0, 2, 3]);
    let q = Pipeline::new().sort(SortKey::Delay, SortDir::Desc);
    assert_eq!(run_all(&q, &ms), vec![0, 2, 3, 1]);
}

#[test]
fn sort_by_country_is_by_bytes() {
    let ms = vec![
        mirror("https://a/", "germany", 1, 1.0),
        mirror("https://b/", "France", 1, 1.0),
        mirror("https://c/", "Germany", 1, 1.0),
    ];
    let p = Pipeline::new().sort(SortKey::Country, SortDir::Asc);
    assert_eq!(run_all(&p, &ms), vec![1, 2, 0]);
}

#[test]
fn sort_by_score_uses_total_order() {
    let ms = vec![
        mirror("https://a/", "Germany", 1, f64::NAN),
        mirror("https://b/", "France", 1, -0.0),
        mirror("https://c/", "Sweden", 1, 0.0),
        mirror("https://d/", "Spain", 1, -3.5),
        mirror("https://e/", "Italy", 1, 2.0),
    ];
    let p = Pipeline::new().sort(SortKey::Score, SortDir::Asc);
    assert_eq!(run_all(&p, &ms), vec![3, 1, 2, 4, 0]);
}

#[test]
fn compare_matches_std_orders() {
    let a = mirror("https://a/", "Germany", 1, 1.0);
    let b = mirror("https://b/", "Germany", 2, 1.0);
    let by_url = SortCriteria::new(SortKey::Url, SortDir::Asc);
    assert_eq!(by_url.compare(&a, &b), Ordering::Less);
    assert_eq!(SortCriteria::new(SortKey::Url, SortDir::Desc).compare(&a, &b), Ordering::Greater);
    assert_eq!(SortCriteria::new(SortKey::Country, SortDir::Asc).compare(&a, &b), Ordering::Equal);
    assert_eq!(SortCriteria::new(SortKey::IpV6, SortDir::Asc).compare(&a, &b), Ordering::Equal);
    let mut c = mirror("https://c/", "Germany", 1, 1.0);
    c.protocol = Protocol::Http;
    c.last_sync = Timestamp { secs: 1_700_000_000, nanos: 5 };
    assert_eq!(SortCriteria::new(SortKey::Protocol, SortDir::Asc).compare(&c, &a), Ordering::Less);
    assert_eq!(SortCriteria::new(SortKey::LastSync, SortDir::Asc).compare(&c, &a), Ordering::Greater);
}

fn rate(bytes: u64, millis: u64) -> Option<Rate> {
    Some(Rate {
        connection_time: TimeSpan::from_millis(1),
        download_time: TimeSpan::from_millis(millis),
        bytes_downloaded: bytes,
    })
}

#[test]
fn sort_by_rate_puts_unmeasured_first() {
    let mut ms = vec![
        mirror("https://a/", "Germany", 1, 1.0),
        mirror("https://b/", "France", 1, 1.0),
        mirror("https://c/", "Sweden", 1, 1.0),
    ];
    ms[0].rate = rate(1000, 10);
    ms[2].rate = rate(1000, 5);
    assert!(rates_fit(&ms));
    let p = Pipeline::new().sort(SortKey::Rate, SortDir::Desc);
    assert_eq!(run_all(&p, &ms), vec![2, 0, 1]);
}

#[test]
fn take_keeps_a_prefix() {
    let ms = vec![
        mirror("https://a/", "Germany", 3, 1.0),
        mirror("https://b/", "France", 2, 1.0),
        mirror("https://c/", "Sweden", 1, 1.0),
    ];
    let p = Pipeline::new().sort(SortKey::Delay, SortDir::Asc).take(2);
    assert_eq!(run_all(&p, &ms), vec![2, 1]);
    let q = Pipeline::new().take(10);
    assert_eq!(run_all(&q, &ms), vec![0, 1, 2]);
}

#[test]
fn filters_keep_matching_mirrors_in_order() {
    let mut ms = vec![
        mirror("https://a/", "Germany", 30, 1.0),
        mirror("https://b/", "France", 10, 2.0),
        mirror("https://c/", "Sweden", 20, f64::NAN),
    ];
    ms[1].ipv6 = true;
    ms[2].protocol = Protocol::Rsync;
    let country = Pipeline::new().filter(FilterCriteria::country(vec!["germany".to_string(), "sw".to_string()]));
    assert_eq!(run_all(&country, &ms), vec![0, 2]);
    let delay = Pipeline::new().filter(FilterCriteria::delay(Cmp::Le, 20));
    assert_eq!(run_all(&delay, &ms), vec![1, 2]);
    let ipv = Pipeline::new().filter(FilterCriteria::ip_version(true, true));
    assert_eq!(run_all(&ipv, &ms), vec![1]);
    let proto = Pipeline::new().filter(FilterCriteria::protocol(vec![Protocol::Rsync, Protocol::Http]));
    assert_eq!(run_all(&proto, &ms), vec![2]);
    let score = Pipeline::new().filter(FilterCriteria::score(Cmp::Ge, fb(1.0)));
    assert_eq!(run_all(&score, &ms), vec![0, 1]);
    let not_score = Pipeline::new().filter(FilterCriteria::score(Cmp::Lt, fb(1.0)));
    assert_eq!(run_all(&not_score, &ms), Vec::<usize>::new());
}

#[test]
fn comparison_filters_on_edges() {
    let m = mirror("https://a/", "Germany", 20, 0.0);
    assert!(FilterCriteria::delay(Cmp::Eq, 20).matches(&m));
    assert!(FilterCriteria::delay(Cmp::Ge, 20).matches(&m));
    assert!(!FilterCriteria::delay(Cmp::Gt, 20).matches(&m));
    assert!(!FilterCriteria::delay(Cmp::Lt, 20).matches(&m));
    assert!(FilterCriteria::score(Cmp::Eq, fb(-0.0)).matches(&m));
    assert!(!FilterCriteria::score(Cmp::Eq, fb(f64::NAN)).matches(&m));
    assert!(FilterCriteria::duration(Cmp::Lt, fb(0.5)).matches(&m));
    assert!(FilterCriteria::completion_pct(Cmp::Ge, fb(0.99)).matches(&m));
    let later = FilterCriteria::LastSync { cmp: Cmp::Lt, target: Timestamp { secs: 1_700_000_001, nanos: 0 } };
    assert!(later.matches(&m));
    assert!(!FilterCriteria::RateMeasured.matches(&m));
}

#[test]
fn measure_rate_is_scheduled_once() {
    let once = Pipeline::new().measure_rate(config());
    assert_eq!(once.operations().len(), 2);
    assert_eq!(once.operations()[0], Op::MeasureRate(config()));
    assert_eq!(once.operations()[1], Op::Filter { criteria: FilterCriteria::RateMeasured });
    let twice = Pipeline::new().measure_rate(config()).measure_rate(config().with_max_concurrent_measurements(1));
    assert_eq!(twice.operations().len(), 2);
    assert_eq!(twice.operations()[0], Op::MeasureRate(config()));
}

#[test]
fn measurement_step_asks_to_measure_the_selection() {
    let mut ms = vec![
        mirror("https://a/", "Germany", 30, 1.0),
        mirror("https://b/", "France", 10, 1.0),
        mirror("https://c/", "Sweden", 20, 1.0),
    ];
    let p = Pipeline::new().take(2).measure_rate(config()).sort(SortKey::Rate, SortDir::Desc);
    let mut run = p.start(ms.len());
    assert_eq!(p.advance(&ms, &mut run), Step::Applied);
    assert_eq!(run.selected(), &vec![0, 1]);
    assert_eq!(p.advance(&ms, &mut run), Step::Measure(config()));
    // the caller measures mirror 1 only; mirror 0 fails
    ms[1].rate = rate(10, 10);
    assert_eq!(p.advance(&ms, &mut run), Step::Applied);
    assert_eq!(run.selected(), &vec![1]);
    assert_eq!(p.advance(&ms, &mut run), Step::Applied);
    assert_eq!(p.advance(&ms, &mut run), Step::Done);
    assert_eq!(p.advance(&ms, &mut run), Step::Done);
    let chosen = run.resolve(&ms);
    assert_eq!(chosen.len(), 1);
    assert_eq!(chosen[0].url, "https://b/");
}

#[test]
fn builders_append_operations() {
    let p = Pipeline::new()
        .filter(FilterCriteria::ip_version(true, false))
        .sort(SortKey::Score, SortDir::Asc)
        .take(5)
        .with_operation(Op::take(3));
    assert_eq!(
        p.operations(),
        &vec![
            Op::filter(FilterCriteria::IpV { v4: true, v6: false }),
            Op::sort(SortKey::Score, SortDir::Asc),
            Op::Take { count: 5 },
            Op::Take { count: 3 },
        ]
    );
    let q = p.with_operations(vec![Op::measure_rate(config())]);
    assert_eq!(q.operations(), &vec![Op::MeasureRate(config())]);
    assert!(Pipeline::default().operations().is_empty());
}

#[test]
fn oversized_rates_do_not_fit() {
    let mut ms = vec![mirror("https://a/", "Germany", 1, 1.0)];
    ms[0].rate = Some(Rate {
        connection_time: TimeSpan::from_millis(0),
        download_time: TimeSpan { secs: u64::MAX, nanos: 0 },
        bytes_downloaded: 1,
    });
    assert!(!rates_fit(&ms));
}

fn std_holds(a: f64, b: f64, cmp: Cmp) -> bool {
    match a.partial_cmp(&b) {
        Some(Ordering::Less) => matches!(cmp, Cmp::Lt | Cmp::Le),
        Some(Ordering::Equal) => matches!(cmp, Cmp::Le | Cmp::Eq | Cmp::Ge),
        Some(Ordering::Greater) => matches!(cmp, Cmp::Ge | Cmp::Gt),
        None => false,
    }
}

#[test]
fn float_filters_agree_with_partial_cmp() {
    let values = [
        f64::NEG_INFINITY,
        -1e300,
        -1.5,
        -f64::MIN_POSITIVE,
        -0.0,
        0.0,
        5e-324,
        f64::MIN_POSITIVE,
        1.0,
        1.5,
        f64::MAX,
        f64::INFINITY,
        f64::NAN,
        -f64::NAN,
    ];
    let cmps = [Cmp::Lt, Cmp::Le, Cmp::Eq, Cmp::Gt, Cmp::Ge];
    for &a in &values {
        let m = mirror("https://a/", "Germany", 1, a);
        for &b in &values {
            for &c in &cmps {
                assert_eq!(FilterCriteria::score(c, fb(b)).matches(&m), std_holds(a, b, c), "{a} {b} {c:?}");
            }
        }
    }
}

#[test]
fn float_sort_agrees_with_total_cmp() {
    let values = [f64::NAN, 1.0, -0.0, f64::NEG_INFINITY, 0.0, -f64::NAN, 5e-324, -1.5, f64::INFINITY];
    let ms: Vec<Mirror> = values.iter().map(|&v| mirror("https://a/", "Germany", 1, v)).collect();
    let order = run_all(&Pipeline::new().sort(SortKey::Score, SortDir::Asc), &ms);
    let mut expected: Vec<usize> = (0..values.len()).collect();
    expected.sort_by(|&i, &j| values[i].total_cmp(&values[j]));
    assert_eq!(order, expected);
}

#[test]
fn text_sort_agrees_with_string_order() {
    let names = ["Zürich", "zebra", "Ärzte", "apple", "", "App", "Äpfel", "日本", "apple"];
    let ms: Vec<Mirror> = names.iter().map(|&n| {
        let mut m = mirror("https://a/", "Germany", 1, 1.0);
        m.country = n.to_string();
        m
    }).collect();
    let order = run_all(&Pipeline::new().sort(SortKey::Country, SortDir::Asc), &ms);
    let mut expected: Vec<usize> = (0..names.len()).collect();
    expected.sort_by(|&i, &j| names[i].cmp(names[j]));
    assert_eq!(order, expected);
}

#[test]
fn iso_filter_keeps_only_iso_hosts() {
    let with = mirror("https://a/", "Germany", 1, 1.0);
    let mut without = mirror("https://b/", "France", 2, 2.0);
    without.isos = false;
    assert!(FilterCriteria::Isos.matches(&with));
    assert!(!FilterCriteria::Isos.matches(&without));
    let p = Pipeline::new().filter(FilterCriteria::Isos);
    assert_eq!(run_all(&p, &[without, with]), vec![1]);
}

#[test]
fn compare_reverses_with_direction_and_arguments() {
    let a = mirror("https://a/", "Germany", 10, 1.0);
    let b = mirror("https://b/", "France", 20, 2.0);
    for key in [SortKey::Delay, SortKey::Country, SortKey::Score, SortKey::Url] {
        let asc = SortCriteria::new(key, SortDir::Asc);
        let desc = SortCriteria::new(key, SortDir::Desc);
        assert_eq!(desc.compare(&a, &b), asc.compare(&a, &b).reverse());
        assert_eq!(asc.compare(&a, &b), asc.compare(&b, &a).reverse());
        assert_eq!(asc.compare(&a, &a), Ordering::Equal);
    }
}

#[test]
fn appended_operation_acts_on_previous_result() {
    let ms = vec![
        mirror("https://a/", "Germany", 30, 1.0),
        mirror("https://b/", "France", 10, 2.0),
        mirror("https://c/", "Sweden", 20, 3.0),
        mirror("https://d/", "Germany", 5, 4.0),
    ];
    let base = Pipeline::new().sort(SortKey::Delay, SortDir::Asc);
    let prev = run_all(&base, &ms);
    assert_eq!(prev, vec![3, 1, 2, 0]);
    let taken = Pipeline::new().sort(SortKey::Delay, SortDir::Asc).take(2);
    assert_eq!(run_all(&taken, &ms), prev[..2].to_vec());
    let germany = FilterCriteria::country(vec!["Germany".to_string()]);
    let filtered = Pipeline::new().sort(SortKey::Delay, SortDir::Asc).filter(germany);
    assert_eq!(run_all(&filtered, &ms), vec![3, 0]);
}

#[test]
fn measuring_first_yields_only_measured_mirrors() {
    let mut ms = vec![
        mirror("https://a/", "Germany", 30, 1.0),
        mirror("https://b/", "France", 10, 2.0),
        mirror("https://c/", "Sweden", 20, 3.0),
    ];
    let p = Pipeline::new().measure_rate(config()).sort(SortKey::Delay, SortDir::Asc).take(5);
    let mut run = p.start(ms.len());
    assert_eq!(p.advance(&ms, &mut run), Step::Measure(config()));
    ms[0].rate = rate(100, 10);
    ms[2].rate = rate(100, 20);
    while p.advance(&ms, &mut run) != Step::Done {}
    let chosen = run.resolve(&ms);
    assert_eq!(chosen.len(), 2);
    assert!(chosen.iter().all(|m| m.rate.is_some()));
    assert_eq!(run.selected(), &vec![2, 0]);
}

#[test]
fn next_sort_by_rate_is_announced() {
    let ms = vec![mirror("https://a/", "Germany", 1, 1.0)];
    let p = Pipeline::new().take(1).sort(SortKey::Rate, SortDir::Asc);
    let mut run = p.start(ms.len());
    assert!(!p.next_sorts_by_rate(&run));
    assert_eq!(p.advance(&ms, &mut run), Step::Applied);
    assert!(p.next_sorts_by_rate(&run));
    assert_eq!(p.advance(&ms, &mut run), Step::Applied);
    assert!(!p.next_sorts_by_rate(&run));
}
