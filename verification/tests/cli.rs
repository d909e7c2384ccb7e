use std::time::Duration;

use mirus::cli::parser::{build_pipeline, order_operations, Options, PipelineOps, Protocol, SortKey};
use mirus::cli::paths::{normalize_lexically, PartKind};
use mirus::measure::ConnectionConfig;
use mirus::mirror;
use mirus::pipeline::{self, FilterCriteria, Op, SortDir};

fn config() -> ConnectionConfig {
    ConnectionConfig::new(Duration::from_millis(3000), Duration::from_millis(5000), 8, true)
}

fn options() -> Options {
    Options {
        sort_asc: vec![],
        sort_des: vec![],
        take: vec![],
        protocol: vec![],
        country: vec![],
        ipv4: false,
        ipv6: false,
        isos: false,
    }
}

#[test]
fn operations_follow_command_line_positions() {
    let ops = order_operations(&vec![7, 2], &vec![4], &vec![9, 1]);
    assert_eq!(
        ops,
        vec![
            (1, PipelineOps::Take),
            (2, PipelineOps::SortAsc),
            (4, PipelineOps::SortDesc),
            (7, PipelineOps::SortAsc),
            (9, PipelineOps::Take),
        ]
    );
    assert_eq!(order_operations(&vec![], &vec![], &vec![]), vec![]);
}

#[test]
fn cli_keys_and_protocols_convert() {
    assert_eq!(pipeline::SortKey::from(SortKey::CompPct), pipeline::SortKey::CompPct);
    assert_eq!(pipeline::SortKey::from(SortKey::IpV6), pipeline::SortKey::IpV6);
    assert_eq!(pipeline::SortKey::from(SortKey::Url), pipeline::SortKey::Url);
    assert_eq!(mirror::Protocol::from(Protocol::Https), mirror::Protocol::Https);
    assert_eq!(mirror::Protocol::from(Protocol::Rsync), mirror::Protocol::Rsync);
}

#[test]
fn filters_come_first_in_fixed_order() {
    let mut o = options();
    o.protocol = vec![Protocol::Http, Protocol::Rsync];
    o.country = vec!["DE".to_string()];
    o.ipv6 = true;
    let p = build_pipeline(o, vec![], config());
    assert_eq!(
        p.operations(),
        &vec![
            Op::filter(FilterCriteria::protocol(vec![mirror::Protocol::Http, mirror::Protocol::Rsync])),
            Op::filter(FilterCriteria::country(vec!["DE".to_string()])),
            Op::filter(FilterCriteria::IpV { v4: false, v6: true }),
        ]
    );
}

#[test]
fn sorts_and_takes_keep_command_line_order() {
    let mut o = options();
    o.sort_asc = vec![SortKey::Delay, SortKey::Score];
    o.sort_des = vec![SortKey::Country];
    o.take = vec![5];
    let ordered = order_operations(&vec![1, 6], &vec![3], &vec![4]);
    let p = build_pipeline(o, ordered, config());
    assert_eq!(
        p.operations(),
        &vec![
            Op::sort(pipeline::SortKey::Delay, SortDir::Asc),
            Op::sort(pipeline::SortKey::Country, SortDir::Desc),
            Op::take(5),
            Op::sort(pipeline::SortKey::Score, SortDir::Asc),
        ]
    );
}

#[test]
fn sorting_by_rate_measures_first_and_once() {
    let mut o = options();
    o.ipv4 = true;
    o.sort_asc = vec![SortKey::Rate];
    o.sort_des = vec![SortKey::Rate];
    let ordered = order_operations(&vec![2], &vec![5], &vec![]);
    let p = build_pipeline(o, ordered, config());
    assert_eq!(
        p.operations(),
        &vec![
            Op::filter(FilterCriteria::IpV { v4: true, v6: false }),
            Op::measure_rate(config()),
            Op::filter(FilterCriteria::RateMeasured),
            Op::sort(pipeline::SortKey::Rate, SortDir::Asc),
            Op::sort(pipeline::SortKey::Rate, SortDir::Desc),
        ]
    );
}

#[test]
fn isos_option_adds_iso_filter_last() {
    let mut o = options();
    o.ipv4 = true;
    o.isos = true;
    o.take = vec![3];
    let p = build_pipeline(o, order_operations(&vec![], &vec![], &vec![2]), config());
    assert_eq!(
        p.operations(),
        &vec![
            Op::filter(FilterCriteria::IpV { v4: true, v6: false }),
            Op::filter(FilterCriteria::Isos),
            Op::take(3),
        ]
    );
    let mut only = options();
    only.isos = true;
    assert_eq!(build_pipeline(only, vec![], config()).operations(), &vec![Op::filter(FilterCriteria::Isos)]);
}

#[test]
fn lexical_normalization_of_path_components() {
    let (root, cur, up, name) = (PartKind::Root, PartKind::Current, PartKind::Parent, PartKind::Name);
    assert_eq!(normalize_lexically(&vec![root, name, cur, name, up, name]), Some(vec![0, 1, 5]));
    assert_eq!(normalize_lexically(&vec![root, up]), None);
    assert_eq!(normalize_lexically(&vec![root, name, up, up, name]), None);
    assert_eq!(normalize_lexically(&vec![name, up]), Some(vec![]));
    assert_eq!(normalize_lexically(&vec![]), Some(vec![]));
}
