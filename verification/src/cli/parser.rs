//! Plans the pipeline that the command-line options ask for.
use vstd::prelude::*;

use crate::keys::int_of;
use crate::measure::ConnectionConfig;
use crate::mirror;
use crate::pipeline::{self, measures_nothing, with_measurement, FilterCriteria, Op, Pipeline, SortCriteria, SortDir};

verus! {

/// A sort key as the command line names it.
#[derive(Debug, Clone, Copy, PartialEq, Eq, Structural)]
pub enum SortKey {
    CompPct,
    Country,
    Delay,
    Duration,
    IpV4,
    IpV6,
    LastSync,
    Protocol,
    Score,
    Rate,
    Url,
}

impl From<SortKey> for pipeline::SortKey {
    fn from(value: SortKey) -> (r: pipeline::SortKey) {
        match value {
            SortKey::CompPct => pipeline::SortKey::CompPct,
            SortKey::Country => pipeline::SortKey::Country,
            SortKey::Delay => pipeline::SortKey::Delay,
            SortKey::Duration => pipeline::SortKey::Duration,
            SortKey::IpV4 => pipeline::SortKey::IpV4,
            SortKey::IpV6 => pipeline::SortKey::IpV6,
            SortKey::LastSync => pipeline::SortKey::LastSync,
            SortKey::Protocol => pipeline::SortKey::Protocol,
            SortKey::Score => pipeline::SortKey::Score,
            SortKey::Rate => pipeline::SortKey::Rate,
            SortKey::Url => pipeline::SortKey::Url,
        }
    }
}

/// The pipeline's sort key of the same name.
pub open spec fn pipeline_key(value: SortKey) -> pipeline::SortKey {
    match value {
        SortKey::CompPct => pipeline::SortKey::CompPct,
        SortKey::Country => pipeline::SortKey::Country,
        SortKey::Delay => pipeline::SortKey::Delay,
        SortKey::Duration => pipeline::SortKey::Duration,
        SortKey::IpV4 => pipeline::SortKey::IpV4,
        SortKey::IpV6 => pipeline::SortKey::IpV6,
        SortKey::LastSync => pipeline::SortKey::LastSync,
        SortKey::Protocol => pipeline::SortKey::Protocol,
        SortKey::Score => pipeline::SortKey::Score,
        SortKey::Rate => pipeline::SortKey::Rate,
        SortKey::Url => pipeline::SortKey::Url,
    }
}

impl vstd::std_specs::convert::FromSpecImpl<SortKey> for pipeline::SortKey {
    open spec fn obeys_from_spec() -> bool {
        true
    }

    open spec fn from_spec(v: SortKey) -> pipeline::SortKey {
        pipeline_key(v)
    }
}

/// A protocol as the command line names it.
#[derive(Debug, Clone, Copy, PartialEq, Eq, Structural)]
pub enum Protocol {
    Http,
    Https,
    Rsync,
}

impl From<Protocol> for mirror::Protocol {
    fn from(value: Protocol) -> (r: mirror::Protocol) {
        match value {
            Protocol::Http => mirror::Protocol::Http,
            Protocol::Https => mirror::Protocol::Https,
            Protocol::Rsync => mirror::Protocol::Rsync,
        }
    }
}

/// The mirror protocol of the same name.
pub open spec fn mirror_protocol(value: Protocol) -> mirror::Protocol {
    match value {
        Protocol::Http => mirror::Protocol::Http,
        Protocol::Https => mirror::Protocol::Https,
        Protocol::Rsync => mirror::Protocol::Rsync,
    }
}

impl vstd::std_specs::convert::FromSpecImpl<Protocol> for mirror::Protocol {
    open spec fn obeys_from_spec() -> bool {
        true
    }

    open spec fn from_spec(v: Protocol) -> mirror::Protocol {
        mirror_protocol(v)
    }
}

/// Each sort key and protocol named on the command line converts to the
/// pipeline's sort key, or the mirror protocol, of the same name; what `from`
/// returns is `pipeline_key` and `mirror_protocol` of its argument.
pub proof fn lemma_cli_names_convert_by_name()
    ensures
        pipeline_key(SortKey::CompPct) == pipeline::SortKey::CompPct,
        pipeline_key(SortKey::Country) == pipeline::SortKey::Country,
        pipeline_key(SortKey::Delay) == pipeline::SortKey::Delay,
        pipeline_key(SortKey::Duration) == pipeline::SortKey::Duration,
        pipeline_key(SortKey::IpV4) == pipeline::SortKey::IpV4,
        pipeline_key(SortKey::IpV6) == pipeline::SortKey::IpV6,
        pipeline_key(SortKey::LastSync) == pipeline::SortKey::LastSync,
        pipeline_key(SortKey::Protocol) == pipeline::SortKey::Protocol,
        pipeline_key(SortKey::Score) == pipeline::SortKey::Score,
        pipeline_key(SortKey::Rate) == pipeline::SortKey::Rate,
        pipeline_key(SortKey::Url) == pipeline::SortKey::Url,
        mirror_protocol(Protocol::Http) == mirror::Protocol::Http,
        mirror_protocol(Protocol::Https) == mirror::Protocol::Https,
        mirror_protocol(Protocol::Rsync) == mirror::Protocol::Rsync,
{
}

/// The operations whose order on the command line matters.
#[derive(Debug, Clone, Copy, PartialEq, Eq, Structural)]
pub enum PipelineOps {
    SortAsc,
    SortDesc,
    Take,
}

/// Positions on the command line, each with the kind of operation found
/// there.
pub open spec fn tagged(indices: Seq<usize>, kind: PipelineOps) -> Seq<(usize, PipelineOps)> {
    indices.map_values(|i: usize| (i, kind))
}

/// The ascending sorts, then the descending sorts, then the takes.
pub open spec fn chained(asc: Seq<usize>, des: Seq<usize>, take: Seq<usize>) -> Seq<(usize, PipelineOps)> {
    tagged(asc, PipelineOps::SortAsc) + tagged(des, PipelineOps::SortDesc) + tagged(take, PipelineOps::Take)
}

/// `out` is `input` rearranged, element `k` of `out` being element `src[k]`
/// of `input`, in ascending order of position on the command line, with
/// equal positions in their input order.
pub open spec fn is_sorted_by_index(
    input: Seq<(usize, PipelineOps)>,
    out: Seq<(usize, PipelineOps)>,
    src: Seq<int>,
) -> bool {
    &&& out.len() == input.len()
    &&& src.len() == input.len()
    &&& forall|k: int| 0 <= k < out.len() ==> 0 <= #[trigger] src[k] < input.len() && out[k] == input[src[k]]
    &&& forall|k1: int, k2: int| 0 <= k1 < out.len() && 0 <= k2 < out.len() && k1 != k2 ==> #[trigger] src[k1] != #[trigger] src[k2]
    &&& forall|k1: int, k2: int|
        #![trigger out[k1], out[k2]]
        0 <= k1 < k2 < out.len() ==> out[k1].0 <= out[k2].0 && (out[k1].0 == out[k2].0 ==> src[k1] < src[k2])
}

fn push_tagged(items: &mut Vec<(usize, PipelineOps)>, indices: &Vec<usize>, kind: PipelineOps)
    ensures
        final(items)@ == old(items)@ + tagged(indices@, kind),
{
    let ghost start = items@;
    let mut i: usize = 0;
    while i < indices.len()
        invariant
            i <= indices@.len(),
            items@ == start + tagged(indices@.take(int_of(i)), kind),
        decreases indices.len() - i,
    {
        items.push((indices[i], kind));
        assert(tagged(indices@.take(int_of(i) + 1), kind) =~= tagged(indices@.take(int_of(i)), kind).push((indices@[int_of(i)], kind)));
        i = i + 1;
    }
    assert(indices@.take(indices@.len() as int) =~= indices@);
}

/// Stable insertion sort by command-line position.
fn sort_by_index(input: Vec<(usize, PipelineOps)>) -> (out: Vec<(usize, PipelineOps)>)
    ensures
        exists|src: Seq<int>| is_sorted_by_index(input@, out@, src),
{
    let n = input.len();
    let mut out: Vec<(usize, PipelineOps)> = Vec::new();
    let ghost mut src: Seq<int> = Seq::empty();
    let mut k: usize = 0;
    while k < n
        invariant
            n == input@.len(),
            k <= n,
            out@.len() == int_of(k),
            src.len() == int_of(k),
            forall|q: int| 0 <= q < k ==> 0 <= #[trigger] src[q] < k && out@[q] == input@[src[q]],
            forall|q1: int, q2: int| 0 <= q1 < k && 0 <= q2 < k && q1 != q2 ==> #[trigger] src[q1] != #[trigger] src[q2],
            forall|k1: int, k2: int|
                #![trigger out@[k1], out@[k2]]
                0 <= k1 < k2 < out@.len() ==> out@[k1].0 <= out@[k2].0 && (out@[k1].0 == out@[k2].0 ==> src[k1] < src[k2]),
        decreases n - k,
    {
        let x = input[k];
        let ghost xk = int_of(k);
        let mut p: usize = k;
        while p > 0 && out[p - 1].0 > x.0
            invariant
                p <= k,
                out@.len() == int_of(k),
                forall|q: int| p <= q < k ==> (#[trigger] out@[q]).0 > x.0,
            decreases p,
        {
            p = p - 1;
        }
        proof {
            let ghost o = out@;
            let ghost no = o.insert(int_of(p), x);
            let ghost ns = src.insert(int_of(p), xk);
            assert forall|k1: int, k2: int| 0 <= k1 < k2 < no.len() implies no[k1].0 <= no[k2].0 && (no[k1].0 == no[k2].0 ==> ns[k1] < ns[k2]) by {
                if k2 < p {
                    assert(no[k1] == o[k1] && no[k2] == o[k2]);
                } else if k1 > p {
                    assert(no[k1] == o[k1 - 1] && no[k2] == o[k2 - 1]);
                    assert(o[k1 - 1] == o[k1 - 1] && o[k2 - 1] == o[k2 - 1]);
                } else if k1 < p && k2 > p {
                    assert(no[k1] == o[k1] && no[k2] == o[k2 - 1]);
                    assert(o[k1] == o[k1] && o[k2 - 1] == o[k2 - 1]);
                } else if k2 == p {
                    assert(no[k1] == o[k1]);
                    if k1 < p - 1 {
                        assert(o[k1] == o[k1] && o[int_of(p) - 1] == o[int_of(p) - 1]);
                    }
                } else {
                    assert(no[k2] == o[k2 - 1]);
                    assert(o[k2 - 1].0 > x.0);
                }
            }
        }
        out.insert(p, x);
        proof {
            src = src.insert(int_of(p), xk);
        }
        k = k + 1;
    }
    assert(is_sorted_by_index(input@, out@, src));
    out
}

/// Orders the sorts and takes by their positions on the command line; a
/// position shared by two of them keeps ascending sorts before descending
/// sorts before takes.
pub fn order_operations(sort_asc: &Vec<usize>, sort_des: &Vec<usize>, take: &Vec<usize>) -> (ops: Vec<(usize, PipelineOps)>)
    ensures
        exists|src: Seq<int>| is_sorted_by_index(chained(sort_asc@, sort_des@, take@), ops@, src),
{
    let mut items: Vec<(usize, PipelineOps)> = Vec::new();
    push_tagged(&mut items, sort_asc, PipelineOps::SortAsc);
    push_tagged(&mut items, sort_des, PipelineOps::SortDesc);
    push_tagged(&mut items, take, PipelineOps::Take);
    assert(items@ =~= chained(sort_asc@, sort_des@, take@));
    sort_by_index(items)
}

/// The command-line options that shape the pipeline.
#[derive(Debug, Clone)]
pub struct Options {
    /// Sort keys given with `--sort-asc`, in order.
    pub sort_asc: Vec<SortKey>,
    /// Sort keys given with `--sort-des`, in order.
    pub sort_des: Vec<SortKey>,
    /// Counts given with `--take`, in order.
    pub take: Vec<usize>,
    /// Protocols a mirror must be served over, if any are given.
    pub protocol: Vec<Protocol>,
    /// Countries a mirror must be in, if any are given.
    pub country: Vec<String>,
    pub ipv4: bool,
    pub ipv6: bool,
    /// Whether a mirror must host ISO images.
    pub isos: bool,
}

/// How many operations of a kind come before the end of `ops`.
pub open spec fn occurrences(ops: Seq<(usize, PipelineOps)>, kind: PipelineOps) -> nat
    decreases ops.len(),
{
    if ops.len() == 0 {
        0
    } else {
        occurrences(ops.drop_last(), kind) + if ops.last().1 == kind {
            1nat
        } else {
            0nat
        }
    }
}

/// The operations after a sort: a rate measurement first when sorting by
/// rate, then the sort.
pub open spec fn sorted_after(
    ops: Seq<Op>,
    key: pipeline::SortKey,
    dir: SortDir,
    config: ConnectionConfig,
) -> Seq<Op> {
    (if key == pipeline::SortKey::Rate {
        with_measurement(ops, config)
    } else {
        ops
    }).push(Op::Sort { criteria: SortCriteria { key, dir } })
}

/// The operations that the ordered sorts and takes add to a pipeline: the
/// n-th ascending sort uses the n-th `--sort-asc` key, and likewise for
/// descending sorts and takes.
pub open spec fn planned_ops(
    asc: Seq<SortKey>,
    des: Seq<SortKey>,
    take: Seq<usize>,
    ordered: Seq<(usize, PipelineOps)>,
    config: ConnectionConfig,
) -> Seq<Op>
    decreases ordered.len(),
{
    if ordered.len() == 0 {
        Seq::empty()
    } else {
        let before = ordered.drop_last();
        let prev = planned_ops(asc, des, take, before, config);
        match ordered.last().1 {
            PipelineOps::SortAsc => sorted_after(
                prev,
                pipeline_key(asc[occurrences(before, PipelineOps::SortAsc) as int]),
                SortDir::Asc,
                config,
            ),
            PipelineOps::SortDesc => sorted_after(
                prev,
                pipeline_key(des[occurrences(before, PipelineOps::SortDesc) as int]),
                SortDir::Desc,
                config,
            ),
            PipelineOps::Take => prev.push(Op::Take { count: take[occurrences(before, PipelineOps::Take) as int] }),
        }
    }
}

/// How many filters the options ask for.
pub open spec fn filter_count(o: Options) -> int {
    (if o.protocol@.len() > 0 { 1int } else { 0int }) + (if o.country@.len() > 0 {
        1int
    } else {
        0int
    }) + (if o.ipv4 || o.ipv6 { 1int } else { 0int }) + (if o.isos { 1int } else { 0int })
}

/// The first operations are the filters the options ask for: protocols,
/// then countries, then IP versions, then hosting ISO images, each only when
/// asked for.
pub open spec fn filters_planned(o: Options, ops: Seq<Op>) -> bool {
    let p = if o.protocol@.len() > 0 { 1int } else { 0int };
    let c = if o.country@.len() > 0 { 1int } else { 0int };
    let v = if o.ipv4 || o.ipv6 { 1int } else { 0int };
    &&& ops.len() >= filter_count(o)
    &&& o.protocol@.len() > 0 ==> (ops[0] matches Op::Filter {
        criteria: FilterCriteria::Protocol { allowed },
    } && allowed@ == o.protocol@.map_values(|v: Protocol| mirror_protocol(v)))
    &&& o.country@.len() > 0 ==> ops[p] == Op::Filter {
        criteria: FilterCriteria::Country { allowed: o.country },
    }
    &&& o.ipv4 || o.ipv6 ==> ops[p + c] == Op::Filter {
        criteria: FilterCriteria::IpV { v4: o.ipv4, v6: o.ipv6 },
    }
    &&& o.isos ==> ops[p + c + v] == Op::Filter { criteria: FilterCriteria::Isos }
}

proof fn lemma_with_measurement_after(front: Seq<Op>, back: Seq<Op>, config: ConnectionConfig)
    requires
        measures_nothing(front),
    ensures
        with_measurement(front + back, config) == front + with_measurement(back, config),
{
    let all = front + back;
    if pipeline::has_measurement(back) {
        let i = choose|i: int| 0 <= i < back.len() && #[trigger] back[i] is MeasureRate;
        assert(all[front.len() + i] is MeasureRate);
    } else {
        assert forall|i: int| 0 <= i < all.len() implies !(#[trigger] all[i] is MeasureRate) by {
            if i >= front.len() {
                assert(all[i] == back[i - front.len()]);
            }
        }
        assert((front + back).push(Op::MeasureRate(config)).push(Op::Filter { criteria: FilterCriteria::RateMeasured })
            =~= front + back.push(Op::MeasureRate(config)).push(Op::Filter { criteria: FilterCriteria::RateMeasured }));
    }
}

fn mirror_protocols(values: &Vec<Protocol>) -> (r: Vec<mirror::Protocol>)
    ensures
        r@ == values@.map_values(|v: Protocol| mirror_protocol(v)),
{
    let mut r: Vec<mirror::Protocol> = Vec::new();
    let mut i: usize = 0;
    while i < values.len()
        invariant
            i <= values@.len(),
            r@ == values@.take(int_of(i)).map_values(|v: Protocol| mirror_protocol(v)),
        decreases values.len() - i,
    {
        r.push(mirror::Protocol::from(values[i]));
        assert(values@.take(int_of(i) + 1).map_values(|v: Protocol| mirror_protocol(v))
            =~= values@.take(int_of(i)).map_values(|v: Protocol| mirror_protocol(v)).push(mirror_protocol(values@[int_of(i)])));
        i = i + 1;
    }
    assert(values@.take(values@.len() as int) =~= values@);
    r
}

/// Builds the pipeline the options ask for: first the filters, then the
/// sorts and takes in command-line order, a sort by rate being preceded by a
/// rate measurement with `config`.
pub fn build_pipeline(options: Options, ordered: Vec<(usize, PipelineOps)>, config: ConnectionConfig) -> (r: Pipeline)
    requires
        occurrences(ordered@, PipelineOps::SortAsc) <= options.sort_asc@.len(),
        occurrences(ordered@, PipelineOps::SortDesc) <= options.sort_des@.len(),
        occurrences(ordered@, PipelineOps::Take) <= options.take@.len(),
    ensures
        filters_planned(options, r.ops()),
        r.ops() == r.ops().take(filter_count(options)) + planned_ops(
            options.sort_asc@,
            options.sort_des@,
            options.take@,
            ordered@,
            config,
        ),
{
    let ghost o = options;
    let Options { sort_asc, sort_des, take, protocol, country, ipv4, ipv6, isos } = options;
    let mut pipeline = Pipeline::new();
    if protocol.len() > 0 {
        let allowed = mirror_protocols(&protocol);
        pipeline = pipeline.filter(FilterCriteria::protocol(allowed));
    }
    if country.len() > 0 {
        pipeline = pipeline.filter(FilterCriteria::country(country));
    }
    if ipv4 || ipv6 {
        pipeline = pipeline.filter(FilterCriteria::IpV { v4: ipv4, v6: ipv6 });
    }
    if isos {
        pipeline = pipeline.filter(FilterCriteria::Isos);
    }
    let ghost front = pipeline.ops();
    assert(front.len() == filter_count(o));
    assert(measures_nothing(front));
    assert(filters_planned(o, front));
    let mut sa: usize = 0;
    let mut sd: usize = 0;
    let mut t: usize = 0;
    let mut i: usize = 0;
    assert(ordered@.take(0) =~= Seq::<(usize, PipelineOps)>::empty());
    while i < ordered.len()
        invariant
            i <= ordered@.len(),
            occurrences(ordered@, PipelineOps::SortAsc) <= sort_asc@.len(),
            occurrences(ordered@, PipelineOps::SortDesc) <= sort_des@.len(),
            occurrences(ordered@, PipelineOps::Take) <= take@.len(),
            sort_asc@ == o.sort_asc@,
            sort_des@ == o.sort_des@,
            take@ == o.take@,
            front.len() == filter_count(o),
            measures_nothing(front),
            filters_planned(o, front),
            sa == occurrences(ordered@.take(int_of(i)), PipelineOps::SortAsc),
            sd == occurrences(ordered@.take(int_of(i)), PipelineOps::SortDesc),
            t == occurrences(ordered@.take(int_of(i)), PipelineOps::Take),
            pipeline.ops() == front + planned_ops(o.sort_asc@, o.sort_des@, o.take@, ordered@.take(int_of(i)), config),
        decreases ordered.len() - i,
    {
        let ghost before = ordered@.take(int_of(i));
        let ghost upto = ordered@.take(int_of(i) + 1);
        assert(upto.drop_last() =~= before);
        assert(upto.last() == ordered@[int_of(i)]);
        proof {
            lemma_occurrences_prefix(ordered@, int_of(i) + 1, PipelineOps::SortAsc);
            lemma_occurrences_prefix(ordered@, int_of(i) + 1, PipelineOps::SortDesc);
            lemma_occurrences_prefix(ordered@, int_of(i) + 1, PipelineOps::Take);
        }
        let ghost prev_tail = planned_ops(o.sort_asc@, o.sort_des@, o.take@, before, config);
        assert(occurrences(upto, PipelineOps::SortAsc) == sa + if upto.last().1 == PipelineOps::SortAsc { 1int } else { 0int });
        assert(occurrences(upto, PipelineOps::SortDesc) == sd + if upto.last().1 == PipelineOps::SortDesc { 1int } else { 0int });
        assert(occurrences(upto, PipelineOps::Take) == t + if upto.last().1 == PipelineOps::Take { 1int } else { 0int });
        match ordered[i].1 {
            PipelineOps::SortAsc => {
                assert(sa + 1 <= sort_asc@.len());
                assert(sa < sort_asc.len());
                let key = pipeline::SortKey::from(sort_asc[sa]);
                if key == pipeline::SortKey::Rate {
                    proof {
                        lemma_with_measurement_after(front, prev_tail, config);
                    }
                    pipeline = pipeline.measure_rate(config);
                }
                pipeline = pipeline.sort(key, SortDir::Asc);
                sa = sa + 1;
            },
            PipelineOps::SortDesc => {
                assert(sd + 1 <= sort_des@.len());
                assert(sd < sort_des.len());
                let key = pipeline::SortKey::from(sort_des[sd]);
                if key == pipeline::SortKey::Rate {
                    proof {
                        lemma_with_measurement_after(front, prev_tail, config);
                    }
                    pipeline = pipeline.measure_rate(config);
                }
                pipeline = pipeline.sort(key, SortDir::Desc);
                sd = sd + 1;
            },
            PipelineOps::Take => {
                assert(t + 1 <= take@.len());
                assert(t < take.len());
                pipeline = pipeline.take(take[t]);
                t = t + 1;
            },
        }
        assert(pipeline.ops() =~= front + planned_ops(o.sort_asc@, o.sort_des@, o.take@, upto, config));
        i = i + 1;
    }
    assert(ordered@.take(ordered@.len() as int) =~= ordered@);
    assert(pipeline.ops().take(filter_count(o)) =~= front);
    pipeline
}

/// Every sort by rate comes after a rate measurement.
pub open spec fn rate_sorts_measured(ops: Seq<Op>) -> bool {
    forall|i: int|
        0 <= i < ops.len() && (#[trigger] ops[i] matches Op::Sort { criteria }
            && criteria.key == pipeline::SortKey::Rate) ==> exists|j: int|
            0 <= j < i && #[trigger] ops[j] is MeasureRate
}

/// At most one operation measures rates.
pub open spec fn measured_at_most_once(ops: Seq<Op>) -> bool {
    forall|i: int, j: int|
        0 <= i < ops.len() && 0 <= j < ops.len() && #[trigger] ops[i] is MeasureRate
            && #[trigger] ops[j] is MeasureRate ==> i == j
}

/// In the operations planned from the command line, rates are measured at
/// most once, and before any sort by rate.
pub proof fn lemma_planned_measurement(
    asc: Seq<SortKey>,
    des: Seq<SortKey>,
    take: Seq<usize>,
    ordered: Seq<(usize, PipelineOps)>,
    config: ConnectionConfig,
)
    ensures
        rate_sorts_measured(planned_ops(asc, des, take, ordered, config)),
        measured_at_most_once(planned_ops(asc, des, take, ordered, config)),
    decreases ordered.len(),
{
    if ordered.len() > 0 {
        let before = ordered.drop_last();
        lemma_planned_measurement(asc, des, take, before, config);
        let prev = planned_ops(asc, des, take, before, config);
        let all = planned_ops(asc, des, take, ordered, config);
        let kind = ordered.last().1;
        if kind == PipelineOps::Take {
            let count = take[occurrences(before, PipelineOps::Take) as int];
            assert(all == prev.push(Op::Take { count }));
            assert forall|i: int| 0 <= i < all.len() && (#[trigger] all[i] matches Op::Sort { criteria }
                && criteria.key == pipeline::SortKey::Rate) implies exists|j: int|
                0 <= j < i && #[trigger] all[j] is MeasureRate by {
                assert(all[i] == prev[i]);
                let j = choose|j: int| 0 <= j < i && #[trigger] prev[j] is MeasureRate;
                assert(all[j] == prev[j]);
            }
        } else {
            let key = if kind == PipelineOps::SortAsc {
                pipeline_key(asc[occurrences(before, PipelineOps::SortAsc) as int])
            } else {
                pipeline_key(des[occurrences(before, PipelineOps::SortDesc) as int])
            };
            let dir = if kind == PipelineOps::SortAsc { SortDir::Asc } else { SortDir::Desc };
            assert(all == sorted_after(prev, key, dir, config));
            let mid = if key == pipeline::SortKey::Rate { with_measurement(prev, config) } else { prev };
            assert(all == mid.push(Op::Sort { criteria: SortCriteria { key, dir } }));
            if key == pipeline::SortKey::Rate && !pipeline::has_measurement(prev) {
                let n = prev.len() as int;
                assert(mid[n] is MeasureRate);
                assert forall|i: int| 0 <= i < n implies !(#[trigger] prev[i] is MeasureRate) by {
                    if prev[i] is MeasureRate {
                        assert(pipeline::has_measurement(prev));
                    }
                }
                assert forall|i: int| 0 <= i < all.len() && (#[trigger] all[i] matches Op::Sort { criteria }
                    && criteria.key == pipeline::SortKey::Rate) implies exists|j: int|
                    0 <= j < i && #[trigger] all[j] is MeasureRate by {
                    if i < n {
                        assert(all[i] == prev[i]);
                        let j = choose|j: int| 0 <= j < i && #[trigger] prev[j] is MeasureRate;
                        assert(all[j] == prev[j]);
                    } else {
                        assert(all[n] is MeasureRate);
                    }
                }
                assert forall|i: int, j: int|
                    0 <= i < all.len() && 0 <= j < all.len() && #[trigger] all[i] is MeasureRate
                        && #[trigger] all[j] is MeasureRate implies i == j by {
                    if i < n {
                        assert(all[i] == prev[i]);
                    }
                    if j < n {
                        assert(all[j] == prev[j]);
                    }
                }
            } else {
                assert(mid == prev);
                assert forall|i: int| 0 <= i < all.len() && (#[trigger] all[i] matches Op::Sort { criteria }
                    && criteria.key == pipeline::SortKey::Rate) implies exists|j: int|
                    0 <= j < i && #[trigger] all[j] is MeasureRate by {
                    if i < prev.len() {
                        assert(all[i] == prev[i]);
                        let j = choose|j: int| 0 <= j < i && #[trigger] prev[j] is MeasureRate;
                        assert(all[j] == prev[j]);
                    } else {
                        let j = choose|j: int| 0 <= j < prev.len() && #[trigger] prev[j] is MeasureRate;
                        assert(all[j] == prev[j]);
                    }
                }
                assert forall|i: int, j: int|
                    0 <= i < all.len() && 0 <= j < all.len() && #[trigger] all[i] is MeasureRate
                        && #[trigger] all[j] is MeasureRate implies i == j by {
                    assert(i < prev.len() && j < prev.len());
                    assert(all[i] == prev[i]);
                    assert(all[j] == prev[j]);
                }
            }
        }
    }
}

/// Counting over a prefix never exceeds counting over the whole.
proof fn lemma_occurrences_prefix(ops: Seq<(usize, PipelineOps)>, n: int, kind: PipelineOps)
    requires
        0 <= n <= ops.len(),
    ensures
        occurrences(ops.take(n), kind) <= occurrences(ops, kind),
    decreases ops.len() - n,
{
    if n < ops.len() {
        lemma_occurrences_prefix(ops, n + 1, kind);
        assert(ops.take(n + 1).drop_last() =~= ops.take(n));
    } else {
        assert(ops.take(n) =~= ops);
    }
}

} // verus!
