//! A pipeline of sort, take, filter and measurement operations, and its
//! step-by-step execution over a list of mirrors.
use vstd::prelude::*;

pub use crate::criteria::{Cmp, FilterCriteria, IpV, SortCriteria, SortDir, SortKey};
use crate::criteria::{filter_matches, rates_comparable};
use crate::keys::int_of;
use crate::measure::ConnectionConfig;
use crate::mirror::{Mirror, Rate};
use crate::sorting::{
    all_rates_comparable, in_bounds, is_stable_sort, lemma_criteria_consistent, lemma_stable_sort_unique, rate_timed,
    stable_sort,
};

verus! {

/// One operation of a pipeline.
#[derive(Debug, Clone, PartialEq)]
pub enum Op {
    Sort { criteria: SortCriteria },
    Take { count: usize },
    Filter { criteria: FilterCriteria },
    MeasureRate(ConnectionConfig),
}

impl Op {
    pub fn sort(field: SortKey, dir: SortDir) -> (r: Op)
        ensures
            r == (Op::Sort { criteria: SortCriteria { key: field, dir } }),
    {
        Op::Sort { criteria: SortCriteria::new(field, dir) }
    }

    pub fn take(count: usize) -> (r: Op)
        ensures
            r == (Op::Take { count }),
    {
        Op::Take { count }
    }

    pub fn filter(criteria: FilterCriteria) -> (r: Op)
        ensures
            r == (Op::Filter { criteria }),
    {
        Op::Filter { criteria }
    }

    pub fn measure_rate(config: ConnectionConfig) -> (r: Op)
        ensures
            r == Op::MeasureRate(config),
    {
        Op::MeasureRate(config)
    }
}

/// Some operation measures download rates.
pub open spec fn has_measurement(ops: Seq<Op>) -> bool {
    exists|i: int| 0 <= i < ops.len() && #[trigger] ops[i] is MeasureRate
}

/// No operation measures rates.
pub open spec fn measures_nothing(ops: Seq<Op>) -> bool {
    forall|i: int| 0 <= i < ops.len() ==> !(#[trigger] ops[i] is MeasureRate)
}

/// The operations after adding a rate measurement: unchanged when one is
/// already scheduled, else the measurement and a filter keeping the measured
/// mirrors.
pub open spec fn with_measurement(ops: Seq<Op>, config: ConnectionConfig) -> Seq<Op> {
    if has_measurement(ops) {
        ops
    } else {
        ops.push(Op::MeasureRate(config)).push(
            Op::Filter { criteria: FilterCriteria::RateMeasured },
        )
    }
}

/// Operations applied in order to a list of mirrors.
#[derive(Debug)]
pub struct Pipeline {
    operations: Vec<Op>,
}

impl Default for Pipeline {
    fn default() -> (r: Pipeline)
        ensures
            r.ops() == Seq::<Op>::empty(),
    {
        Pipeline::new()
    }
}

impl Pipeline {
    /// The operations, in order.
    pub closed spec fn ops(self) -> Seq<Op> {
        self.operations@
    }

    pub fn new() -> (r: Pipeline)
        ensures
            r.ops() == Seq::<Op>::empty(),
    {
        Pipeline { operations: Vec::new() }
    }

    pub fn with_operation(self, operation: Op) -> (r: Pipeline)
        ensures
            r.ops() == self.ops().push(operation),
    {
        let mut p = self;
        p.operations.push(operation);
        p
    }

    pub fn sort(self, key: SortKey, dir: SortDir) -> (r: Pipeline)
        ensures
            r.ops() == self.ops().push(Op::Sort { criteria: SortCriteria { key, dir } }),
    {
        self.with_operation(Op::sort(key, dir))
    }

    pub fn take(self, count: usize) -> (r: Pipeline)
        ensures
            r.ops() == self.ops().push(Op::Take { count }),
    {
        self.with_operation(Op::take(count))
    }

    pub fn filter(self, criteria: FilterCriteria) -> (r: Pipeline)
        ensures
            r.ops() == self.ops().push(Op::Filter { criteria }),
    {
        self.with_operation(Op::filter(criteria))
    }

    /// Adds a rate measurement, followed by a filter keeping the measured
    /// mirrors; does nothing when a measurement is already scheduled.
    pub fn measure_rate(self, config: ConnectionConfig) -> (r: Pipeline)
        ensures
            r.ops() == with_measurement(self.ops(), config),
    {
        let mut i: usize = 0;
        while i < self.operations.len()
            invariant
                i <= self.operations@.len(),
                forall|j: int| 0 <= j < i ==> !(#[trigger] self.operations@[j] is MeasureRate),
            decreases self.operations.len() - i,
        {
            if let Op::MeasureRate(_) = &self.operations[i] {
                assert(self.operations@[int_of(i)] is MeasureRate);
                return self;
            }
            i = i + 1;
        }
        self.with_operation(Op::measure_rate(config)).filter(FilterCriteria::RateMeasured)
    }

    /// The operations, in order.
    pub fn operations(&self) -> (r: &Vec<Op>)
        ensures
            r@ == self.ops(),
    {
        &self.operations
    }

    pub fn with_operations(self, operations: Vec<Op>) -> (r: Pipeline)
        ensures
            r.ops() == operations@,
    {
        Pipeline { operations }
    }
}

/// Adding a rate measurement twice is adding it once.
pub proof fn lemma_measure_rate_idempotent(ops: Seq<Op>, first: ConnectionConfig, second: ConnectionConfig)
    ensures
        with_measurement(with_measurement(ops, first), second) == with_measurement(ops, first),
{
    let once = with_measurement(ops, first);
    if !has_measurement(ops) {
        assert(once[ops.len() as int] is MeasureRate);
        assert(has_measurement(once));
    }
}

/// Where an execution of a pipeline stands: the selected mirrors, as
/// positions in the list, and the next operation to apply.
#[derive(Debug, Clone)]
pub struct Run {
    selection: Vec<usize>,
    next_op: usize,
}

/// What an execution step asks of its caller.
#[derive(Debug, Clone, Copy, PartialEq, Eq)]
pub enum Step {
    /// An operation was applied; step again.
    Applied,
    /// Measure the download rate of every selected mirror with this
    /// configuration, record it in the mirror, and step again.
    Measure(ConnectionConfig),
    /// Every operation has been applied.
    Done,
}

/// The next operation sorts by rate.
pub open spec fn sorts_by_rate_next(ops: Seq<Op>, next: nat) -> bool {
    &&& next < ops.len()
    &&& ops[next as int] matches Op::Sort { criteria } && criteria.key == SortKey::Rate
}

/// The positions of the mirrors that meet a filter, in order.
pub open spec fn filtered(f: FilterCriteria, ms: Seq<Mirror>, sel: Seq<usize>) -> Seq<usize> {
    sel.filter(|i: usize| filter_matches(f, ms[int_of(i)]))
}

/// What applying an operation asks of the caller: to measure rates, or
/// nothing.
pub open spec fn step_asked(op: Op) -> Step {
    match op {
        Op::MeasureRate(config) => Step::Measure(config),
        _ => Step::Applied,
    }
}

/// What applying an operation does to a selection of a list of mirrors:
/// sorting is stable, taking keeps a prefix, filtering keeps the mirrors that
/// meet the filter, and a measurement leaves the selection as it is.
pub open spec fn step_result(op: Op, ms: Seq<Mirror>, sel: Seq<usize>, out: Seq<usize>) -> bool {
    match op {
        Op::Sort { criteria } => exists|src: Seq<int>| is_stable_sort(criteria, ms, sel, out, src),
        Op::Take { count } => out == sel.take(
            if count < sel.len() {
                count as int
            } else {
                sel.len() as int
            },
        ),
        Op::Filter { criteria } => out == filtered(criteria, ms, sel),
        Op::MeasureRate(_) => out == sel,
    }
}

/// No position is selected twice.
pub open spec fn distinct(sel: Seq<usize>) -> bool {
    forall|a: int, b: int| 0 <= a < sel.len() && 0 <= b < sel.len() && a != b ==> #[trigger] sel[a] != #[trigger] sel[b]
}

impl Run {
    /// The selected positions, in order.
    pub closed spec fn chosen(self) -> Seq<usize> {
        self.selection@
    }

    /// How many operations have been applied.
    pub closed spec fn applied(self) -> nat {
        self.next_op as nat
    }

    /// Every selected position names a mirror of a list of `n`, and none
    /// twice.
    pub open spec fn wf(self, n: nat) -> bool {
        &&& forall|k: int| 0 <= k < self.chosen().len() ==> #[trigger] int_of(self.chosen()[k]) < n
        &&& distinct(self.chosen())
    }

    /// The selected positions, in order.
    pub fn selected(&self) -> (r: &Vec<usize>)
        ensures
            r@ == self.chosen(),
    {
        &self.selection
    }

    /// The selected mirrors of a list, in order.
    pub fn resolve<'a>(&self, mirrors: &'a [Mirror]) -> (r: Vec<&'a Mirror>)
        requires
            self.wf(mirrors@.len()),
        ensures
            r@.len() == self.chosen().len(),
            forall|k: int| 0 <= k < r@.len() ==> *#[trigger] r@[k] == mirrors@[int_of(self.chosen()[k])],
    {
        let mut out: Vec<&'a Mirror> = Vec::new();
        let mut k: usize = 0;
        while k < self.selection.len()
            invariant
                k <= self.selection@.len(),
                self.wf(mirrors@.len()),
                out@.len() == int_of(k),
                forall|j: int| 0 <= j < k ==> *#[trigger] out@[j] == mirrors@[int_of(self.selection@[j])],
            decreases self.selection.len() - k,
        {
            let i = self.selection[k];
            assert(int_of(self.chosen()[int_of(k)]) < mirrors@.len());
            out.push(&mirrors[i]);
            k = k + 1;
        }
        out
    }
}

impl Pipeline {
    /// Starts an execution over a list of `mirror_count` mirrors: all of them
    /// selected, in list order, and no operation applied.
    pub fn start(&self, mirror_count: usize) -> (r: Run)
        ensures
            r.applied() == 0,
            r.chosen().len() == mirror_count,
            forall|k: int| 0 <= k < mirror_count ==> #[trigger] r.chosen()[k] == k,
            r.wf(mirror_count as nat),
    {
        let mut selection: Vec<usize> = Vec::new();
        let mut i: usize = 0;
        while i < mirror_count
            invariant
                i <= mirror_count,
                selection@.len() == int_of(i),
                forall|k: int| 0 <= k < i ==> #[trigger] selection@[k] == k,
            decreases mirror_count - i,
        {
            selection.push(i);
            i = i + 1;
        }
        Run { selection, next_op: 0 }
    }

    /// Whether the next operation of an execution sorts by rate, which needs
    /// the selected mirrors' rates to be comparable.
    pub fn next_sorts_by_rate(&self, run: &Run) -> (r: bool)
        ensures
            r == sorts_by_rate_next(self.ops(), run.applied()),
    {
        if run.next_op < self.operations.len() {
            match &self.operations[run.next_op] {
                Op::Sort { criteria } => criteria.key == SortKey::Rate,
                _ => false,
            }
        } else {
            false
        }
    }

    /// Applies the next operation of the pipeline to the selection. Sorting
    /// is stable, taking keeps a prefix, filtering keeps the mirrors that meet
    /// the filter, and a measurement leaves the selection as it is and asks
    /// the caller to measure the selected mirrors.
    pub fn advance(&self, mirrors: &[Mirror], run: &mut Run) -> (step: Step)
        requires
            old(run).wf(mirrors@.len()),
            sorts_by_rate_next(self.ops(), old(run).applied()) ==> all_rates_comparable(
                mirrors@,
                old(run).chosen(),
            ),
        ensures
            final(run).wf(mirrors@.len()),
            old(run).applied() >= self.ops().len() ==> step == Step::Done && *final(run) == *old(run),
            old(run).applied() < self.ops().len() ==> {
                let op = self.ops()[old(run).applied() as int];
                &&& final(run).applied() == old(run).applied() + 1
                &&& step == step_asked(op)
                &&& step_result(op, mirrors@, old(run).chosen(), final(run).chosen())
            },
    {
        if run.next_op >= self.operations.len() {
            return Step::Done;
        }
        let ghost sel = run.selection@;
        let op = &self.operations[run.next_op];
        let step = match op {
            Op::Sort { criteria } => {
                let out = stable_sort(*criteria, mirrors, &run.selection);
                proof {
                    let src = choose|src: Seq<int>| is_stable_sort(*criteria, mirrors@, sel, out@, src);
                    assert(is_stable_sort(*criteria, mirrors@, sel, out@, src));
                    assert forall|a: int, b: int|
                        0 <= a < out@.len() && 0 <= b < out@.len() && a != b implies #[trigger] out@[a] != #[trigger] out@[b] by {
                        assert(src[a] != src[b]);
                    }
                    assert forall|k: int| 0 <= k < out@.len() implies #[trigger] int_of(out@[k]) < mirrors@.len() by {
                        assert(out@[k] == sel[src[k]]);
                    }
                    assert(step_result(*op, mirrors@, sel, out@));
                }
                run.selection = out;
                Step::Applied
            },
            Op::Take { count } => {
                run.selection.truncate(*count);
                assert(run.selection@ =~= sel.take(
                    if *count < sel.len() {
                        *count as int
                    } else {
                        sel.len() as int
                    },
                ));
                Step::Applied
            },
            Op::Filter { criteria } => {
                let kept = keep_matching(criteria, mirrors, &run.selection);
                run.selection = kept;
                Step::Applied
            },
            Op::MeasureRate(config) => Step::Measure(*config),
        };
        run.next_op = run.next_op + 1;
        step
    }
}

/// Checks that every measured rate in the list can be compared with every
/// other, which sorting by rate needs: each download took fewer than 2^64
/// milliseconds.
pub fn rates_fit(mirrors: &[Mirror]) -> (r: bool)
    ensures
        r == (forall|j: int| 0 <= j < mirrors@.len() ==> (#[trigger] mirrors@[j].rate is Some ==> mirrors@[j].rate.unwrap().bounded())),
        r ==> forall|sel: Seq<usize>| in_bounds(mirrors@, sel) ==> #[trigger] all_rates_comparable(mirrors@, sel),
{
    let mut i: usize = 0;
    while i < mirrors.len()
        invariant
            i <= mirrors@.len(),
            forall|j: int| 0 <= j < i ==> (#[trigger] mirrors@[j].rate is Some ==> mirrors@[j].rate.unwrap().bounded()),
        decreases mirrors.len() - i,
    {
        if let Some(rate) = &mirrors[i].rate {
            if rate.download_time.as_millis() > 0xffff_ffff_ffff_ffff {
                assert(mirrors@[i as int].rate is Some && !mirrors@[i as int].rate.unwrap().bounded());
                return false;
            }
        }
        i = i + 1;
    }
    assert forall|sel: Seq<usize>| in_bounds(mirrors@, sel) implies #[trigger] all_rates_comparable(mirrors@, sel) by {
        assert forall|p: int, q: int| 0 <= p < sel.len() && 0 <= q < sel.len() implies rates_comparable(
            #[trigger] mirrors@[int_of(sel[p])].rate,
            #[trigger] mirrors@[int_of(sel[q])].rate,
        ) by {
            assert(int_of(sel[p]) < mirrors@.len());
            assert(int_of(sel[q]) < mirrors@.len());
            let a = mirrors@[int_of(sel[p])].rate;
            let b = mirrors@[int_of(sel[q])].rate;
            if a is Some && b is Some {
                Rate::lemma_bounded_comparable(a.unwrap(), b.unwrap());
            }
        }
    }
    true
}

/// The selected positions whose mirrors meet a filter, in order.
fn keep_matching(f: &FilterCriteria, ms: &[Mirror], sel: &Vec<usize>) -> (out: Vec<usize>)
    requires
        forall|k: int| 0 <= k < sel@.len() ==> #[trigger] int_of(sel@[k]) < ms@.len(),
        distinct(sel@),
    ensures
        out@ == filtered(*f, ms@, sel@),
        forall|k: int| 0 <= k < out@.len() ==> #[trigger] int_of(out@[k]) < ms@.len(),
        distinct(out@),
{
    let mut out: Vec<usize> = Vec::new();
    let ghost mut pos: Seq<int> = Seq::empty();
    let mut k: usize = 0;
    while k < sel.len()
        invariant
            k <= sel@.len(),
            forall|j: int| 0 <= j < sel@.len() ==> #[trigger] int_of(sel@[j]) < ms@.len(),
            distinct(sel@),
            out@ == filtered(*f, ms@, sel@.take(int_of(k))),
            pos.len() == out@.len(),
            forall|j: int| 0 <= j < out@.len() ==> 0 <= #[trigger] pos[j] < k && out@[j] == sel@[pos[j]],
            forall|a: int, b: int| 0 <= a < b < out@.len() ==> #[trigger] pos[a] < #[trigger] pos[b],
        decreases sel.len() - k,
    {
        let i = sel[k];
        assert(int_of(sel@[int_of(k)]) < ms@.len());
        assert(sel@.take(int_of(k) + 1).drop_last() =~= sel@.take(int_of(k)));
        reveal_with_fuel(Seq::filter, 1);
        if f.matches(&ms[i]) {
            out.push(i);
            proof {
                pos = pos.push(int_of(k));
            }
        }
        k = k + 1;
    }
    assert(sel@.take(sel@.len() as int) =~= sel@);
    assert forall|a: int, b: int| 0 <= a < out@.len() && 0 <= b < out@.len() && a != b implies #[trigger] out@[a] != #[trigger] out@[b] by {
        if a < b {
            assert(pos[a] < pos[b]);
        } else {
            assert(pos[b] < pos[a]);
        }
        assert(sel@[pos[a]] != sel@[pos[b]]);
    }
    assert forall|j: int| 0 <= j < out@.len() implies #[trigger] int_of(out@[j]) < ms@.len() by {
        assert(out@[j] == sel@[pos[j]]);
    }
    out
}

/// Some operation sorts by rate.
pub open spec fn sorts_by_rate(ops: Seq<Op>) -> bool {
    exists|i: int|
        0 <= i < ops.len() && (#[trigger] ops[i] matches Op::Sort { criteria } && criteria.key == SortKey::Rate)
}

/// Every measured download in the list took at least a millisecond.
pub open spec fn all_timed(ms: Seq<Mirror>) -> bool {
    forall|i: int| 0 <= i < ms.len() ==> rate_timed(#[trigger] ms[i].rate)
}

/// `trace` lists the selections a run of the operations passes through, over
/// a list whose mirrors stay as they are: it starts from `sel`, and each
/// operation turns the selection before it into the one after it.
pub open spec fn is_trace(ops: Seq<Op>, ms: Seq<Mirror>, sel: Seq<usize>, trace: Seq<Seq<usize>>) -> bool {
    &&& trace.len() == ops.len() + 1
    &&& trace[0] == sel
    &&& forall|i: int| #![trigger ops[i]] 0 <= i < ops.len() ==> step_result(ops[i], ms, trace[i], trace[i + 1])
}

/// Applying the operations in order, each to what the one before gave, over
/// a list whose mirrors stay as they are, can turn the selection `sel` into
/// `out`.
pub open spec fn runs_to(ops: Seq<Op>, ms: Seq<Mirror>, sel: Seq<usize>, out: Seq<usize>) -> bool {
    exists|trace: Seq<Seq<usize>>| #[trigger] is_trace(ops, ms, sel, trace) && trace.last() == out
}

/// Every position in `out` is one of `sel`.
pub open spec fn drawn_from(out: Seq<usize>, sel: Seq<usize>) -> bool {
    forall|k: int| 0 <= k < out.len() ==> sel.contains(#[trigger] out[k])
}

proof fn lemma_drawn_transitive(a: Seq<usize>, b: Seq<usize>, c: Seq<usize>)
    requires
        drawn_from(a, b),
        drawn_from(b, c),
    ensures
        drawn_from(a, c),
{
    assert forall|k: int| 0 <= k < a.len() implies c.contains(#[trigger] a[k]) by {
        assert(b.contains(a[k]));
        let j = choose|j: int| 0 <= j < b.len() && b[j] == a[k];
        assert(c.contains(b[j]));
    }
}

proof fn lemma_filter_drawn(f: FilterCriteria, ms: Seq<Mirror>, sel: Seq<usize>)
    ensures
        drawn_from(filtered(f, ms, sel), sel),
    decreases sel.len(),
{
    reveal_with_fuel(Seq::filter, 1);
    if sel.len() > 0 {
        let before = sel.drop_last();
        lemma_filter_drawn(f, ms, before);
        let out = filtered(f, ms, sel);
        let prev = filtered(f, ms, before);
        assert forall|k: int| 0 <= k < out.len() implies sel.contains(#[trigger] out[k]) by {
            if k < prev.len() {
                assert(out[k] == prev[k]);
                assert(before.contains(prev[k]));
                let j = choose|j: int| 0 <= j < before.len() && before[j] == prev[k];
                assert(sel[j] == prev[k]);
            } else {
                assert(out[k] == sel[sel.len() - 1]);
            }
        }
    }
}

/// An operation keeps only positions it was given.
proof fn lemma_step_drawn(op: Op, ms: Seq<Mirror>, sel: Seq<usize>, out: Seq<usize>)
    requires
        step_result(op, ms, sel, out),
    ensures
        drawn_from(out, sel),
{
    match op {
        Op::Sort { criteria } => {
            let src = choose|src: Seq<int>| is_stable_sort(criteria, ms, sel, out, src);
            assert forall|k: int| 0 <= k < out.len() implies sel.contains(#[trigger] out[k]) by {
                assert(out[k] == sel[src[k]]);
            }
        },
        Op::Take { count } => {
            assert forall|k: int| 0 <= k < out.len() implies sel.contains(#[trigger] out[k]) by {
                assert(out[k] == sel[k]);
            }
        },
        Op::Filter { criteria } => {
            lemma_filter_drawn(criteria, ms, sel);
        },
        Op::MeasureRate(_) => {
            assert forall|k: int| 0 <= k < out.len() implies sel.contains(#[trigger] out[k]) by {
                assert(out[k] == sel[k]);
            }
        },
    }
}

/// Along a run, a later selection keeps only positions of an earlier one.
proof fn lemma_trace_drawn(ops: Seq<Op>, ms: Seq<Mirror>, sel: Seq<usize>, trace: Seq<Seq<usize>>, a: int, b: int)
    requires
        is_trace(ops, ms, sel, trace),
        0 <= a <= b <= ops.len(),
    ensures
        drawn_from(trace[b], trace[a]),
    decreases b - a,
{
    if a == b {
        assert forall|k: int| 0 <= k < trace[b].len() implies trace[a].contains(#[trigger] trace[b][k]) by {
            assert(trace[a][k] == trace[b][k]);
        }
    } else {
        lemma_trace_drawn(ops, ms, sel, trace, a, b - 1);
        assert(step_result(ops[b - 1], ms, trace[b - 1], trace[b]));
        lemma_step_drawn(ops[b - 1], ms, trace[b - 1], trace[b]);
        lemma_drawn_transitive(trace[b], trace[b - 1], trace[a]);
    }
}

/// Applying an operation to a selection of the list has a single outcome,
/// but for a sort by rate among downloads measured in no time at all.
proof fn lemma_step_unique(op: Op, ms: Seq<Mirror>, sel: Seq<usize>, out1: Seq<usize>, out2: Seq<usize>)
    requires
        in_bounds(ms, sel),
        (op matches Op::Sort { criteria } && criteria.key == SortKey::Rate) ==> all_timed(ms),
        step_result(op, ms, sel, out1),
        step_result(op, ms, sel, out2),
    ensures
        out1 == out2,
{
    if let Op::Sort { criteria } = op {
        if criteria.key == SortKey::Rate {
            assert forall|k: int| 0 <= k < sel.len() implies rate_timed(#[trigger] ms[int_of(sel[k])].rate) by {
                assert(int_of(sel[k]) < ms.len());
            }
        }
        lemma_criteria_consistent(criteria, ms, sel);
        let src1 = choose|src: Seq<int>| is_stable_sort(criteria, ms, sel, out1, src);
        let src2 = choose|src: Seq<int>| is_stable_sort(criteria, ms, sel, out2, src);
        lemma_stable_sort_unique(criteria, ms, sel, out1, src1, out2, src2);
    }
}

/// Two runs of the same operations from the same selection pass through the
/// same selections, but for a sort by rate among downloads measured in no
/// time at all.
proof fn lemma_traces_agree(
    ops: Seq<Op>,
    ms: Seq<Mirror>,
    sel: Seq<usize>,
    t1: Seq<Seq<usize>>,
    t2: Seq<Seq<usize>>,
    n: int,
)
    requires
        in_bounds(ms, sel),
        sorts_by_rate(ops) ==> all_timed(ms),
        is_trace(ops, ms, sel, t1),
        is_trace(ops, ms, sel, t2),
        0 <= n <= ops.len(),
    ensures
        t1[n] == t2[n],
    decreases n,
{
    if n > 0 {
        lemma_traces_agree(ops, ms, sel, t1, t2, n - 1);
        let mid = t1[n - 1];
        lemma_trace_drawn(ops, ms, sel, t1, 0, n - 1);
        assert forall|k: int| 0 <= k < mid.len() implies #[trigger] int_of(mid[k]) < ms.len() by {
            assert(sel.contains(mid[k]));
            let j = choose|j: int| 0 <= j < sel.len() && sel[j] == mid[k];
            assert(int_of(sel[j]) < ms.len());
        }
        assert(step_result(ops[n - 1], ms, t1[n - 1], t1[n]));
        assert(step_result(ops[n - 1], ms, t2[n - 1], t2[n]));
        lemma_step_unique(ops[n - 1], ms, mid, t1[n], t2[n]);
    }
}

/// Appending an operation to a pipeline that measures nothing acts on what
/// the pipeline gave: where running `ops` over a list turns the selection
/// `sel` into `prev`, running `ops` then `op` gives `out` when `op` turns
/// `prev` into `out`; and, unless some sort by rate meets a download measured
/// in no time at all, only then.
pub proof fn lemma_appended_op_acts_on_result(
    ops: Seq<Op>,
    op: Op,
    ms: Seq<Mirror>,
    sel: Seq<usize>,
    prev: Seq<usize>,
    out: Seq<usize>,
)
    requires
        measures_nothing(ops),
        !(op is MeasureRate),
        in_bounds(ms, sel),
        runs_to(ops, ms, sel, prev),
    ensures
        step_result(op, ms, prev, out) ==> runs_to(ops.push(op), ms, sel, out),
        (sorts_by_rate(ops.push(op)) ==> all_timed(ms)) ==> (runs_to(ops.push(op), ms, sel, out) ==> step_result(
            op,
            ms,
            prev,
            out,
        )),
{
    let all = ops.push(op);
    let n = ops.len() as int;
    let t = choose|trace: Seq<Seq<usize>>| #[trigger] is_trace(ops, ms, sel, trace) && trace.last() == prev;
    if step_result(op, ms, prev, out) {
        let t2 = t.push(out);
        assert forall|i: int| #![trigger all[i]] 0 <= i < all.len() implies step_result(all[i], ms, t2[i], t2[i + 1]) by {
            if i < n {
                assert(all[i] == ops[i]);
                assert(step_result(ops[i], ms, t[i], t[i + 1]));
            } else {
                assert(all[i] == op);
                assert(t2[i] == prev);
            }
        }
        assert(is_trace(all, ms, sel, t2));
        assert(t2.last() == out);
    }
    if (sorts_by_rate(all) ==> all_timed(ms)) && runs_to(all, ms, sel, out) {
        let u = choose|trace: Seq<Seq<usize>>| #[trigger] is_trace(all, ms, sel, trace) && trace.last() == out;
        let v = u.drop_last();
        assert forall|i: int| #![trigger ops[i]] 0 <= i < ops.len() implies step_result(ops[i], ms, v[i], v[i + 1]) by {
            assert(all[i] == ops[i]);
            assert(step_result(all[i], ms, u[i], u[i + 1]));
        }
        assert(is_trace(ops, ms, sel, v));
        if sorts_by_rate(ops) {
            let i = choose|i: int|
                0 <= i < ops.len() && (#[trigger] ops[i] matches Op::Sort { criteria } && criteria.key == SortKey::Rate);
            assert(all[i] == ops[i]);
        }
        lemma_traces_agree(ops, ms, sel, v, t, n);
        assert(step_result(all[n], ms, u[n], u[n + 1]));
        assert(all[n] == op);
    }
}

/// A pipeline that measures rates once and otherwise only sorts, takes and
/// filters yields only measured mirrors: once the measurement has recorded
/// the rates in the list, the operations after it (the filter that comes
/// with the measurement, then the rest) leave only mirrors with a rate.
pub proof fn lemma_measured_first_yields_measured(
    front: Seq<Op>,
    config: ConnectionConfig,
    back: Seq<Op>,
    ms: Seq<Mirror>,
    sel: Seq<usize>,
    out: Seq<usize>,
)
    requires
        !has_measurement(front),
        measures_nothing(back),
        runs_to((with_measurement(front, config) + back).skip(front.len() as int + 1), ms, sel, out),
    ensures
        forall|k: int| 0 <= k < out.len() ==> (#[trigger] ms[int_of(out[k])]).rate is Some,
{
    let keep = Op::Filter { criteria: FilterCriteria::RateMeasured };
    let ops = (with_measurement(front, config) + back).skip(front.len() as int + 1);
    assert(ops =~= seq![keep] + back);
    let t = choose|trace: Seq<Seq<usize>>| #[trigger] is_trace(ops, ms, sel, trace) && trace.last() == out;
    assert(ops[0] == keep);
    assert(step_result(ops[0], ms, t[0], t[1]));
    let kept = t[1];
    assert forall|k: int| 0 <= k < kept.len() implies (#[trigger] ms[int_of(kept[k])]).rate is Some by {
        let pred = |i: usize| filter_matches(FilterCriteria::RateMeasured, ms[int_of(i)]);
        sel.lemma_filter_pred(pred, k);
    }
    lemma_trace_drawn(ops, ms, sel, t, 1, ops.len() as int);
    assert(t[ops.len() as int] == out);
    assert forall|k: int| 0 <= k < out.len() implies (#[trigger] ms[int_of(out[k])]).rate is Some by {
        assert(kept.contains(out[k]));
        let j = choose|j: int| 0 <= j < kept.len() && kept[j] == out[k];
        assert(ms[int_of(kept[j])].rate is Some);
    }
}

} // verus!
