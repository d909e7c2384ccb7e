//! The order of a ranking run, as a state machine: read the command line,
//! obtain the mirror list from the cache or the network, rank it, and save
//! the result. The caller performs each action and hands back what came of
//! it; the machine says which notices to report and what to do next.
use vstd::prelude::*;

use crate::run::{cache_enabled, cache_fresh};
use crate::time::TimeSpan;

verus! {

/// What a run reports, in order. Each stands for one event of the command
/// line's front end; the caller adds what the event carries (paths, the
/// mirror list, the ranked ids, error texts).
#[derive(Debug, Clone, Copy, PartialEq, Eq, Structural)]
pub enum Notice {
    /// The command line could not be read.
    ParseError,
    /// The command line was read.
    Parsed { verbose: bool },
    CheckingCache,
    CacheExpired,
    CacheReadFailure,
    Fetching,
    FetchFailure,
    CacheSaveSuccess,
    CacheSaveFailure,
    /// The mirror list is at hand.
    Success,
    NoMirrorsFound,
    MirrorsFound,
    MirrorlistSaveSuccess,
    MirrorlistSaveFailure,
}

/// What the caller is to do next.
#[derive(Debug, Clone, Copy, PartialEq, Eq, Structural)]
pub enum RunAction {
    /// Read the command line.
    Parse,
    /// Look up the age of the cache file.
    CheckCache,
    /// Read the cached mirror list.
    ReadCache,
    /// Fetch the mirror list.
    Fetch,
    /// Write the fetched list to the cache file.
    SaveCache,
    /// Run the pipeline over the mirror list.
    Rank,
    /// Write the ranked mirrors to the save file.
    SaveList,
    /// Stop, successfully or with the error that stopped the run.
    Finish { ok: bool },
}

/// What came of an action.
#[derive(Debug, Clone, Copy, PartialEq, Eq, Structural)]
pub enum RunEvent {
    /// The command line was read: whether to be verbose, whether there is a
    /// cache file, the cache's time to live, and whether there is a save
    /// file.
    Parsed { verbose: bool, has_cache: bool, ttl: TimeSpan, saving: bool },
    ParseFailed,
    /// The cache file's modification time could not be read.
    CacheUnavailable,
    /// The cache file's age, if it could be worked out.
    CacheAge(Option<TimeSpan>),
    CacheReadFailed,
    /// The cached list was read; whether it was fetched from the wanted URL.
    CacheLoaded { usable: bool },
    Fetched,
    FetchFailed,
    /// The fetched list was written to the cache file, or not.
    CacheSaved { ok: bool },
    /// The pipeline ran; whether it kept any mirror.
    Ranked { found: bool },
    /// The ranked mirrors were written to the save file, or not.
    ListSaved { ok: bool },
}

/// Where a run stands.
#[derive(Debug, Clone, Copy, PartialEq, Eq, Structural)]
pub enum Phase {
    Start,
    CheckingCache,
    ReadingCache,
    Fetching,
    SavingCache,
    Ranking,
    SavingList,
    Finished { ok: bool },
}

/// The state of a run: its phase, and what it keeps of the command line.
#[derive(Debug, Clone, Copy, PartialEq, Eq, Structural)]
pub struct RunState {
    pub phase: Phase,
    pub has_cache: bool,
    pub ttl: TimeSpan,
    pub saving: bool,
}

/// The time to live is a valid span.
pub open spec fn state_wf(s: RunState) -> bool {
    s.ttl.wf()
}

/// Every span an event carries is valid.
pub open spec fn event_wf(e: RunEvent) -> bool {
    match e {
        RunEvent::Parsed { ttl, .. } => ttl.wf(),
        RunEvent::CacheAge(Some(age)) => age.wf(),
        _ => true,
    }
}

/// The action a phase waits on.
pub open spec fn pending(p: Phase) -> RunAction {
    match p {
        Phase::Start => RunAction::Parse,
        Phase::CheckingCache => RunAction::CheckCache,
        Phase::ReadingCache => RunAction::ReadCache,
        Phase::Fetching => RunAction::Fetch,
        Phase::SavingCache => RunAction::SaveCache,
        Phase::Ranking => RunAction::Rank,
        Phase::SavingList => RunAction::SaveList,
        Phase::Finished { ok } => RunAction::Finish { ok },
    }
}

/// A state in a new phase, keeping what it knows of the command line.
pub open spec fn moved(s: RunState, p: Phase) -> RunState {
    RunState { phase: p, ..s }
}

/// Going on to fetch the mirror list, after the notices `before`.
pub open spec fn to_fetch(s: RunState, before: Seq<Notice>) -> (RunState, Seq<Notice>, RunAction) {
    (moved(s, Phase::Fetching), before.push(Notice::Fetching), RunAction::Fetch)
}

/// Going on to rank, once the mirror list is at hand, after the notices
/// `before`.
pub open spec fn to_rank(s: RunState, before: Seq<Notice>) -> (RunState, Seq<Notice>, RunAction) {
    (moved(s, Phase::Ranking), before.push(Notice::Success), RunAction::Rank)
}

/// Stopping, after the notices `before`.
pub open spec fn to_finish(s: RunState, before: Seq<Notice>, ok: bool) -> (RunState, Seq<Notice>, RunAction) {
    (moved(s, Phase::Finished { ok }), before, RunAction::Finish { ok })
}

/// One step of a run: the next state, the notices to report, in order, and
/// the next action. An event that the phase does not wait on changes
/// nothing and asks again for the pending action.
pub open spec fn run_next(s: RunState, e: RunEvent) -> (RunState, Seq<Notice>, RunAction) {
    let none = Seq::<Notice>::empty();
    match (s.phase, e) {
        (Phase::Start, RunEvent::ParseFailed) => to_finish(s, seq![Notice::ParseError], false),
        (Phase::Start, RunEvent::Parsed { verbose, has_cache, ttl, saving }) => {
            let t = RunState { phase: s.phase, has_cache, ttl, saving };
            let parsed = seq![Notice::Parsed { verbose }];
            if has_cache && ttl.total_nanos() != 0 {
                (moved(t, Phase::CheckingCache), parsed.push(Notice::CheckingCache), RunAction::CheckCache)
            } else {
                to_fetch(t, parsed)
            }
        },
        (Phase::CheckingCache, RunEvent::CacheUnavailable) => to_fetch(s, none),
        (Phase::CheckingCache, RunEvent::CacheAge(age)) => {
            if age is Some && age.unwrap().total_nanos() < s.ttl.total_nanos() {
                (moved(s, Phase::ReadingCache), none, RunAction::ReadCache)
            } else {
                to_fetch(s, seq![Notice::CacheExpired])
            }
        },
        (Phase::ReadingCache, RunEvent::CacheReadFailed) => to_fetch(s, seq![Notice::CacheReadFailure]),
        (Phase::ReadingCache, RunEvent::CacheLoaded { usable }) => {
            if usable {
                to_rank(s, none)
            } else {
                to_fetch(s, none)
            }
        },
        (Phase::Fetching, RunEvent::FetchFailed) => to_finish(s, seq![Notice::FetchFailure], false),
        (Phase::Fetching, RunEvent::Fetched) => {
            if s.has_cache {
                (moved(s, Phase::SavingCache), none, RunAction::SaveCache)
            } else {
                to_rank(s, none)
            }
        },
        (Phase::SavingCache, RunEvent::CacheSaved { ok }) => to_rank(
            s,
            seq![if ok { Notice::CacheSaveSuccess } else { Notice::CacheSaveFailure }],
        ),
        (Phase::Ranking, RunEvent::Ranked { found }) => {
            if !found {
                to_finish(s, seq![Notice::NoMirrorsFound], true)
            } else if s.saving {
                (moved(s, Phase::SavingList), seq![Notice::MirrorsFound], RunAction::SaveList)
            } else {
                to_finish(s, seq![Notice::MirrorsFound], true)
            }
        },
        (Phase::SavingList, RunEvent::ListSaved { ok }) => to_finish(
            s,
            seq![if ok { Notice::MirrorlistSaveSuccess } else { Notice::MirrorlistSaveFailure }],
            true,
        ),
        _ => (s, none, pending(s.phase)),
    }
}

impl RunState {
    /// A run that has not read the command line yet; it waits on
    /// `RunAction::Parse`.
    pub fn new() -> (r: RunState)
        ensures
            r == initial(),
            pending(r.phase) == RunAction::Parse,
    {
        RunState { phase: Phase::Start, has_cache: false, ttl: TimeSpan::zero(), saving: false }
    }
}

/// The state a run starts in.
pub open spec fn initial() -> RunState {
    RunState { phase: Phase::Start, has_cache: false, ttl: TimeSpan { secs: 0, nanos: 0 }, saving: false }
}

fn fetch_next(s: RunState, mut notices: Vec<Notice>) -> (r: (RunState, Vec<Notice>, RunAction))
    ensures
        (r.0, r.1@, r.2) == to_fetch(s, notices@),
{
    notices.push(Notice::Fetching);
    (RunState { phase: Phase::Fetching, ..s }, notices, RunAction::Fetch)
}

fn rank_next(s: RunState, mut notices: Vec<Notice>) -> (r: (RunState, Vec<Notice>, RunAction))
    ensures
        (r.0, r.1@, r.2) == to_rank(s, notices@),
{
    notices.push(Notice::Success);
    (RunState { phase: Phase::Ranking, ..s }, notices, RunAction::Rank)
}

fn finish_next(s: RunState, notices: Vec<Notice>, ok: bool) -> (r: (RunState, Vec<Notice>, RunAction))
    ensures
        (r.0, r.1@, r.2) == to_finish(s, notices@, ok),
{
    (RunState { phase: Phase::Finished { ok }, ..s }, notices, RunAction::Finish { ok })
}

fn pending_action(p: Phase) -> (r: RunAction)
    ensures
        r == pending(p),
{
    match p {
        Phase::Start => RunAction::Parse,
        Phase::CheckingCache => RunAction::CheckCache,
        Phase::ReadingCache => RunAction::ReadCache,
        Phase::Fetching => RunAction::Fetch,
        Phase::SavingCache => RunAction::SaveCache,
        Phase::Ranking => RunAction::Rank,
        Phase::SavingList => RunAction::SaveList,
        Phase::Finished { ok } => RunAction::Finish { ok },
    }
}

/// One step of a run: given what came of the pending action, the next state,
/// the notices to report, in order, and the next action.
pub fn run_step(state: RunState, event: RunEvent) -> (r: (RunState, Vec<Notice>, RunAction))
    requires
        state_wf(state),
        event_wf(event),
    ensures
        (r.0, r.1@, r.2) == run_next(state, event),
        state_wf(r.0),
{
    let s = state;
    match (s.phase, event) {
        (Phase::Start, RunEvent::ParseFailed) => finish_next(s, vec![Notice::ParseError], false),
        (Phase::Start, RunEvent::Parsed { verbose, has_cache, ttl, saving }) => {
            let t = RunState { phase: s.phase, has_cache, ttl, saving };
            let parsed = vec![Notice::Parsed { verbose }];
            if cache_enabled(has_cache, ttl) {
                let mut notices = parsed;
                notices.push(Notice::CheckingCache);
                (RunState { phase: Phase::CheckingCache, ..t }, notices, RunAction::CheckCache)
            } else {
                fetch_next(t, parsed)
            }
        },
        (Phase::CheckingCache, RunEvent::CacheUnavailable) => fetch_next(s, Vec::new()),
        (Phase::CheckingCache, RunEvent::CacheAge(age)) => {
            if cache_fresh(age, s.ttl) {
                (RunState { phase: Phase::ReadingCache, ..s }, Vec::new(), RunAction::ReadCache)
            } else {
                fetch_next(s, vec![Notice::CacheExpired])
            }
        },
        (Phase::ReadingCache, RunEvent::CacheReadFailed) => fetch_next(s, vec![Notice::CacheReadFailure]),
        (Phase::ReadingCache, RunEvent::CacheLoaded { usable }) => {
            if usable {
                rank_next(s, Vec::new())
            } else {
                fetch_next(s, Vec::new())
            }
        },
        (Phase::Fetching, RunEvent::FetchFailed) => finish_next(s, vec![Notice::FetchFailure], false),
        (Phase::Fetching, RunEvent::Fetched) => {
            if s.has_cache {
                (RunState { phase: Phase::SavingCache, ..s }, Vec::new(), RunAction::SaveCache)
            } else {
                rank_next(s, Vec::new())
            }
        },
        (Phase::SavingCache, RunEvent::CacheSaved { ok }) => {
            let saved = if ok {
                Notice::CacheSaveSuccess
            } else {
                Notice::CacheSaveFailure
            };
            rank_next(s, vec![saved])
        },
        (Phase::Ranking, RunEvent::Ranked { found }) => {
            if !found {
                finish_next(s, vec![Notice::NoMirrorsFound], true)
            } else if s.saving {
                (RunState { phase: Phase::SavingList, ..s }, vec![Notice::MirrorsFound], RunAction::SaveList)
            } else {
                finish_next(s, vec![Notice::MirrorsFound], true)
            }
        },
        (Phase::SavingList, RunEvent::ListSaved { ok }) => {
            let saved = if ok {
                Notice::MirrorlistSaveSuccess
            } else {
                Notice::MirrorlistSaveFailure
            };
            finish_next(s, vec![saved], true)
        },
        _ => (s, Vec::new(), pending_action(s.phase)),
    }
}

/// A run goes on to rank only with the wanted mirror list at hand: a list
/// just fetched (and, where there is a cache file, written to it), or a
/// cached list read from the cache that was fetched from the wanted URL.
/// A cached list from another URL is never ranked: the run fetches instead.
pub proof fn lemma_ranks_only_the_wanted_list(s: RunState, e: RunEvent)
    ensures
        run_next(s, e).2 == RunAction::Rank && !(s.phase is Ranking) ==> (s.phase is Fetching && e is Fetched
            && !s.has_cache) || (s.phase is SavingCache && e is CacheSaved) || (s.phase is ReadingCache && e
            == RunEvent::CacheLoaded { usable: true }),
        s.phase is ReadingCache ==> run_next(s, RunEvent::CacheLoaded { usable: false }) == (
            RunState { phase: Phase::Fetching, ..s },
            seq![Notice::Fetching],
            RunAction::Fetch,
        ),
        run_next(s, e).2 == RunAction::Rank ==> run_next(s, e).0.phase is Ranking,
{
}

/// The cache is consulted only when the command line gives a cache file and
/// a time to live above zero, and read only when it is younger than that
/// time to live; a failed fetch stops the run with an error, and a fetched
/// list is written to the cache whenever there is a cache file.
pub proof fn lemma_cache_is_used_only_when_fresh(s: RunState, e: RunEvent)
    ensures
        run_next(s, e).2 == RunAction::CheckCache && !(s.phase is CheckingCache) ==> (s.phase is Start && (
        e matches RunEvent::Parsed { has_cache, ttl, .. } && has_cache && ttl.total_nanos() > 0)),
        run_next(s, e).2 == RunAction::ReadCache && !(s.phase is ReadingCache) ==> (s.phase is CheckingCache
            && (e matches RunEvent::CacheAge(Some(age)) && age.total_nanos() < s.ttl.total_nanos())),
        s.phase is Fetching ==> run_next(s, RunEvent::FetchFailed).2 == (RunAction::Finish { ok: false }),
        s.phase is Fetching && s.has_cache ==> run_next(s, RunEvent::Fetched).2 == RunAction::SaveCache,
        s.phase is Fetching && !s.has_cache ==> run_next(s, RunEvent::Fetched).2 == RunAction::Rank,
{
}

/// After ranking: with no mirror kept the run reports that none was found and
/// finishes successfully; with mirrors kept it reports them, then writes them
/// to the save file when there is one, and finishes successfully after the
/// write whether or not it worked. A command line that cannot be read stops
/// the run with an error, and a cache older than its time to live, or of
/// unknown age, is reported expired and the list is fetched.
pub proof fn lemma_run_outcomes(s: RunState, ok: bool, age: Option<TimeSpan>)
    ensures
        s.phase is Ranking ==> run_next(s, RunEvent::Ranked { found: false }).1 == seq![Notice::NoMirrorsFound]
            && run_next(s, RunEvent::Ranked { found: false }).2 == (RunAction::Finish { ok: true }),
        s.phase is Ranking ==> run_next(s, RunEvent::Ranked { found: true }).1 == seq![Notice::MirrorsFound]
            && run_next(s, RunEvent::Ranked { found: true }).2 == (if s.saving {
            RunAction::SaveList
        } else {
            RunAction::Finish { ok: true }
        }),
        s.phase is SavingList ==> run_next(s, RunEvent::ListSaved { ok }).2 == (RunAction::Finish { ok: true }),
        s.phase is Start ==> run_next(s, RunEvent::ParseFailed).1 == seq![Notice::ParseError] && run_next(
            s,
            RunEvent::ParseFailed,
        ).2 == (RunAction::Finish { ok: false }),
        s.phase is CheckingCache && !(age is Some && age.unwrap().total_nanos() < s.ttl.total_nanos()) ==> run_next(
            s,
            RunEvent::CacheAge(age),
        ).1 == seq![Notice::CacheExpired, Notice::Fetching] && run_next(s, RunEvent::CacheAge(age)).2
            == RunAction::Fetch,
{
}

/// The state a run reaches from `initial()` through the events, and every
/// notice it reported on the way, in order.
pub open spec fn run_trace(events: Seq<RunEvent>) -> (RunState, Seq<Notice>)
    decreases events.len(),
{
    if events.len() == 0 {
        (initial(), Seq::empty())
    } else {
        let (s, ns) = run_trace(events.drop_last());
        let (t, more, _) = run_next(s, events.last());
        (t, ns + more)
    }
}

/// The notice that the command line was read, or could not be.
pub open spec fn is_parse_notice(n: Notice) -> bool {
    n is ParseError || n is Parsed
}

/// How many times a run reported that the mirror list is at hand.
pub open spec fn successes(ns: Seq<Notice>) -> nat
    decreases ns.len(),
{
    if ns.len() == 0 {
        0
    } else {
        successes(ns.drop_last()) + if ns.last() == Notice::Success {
            1nat
        } else {
            0nat
        }
    }
}

proof fn lemma_successes_append(a: Seq<Notice>, b: Seq<Notice>)
    ensures
        successes(a + b) == successes(a) + successes(b),
    decreases b.len(),
{
    if b.len() > 0 {
        assert((a + b).drop_last() =~= a + b.drop_last());
        lemma_successes_append(a, b.drop_last());
    } else {
        assert(a + b =~= a);
    }
}

/// The mirror list has been reported at hand in this phase.
pub open spec fn list_reported(p: Phase) -> bool {
    p is Ranking || p is SavingList || p == (Phase::Finished { ok: true })
}

/// What holds of every state a run reaches and the notices it reported.
spec fn trace_inv(s: RunState, ns: Seq<Notice>) -> bool {
    &&& (s.phase is Start) == (ns.len() == 0)
    &&& ns.len() > 0 ==> is_parse_notice(ns[0])
    &&& forall|i: int| 1 <= i < ns.len() ==> !is_parse_notice(#[trigger] ns[i])
    &&& successes(ns) == if list_reported(s.phase) {
        1nat
    } else {
        0nat
    }
}

proof fn lemma_step_keeps(s: RunState, ns: Seq<Notice>, e: RunEvent)
    requires
        trace_inv(s, ns),
    ensures
        trace_inv(run_next(s, e).0, ns + run_next(s, e).1),
{
    let (t, more, _) = run_next(s, e);
    let all = ns + more;
    lemma_successes_append(ns, more);
    reveal_with_fuel(successes, 3);
    assert(more.len() <= 2);
    if s.phase is Start {
        assert(all =~= more);
    } else {
        assert(all[0] == ns[0]);
        assert forall|i: int| 1 <= i < all.len() implies !is_parse_notice(#[trigger] all[i]) by {
            if i < ns.len() {
                assert(all[i] == ns[i]);
            } else {
                assert(all[i] == more[i - ns.len()]);
            }
        }
    }
    if more.len() == 2 {
        assert(more.drop_last().drop_last() =~= Seq::<Notice>::empty());
    }
}

/// Every run reports first that the command line was read (or could not
/// be), and never again; it reports the mirror list at hand at most once;
/// and a run that has finished reported it exactly once if it finished
/// successfully, and never if it stopped on an error.
pub proof fn lemma_run_reports_in_order(events: Seq<RunEvent>)
    ensures
        ({
            let (s, ns) = run_trace(events);
            &&& ns.len() > 0 ==> is_parse_notice(ns[0])
            &&& forall|i: int| 1 <= i < ns.len() ==> !is_parse_notice(#[trigger] ns[i])
            &&& successes(ns) <= 1
            &&& pending(s.phase) == (RunAction::Finish { ok: true }) ==> successes(ns) == 1
            &&& pending(s.phase) == (RunAction::Finish { ok: false }) ==> successes(ns) == 0
        }),
{
    lemma_trace_inv(events);
}

proof fn lemma_trace_inv(events: Seq<RunEvent>)
    ensures
        trace_inv(run_trace(events).0, run_trace(events).1),
    decreases events.len(),
{
    if events.len() == 0 {
        reveal_with_fuel(successes, 1);
    } else {
        lemma_trace_inv(events.drop_last());
        let (s, ns) = run_trace(events.drop_last());
        lemma_step_keeps(s, ns, events.last());
    }
}

} // verus!
