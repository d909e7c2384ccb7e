use mirus::flow::{run_step, Notice, Phase, RunAction, RunEvent, RunState};
use mirus::time::TimeSpan;

fn drive(events: &[RunEvent]) -> (RunState, Vec<Notice>, RunAction) {
    let mut state = RunState::new();
    let mut action = RunAction::Parse;
    let mut all = Vec::new();
    for e in events {
        let (s, ns, a) = run_step(state, *e);
        state = s;
        action = a;
        all.extend(ns);
    }
    (state, all, action)
}

fn parsed(has_cache: bool, ttl_secs: u64, saving: bool) -> RunEvent {
    RunEvent::Parsed { verbose: false, has_cache, ttl: TimeSpan { secs: ttl_secs, nanos: 0 }, saving }
}

#[test]
fn fresh_run_fetches_caches_ranks_and_saves() {
    let (state, notices, action) = drive(&[
        parsed(true, 300, true),
        RunEvent::CacheAge(Some(TimeSpan { secs: 400, nanos: 0 })),
        RunEvent::Fetched,
        RunEvent::CacheSaved { ok: true },
        RunEvent::Ranked { found: true },
        RunEvent::ListSaved { ok: false },
    ]);
    assert_eq!(
        notices,
        vec![
            Notice::Parsed { verbose: false },
            Notice::CheckingCache,
            Notice::CacheExpired,
            Notice::Fetching,
            Notice::CacheSaveSuccess,
            Notice::Success,
            Notice::MirrorsFound,
            Notice::MirrorlistSaveFailure,
        ]
    );
    assert_eq!(action, RunAction::Finish { ok: true });
    assert_eq!(state.phase, Phase::Finished { ok: true });
}

#[test]
fn usable_cache_is_ranked_without_fetching() {
    let (_, notices, action) = drive(&[
        parsed(true, 300, false),
        RunEvent::CacheAge(Some(TimeSpan { secs: 10, nanos: 0 })),
        RunEvent::CacheLoaded { usable: true },
        RunEvent::Ranked { found: false },
    ]);
    assert_eq!(
        notices,
        vec![Notice::Parsed { verbose: false }, Notice::CheckingCache, Notice::Success, Notice::NoMirrorsFound]
    );
    assert_eq!(action, RunAction::Finish { ok: true });
}

#[test]
fn zero_ttl_skips_the_cache_but_still_saves_it() {
    let (_, notices, action) = drive(&[parsed(true, 0, false), RunEvent::Fetched]);
    assert_eq!(notices, vec![Notice::Parsed { verbose: false }, Notice::Fetching]);
    assert_eq!(action, RunAction::SaveCache);
}

#[test]
fn failures_stop_before_the_list_is_reported() {
    let (_, notices, action) = drive(&[RunEvent::ParseFailed]);
    assert_eq!(notices, vec![Notice::ParseError]);
    assert_eq!(action, RunAction::Finish { ok: false });
    let (_, notices, action) = drive(&[
        parsed(true, 300, false),
        RunEvent::CacheUnavailable,
        RunEvent::FetchFailed,
    ]);
    assert_eq!(notices, vec![Notice::Parsed { verbose: false }, Notice::CheckingCache, Notice::Fetching, Notice::FetchFailure]);
    assert_eq!(action, RunAction::Finish { ok: false });
    assert!(!notices.contains(&Notice::Success));
}

#[test]
fn unexpected_event_changes_nothing() {
    let (state, notices, action) = drive(&[parsed(false, 300, false), RunEvent::Ranked { found: true }]);
    assert_eq!(notices, vec![Notice::Parsed { verbose: false }, Notice::Fetching]);
    assert_eq!(action, RunAction::Fetch);
    assert_eq!(state.phase, Phase::Fetching);
    let (_, ns, a) = run_step(state, RunEvent::CacheReadFailed);
    assert!(ns.is_empty());
    assert_eq!(a, RunAction::Fetch);
}
